//! Natural numbers of any size, kept as 32-bit limbs, for exact comparisons of large powers.

use vstd::prelude::*;
use vstd::arithmetic::power::pow;

verus! {

/// The radix of a limb: `2^32`.
pub open spec fn radix() -> nat {
    0x1_0000_0000
}

/// The weight of the limb at place `i`: `radix^i`.
pub open spec fn weight(i: nat) -> nat
    decreases i,
{
    if i == 0 {
        1
    } else {
        radix() * weight((i - 1) as nat)
    }
}

/// The number that limbs stand for, least significant limb first.
pub open spec fn limbs_value(limbs: Seq<u32>) -> nat
    decreases limbs.len(),
{
    if limbs.len() == 0 {
        0
    } else {
        limbs_value(limbs.drop_last()) + limbs.last() as nat * weight((limbs.len() - 1) as nat)
    }
}

/// The largest factor that [`Natural::times`] takes: `2^96 - 1`.
pub const MAX_FACTOR: u128 = 0xFFFF_FFFF_FFFF_FFFF_FFFF_FFFF;

/// Weights are positive.
pub proof fn lemma_weight_positive(i: nat)
    ensures
        weight(i) > 0,
    decreases i,
{
    if i > 0 {
        lemma_weight_positive((i - 1) as nat);
        assert(radix() * weight((i - 1) as nat) > 0) by (nonlinear_arith)
            requires
                weight((i - 1) as nat) > 0,
                radix() > 0,
        ;
    }
}

/// Weights grow with the place.
pub proof fn lemma_weight_monotonic(i: nat, j: nat)
    requires
        i <= j,
    ensures
        weight(i) <= weight(j),
    decreases j,
{
    if i < j {
        lemma_weight_monotonic(i, (j - 1) as nat);
        lemma_weight_positive((j - 1) as nat);
        assert(weight((j - 1) as nat) <= radix() * weight((j - 1) as nat)) by (nonlinear_arith)
            requires
                radix() >= 1,
        ;
    }
}

/// Appending a limb adds it at the weight of its place.
pub proof fn lemma_value_push(limbs: Seq<u32>, limb: u32)
    ensures
        limbs_value(limbs.push(limb)) == limbs_value(limbs) + limb as nat * weight(limbs.len()),
{
    assert(limbs.push(limb).drop_last() =~= limbs);
}

/// Limbs stand for a number below the weight of the next place.
pub proof fn lemma_value_below_weight(limbs: Seq<u32>)
    ensures
        limbs_value(limbs) < weight(limbs.len()),
    decreases limbs.len(),
{
    if limbs.len() > 0 {
        lemma_value_below_weight(limbs.drop_last());
        let w = weight((limbs.len() - 1) as nat);
        let top = limbs.last() as nat;
        assert(limbs_value(limbs.drop_last()) + top * w < radix() * w) by (nonlinear_arith)
            requires
                limbs_value(limbs.drop_last()) < w,
                top < radix(),
        ;
    }
}

/// Limbs whose last limb is not zero stand for a number of at least that place's weight.
pub proof fn lemma_value_reaches_weight(limbs: Seq<u32>)
    requires
        limbs.len() > 0,
        limbs.last() != 0,
    ensures
        limbs_value(limbs) >= weight((limbs.len() - 1) as nat),
{
    let w = weight((limbs.len() - 1) as nat);
    let top = limbs.last() as nat;
    assert(top * w >= w) by (nonlinear_arith)
        requires
            top >= 1,
    ;
}

/// Of two limb sequences of one length that agree above place `i`, the one with the smaller
/// limb at place `i` stands for the smaller number.
pub proof fn lemma_value_decided_at(a: Seq<u32>, b: Seq<u32>, i: int)
    requires
        a.len() == b.len(),
        0 <= i < a.len(),
        forall|k: int| i < k < a.len() ==> a[k] == b[k],
        a[i] < b[i],
    ensures
        limbs_value(a) < limbs_value(b),
    decreases a.len(),
{
    let w = weight((a.len() - 1) as nat);
    if i == a.len() - 1 {
        lemma_value_below_weight(a.drop_last());
        let x = a.last() as nat;
        let y = b.last() as nat;
        assert(x * w + w <= y * w) by (nonlinear_arith)
            requires
                x < y,
        ;
    } else {
        lemma_value_decided_at(a.drop_last(), b.drop_last(), i);
    }
}

/// A natural number of any size.
pub struct Natural {
    limbs: Vec<u32>,
}

impl View for Natural {
    type V = nat;

    /// The number itself.
    closed spec fn view(&self) -> nat {
        limbs_value(self.limbs@)
    }
}

/// Takes zero limbs off the top, which changes nothing of the number.
fn trim(limbs: &mut Vec<u32>)
    ensures
        limbs_value(final(limbs)@) == limbs_value(old(limbs)@),
        final(limbs)@.len() == 0 || final(limbs)@.last() != 0,
{
    while limbs.len() > 0 && limbs[limbs.len() - 1] == 0
        invariant
            limbs_value(limbs@) == limbs_value(old(limbs)@),
        decreases limbs.len(),
    {
        let ghost before = limbs@;
        limbs.pop();
        assert(limbs@ =~= before.drop_last());
        assert(before.last() as nat * weight((before.len() - 1) as nat) == 0);
    }
}

impl Natural {
    #[verifier::type_invariant]
    spec fn trimmed(self) -> bool {
        self.limbs@.len() == 0 || self.limbs@.last() != 0
    }

    /// The number one.
    pub fn one() -> (n: Natural)
        ensures
            n@ == 1,
    {
        let mut limbs: Vec<u32> = Vec::new();
        limbs.push(1);
        proof {
            lemma_value_push(Seq::<u32>::empty(), 1u32);
            assert(limbs@ =~= Seq::<u32>::empty().push(1u32));
        }
        Natural { limbs }
    }

    /// The product of this number and a factor.
    pub fn times(&self, factor: u128) -> (product: Natural)
        requires
            factor <= MAX_FACTOR,
        ensures
            product@ == self@ * factor,
    {
        let mut out: Vec<u32> = Vec::new();
        let mut carry: u128 = 0;
        let mut i: usize = 0;
        assert(self.limbs@.subrange(0, 0) =~= Seq::<u32>::empty());
        assert(limbs_value(Seq::<u32>::empty()) * factor == 0) by (nonlinear_arith)
            requires
                limbs_value(Seq::<u32>::empty()) == 0,
        ;
        while i < self.limbs.len()
            invariant
                factor <= MAX_FACTOR,
                i <= self.limbs@.len(),
                out@.len() == i,
                carry <= factor,
                limbs_value(out@) + carry * weight(i as nat) == limbs_value(
                    self.limbs@.subrange(0, i as int),
                ) * factor,
            decreases self.limbs@.len() - i,
        {
            let limb = self.limbs[i];
            assert(limb * factor + carry <= radix() * factor) by (nonlinear_arith)
                requires
                    limb < radix(),
                    carry <= factor,
            ;
            let total: u128 = limb as u128 * factor + carry;
            let low: u32 = (total % 0x1_0000_0000) as u32;
            let high: u128 = total / 0x1_0000_0000;
            proof {
                let ghost w = weight(i as nat);
                let ghost prefix = self.limbs@.subrange(0, i as int);
                let ghost longer = self.limbs@.subrange(0, i + 1);
                assert(longer =~= prefix.push(limb));
                lemma_value_push(prefix, limb);
                lemma_value_push(out@, low);
                assert(high <= factor) by (nonlinear_arith)
                    requires
                        total <= radix() * factor,
                        high == total / 0x1_0000_0000,
                ;
                assert(total == high * radix() + low);
                assert(limbs_value(out@) + low * w + high * (radix() * w) == (limbs_value(prefix)
                    + limb * w) * factor) by (nonlinear_arith)
                    requires
                        limbs_value(out@) + carry * w == limbs_value(prefix) * factor,
                        limb * factor + carry == high * radix() + low,
                ;
            }
            out.push(low);
            carry = high;
            i = i + 1;
        }
        assert(self.limbs@.subrange(0, i as int) =~= self.limbs@);
        while carry > 0
            invariant
                limbs_value(out@) + carry * weight(out@.len()) == self@ * factor,
            decreases carry,
        {
            let low: u32 = (carry % 0x1_0000_0000) as u32;
            let high: u128 = carry / 0x1_0000_0000;
            proof {
                let ghost w = weight(out@.len());
                lemma_value_push(out@, low);
                assert(carry == high * radix() + low);
                assert(low * w + high * (radix() * w) == carry * w) by (nonlinear_arith)
                    requires
                        carry == high * radix() + low,
                ;
            }
            out.push(low);
            carry = high;
        }
        trim(&mut out);
        Natural { limbs: out }
    }

    /// Whether this number is at most another.
    pub fn le(&self, other: &Natural) -> (at_most: bool)
        ensures
            at_most == (self@ <= other@),
    {
        proof {
            use_type_invariant(self);
            use_type_invariant(other);
        }
        let len = self.limbs.len();
        if len != other.limbs.len() {
            proof {
                lemma_value_below_weight(self.limbs@);
                lemma_value_below_weight(other.limbs@);
                if len < other.limbs@.len() {
                    lemma_value_reaches_weight(other.limbs@);
                    lemma_weight_monotonic(len as nat, (other.limbs@.len() - 1) as nat);
                } else {
                    lemma_value_reaches_weight(self.limbs@);
                    lemma_weight_monotonic(other.limbs@.len(), (len - 1) as nat);
                }
            }
            return len < other.limbs.len();
        }
        let mut i: usize = len;
        while i > 0
            invariant
                len == self.limbs@.len(),
                len == other.limbs@.len(),
                i <= len,
                forall|k: int| i <= k < len ==> self.limbs@[k] == other.limbs@[k],
            decreases i,
        {
            i = i - 1;
            if self.limbs[i] != other.limbs[i] {
                proof {
                    if self.limbs@[i as int] < other.limbs@[i as int] {
                        lemma_value_decided_at(self.limbs@, other.limbs@, i as int);
                    } else {
                        lemma_value_decided_at(other.limbs@, self.limbs@, i as int);
                    }
                }
                return self.limbs[i] < other.limbs[i];
            }
        }
        assert(self.limbs@ =~= other.limbs@);
        true
    }

    /// The power `base^exponent`.
    pub fn power(base: u128, exponent: u32) -> (n: Natural)
        requires
            base <= MAX_FACTOR,
        ensures
            n@ == pow(base as int, exponent as nat),
    {
        let mut n = Natural::one();
        let mut i: u32 = 0;
        proof {
            vstd::arithmetic::power::lemma_pow0(base as int);
        }
        while i < exponent
            invariant
                base <= MAX_FACTOR,
                i <= exponent,
                n@ == pow(base as int, i as nat),
            decreases exponent - i,
        {
            proof {
                lemma_pow_step(base as int, i as nat);
            }
            n = n.times(base);
            i = i + 1;
        }
        n
    }
}

/// One more factor: `b^(e+1) == b^e * b`.
pub proof fn lemma_pow_step(b: int, e: nat)
    ensures
        pow(b, e + 1) == pow(b, e) * b,
{
    vstd::arithmetic::power::lemma_pow_adds(b, e, 1);
    vstd::arithmetic::power::lemma_pow1(b);
}

} // verus!
