//! The palette: from an escape count, and the budget it was counted under, to a colour.
//!
//! Both moving channels are ratios of `count + 1` to `budget + 1`, one of logarithms and one of
//! powers of ten. They are evaluated exactly, in whole numbers, so that no rounding, overflow or
//! undefined quotient can reach a channel.

use vstd::prelude::*;
use vstd::arithmetic::power::{
    pow,
    lemma_pow0,
    lemma_pow_adds,
    lemma_pow_increases,
    lemma_pow_positive,
};
use vstd::arithmetic::div_mod::lemma_div_multiples_vanish_quotient;
use crate::natural::{Natural, MAX_FACTOR, lemma_pow_step};

verus! {

/// One pixel's colour, eight bits a channel.
#[derive(Clone, Copy, Debug, PartialEq, Eq, Structural)]
pub struct Color {
    pub red: u8,
    pub green: u8,
    pub blue: u8,
}

/// The colour of a point whose orbit stayed bounded for the whole budget: a dark teal.
pub open spec fn interior() -> Color {
    Color { red: 0, green: 20, blue: 20 }
}

/// A value brought into the range of a channel.
pub open spec fn channel(x: int) -> int {
    if x < 0 {
        0
    } else if x > 255 {
        255
    } else {
        x
    }
}

/// The green channel of an escaped point: `255 * 10^n / 10^m` rounded down and brought into
/// range, with `n = count + 1` and `m = budget + 1`.
pub open spec fn green_level(count: nat, budget: nat) -> int {
    channel(255 * pow(10, count + 1) / pow(10, budget + 1))
}

/// The largest exponent `e <= limit` with `base^e <= bound`, or 0 where there is none.
pub open spec fn largest_exponent(base: int, bound: int, limit: nat) -> nat
    decreases limit,
{
    if limit == 0 || pow(base, limit) <= bound {
        limit
    } else {
        largest_exponent(base, bound, (limit - 1) as nat)
    }
}

/// The blue channel of an escaped point: `255 * log(n) / log(m)` rounded down and brought into
/// range, with `n = count + 1` and `m = budget + 1`. A whole number `b` is at most that quotient
/// exactly when `m^b <= n^255`, so the channel is the largest such `b` up to 255.
pub open spec fn blue_level(count: nat, budget: nat) -> int {
    largest_exponent((budget + 1) as int, pow((count + 1) as int, 255), 255) as int
}

/// The colour of a point that took `count` steps under a budget of `budget` steps.
pub open spec fn palette(count: nat, budget: nat) -> Color {
    if count == budget {
        interior()
    } else {
        Color {
            red: 100,
            green: green_level(count, budget) as u8,
            blue: blue_level(count, budget) as u8,
        }
    }
}

/// `largest_exponent` is what its name says: within the limit, its power is within the bound
/// (where any power is), and every larger exponent's power is beyond it.
pub proof fn lemma_largest_exponent(base: int, bound: int, limit: nat)
    ensures
        largest_exponent(base, bound, limit) <= limit,
        largest_exponent(base, bound, limit) > 0 ==> pow(
            base,
            largest_exponent(base, bound, limit),
        ) <= bound,
        forall|e: nat|
            largest_exponent(base, bound, limit) < e <= limit ==> #[trigger] pow(base, e) > bound,
    decreases limit,
{
    if !(limit == 0 || pow(base, limit) <= bound) {
        lemma_largest_exponent(base, bound, (limit - 1) as nat);
    }
}

/// An exponent whose power is within the bound while the next one's is beyond it is the largest.
pub proof fn lemma_largest_exponent_found(base: int, bound: int, e: nat, limit: nat)
    requires
        base >= 1,
        e <= limit,
        pow(base, e) <= bound,
        e < limit ==> pow(base, e + 1) > bound,
    ensures
        largest_exponent(base, bound, limit) == e,
    decreases limit,
{
    if limit > e {
        lemma_pow_increases(base as nat, e + 1, limit);
        lemma_largest_exponent_found(base, bound, e, (limit - 1) as nat);
    }
}

/// Powers with one exponent grow with the base.
pub proof fn lemma_pow_base_increases(a: int, b: int, e: nat)
    requires
        0 <= a <= b,
    ensures
        0 <= pow(a, e) <= pow(b, e),
    decreases e,
{
    if e == 0 {
        lemma_pow0(a);
        lemma_pow0(b);
    } else {
        lemma_pow_base_increases(a, b, (e - 1) as nat);
        lemma_pow_step(a, (e - 1) as nat);
        lemma_pow_step(b, (e - 1) as nat);
        let x = pow(a, (e - 1) as nat);
        let y = pow(b, (e - 1) as nat);
        assert(0 <= x * a <= y * b) by (nonlinear_arith)
            requires
                0 <= x <= y,
                0 <= a <= b,
        ;
    }
}

/// The first powers of ten.
pub proof fn lemma_powers_of_ten()
    ensures
        pow(10, 0) == 1,
        pow(10, 1) == 10,
        pow(10, 2) == 100,
        pow(10, 3) == 1000,
{
    lemma_pow0(10);
    lemma_pow_step(10, 0);
    lemma_pow_step(10, 1);
    lemma_pow_step(10, 2);
}

/// Below the budget the green channel depends on the distance to it alone: it is
/// `255 / 10^(budget - count)`, which is 25 one step below, 2 two steps below and 0 further down.
pub proof fn lemma_green_below_budget(count: nat, budget: nat)
    requires
        count < budget,
    ensures
        green_level(count, budget) == 255int / pow(10, (budget - count) as nat),
        budget - count == 1 ==> green_level(count, budget) == 25,
        budget - count == 2 ==> green_level(count, budget) == 2,
        budget - count >= 3 ==> green_level(count, budget) == 0,
{
    let d = (budget - count) as nat;
    let low = pow(10, count + 1);
    let gap = pow(10, d);
    lemma_pow_adds(10, count + 1, d);
    lemma_pow_positive(10, count + 1);
    lemma_pow_positive(10, d);
    lemma_div_multiples_vanish_quotient(low, 255, gap);
    assert(255 * low == low * 255) by (nonlinear_arith);
    lemma_powers_of_ten();
    if d >= 3 {
        lemma_pow_increases(10, 3, d);
        assert(255int / gap == 0) by (nonlinear_arith)
            requires
                gap >= 1000,
        ;
    }
}

/// Above the budget both moving channels are full.
pub proof fn lemma_levels_above_budget(count: nat, budget: nat)
    requires
        count > budget,
    ensures
        green_level(count, budget) == 255,
        blue_level(count, budget) == 255,
{
    let d = (count - budget) as nat;
    let low = pow(10, budget + 1);
    let gap = pow(10, d);
    lemma_pow_adds(10, budget + 1, d);
    lemma_pow_positive(10, budget + 1);
    lemma_powers_of_ten();
    lemma_pow_increases(10, 1, d);
    assert((255 * (low * gap)) / low >= 255) by (nonlinear_arith)
        requires
            low > 0,
            gap >= 10,
    ;
    lemma_pow_base_increases((budget + 1) as int, (count + 1) as int, 255);
}

/// The green channel for a count that is `gap >= 1` steps below the budget.
fn green_channel(count: usize, budget: usize) -> (green: u8)
    requires
        count < budget,
    ensures
        green == green_level(count as nat, budget as nat),
{
    proof {
        lemma_green_below_budget(count as nat, budget as nat);
    }
    let gap = budget - count;
    if gap == 1 {
        25
    } else if gap == 2 {
        2
    } else {
        0
    }
}

/// The blue channel for `n = count + 1` and `m = budget + 1`.
fn blue_channel(n: u128, m: u128) -> (blue: u8)
    requires
        1 <= n <= MAX_FACTOR,
        1 <= m <= MAX_FACTOR,
    ensures
        blue == largest_exponent(m as int, pow(n as int, 255), 255),
{
    let bound = Natural::power(n, 255);
    let mut reached = Natural::one();
    let mut blue: u8 = 0;
    proof {
        lemma_pow0(m as int);
        lemma_pow_positive(n as int, 255);
    }
    while blue < 255
        invariant
            1 <= m <= MAX_FACTOR,
            bound@ == pow(n as int, 255),
            reached@ == pow(m as int, blue as nat),
            reached@ <= bound@,
        ensures
            reached@ == pow(m as int, blue as nat),
            reached@ <= bound@,
            blue < 255 ==> pow(m as int, (blue + 1) as nat) > bound@,
        decreases 255 - blue,
    {
        let next = reached.times(m);
        proof {
            lemma_pow_step(m as int, blue as nat);
        }
        if !next.le(&bound) {
            break;
        }
        reached = next;
        blue = blue + 1;
    }
    proof {
        lemma_largest_exponent_found(m as int, pow(n as int, 255), blue as nat, 255);
    }
    blue
}

/// The colour of a point that took `count` steps under a budget of `budget` steps: the interior
/// colour where the count is the budget, and otherwise red 100 with the two moving channels.
pub fn color_for(count: usize, budget: usize) -> (color: Color)
    ensures
        color == palette(count as nat, budget as nat),
{
    if count == budget {
        Color { red: 0, green: 20, blue: 20 }
    } else if count > budget {
        proof {
            lemma_levels_above_budget(count as nat, budget as nat);
        }
        Color { red: 100, green: 255, blue: 255 }
    } else {
        let green = green_channel(count, budget);
        let blue = blue_channel(count as u128 + 1, budget as u128 + 1);
        Color { red: 100, green, blue }
    }
}

/// Every channel of the palette is a value from 0 to 255, for any count and budget: the two
/// moving levels lie in that range as numbers, and the escaped colour carries them unchanged.
pub proof fn lemma_palette_in_range(count: nat, budget: nat)
    ensures
        0 <= green_level(count, budget) <= 255,
        0 <= blue_level(count, budget) <= 255,
        count != budget ==> palette(count, budget).red == 100 && palette(count, budget).green
            == green_level(count, budget) && palette(count, budget).blue == blue_level(
            count,
            budget,
        ),
        count == budget ==> palette(count, budget) == interior(),
{
    lemma_largest_exponent((budget + 1) as int, pow((count + 1) as int, 255), 255);
}

/// Below the budget the blue channel is the whole part of `255 * log(n) / log(m)`, with
/// `n = count + 1` and `m = budget + 1`: it is under 255, `m` to its power is at most `n^255`,
/// and `m` to the next power is more.
pub proof fn lemma_blue_below_budget(count: nat, budget: nat)
    requires
        count < budget,
    ensures
        0 <= blue_level(count, budget) < 255,
        pow((budget + 1) as int, blue_level(count, budget) as nat) <= pow((count + 1) as int, 255),
        pow((count + 1) as int, 255) < pow(
            (budget + 1) as int,
            (blue_level(count, budget) + 1) as nat,
        ),
{
    let n = (count + 1) as int;
    let m = (budget + 1) as int;
    let bound = pow(n, 255);
    let b = largest_exponent(m, bound, 255);
    lemma_largest_exponent(m, bound, 255);
    lemma_pow_strictly_above(n, m, 255);
    lemma_pow_positive(n, 255);
    lemma_pow0(m);
    assert(b != 255);
    assert(pow(m, (b + 1) as nat) > bound);
}

/// Powers with one positive exponent grow strictly with the base.
pub proof fn lemma_pow_strictly_above(a: int, b: int, e: nat)
    requires
        0 < a < b,
        e > 0,
    ensures
        pow(a, e) < pow(b, e),
{
    lemma_pow_base_increases(a, b, (e - 1) as nat);
    lemma_pow_positive(a, (e - 1) as nat);
    lemma_pow_step(a, (e - 1) as nat);
    lemma_pow_step(b, (e - 1) as nat);
    let x = pow(a, (e - 1) as nat);
    let y = pow(b, (e - 1) as nat);
    assert(x * a < y * b) by (nonlinear_arith)
        requires
            0 < x <= y,
            0 < a < b,
    ;
}

} // verus!
