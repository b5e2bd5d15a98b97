//! The iteration budget and the controller that retunes it after every render, so that the
//! next render takes about as long as the user asked for.

use vstd::prelude::*;
use vstd::arithmetic::power2::{pow2, lemma2_to64, lemma_pow2_strictly_increases};
use vstd::arithmetic::div_mod::{lemma_fundamental_div_mod, lemma_fundamental_div_mod_converse_div};
use vstd::bits::{lemma_u64_pow2_no_overflow, lemma_u64_shl_is_mul};

verus! {

/// The smallest budget that the controller hands out.
pub const MIN_BUDGET: usize = 8;

/// The budget of the first render.
pub const INITIAL_BUDGET: usize = 25;

/// The smallest ceiling exponent: the ceiling is never under `2^3`.
pub const MIN_CAP: u32 = 3;

/// The shortest target duration, which is also the first: half a second, in nanoseconds.
pub const MIN_TARGET: u64 = 500_000_000;

/// The step by which the user moves the target duration: one second, in nanoseconds.
pub const TARGET_STEP: u64 = 1_000_000_000;

/// `a / b` rounded to the nearest whole number, halves upwards.
pub open spec fn rounded_quotient(a: int, b: int) -> int {
    (2 * a + b) / (2 * b)
}

/// The budget scaled by how the target duration stands to the measured one. A render that took
/// no measurable time says nothing, and leaves the budget as it is.
pub open spec fn scaled_budget(budget: int, target: int, measured: int) -> int {
    if measured == 0 {
        budget
    } else {
        rounded_quotient(budget * target, measured)
    }
}

/// A value kept between a lower and an upper limit.
pub open spec fn clamped(x: int, low: int, high: int) -> int {
    if x < low {
        low
    } else if x > high {
        high
    } else {
        x
    }
}

/// The budget after a render: scaled, then kept between 8 and the ceiling `2^cap`.
pub open spec fn adjusted_budget(budget: int, target: int, measured: int, cap: nat) -> int {
    clamped(scaled_budget(budget, target, measured), MIN_BUDGET as int, pow2(cap) as int)
}

/// A number as far as a `usize` holds it.
pub open spec fn saturated(x: int) -> int {
    if x > usize::MAX {
        usize::MAX as int
    } else {
        x
    }
}

/// Whatever a render took, the adjusted budget lies between 8 and the ceiling.
pub proof fn lemma_adjusted_budget_in_range(budget: int, target: int, measured: int, cap: nat)
    requires
        cap >= MIN_CAP,
    ensures
        MIN_BUDGET <= adjusted_budget(budget, target, measured, cap) <= pow2(cap),
        MIN_BUDGET <= saturated(adjusted_budget(budget, target, measured, cap)) <= pow2(cap),
{
    lemma2_to64();
    if cap > 3 {
        lemma_pow2_strictly_increases(3, cap);
    }
}

/// `a / b` rounded to the nearest whole number, halves upwards.
fn rounded_division(a: u128, b: u128) -> (q: u128)
    requires
        b > 0,
        a / b < u128::MAX,
    ensures
        q == rounded_quotient(a as int, b as int),
{
    let whole = a / b;
    let rest = a % b;
    proof {
        lemma_fundamental_div_mod(a as int, b as int);
        if rest >= b - rest {
            assert(2 * a + b == (whole + 1) * (2 * b) + (2 * rest - b)) by (nonlinear_arith)
                requires
                    a == b * whole + rest,
            ;
            lemma_fundamental_div_mod_converse_div(2 * a + b, 2 * b, whole + 1, 2 * rest - b);
        } else {
            assert(2 * a + b == whole * (2 * b) + (2 * rest + b)) by (nonlinear_arith)
                requires
                    a == b * whole + rest,
            ;
            lemma_fundamental_div_mod_converse_div(2 * a + b, 2 * b, whole as int, 2 * rest + b);
        }
    }
    if rest >= b - rest {
        whole + 1
    } else {
        whole
    }
}

/// The budget for the next render, from the budget of the last one, the target duration, the
/// duration measured (both in one unit) and the ceiling exponent: the adjusted budget, as far as
/// a `usize` holds it.
pub fn next_budget(budget: usize, target: u64, measured: u64, cap: u32) -> (next: usize)
    requires
        cap >= MIN_CAP,
    ensures
        next == saturated(adjusted_budget(budget as int, target as int, measured as int, cap as nat)),
{
    let scaled: u128 = if measured == 0 {
        budget as u128
    } else {
        assert(budget * target <= 0xFFFF_FFFF_FFFF_FFFF * 0xFFFF_FFFF_FFFF_FFFF) by (nonlinear_arith)
            requires
                budget <= 0xFFFF_FFFF_FFFF_FFFF,
                target <= 0xFFFF_FFFF_FFFF_FFFF,
        ;
        let product: u128 = budget as u128 * target as u128;
        assert(product / (measured as u128) <= product) by (nonlinear_arith)
            requires
                measured > 0,
        ;
        rounded_division(product, measured as u128)
    };
    proof {
        lemma2_to64();
        lemma_pow2_strictly_increases(3, cap as nat + 1);
    }
    if cap < 64 {
        proof {
            lemma_u64_pow2_no_overflow(cap as nat);
            lemma_u64_shl_is_mul(1, cap as u64);
        }
        let ceiling: u64 = 1u64 << (cap as u64);
        if scaled < 8 {
            8
        } else if scaled > ceiling as u128 {
            if ceiling > usize::MAX as u64 {
                usize::MAX
            } else {
                ceiling as usize
            }
        } else if scaled > usize::MAX as u128 {
            usize::MAX
        } else {
            scaled as usize
        }
    } else {
        proof {
            if cap > 64 {
                lemma_pow2_strictly_increases(64, cap as nat);
            }
        }
        if scaled < 8 {
            8
        } else if scaled > usize::MAX as u128 {
            usize::MAX
        } else {
            scaled as usize
        }
    }
}

/// Where the controller stands between two renders or within one.
#[derive(Clone, Copy, Debug, PartialEq, Eq, Structural)]
pub enum Phase {
    /// Ready for a render request; the view may be moved.
    Idle,
    /// A render is in flight; the view must stay as it is.
    Rendering,
}

/// What to do with the pan and zoom input that has come in.
#[derive(Clone, Copy, Debug, PartialEq, Eq, Structural)]
pub enum InputDecision {
    /// Move the view by it.
    Apply,
    /// Drop it.
    Discard,
}

/// All that a controller holds.
pub struct ControllerState {
    /// Idle, or rendering.
    pub phase: Phase,
    /// The budget for the next render, or for the one in flight.
    pub budget: usize,
    /// The duration that a render should take, in nanoseconds.
    pub target: u64,
    /// The ceiling exponent: budgets are adjusted to at most `2^cap`.
    pub cap: u32,
    /// The duration of the last render that was completed, in nanoseconds.
    pub last_render: Option<u64>,
    /// Whether input is still pending from before the last render ended.
    pub stale_input: bool,
}

impl ControllerState {
    /// What holds of every controller: the limits on its settings and on its budget.
    pub open spec fn valid(self) -> bool {
        &&& self.budget >= MIN_BUDGET
        &&& self.target >= MIN_TARGET
        &&& self.cap >= MIN_CAP
    }

    /// The state of a new controller.
    pub open spec fn initial() -> ControllerState {
        ControllerState {
            phase: Phase::Idle,
            budget: INITIAL_BUDGET,
            target: MIN_TARGET,
            cap: MIN_CAP,
            last_render: None,
            stale_input: false,
        }
    }

    /// The budget that the last measured render calls for; with no render measured, the
    /// budget as it is.
    pub open spec fn adjusted(self) -> int {
        match self.last_render {
            Some(measured) => saturated(
                adjusted_budget(
                    self.budget as int,
                    self.target as int,
                    measured as int,
                    self.cap as nat,
                ),
            ),
            None => self.budget as int,
        }
    }
}

/// The two-state controller of the render cycle. It owns the iteration budget, the target
/// duration and the ceiling, says whether the view may be moved, and retunes the budget each
/// time a render completes.
pub struct IterationBudgetController {
    phase: Phase,
    budget: usize,
    target: u64,
    cap: u32,
    last_render: Option<u64>,
    stale_input: bool,
}

impl View for IterationBudgetController {
    type V = ControllerState;

    closed spec fn view(&self) -> ControllerState {
        ControllerState {
            phase: self.phase,
            budget: self.budget,
            target: self.target,
            cap: self.cap,
            last_render: self.last_render,
            stale_input: self.stale_input,
        }
    }
}

impl Default for IterationBudgetController {
    /// A controller at rest, as [`IterationBudgetController::new`] makes it.
    fn default() -> (controller: Self)
        ensures
            controller@ == ControllerState::initial(),
    {
        IterationBudgetController::new()
    }
}

impl IterationBudgetController {
    #[verifier::type_invariant]
    spec fn within_limits(self) -> bool {
        self@.valid()
    }

    /// A controller at rest, with the first budget, the shortest target and the lowest ceiling.
    pub fn new() -> (controller: Self)
        ensures
            controller@ == ControllerState::initial(),
    {
        IterationBudgetController {
            phase: Phase::Idle,
            budget: INITIAL_BUDGET,
            target: MIN_TARGET,
            cap: MIN_CAP,
            last_render: None,
            stale_input: false,
        }
    }

    /// Idle, or rendering.
    pub fn phase(&self) -> (phase: Phase)
        ensures
            phase == self@.phase,
    {
        self.phase
    }

    /// The budget for the next render, or for the one in flight; never under 8.
    pub fn budget(&self) -> (budget: usize)
        ensures
            budget == self@.budget,
            budget >= MIN_BUDGET,
    {
        proof {
            use_type_invariant(self);
        }
        self.budget
    }

    /// The target duration in nanoseconds; never under half a second.
    pub fn target(&self) -> (target: u64)
        ensures
            target == self@.target,
            target >= MIN_TARGET,
    {
        proof {
            use_type_invariant(self);
        }
        self.target
    }

    /// The ceiling exponent; never under 3.
    pub fn cap(&self) -> (cap: u32)
        ensures
            cap == self@.cap,
            cap >= MIN_CAP,
    {
        proof {
            use_type_invariant(self);
        }
        self.cap
    }

    /// The duration of the last completed render in nanoseconds, if there was one.
    pub fn last_render(&self) -> (last: Option<u64>)
        ensures
            last == self@.last_render,
    {
        self.last_render
    }

    /// Asks for a render. At rest the controller starts rendering and hands out the budget to
    /// render with; while a render is in flight it refuses and nothing changes.
    pub fn request_render(&mut self) -> (granted: Option<usize>)
        ensures
            final(self)@.valid(),
            old(self)@.phase == Phase::Idle ==> granted == Some(old(self)@.budget) && final(self)@
                == (ControllerState { phase: Phase::Rendering, ..old(self)@ }),
            old(self)@.phase == Phase::Rendering ==> granted.is_none() && final(self)@ == old(self)@,
    {
        proof {
            use_type_invariant(&*self);
        }
        match self.phase {
            Phase::Idle => {
                self.phase = Phase::Rendering;
                Some(self.budget)
            },
            Phase::Rendering => None,
        }
    }

    /// Retunes the budget by the last measured render: the adjusted budget where a render was
    /// measured, and no change where none was yet.
    pub fn adjust_iterations(&mut self)
        ensures
            final(self)@.valid(),
            final(self)@ == (ControllerState {
                budget: old(self)@.adjusted() as usize,
                ..old(self)@
            }),
            old(self)@.last_render.is_some() ==> final(self)@.budget <= pow2(
                old(self)@.cap as nat,
            ),
    {
        proof {
            use_type_invariant(&*self);
        }
        if let Some(measured) = self.last_render {
            proof {
                lemma_adjusted_budget_in_range(
                    self.budget as int,
                    self.target as int,
                    measured as int,
                    self.cap as nat,
                );
            }
            self.budget = next_budget(self.budget, self.target, measured, self.cap);
        }
    }

    /// Reports that the render in flight has returned after `measured` nanoseconds. The
    /// controller records the duration, retunes the budget by it, comes to rest, marks the
    /// input that came in meanwhile as stale, and hands out the new budget. At rest there is
    /// no render to complete: it refuses and nothing changes.
    pub fn complete_render(&mut self, measured: u64) -> (retuned: Option<usize>)
        ensures
            final(self)@.valid(),
            old(self)@.phase == Phase::Rendering ==> {
                let recorded = (ControllerState { last_render: Some(measured), ..old(self)@ });
                &&& final(self)@ == (ControllerState {
                    phase: Phase::Idle,
                    budget: recorded.adjusted() as usize,
                    stale_input: true,
                    ..recorded
                })
                &&& retuned == Some(final(self)@.budget)
                &&& MIN_BUDGET <= final(self)@.budget <= pow2(old(self)@.cap as nat)
            },
            old(self)@.phase == Phase::Idle ==> retuned.is_none() && final(self)@ == old(self)@,
    {
        proof {
            use_type_invariant(&*self);
        }
        match self.phase {
            Phase::Idle => None,
            Phase::Rendering => {
                self.last_render = Some(measured);
                self.adjust_iterations();
                self.phase = Phase::Idle;
                self.stale_input = true;
                Some(self.budget)
            },
        }
    }

    /// Decides on the pan and zoom input of the moment. While a render is in flight it is
    /// dropped. The first input looked at after a render is stale, since it was made against
    /// the picture before: it is dropped too, and with that the mark is cleared. Any other
    /// input is to be applied.
    pub fn poll_input(&mut self) -> (decision: InputDecision)
        ensures
            final(self)@.valid(),
            old(self)@.phase == Phase::Rendering ==> decision == InputDecision::Discard && final(self)@ == old(self)@,
            old(self)@.phase == Phase::Idle && old(self)@.stale_input ==> decision
                == InputDecision::Discard && final(self)@ == (ControllerState {
                stale_input: false,
                ..old(self)@
            }),
            old(self)@.phase == Phase::Idle && !old(self)@.stale_input ==> decision
                == InputDecision::Apply && final(self)@ == old(self)@,
    {
        proof {
            use_type_invariant(&*self);
        }
        match self.phase {
            Phase::Rendering => InputDecision::Discard,
            Phase::Idle => {
                if self.stale_input {
                    self.stale_input = false;
                    InputDecision::Discard
                } else {
                    InputDecision::Apply
                }
            },
        }
    }

    /// Lengthens the target duration by one second, unless the result would not fit.
    pub fn raise_target(&mut self)
        ensures
            final(self)@.valid(),
            final(self)@ == (ControllerState {
                target: if old(self)@.target + TARGET_STEP <= u64::MAX {
                    (old(self)@.target + TARGET_STEP) as u64
                } else {
                    old(self)@.target
                },
                ..old(self)@
            }),
    {
        proof {
            use_type_invariant(&*self);
        }
        if self.target <= u64::MAX - TARGET_STEP {
            self.target = self.target + TARGET_STEP;
        }
    }

    /// Shortens the target duration by one second, but not to under half a second.
    pub fn lower_target(&mut self)
        ensures
            final(self)@.valid(),
            final(self)@ == (ControllerState {
                target: if old(self)@.target - TARGET_STEP >= MIN_TARGET {
                    (old(self)@.target - TARGET_STEP) as u64
                } else {
                    MIN_TARGET
                },
                ..old(self)@
            }),
    {
        proof {
            use_type_invariant(&*self);
        }
        if self.target >= TARGET_STEP + MIN_TARGET {
            self.target = self.target - TARGET_STEP;
        } else {
            self.target = MIN_TARGET;
        }
    }

    /// Doubles the ceiling by raising its exponent by one, unless the result would not fit.
    pub fn raise_cap(&mut self)
        ensures
            final(self)@.valid(),
            final(self)@ == (ControllerState {
                cap: if old(self)@.cap < u32::MAX {
                    (old(self)@.cap + 1) as u32
                } else {
                    old(self)@.cap
                },
                ..old(self)@
            }),
    {
        proof {
            use_type_invariant(&*self);
        }
        if self.cap < u32::MAX {
            self.cap = self.cap + 1;
        }
    }

    /// Halves the ceiling by lowering its exponent by one, but not to under 3.
    pub fn lower_cap(&mut self)
        ensures
            final(self)@.valid(),
            final(self)@ == (ControllerState {
                cap: if old(self)@.cap > MIN_CAP {
                    (old(self)@.cap - 1) as u32
                } else {
                    MIN_CAP
                },
                ..old(self)@
            }),
    {
        proof {
            use_type_invariant(&*self);
        }
        if self.cap > MIN_CAP {
            self.cap = self.cap - 1;
        }
    }
}

} // verus!
