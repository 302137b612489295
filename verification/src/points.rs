//! The non-linear cost curve of the point-allocation ledger.
//!
//! Raising an allocatable statistic from zero to `val` costs
//! `cost_from_zero_spec(kind, val)` points: one point per point of vitality,
//! three per point of wisdom, and a convex piecewise-quadratic price for the
//! elemental statistics where every full block of one hundred points costs
//! progressively more (for `val == 100 * q + r` the cost is
//! `(q + 1) * (50 * q + r)`).
//!
//! The lemmas here establish the facts the ledger rests on: the cost is zero
//! at zero, grows at least one-for-one, is monotone, and is convex (the
//! marginal price never drops as the statistic grows).

use vstd::prelude::*;
use vstd::arithmetic::div_mod::{
    lemma_fundamental_div_mod, lemma_fundamental_div_mod_converse, lemma_div_is_ordered,
};

use crate::carac::CaracKindV;

verus! {

/// Whether points can be allocated to this statistic: vitality, wisdom and
/// the elemental statistics only.
pub open spec fn is_allocatable(kind: CaracKindV) -> bool {
    ||| kind is Vitality
    ||| kind is Wisdom
    ||| kind is Stats
}

/// Points needed to raise `kind` from zero to `val`.
pub open spec fn cost_from_zero_spec(kind: CaracKindV, val: int) -> int
    recommends
        is_allocatable(kind),
        0 <= val,
{
    match kind {
        CaracKindV::Vitality => val,
        CaracKindV::Wisdom => 3 * val,
        CaracKindV::Stats(_) => (val / 100 + 1) * (50 * (val / 100) + val % 100),
        _ => 0,
    }
}

/// Price of the next single point of `kind` when `val` points are already
/// allocated.
pub open spec fn marginal_cost_spec(kind: CaracKindV, val: int) -> int
    recommends
        is_allocatable(kind),
        0 <= val,
{
    match kind {
        CaracKindV::Vitality => 1,
        CaracKindV::Wisdom => 3,
        CaracKindV::Stats(_) => val / 100 + 1,
        _ => 0,
    }
}

/// The cost curve grows by exactly the marginal price at each step.
pub proof fn lemma_cost_step(kind: CaracKindV, val: int)
    requires
        is_allocatable(kind),
        0 <= val,
    ensures
        cost_from_zero_spec(kind, val + 1) == cost_from_zero_spec(kind, val) + marginal_cost_spec(
            kind,
            val,
        ),
{
    if kind is Stats {
        let q = val / 100;
        let r = val % 100;
        lemma_fundamental_div_mod(val, 100);
        assert(0 <= r < 100);
        assert(0 <= q) by (nonlinear_arith)
            requires
                val == 100 * q + r,
                0 <= val,
                0 <= r < 100,
        ;
        if r < 99 {
            lemma_fundamental_div_mod_converse(val + 1, 100, q, r + 1);
            assert((q + 1) * (50 * q + r + 1) == (q + 1) * (50 * q + r) + (q + 1))
                by (nonlinear_arith);
        } else {
            lemma_fundamental_div_mod_converse(val + 1, 100, q + 1, 0);
            assert((q + 2) * (50 * (q + 1) + 0) == (q + 1) * (50 * q + 99) + (q + 1))
                by (nonlinear_arith);
        }
    }
}

/// The marginal price never drops as the statistic grows.
pub proof fn lemma_marginal_monotone(kind: CaracKindV, v1: int, v2: int)
    requires
        is_allocatable(kind),
        0 <= v1 <= v2,
    ensures
        marginal_cost_spec(kind, v1) <= marginal_cost_spec(kind, v2),
{
    if kind is Stats {
        lemma_div_is_ordered(v1, v2, 100);
    }
}

/// Each point of an allocatable statistic costs at least one point of the
/// pool: the cost gap between two values is at least their distance.
pub proof fn lemma_cost_gap(kind: CaracKindV, v1: int, v2: int)
    requires
        is_allocatable(kind),
        0 <= v1 <= v2,
    ensures
        cost_from_zero_spec(kind, v1) + (v2 - v1) <= cost_from_zero_spec(kind, v2),
    decreases v2 - v1,
{
    if v1 < v2 {
        lemma_cost_gap(kind, v1, v2 - 1);
        lemma_cost_step(kind, v2 - 1);
        lemma_marginal_monotone(kind, 0, v2 - 1);
    }
}

/// Law: for every allocatable kind the cost from zero is zero at zero,
/// non-negative, and monotonically non-decreasing in the target value.
pub proof fn lemma_cost_from_zero_properties(kind: CaracKindV, v1: int, v2: int)
    requires
        is_allocatable(kind),
        0 <= v1 <= v2,
    ensures
        cost_from_zero_spec(kind, 0) == 0,
        0 <= cost_from_zero_spec(kind, v1),
        cost_from_zero_spec(kind, v1) <= cost_from_zero_spec(kind, v2),
{
    assert(0int / 100 == 0 && 0int % 100 == 0) by (nonlinear_arith);
    lemma_cost_gap(kind, 0, v1);
    lemma_cost_gap(kind, v1, v2);
}

/// The cost of an increase by `amount` never drops as the base value grows:
/// the cost curve is convex.
pub proof fn lemma_cost_convex(kind: CaracKindV, x1: int, x2: int, amount: int)
    requires
        is_allocatable(kind),
        0 <= x1 <= x2,
        0 <= amount,
    ensures
        cost_from_zero_spec(kind, x1 + amount) - cost_from_zero_spec(kind, x1)
            <= cost_from_zero_spec(kind, x2 + amount) - cost_from_zero_spec(kind, x2),
    decreases amount,
{
    if amount > 0 {
        lemma_cost_convex(kind, x1, x2, amount - 1);
        lemma_cost_step(kind, x1 + amount - 1);
        lemma_cost_step(kind, x2 + amount - 1);
        lemma_marginal_monotone(kind, x1 + amount - 1, x2 + amount - 1);
    }
}

/// Points needed to raise `kind` from zero to `val`, computed exactly in wide
/// integers so that no intermediate product can overflow.
pub(crate) fn cost_from_zero_wide(kind: &crate::carac::CaracKind, val: u32) -> (r: u64)
    requires
        is_allocatable(kind@),
    ensures
        r == cost_from_zero_spec(kind@, val as int),
{
    match kind {
        crate::carac::CaracKind::Vitality => val as u64,
        crate::carac::CaracKind::Wisdom => 3 * (val as u64),
        _ => {
            let q: u64 = (val / 100) as u64;
            let r: u64 = (val % 100) as u64;
            proof {
                assert(q <= 42949672 && r <= 99) by (nonlinear_arith)
                    requires
                        q == val as int / 100,
                        r == val as int % 100,
                        0 <= val <= 4294967295,
                ;
                assert((q + 1) * (50 * q + r) <= 42949673 * 2147483699) by (nonlinear_arith)
                    requires
                        0 <= q <= 42949672,
                        0 <= r <= 99,
                ;
            }
            (q + 1) * (50 * q + r)
        },
    }
}

} // verus!
