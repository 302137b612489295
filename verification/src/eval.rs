//! The legality and penalty evaluation of a build.
//!
//! `all_conditions` merges every equipped record's eligibility condition
//! into one, preserving satisfaction exactly; `condition_overflow_scaled`
//! measures, as a non-negative integer scaled by `WEIGHT_SCALE`, how far the
//! live statistics are from satisfying a condition: per clause the minimum
//! over its atoms, over the whole condition the sum over its clauses.

use vstd::prelude::*;

use crate::carac::{CaracKind, CaracKindV};
use crate::caracs::{
    agg_fn, catalog_lines_wf, derived_fn, get_carac_from, lemma_get_carac_bound, raw_bound,
    sets_lines_wf, slot_set_of, RawCaracs,
};
use crate::character::{
    count_set, count_set_from, first_occurrence, lemma_count_set_bound, set_of_slot, slot_count,
    slots_in_catalog, synergy_contribution, synergy_pairs, synergy_pairs_upto, Character,
    ItemSlotV,
};
use crate::condition::{
    atom_target_bounded, cond_holds, cond_minimal, cond_targets_bounded, cond_wf, int_cmp,
    lemma_cond_targets_bounded, BuildEnv, Condition, ConditionAtom, ConditionAtomV,
};
use crate::equipment::{Equipement, ItemSet};

verus! {

/// Whether the build facts satisfy the condition of every record equipped
/// in the first `upto` slots.
pub open spec fn all_conds_hold_upto(
    env: BuildEnv,
    slots: Seq<ItemSlotV>,
    catalog: Seq<Equipement>,
    upto: int,
) -> bool {
    forall|i: int|
        0 <= i < upto ==> match (#[trigger] slots[i]).item {
            Some(idx) => cond_holds(env, catalog[idx].conditions@),
            None => true,
        }
}

/// Whether the build facts satisfy the condition of every equipped record.
pub open spec fn all_conds_hold(
    env: BuildEnv,
    slots: Seq<ItemSlotV>,
    catalog: Seq<Equipement>,
) -> bool {
    all_conds_hold_upto(env, slots, catalog, slots.len() as int)
}

/// The condition of every catalog record is well-formed.
pub open spec fn catalog_conds_wf(catalog: Seq<Equipement>) -> bool {
    forall|i: int| 0 <= i < catalog.len() ==> cond_wf((#[trigger] catalog[i]).conditions@)
}

impl Character {
    /// One condition equivalent to the conjunction of every equipped
    /// record's condition: a build satisfies it exactly when it satisfies
    /// each of them.
    pub fn all_conditions(&self, catalog: &Vec<Equipement>) -> (r: Condition)
        requires
            slots_in_catalog(self.slots_view(), catalog@),
            catalog_conds_wf(catalog@),
        ensures
            cond_wf(r@),
            cond_minimal(r@),
            forall|env: BuildEnv|
                #[trigger] cond_holds(env, r@) <==> all_conds_hold(
                    env,
                    self.slots_view(),
                    catalog@,
                ),
    {
        let ghost sv = self.slots_view();
        let ghost cv = catalog@;
        let mut acc = Condition::new();
        let slots = self.slots();
        let n = slots.len();
        let mut i: usize = 0;
        proof {
            assert forall|env: BuildEnv| #[trigger]
                cond_holds(env, acc@) <==> all_conds_hold_upto(env, sv, cv, 0) by {}
        }
        while i < n
            invariant
                0 <= i <= n,
                n == slots@.len(),
                slots@.map_values(|s: crate::character::ItemSlot| s@) == sv,
                sv == self.slots_view(),
                cv == catalog@,
                slots_in_catalog(sv, cv),
                catalog_conds_wf(cv),
                cond_wf(acc@),
                cond_minimal(acc@),
                forall|env: BuildEnv|
                    #[trigger] cond_holds(env, acc@) <==> all_conds_hold_upto(
                        env,
                        sv,
                        cv,
                        i as int,
                    ),
            decreases n - i,
        {
            proof {
                assert(slots@[i as int]@ == sv[i as int]);
            }
            match slots[i].get_item() {
                Some(idx) => {
                    let ghost accv = acc@;
                    acc = Condition::and(acc, catalog[idx].conditions.clone());
                    proof {
                        assert forall|env: BuildEnv| #[trigger]
                            cond_holds(env, acc@) <==> all_conds_hold_upto(
                            env,
                            sv,
                            cv,
                            i + 1,
                        ) by {
                            assert(cond_holds(env, acc@) <==> (cond_holds(env, accv)
                                && cond_holds(env, cv[idx as int].conditions@)));
                            if cond_holds(env, acc@) {
                                assert forall|b: int|
                                    0 <= b < i + 1 implies match (#[trigger] sv[b]).item {
                                    Some(bi) => cond_holds(env, cv[bi].conditions@),
                                    None => true,
                                } by {}
                            }
                            if all_conds_hold_upto(env, sv, cv, i + 1) {
                                assert(all_conds_hold_upto(env, sv, cv, i as int));
                                assert(sv[i as int].item == Some(idx as int));
                                assert(cond_holds(env, cv[idx as int].conditions@));
                            }
                        }
                    }
                },
                None => {
                    proof {
                        assert forall|env: BuildEnv| #[trigger]
                            cond_holds(env, acc@) <==> all_conds_hold_upto(
                            env,
                            sv,
                            cv,
                            i + 1,
                        ) by {
                            if all_conds_hold_upto(env, sv, cv, i as int) {
                                assert forall|b: int|
                                    0 <= b < i + 1 implies match (#[trigger] sv[b]).item {
                                    Some(bi) => cond_holds(env, cv[bi].conditions@),
                                    None => true,
                                } by {}
                            }
                        }
                    }
                },
            }
            i = i + 1;
        }
        acc
    }
}

/// The synergy-pair total is bounded by the square of the slot count.
proof fn lemma_synergy_pairs_bound(
    slots: Seq<ItemSlotV>,
    catalog: Seq<Equipement>,
    upto: int,
)
    requires
        0 <= upto <= slots.len(),
    ensures
        0 <= synergy_pairs_upto(slots, catalog, upto) <= upto * slots.len(),
    decreases upto,
{
    if upto > 0 {
        lemma_synergy_pairs_bound(slots, catalog, upto - 1);
        match set_of_slot(slots, catalog, upto - 1) {
            Some(sid) => {
                lemma_count_set_bound(slots, catalog, sid, 0);
            },
            None => {},
        }
        assert((upto - 1) * slots.len() + slots.len() == upto * slots.len()) by (nonlinear_arith);
    }
}

/// The number of active set-bonus synergy pairs of a build.
pub(crate) fn count_synergy_pairs(c: &Character, catalog: &Vec<Equipement>) -> (r: u64)
    requires
        slots_in_catalog(c.slots_view(), catalog@),
        c.slots_view().len() == slot_count(),
    ensures
        r as int == synergy_pairs(c.slots_view(), catalog@),
        r <= 256,
{
    let ghost sv = c.slots_view();
    let ghost cv = catalog@;
    let n = c.slot_len();
    let mut acc: u64 = 0;
    let mut i: usize = 0;
    while i < n
        invariant
            0 <= i <= n,
            n == sv.len() == slot_count(),
            sv == c.slots_view(),
            cv == catalog@,
            slots_in_catalog(sv, cv),
            acc as int == synergy_pairs_upto(sv, cv, i as int),
            acc <= 256,
        decreases n - i,
    {
        proof {
            lemma_synergy_pairs_bound(sv, cv, i + 1);
        }
        match slot_set_of(c, catalog, i) {
            Some(sid) => {
                let mut j: usize = 0;
                let mut first = true;
                while j < i
                    invariant
                        0 <= j <= i < n,
                        n == sv.len(),
                        sv == c.slots_view(),
                        cv == catalog@,
                        slots_in_catalog(sv, cv),
                        set_of_slot(sv, cv, i as int) == Some(sid),
                        first <==> (forall|j2: int|
                            0 <= j2 < j ==> set_of_slot(sv, cv, j2) != Some(sid)),
                    decreases i - j,
                {
                    match slot_set_of(c, catalog, j) {
                        Some(other) => {
                            if other == sid {
                                first = false;
                            }
                        },
                        None => {},
                    }
                    j = j + 1;
                }
                if first {
                    let mut k2: usize = 0;
                    let mut cnt: u64 = 0;
                    while k2 < n
                        invariant
                            0 <= k2 <= n,
                            n == sv.len() == slot_count(),
                            sv == c.slots_view(),
                            cv == catalog@,
                            slots_in_catalog(sv, cv),
                            cnt as int + count_set_from(sv, cv, sid, k2 as int) == count_set(
                                sv,
                                cv,
                                sid,
                            ),
                            cnt as int <= k2,
                        decreases n - k2,
                    {
                        match slot_set_of(c, catalog, k2) {
                            Some(other) => {
                                if other == sid {
                                    cnt = cnt + 1;
                                }
                            },
                            None => {},
                        }
                        k2 = k2 + 1;
                    }
                    proof {
                        assert(count_set_from(sv, cv, sid, n as int) == 0);
                        assert(cnt as int == count_set(sv, cv, sid));
                        assert(first_occurrence(sv, cv, i as int));
                        lemma_count_set_bound(sv, cv, sid, 0);
                    }
                    if cnt > 1 {
                        acc = acc + cnt;
                    }
                    proof {
                        assert(synergy_pairs_upto(sv, cv, i + 1) == synergy_pairs_upto(
                            sv,
                            cv,
                            i as int,
                        ) + synergy_contribution(sv, cv, i as int));
                    }
                } else {
                    proof {
                        assert(!first_occurrence(sv, cv, i as int));
                        assert(synergy_contribution(sv, cv, i as int) == 0);
                    }
                }
            },
            None => {
                proof {
                    assert(synergy_contribution(sv, cv, i as int) == 0);
                }
            },
        }
        i = i + 1;
    }
    acc
}

/// How far the build is from satisfying one atom, scaled by `WEIGHT_SCALE`:
/// zero when the atom already holds; otherwise the distance to the
/// threshold, plus one, weighted by the statistic's relative weight. A
/// set-bonus restriction charges the action-point weight per synergy pair
/// beyond two; an opaque atom charges nothing.
pub open spec fn atom_overflow(
    caracs: spec_fn(CaracKindV) -> int,
    pairs: int,
    atom: ConditionAtomV,
) -> int {
    match atom {
        ConditionAtomV::Stats(kind, ord, target) => {
            let cur = caracs(kind);
            if int_cmp(cur, target) == ord {
                0
            } else {
                kind.weight_scaled() * (if cur >= target {
                    cur - target + 1
                } else {
                    target - cur + 1
                })
            }
        },
        ConditionAtomV::RestrictSetBonuses => if pairs > 2 {
            CaracKindV::AP.weight_scaled() * (pairs - 2)
        } else {
            0
        },
        ConditionAtomV::Other(_) => 0,
    }
}

/// The overflow of one clause: the minimum over its atoms, since one true
/// disjunct satisfies the clause.
pub open spec fn clause_overflow_from(
    caracs: spec_fn(CaracKindV) -> int,
    pairs: int,
    clause: Seq<ConditionAtomV>,
    from: int,
) -> int
    recommends
        0 <= from < clause.len(),
    decreases clause.len() - from,
{
    if from + 1 >= clause.len() {
        atom_overflow(caracs, pairs, clause[from])
    } else {
        let here = atom_overflow(caracs, pairs, clause[from]);
        let rest = clause_overflow_from(caracs, pairs, clause, from + 1);
        if here <= rest {
            here
        } else {
            rest
        }
    }
}

/// The overflow of a whole condition: the sum over its clauses, since every
/// conjunct must hold.
pub open spec fn cond_overflow_from(
    caracs: spec_fn(CaracKindV) -> int,
    pairs: int,
    c: Seq<Seq<ConditionAtomV>>,
    from: int,
) -> int
    decreases c.len() - from,
{
    if from < 0 || from >= c.len() {
        0
    } else {
        clause_overflow_from(caracs, pairs, c[from], 0) + cond_overflow_from(
            caracs,
            pairs,
            c,
            from + 1,
        )
    }
}

/// Every derived statistic is within this bound.
pub open spec fn caracs_bounded(caracs: spec_fn(CaracKindV) -> int) -> bool {
    forall|k: CaracKindV| -8 * raw_bound() <= #[trigger] caracs(k) <= 8 * raw_bound()
}

/// One atom's overflow is non-negative and bounded.
proof fn lemma_atom_overflow_bound(
    caracs: spec_fn(CaracKindV) -> int,
    pairs: int,
    atom: ConditionAtomV,
)
    requires
        caracs_bounded(caracs),
        0 <= pairs <= 256,
        atom_target_bounded(atom),
    ensures
        0 <= atom_overflow(caracs, pairs, atom) <= 0x80_0000_0000,
{
    match atom {
        ConditionAtomV::Stats(kind, ord, target) => {
            let cur = caracs(kind);
            if int_cmp(cur, target) != ord {
                let diff = if cur >= target {
                    cur - target + 1
                } else {
                    target - cur + 1
                };
                assert(-32768 <= target <= 32767);
                assert(0 <= kind.weight_scaled() <= 2000);
                assert(1 <= diff <= 0x1000_0000);
                assert(0 <= kind.weight_scaled() * diff <= 2000 * 0x1000_0000)
                    by (nonlinear_arith)
                    requires
                        0 <= kind.weight_scaled() <= 2000,
                        1 <= diff <= 0x1000_0000,
                ;
                assert(atom_overflow(caracs, pairs, atom) == kind.weight_scaled() * diff);
            }
        },
        ConditionAtomV::RestrictSetBonuses => {
            if pairs > 2 {
                assert(atom_overflow(caracs, pairs, atom) == 2000 * (pairs - 2));
                assert(0 <= 2000 * (pairs - 2) <= 2000 * 254);
            }
        },
        ConditionAtomV::Other(_) => {},
    }
}

/// A clause's overflow is non-negative and bounded.
proof fn lemma_clause_overflow_bound(
    caracs: spec_fn(CaracKindV) -> int,
    pairs: int,
    clause: Seq<ConditionAtomV>,
    from: int,
)
    requires
        caracs_bounded(caracs),
        0 <= pairs <= 256,
        0 <= from < clause.len(),
        forall|j: int| 0 <= j < clause.len() ==> atom_target_bounded(#[trigger] clause[j]),
    ensures
        0 <= clause_overflow_from(caracs, pairs, clause, from) <= 0x80_0000_0000,
    decreases clause.len() - from,
{
    lemma_atom_overflow_bound(caracs, pairs, clause[from]);
    if from + 1 < clause.len() {
        lemma_clause_overflow_bound(caracs, pairs, clause, from + 1);
    }
}

/// A condition's overflow is non-negative and bounded by the clause count.
proof fn lemma_cond_overflow_bound(
    caracs: spec_fn(CaracKindV) -> int,
    pairs: int,
    c: Seq<Seq<ConditionAtomV>>,
    from: int,
)
    requires
        caracs_bounded(caracs),
        0 <= pairs <= 256,
        0 <= from <= c.len(),
        cond_wf(c),
        cond_targets_bounded(c),
    ensures
        0 <= cond_overflow_from(caracs, pairs, c, from) <= (c.len() - from) * 0x80_0000_0000,
    decreases c.len() - from,
{
    if from < c.len() {
        assert(crate::condition::clause_wf(c[from]));
        lemma_clause_overflow_bound(caracs, pairs, c[from], 0);
        lemma_cond_overflow_bound(caracs, pairs, c, from + 1);
        assert((c.len() - from - 1) * 0x80_0000_0000 + 0x80_0000_0000 == (c.len() - from)
            * 0x80_0000_0000) by (nonlinear_arith);
    }
}

/// The three-way comparison of two wide signed values.
fn cmp_i64(a: i64, b: i64) -> (r: core::cmp::Ordering)
    ensures
        r == int_cmp(a as int, b as int),
{
    if a < b {
        core::cmp::Ordering::Less
    } else if a == b {
        core::cmp::Ordering::Equal
    } else {
        core::cmp::Ordering::Greater
    }
}

/// One atom's overflow over a computed statistic table.
fn atom_overflow_exec(rc: &RawCaracs, pairs: u64, atom: &ConditionAtom) -> (r: u64)
    requires
        rc.wf(),
        pairs <= 256,
    ensures
        r as int == atom_overflow(derived_fn(rc.raw_fn()), pairs as int, atom@),
        r <= 0x80_0000_0000,
{
    proof {
        assert(atom_target_bounded(atom@));
        assert(caracs_bounded(derived_fn(rc.raw_fn()))) by {
            assert forall|k: CaracKindV|
                -8 * raw_bound() <= #[trigger] derived_fn(rc.raw_fn())(k) <= 8 * raw_bound() by {
                lemma_get_carac_bound(*rc, k);
            }
        }
        lemma_atom_overflow_bound(derived_fn(rc.raw_fn()), pairs as int, atom@);
    }
    match atom {
        ConditionAtom::Stats(kind, ord, target) => {
            let cur = rc.get_carac(kind);
            let t = *target as i64;
            if crate::condition::ord_eq(cmp_i64(cur, t), *ord) {
                0
            } else {
                let w = kind.weight_scaled();
                let diff: u64 = if cur >= t {
                    (cur - t) as u64 + 1
                } else {
                    (t - cur) as u64 + 1
                };
                proof {
                    assert(w <= 2000);
                    assert(diff <= 0x1000_0000);
                    assert(w * diff <= 2000 * 0x1000_0000) by (nonlinear_arith)
                        requires
                            0 <= w <= 2000,
                            0 <= diff <= 0x1000_0000,
                    ;
                }
                w * diff
            }
        },
        ConditionAtom::RestrictSetBonuses => {
            if pairs > 2 {
                2000 * (pairs - 2)
            } else {
                0
            }
        },
        ConditionAtom::Other(_) => 0,
    }
}

impl Character {
    /// How far this build is from satisfying `cond`, as a non-negative
    /// scalar scaled by `WEIGHT_SCALE`: per clause the minimum overflow over
    /// its atoms, summed over all clauses. Zero-weight (unrecognized)
    /// statistics and opaque atoms charge nothing.
    pub fn condition_overflow_scaled(
        &self,
        catalog: &Vec<Equipement>,
        sets: &Vec<ItemSet>,
        cond: &Condition,
    ) -> (r: u64)
        requires
            slots_in_catalog(self.slots_view(), catalog@),
            self.slots_view().len() == slot_count(),
            catalog_lines_wf(catalog@),
            sets_lines_wf(sets@),
            cond_wf(cond@),
            cond@.len() <= 0x10_0000,
        ensures
            r as int == cond_overflow_from(
                derived_fn(agg_fn(*self, catalog@, sets@)),
                synergy_pairs(self.slots_view(), catalog@),
                cond@,
                0,
            ),
    {
        proof {
            lemma_cond_targets_bounded(cond);
        }
        let rc = self.get_caracs(catalog, sets);
        let ghost caracs = derived_fn(agg_fn(*self, catalog@, sets@));
        proof {
            assert(caracs =~= derived_fn(rc.raw_fn()));
            assert(caracs_bounded(caracs)) by {
                assert forall|k: CaracKindV|
                    -8 * raw_bound() <= #[trigger] caracs(k) <= 8 * raw_bound() by {
                    lemma_get_carac_bound(rc, k);
                }
            }
        }
        let pairs = count_synergy_pairs(self, catalog);
        let ghost pairsv = synergy_pairs(self.slots_view(), catalog@);
        let clauses = cond.clauses();
        let n = clauses.len();
        let ghost condv = cond@;
        let mut acc: u64 = 0;
        let mut i: usize = 0;
        proof {
            lemma_cond_overflow_bound(caracs, pairsv, condv, 0);
            assert((condv.len() - 0) * 0x80_0000_0000 <= 0x10_0000 * 0x80_0000_0000)
                by (nonlinear_arith)
                requires
                    condv.len() <= 0x10_0000,
            ;
        }
        while i < n
            invariant
                0 <= i <= n,
                n == clauses@.len(),
                clauses@.map_values(|cl: Vec<ConditionAtom>| crate::condition::clause_view(cl))
                    == condv,
                condv == cond@,
                condv.len() <= 0x10_0000,
                cond_wf(condv),
                rc.wf(),
                caracs == derived_fn(rc.raw_fn()),
                caracs_bounded(caracs),
                pairs as int == pairsv,
                pairs <= 256,
                0 <= pairsv <= 256,
                cond_targets_bounded(condv),
                acc as int + cond_overflow_from(caracs, pairsv, condv, i as int)
                    == cond_overflow_from(caracs, pairsv, condv, 0),
                cond_overflow_from(caracs, pairsv, condv, 0) <= 0x0800_0000_0000_0000,
                acc <= 0x0800_0000_0000_0000,
            decreases n - i,
        {
            proof {
                assert(crate::condition::clause_view(clauses@[i as int]) == condv[i as int]);
                assert(crate::condition::clause_wf(condv[i as int]));
                assert forall|j: int|
                    0 <= j < condv[i as int].len() implies atom_target_bounded(
                    #[trigger] condv[i as int][j],
                ) by {}
                lemma_cond_overflow_bound(caracs, pairsv, condv, i as int);
                lemma_cond_overflow_bound(caracs, pairsv, condv, i + 1);
                lemma_clause_overflow_bound(caracs, pairsv, condv[i as int], 0);
            }
            let clause = &clauses[i];
            let m = clause.len();
            let ghost clv = condv[i as int];
            let mut j: usize = m - 1;
            let mut best = atom_overflow_exec(&rc, pairs, &clause[m - 1]);
            proof {
                assert(clause@[m - 1]@ == clv[m - 1]);
                assert(best as int == clause_overflow_from(caracs, pairsv, clv, m - 1));
            }
            while j > 0
                invariant
                    0 <= j <= m - 1,
                    m == clause@.len(),
                    m >= 1,
                    clause@.map_values(|a: ConditionAtom| a@) == clv,
                    rc.wf(),
                    caracs == derived_fn(rc.raw_fn()),
                    pairs <= 256,
                    pairs as int == pairsv,
                    best as int == clause_overflow_from(caracs, pairsv, clv, j as int),
                    best <= 0x80_0000_0000,
                decreases j,
            {
                j = j - 1;
                let v = atom_overflow_exec(&rc, pairs, &clause[j]);
                proof {
                    assert(clause@[j as int]@ == clv[j as int]);
                }
                if v < best {
                    best = v;
                }
            }
            acc = acc + best;
            proof {
                assert(cond_overflow_from(caracs, pairsv, condv, i as int)
                    == clause_overflow_from(caracs, pairsv, condv[i as int], 0)
                    + cond_overflow_from(caracs, pairsv, condv, i + 1));
            }
            i = i + 1;
        }
        acc
    }
}

/// The build facts a character presents to a condition: its derived
/// statistic table and its synergy-pair count.
pub open spec fn build_env_of(
    c: Character,
    catalog: Seq<Equipement>,
    sets: Seq<ItemSet>,
) -> BuildEnv {
    BuildEnv {
        stats: derived_fn(agg_fn(c, catalog, sets)),
        synergies: synergy_pairs(c.slots_view(), catalog),
    }
}

} // verus!
