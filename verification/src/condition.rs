//! Equip-eligibility conditions of equipment records.
//!
//! A condition is a conjunction of clauses; a clause is a disjunction of
//! atoms; an atom compares a statistic against a literal threshold, restricts
//! the number of set-bonus synergy pairs, or is an opaque fragment of text
//! with no effect. Conditions of several records are merged by `Condition::and`
//! with subsumption pruning: a new clause already implied by a kept clause is
//! dropped, and kept clauses implied by the new one are removed. Implication
//! between clauses is the partial order `clause_stronger`; the merge is
//! proved to preserve satisfaction exactly.

use core::cmp::Ordering;

use vstd::prelude::*;

use crate::carac::{CaracKind, CaracKindV};

verus! {

/// One atom of a condition clause.
#[derive(Debug)]
pub enum ConditionAtom {
    /// An opaque fragment of text; never affects a build.
    Other(String),
    /// The named statistic must compare to the threshold exactly as the
    /// ordering says.
    Stats(CaracKind, Ordering, i16),
    /// At most two set-bonus synergy pairs may be active.
    RestrictSetBonuses,
}

/// Mathematical view of a condition atom.
pub enum ConditionAtomV {
    Other(Seq<char>),
    Stats(CaracKindV, Ordering, int),
    RestrictSetBonuses,
}

impl View for ConditionAtom {
    type V = ConditionAtomV;

    open spec fn view(&self) -> ConditionAtomV {
        match self {
            ConditionAtom::Other(s) => ConditionAtomV::Other(s@),
            ConditionAtom::Stats(kind, ord, target) => ConditionAtomV::Stats(
                kind@,
                *ord,
                *target as int,
            ),
            ConditionAtom::RestrictSetBonuses => ConditionAtomV::RestrictSetBonuses,
        }
    }
}

impl Clone for ConditionAtom {
    fn clone(&self) -> (r: Self)
        ensures
            r == *self,
    {
        match self {
            ConditionAtom::Other(s) => ConditionAtom::Other(s.clone()),
            ConditionAtom::Stats(kind, ord, target) => ConditionAtom::Stats(
                kind.clone(),
                *ord,
                *target,
            ),
            ConditionAtom::RestrictSetBonuses => ConditionAtom::RestrictSetBonuses,
        }
    }
}

/// The facts of a build that a condition speaks about: the live value of
/// every statistic, and the number of active set-bonus synergy pairs.
pub struct BuildEnv {
    pub stats: spec_fn(CaracKindV) -> int,
    pub synergies: int,
}

/// The three-way comparison of two integers.
pub open spec fn int_cmp(a: int, b: int) -> Ordering {
    if a < b {
        Ordering::Less
    } else if a == b {
        Ordering::Equal
    } else {
        Ordering::Greater
    }
}

/// Whether a build satisfies one atom.
pub open spec fn atom_holds(env: BuildEnv, atom: ConditionAtomV) -> bool {
    match atom {
        ConditionAtomV::Other(_) => true,
        ConditionAtomV::Stats(kind, ord, target) => int_cmp((env.stats)(kind), target) == ord,
        ConditionAtomV::RestrictSetBonuses => env.synergies <= 2,
    }
}

/// Whether a build satisfies one clause: at least one of its atoms holds.
pub open spec fn clause_holds(env: BuildEnv, clause: Seq<ConditionAtomV>) -> bool {
    exists|i: int| 0 <= i < clause.len() && atom_holds(env, clause[i])
}

/// Whether a build satisfies a whole condition: every clause holds.
pub open spec fn cond_holds(env: BuildEnv, c: Seq<Seq<ConditionAtomV>>) -> bool {
    forall|i: int| 0 <= i < c.len() ==> clause_holds(env, c[i])
}

/// A well-formed atom never uses the `Equal` ordering: the condition grammar
/// only produces strict comparisons, and the subsumption order is sound only
/// for those.
pub open spec fn atom_wf(atom: ConditionAtomV) -> bool {
    match atom {
        ConditionAtomV::Stats(_, ord, _) => ord != Ordering::Equal,
        _ => true,
    }
}

/// A well-formed clause is non-empty and holds well-formed atoms only.
pub open spec fn clause_wf(clause: Seq<ConditionAtomV>) -> bool {
    &&& clause.len() >= 1
    &&& forall|i: int| 0 <= i < clause.len() ==> atom_wf(#[trigger] clause[i])
}

/// A well-formed condition holds well-formed clauses only.
pub open spec fn cond_wf(c: Seq<Seq<ConditionAtomV>>) -> bool {
    forall|i: int| 0 <= i < c.len() ==> clause_wf(#[trigger] c[i])
}

/// The subsumption order on atoms: `a` is stronger than `b` when `a` forces
/// `b`.
pub open spec fn atom_stronger(a: ConditionAtomV, b: ConditionAtomV) -> bool {
    match (a, b) {
        (ConditionAtomV::Stats(lk, lo, lv), ConditionAtomV::Stats(rk, ro, rv)) => {
            &&& lk == rk
            &&& (lo == ro || lo == Ordering::Equal)
            &&& (lv == rv || int_cmp(lv, rv) == lo || int_cmp(lv, rv) == ro)
        },
        (ConditionAtomV::RestrictSetBonuses, ConditionAtomV::RestrictSetBonuses) => true,
        (ConditionAtomV::Other(s1), ConditionAtomV::Other(s2)) => s1 == s2,
        _ => false,
    }
}

/// Whether some atom of `c2` is weaker than `a`.
pub open spec fn atom_dominated(a: ConditionAtomV, c2: Seq<ConditionAtomV>) -> bool {
    exists|j: int| 0 <= j < c2.len() && atom_stronger(a, c2[j])
}

/// The subsumption order on clauses: every atom of `c1` is stronger than some
/// atom of `c2`. This is a partial order; many clause pairs are incomparable.
pub open spec fn clause_stronger(c1: Seq<ConditionAtomV>, c2: Seq<ConditionAtomV>) -> bool {
    forall|i: int| 0 <= i < c1.len() ==> atom_dominated(#[trigger] c1[i], c2)
}

/// No clause of the list is subsumed by another: the conjunction is
/// minimal.
pub open spec fn cond_minimal(c: Seq<Seq<ConditionAtomV>>) -> bool {
    forall|a: int, b: int|
        0 <= a < c.len() && 0 <= b < c.len() && a != b ==> !clause_stronger(
            #[trigger] c[a],
            #[trigger] c[b],
        )
}

/// The clause is one of the clauses of `base`.
pub open spec fn clause_among(cl: Seq<ConditionAtomV>, base: Seq<Seq<ConditionAtomV>>) -> bool {
    exists|j0: int| 0 <= j0 < base.len() && cl == base[j0]
}

/// Every clause of `c` is a clause of `base`.
pub open spec fn clauses_among(c: Seq<Seq<ConditionAtomV>>, base: Seq<Seq<ConditionAtomV>>) -> bool {
    forall|j: int| 0 <= j < c.len() ==> clause_among(#[trigger] c[j], base)
}

/// A swap-removal keeps minimality: the kept clauses come from distinct
/// positions of the source.
proof fn lemma_minimal_swap_remove(s: Seq<Seq<ConditionAtomV>>, k: int)
    requires
        0 <= k < s.len(),
        cond_minimal(s),
    ensures
        cond_minimal(s.update(k, s.last()).drop_last()),
{
    let t = s.update(k, s.last()).drop_last();
    assert forall|a: int, b: int|
        0 <= a < t.len() && 0 <= b < t.len() && a != b implies !clause_stronger(
        #[trigger] t[a],
        #[trigger] t[b],
    ) by {
        let a0 = if a == k {
            s.len() - 1
        } else {
            a
        };
        let b0 = if b == k {
            s.len() - 1
        } else {
            b
        };
        assert(t[a] == s[a0]);
        assert(t[b] == s[b0]);
        assert(a0 != b0);
    }
}

/// A stronger well-formed atom that holds forces the weaker atom.
pub proof fn lemma_atom_stronger_sound(env: BuildEnv, a: ConditionAtomV, b: ConditionAtomV)
    requires
        atom_wf(a),
        atom_stronger(a, b),
        atom_holds(env, a),
    ensures
        atom_holds(env, b),
{
    match (a, b) {
        (ConditionAtomV::Stats(lk, lo, lv), ConditionAtomV::Stats(rk, ro, rv)) => {
            let v = (env.stats)(lk);
            assert(int_cmp(v, lv) == lo);
            assert(lo == ro);
            if lo == Ordering::Less {
                assert(v < lv);
                assert(lv == rv || lv < rv);
            } else {
                assert(v > lv);
                assert(lv == rv || lv > rv);
            }
        },
        _ => {},
    }
}

/// A stronger well-formed clause that holds forces the weaker clause.
pub proof fn lemma_clause_stronger_sound(
    env: BuildEnv,
    c1: Seq<ConditionAtomV>,
    c2: Seq<ConditionAtomV>,
)
    requires
        forall|i: int| 0 <= i < c1.len() ==> atom_wf(#[trigger] c1[i]),
        clause_stronger(c1, c2),
        clause_holds(env, c1),
    ensures
        clause_holds(env, c2),
{
    let i = choose|i: int| 0 <= i < c1.len() && atom_holds(env, c1[i]);
    assert(atom_dominated(c1[i], c2));
    let j = choose|j: int| 0 <= j < c2.len() && atom_stronger(c1[i], c2[j]);
    lemma_atom_stronger_sound(env, c1[i], c2[j]);
    assert(clause_holds(env, c2));
}

impl ConditionAtom {
    /// Whether this atom forces `other`: the executable subsumption test.
    pub fn is_stronger_than(&self, other: &ConditionAtom) -> (r: bool)
        ensures
            r == atom_stronger(self@, other@),
    {
        match (self, other) {
            (
                ConditionAtom::Stats(lk, lo, lv),
                ConditionAtom::Stats(rk, ro, rv),
            ) => {
                if lk.eq(rk) && (ord_eq(*lo, *ro) || ord_eq(*lo, Ordering::Equal)) {
                    *lv == *rv || ord_eq(cmp_i16(*lv, *rv), *lo) || ord_eq(cmp_i16(*lv, *rv), *ro)
                } else {
                    false
                }
            },
            (ConditionAtom::RestrictSetBonuses, ConditionAtom::RestrictSetBonuses) => true,
            (ConditionAtom::Other(s1), ConditionAtom::Other(s2)) => <String as PartialEq>::eq(
                s1,
                s2,
            ),
            _ => false,
        }
    }
}

/// Equality of two orderings.
pub(crate) fn ord_eq(a: Ordering, b: Ordering) -> (r: bool)
    ensures
        r == (a == b),
{
    match (a, b) {
        (Ordering::Less, Ordering::Less) => true,
        (Ordering::Equal, Ordering::Equal) => true,
        (Ordering::Greater, Ordering::Greater) => true,
        _ => false,
    }
}

/// The three-way comparison of two signed values.
fn cmp_i16(a: i16, b: i16) -> (r: Ordering)
    ensures
        r == int_cmp(a as int, b as int),
{
    if a < b {
        Ordering::Less
    } else if a == b {
        Ordering::Equal
    } else {
        Ordering::Greater
    }
}

/// The view of one clause vector.
pub open spec fn clause_view(v: Vec<ConditionAtom>) -> Seq<ConditionAtomV> {
    v@.map_values(|a: ConditionAtom| a@)
}

/// Whether `a` is stronger than some atom of `c2`.
fn atom_stronger_than_any(a: &ConditionAtom, c2: &Vec<ConditionAtom>) -> (r: bool)
    ensures
        r == atom_dominated(a@, clause_view(*c2)),
{
    let n2 = c2.len();
    let mut j: usize = 0;
    while j < n2
        invariant
            0 <= j <= n2,
            n2 == c2.len(),
            forall|b: int|
                0 <= b < j ==> !atom_stronger(a@, #[trigger] clause_view(*c2)[b]),
        decreases n2 - j,
    {
        if a.is_stronger_than(&c2[j]) {
            proof {
                assert(clause_view(*c2)[j as int] == c2@[j as int]@);
            }
            return true;
        }
        j = j + 1;
    }
    false
}

/// The executable subsumption test on clauses.
fn clause_stronger_exec(c1: &Vec<ConditionAtom>, c2: &Vec<ConditionAtom>) -> (r: bool)
    ensures
        r == clause_stronger(clause_view(*c1), clause_view(*c2)),
{
    let n1 = c1.len();
    let mut i: usize = 0;
    while i < n1
        invariant
            0 <= i <= n1,
            n1 == c1.len(),
            forall|a: int|
                0 <= a < i ==> atom_dominated(#[trigger] clause_view(*c1)[a], clause_view(*c2)),
        decreases n1 - i,
    {
        if !atom_stronger_than_any(&c1[i], c2) {
            proof {
                assert(clause_view(*c1)[i as int] == c1@[i as int]@);
            }
            return false;
        }
        proof {
            assert(clause_view(*c1)[i as int] == c1@[i as int]@);
        }
        i = i + 1;
    }
    true
}

/// A conjunction of clauses of atoms: the whole condition is true when every
/// clause has at least one true atom.
#[derive(Debug)]
pub struct Condition {
    clauses: Vec<Vec<ConditionAtom>>,
}

impl View for Condition {
    type V = Seq<Seq<ConditionAtomV>>;

    closed spec fn view(&self) -> Seq<Seq<ConditionAtomV>> {
        self.clauses@.map_values(|cl: Vec<ConditionAtom>| clause_view(cl))
    }
}

/// A clause vector's view is element-wise the atoms' views; cloning keeps it.
pub(crate) fn clone_clause(c: &Vec<ConditionAtom>) -> (r: Vec<ConditionAtom>)
    ensures
        r@ == c@,
{
    let r = c.clone();
    proof {
        assert forall|i: int| 0 <= i < c@.len() implies r@[i] == c@[i] by {
            assert(vstd::pervasive::cloned::<ConditionAtom>(c@[i], r@[i]));
        }
        assert(r@ =~= c@);
    }
    r
}

impl Clone for Condition {
    fn clone(&self) -> (r: Self)
        ensures
            r@ == self@,
    {
        let mut clauses: Vec<Vec<ConditionAtom>> = Vec::new();
        let n = self.clauses.len();
        let mut i: usize = 0;
        while i < n
            invariant
                0 <= i <= n,
                n == self.clauses.len(),
                clauses@.len() == i,
                forall|j: int| 0 <= j < i ==> clauses@[j]@ == self.clauses@[j]@,
            decreases n - i,
        {
            clauses.push(clone_clause(&self.clauses[i]));
            i = i + 1;
        }
        let r = Condition { clauses };
        proof {
            assert forall|j: int| 0 <= j < n implies r@[j] == self@[j] by {
                assert(clause_view(r.clauses@[j]) =~= clause_view(self.clauses@[j]));
            }
            assert(r@ =~= self@);
        }
        r
    }
}

impl Default for Condition {
    /// The empty conjunction: always true.
    fn default() -> (r: Self)
        ensures
            r@ =~= Seq::<Seq<ConditionAtomV>>::empty(),
    {
        Condition::new()
    }
}

impl Condition {
    /// The empty conjunction: always true.
    pub fn new() -> (r: Self)
        ensures
            r@ =~= Seq::<Seq<ConditionAtomV>>::empty(),
    {
        Condition { clauses: Vec::new() }
    }

    /// A condition from its clause vectors.
    pub(crate) fn from_clauses(clauses: Vec<Vec<ConditionAtom>>) -> (r: Self)
        ensures
            r@ == cond_view_of(clauses),
    {
        Condition { clauses }
    }

    /// The condition made of the single atom `atom`.
    pub fn from_atom(atom: ConditionAtom) -> (r: Self)
        ensures
            r@.len() == 1,
            r@[0].len() == 1,
            r@[0][0] == atom@,
    {
        let mut clause: Vec<ConditionAtom> = Vec::new();
        clause.push(atom);
        let mut clauses: Vec<Vec<ConditionAtom>> = Vec::new();
        clauses.push(clause);
        Condition { clauses }
    }

    /// The clauses: the list of disjunctions of the big conjunction.
    pub fn clauses(&self) -> (r: &Vec<Vec<ConditionAtom>>)
        ensures
            r@.map_values(|cl: Vec<ConditionAtom>| clause_view(cl)) == self@,
    {
        &self.clauses
    }

    /// Move out the clauses of the big conjunction.
    pub fn into_clauses(self) -> (r: Vec<Vec<ConditionAtom>>)
        ensures
            r@.map_values(|cl: Vec<ConditionAtom>| clause_view(cl)) == self@,
    {
        self.clauses
    }

    /// Merge two conditions into one that is satisfied exactly when both are,
    /// pruning subsumed clauses: a new clause weaker than a kept one is
    /// dropped, and kept clauses weaker than the new one are removed first.
    /// When the first condition has no clause subsumed by another, neither
    /// has the result.
    #[verifier::rlimit(100)]
    pub fn and(cond1: Self, cond2: Self) -> (r: Self)
        ensures
            cond_minimal(cond1@) ==> cond_minimal(r@),
            cond_wf(cond1@) && cond_wf(cond2@) ==> {
                &&& cond_wf(r@)
                &&& forall|env: BuildEnv|
                    #[trigger] cond_holds(env, r@) <==> (cond_holds(env, cond1@) && cond_holds(
                        env,
                        cond2@,
                    ))
            },
    {
        let ghost c1v = cond1@;
        let ghost c2v = cond2@;
        let ghost wfb = cond_wf(c1v) && cond_wf(c2v);
        let mut clauses = cond1.into_clauses();
        let next_clauses = cond2.into_clauses();
        let n2 = next_clauses.len();
        proof {
            assert(c2v.take(0) =~= Seq::<Seq<ConditionAtomV>>::empty());
            if wfb {
                assert forall|env: BuildEnv| #[trigger]
                    cond_holds(env, cond_view_of(clauses)) <==> (cond_holds(env, c1v)
                    && cond_holds(env, c2v.take(0))) by {
                    assert(cond_view_of(clauses) == c1v);
                }
            }
        }
        let mut i: usize = 0;
        while i < n2
            invariant
                0 <= i <= n2,
                n2 == next_clauses.len(),
                next_clauses@.map_values(|cl: Vec<ConditionAtom>| clause_view(cl)) == c2v,
                wfb == (cond_wf(c1v) && cond_wf(c2v)),
                wfb ==> cond_wf(cond_view_of(clauses)),
                cond_minimal(c1v) ==> cond_minimal(cond_view_of(clauses)),
                wfb ==> forall|env: BuildEnv|
                    #[trigger] cond_holds(env, cond_view_of(clauses)) <==> (cond_holds(env, c1v)
                        && cond_holds(env, c2v.take(i as int))),
            decreases n2 - i,
        {
            let ghost before = cond_view_of(clauses);
            let ghost nextv = c2v[i as int];
            proof {
                assert(clause_view(next_clauses@[i as int]) == c2v[i as int]);
                assert(c2v.take(i + 1) =~= c2v.take(i as int).push(nextv));
            }
            // Is some kept clause already stronger than the new one?
            let subsumed = any_clause_stronger(&clauses, &next_clauses[i]);
            if subsumed {
                proof {
                    if wfb {
                        assert forall|env: BuildEnv| #[trigger]
                            cond_holds(env, cond_view_of(clauses)) <==> (cond_holds(env, c1v)
                            && cond_holds(env, c2v.take(i + 1))) by {
                            lemma_cond_push(env, c2v.take(i as int), nextv);
                            if cond_holds(env, cond_view_of(clauses)) {
                                let k = choose|k: int|
                                    0 <= k < cond_view_of(clauses).len() && clause_stronger(
                                        cond_view_of(clauses)[k],
                                        nextv,
                                    );
                                assert(clause_holds(env, cond_view_of(clauses)[k]));
                                lemma_clause_stronger_sound(
                                    env,
                                    cond_view_of(clauses)[k],
                                    nextv,
                                );
                            }
                        }
                    }
                }
            } else {
                // Remove every kept clause that the new one forces.
                proof {
                    if wfb {
                        assert(clause_wf(c2v[i as int]));
                    }
                    assert forall|j: int|
                        0 <= j < before.len() implies clause_among(
                        #[trigger] before[j],
                        before,
                    ) by {
                        assert(0 <= j < before.len() && before[j] == before[j]);
                    }
                }
                let mut k: usize = 0;
                while k < clauses.len()
                    invariant
                        0 <= k <= clauses.len(),
                        i < n2 == next_clauses.len(),
                        clause_view(next_clauses@[i as int]) == nextv,
                        wfb == (cond_wf(c1v) && cond_wf(c2v)),
                        wfb ==> cond_wf(cond_view_of(clauses)),
                        wfb ==> clause_wf(nextv),
                        clauses_among(cond_view_of(clauses), before),
                        forall|j: int|
                            0 <= j < k ==> !clause_stronger(
                                nextv,
                                #[trigger] cond_view_of(clauses)[j],
                            ),
                        cond_minimal(before) ==> cond_minimal(cond_view_of(clauses)),
                        wfb ==> forall|env: BuildEnv|
                            (#[trigger] cond_holds(env, cond_view_of(clauses)) && clause_holds(
                                env,
                                nextv,
                            )) <==> (cond_holds(env, before) && clause_holds(env, nextv)),
                    decreases clauses.len() - k,
                {
                    if clause_stronger_exec(&next_clauses[i], &clauses[k]) {
                        let ghost mid = cond_view_of(clauses);
                        let ghost kk = k as int;
                        proof {
                            assert(clause_stronger(nextv, mid[kk]));
                        }
                        let _ = clauses.swap_remove(k);
                        proof {
                            let t = mid.update(kk, mid.last()).drop_last();
                            assert(cond_view_of(clauses) =~= t);
                            assert forall|j: int|
                                0 <= j < t.len() implies clause_among(
                                #[trigger] t[j],
                                before,
                            ) by {
                                let src = if j == kk {
                                    mid.len() - 1
                                } else {
                                    j
                                };
                                assert(t[j] == mid[src]);
                                assert(clause_among(mid[src], before));
                                let j0 = choose|j0: int|
                                    0 <= j0 < before.len() && mid[src] == before[j0];
                                assert(0 <= j0 < before.len() && t[j] == before[j0]);
                            }
                            assert forall|j: int|
                                0 <= j < k implies !clause_stronger(
                                nextv,
                                #[trigger] t[j],
                            ) by {
                                assert(t[j] == mid[j]);
                            }
                            if cond_minimal(before) {
                                lemma_minimal_swap_remove(mid, kk);
                            }
                            if wfb {
                                lemma_cond_wf_swap_remove(mid, kk);
                                assert forall|env: BuildEnv|
                                    (#[trigger] cond_holds(env, cond_view_of(clauses))
                                        && clause_holds(env, nextv)) <==> (cond_holds(env, before)
                                    && clause_holds(env, nextv)) by {
                                    lemma_cond_holds_swap_remove(env, mid, kk);
                                    if cond_holds(env, t) && clause_holds(env, nextv) {
                                        lemma_clause_stronger_sound(env, nextv, mid[kk]);
                                        assert forall|b: int|
                                            0 <= b < mid.len() implies clause_holds(
                                            env,
                                            mid[b],
                                        ) by {
                                            if b != kk {
                                                assert(clause_holds(env, mid[b]));
                                            }
                                        }
                                        assert(cond_holds(env, mid));
                                        assert(cond_holds(env, before) && clause_holds(
                                            env,
                                            nextv,
                                        ));
                                    }
                                    if cond_holds(env, before) && clause_holds(env, nextv) {
                                        assert(cond_holds(env, mid));
                                        assert forall|b: int|
                                            0 <= b < mid.len() && b != kk implies clause_holds(
                                            env,
                                            mid[b],
                                        ) by {}
                                        assert(cond_holds(env, t));
                                        assert(cond_holds(env, cond_view_of(clauses)));
                                    }
                                }
                            }
                        }
                    } else {
                        proof {
                            assert(cond_view_of(clauses)[k as int] == clause_view(
                                clauses@[k as int],
                            ));
                        }
                        k = k + 1;
                    }
                }
                let owned_next = clone_clause(&next_clauses[i]);
                let ghost pre_push = cond_view_of(clauses);
                clauses.push(owned_next);
                proof {
                    assert(cond_view_of(clauses) =~= pre_push.push(nextv));
                    if cond_minimal(c1v) {
                        let newv = pre_push.push(nextv);
                        assert forall|a: int, b: int|
                            0 <= a < newv.len() && 0 <= b < newv.len() && a
                            != b implies !clause_stronger(
                            #[trigger] newv[a],
                            #[trigger] newv[b],
                        ) by {
                            if a < pre_push.len() && b < pre_push.len() {
                                assert(newv[a] == pre_push[a]);
                                assert(newv[b] == pre_push[b]);
                            } else if b == pre_push.len() {
                                // the old clause does not force the new one:
                                // no kept clause of the start of this round
                                // did, and the survivors are among them
                                assert(newv[a] == pre_push[a]);
                                assert(newv[b] == nextv);
                                assert(clause_among(pre_push[a], before));
                                let j0 = choose|j0: int|
                                    0 <= j0 < before.len() && pre_push[a] == before[j0];
                                assert(!clause_stronger(before[j0], nextv));
                            } else {
                                assert(newv[a] == nextv);
                                assert(newv[b] == pre_push[b]);
                                assert(!clause_stronger(nextv, pre_push[b]));
                            }
                        }
                        assert(cond_minimal(cond_view_of(clauses)));
                    }
                    if wfb {
                        assert forall|env: BuildEnv| #[trigger]
                            cond_holds(env, cond_view_of(clauses)) <==> (cond_holds(env, c1v)
                            && cond_holds(env, c2v.take(i + 1))) by {
                            lemma_cond_push(env, pre_push, nextv);
                            lemma_cond_push(env, c2v.take(i as int), nextv);
                        }
                        assert forall|a: int|
                            0 <= a < cond_view_of(clauses).len() implies clause_wf(
                            #[trigger] cond_view_of(clauses)[a],
                        ) by {
                            if a < pre_push.len() {
                                assert(cond_view_of(clauses)[a] == pre_push[a]);
                            }
                        }
                    }
                }
            }
            i = i + 1;
        }
        proof {
            assert(c2v.take(n2 as int) =~= c2v);
        }
        Condition { clauses }
    }
}

/// A comparison atom's threshold fits the signed sixteen-bit range it is
/// stored in.
pub open spec fn atom_target_bounded(a: ConditionAtomV) -> bool {
    match a {
        ConditionAtomV::Stats(_, _, t) => -32768 <= t <= 32767,
        _ => true,
    }
}

/// Every threshold of a condition fits its storage range.
pub open spec fn cond_targets_bounded(c: Seq<Seq<ConditionAtomV>>) -> bool {
    forall|i: int, j: int|
        0 <= i < c.len() && 0 <= j < c[i].len() ==> atom_target_bounded(#[trigger] c[i][j])
}

/// The thresholds of any condition value fit their storage range.
pub proof fn lemma_cond_targets_bounded(c: &Condition)
    ensures
        cond_targets_bounded(c@),
{
    assert forall|i: int, j: int|
        0 <= i < c@.len() && 0 <= j < c@[i].len() implies atom_target_bounded(
        #[trigger] c@[i][j],
    ) by {
        assert(c@[i] == clause_view(c.clauses@[i]));
        assert(c@[i][j] == c.clauses@[i]@[j]@);
    }
}

/// The view of a clause vector list.
pub open spec fn cond_view_of(v: Vec<Vec<ConditionAtom>>) -> Seq<Seq<ConditionAtomV>> {
    v@.map_values(|cl: Vec<ConditionAtom>| clause_view(cl))
}

/// Whether some clause of `clauses` is stronger than `next`.
fn any_clause_stronger(clauses: &Vec<Vec<ConditionAtom>>, next: &Vec<ConditionAtom>) -> (r: bool)
    ensures
        r == exists|k: int|
            0 <= k < cond_view_of(*clauses).len() && clause_stronger(
                cond_view_of(*clauses)[k],
                clause_view(*next),
            ),
{
    let n = clauses.len();
    let mut j: usize = 0;
    while j < n
        invariant
            0 <= j <= n,
            n == clauses.len(),
            forall|b: int|
                0 <= b < j ==> !clause_stronger(
                    #[trigger] cond_view_of(*clauses)[b],
                    clause_view(*next),
                ),
        decreases n - j,
    {
        if clause_stronger_exec(&clauses[j], next) {
            proof {
                assert(cond_view_of(*clauses)[j as int] == clause_view(clauses@[j as int]));
            }
            return true;
        }
        proof {
            assert(cond_view_of(*clauses)[j as int] == clause_view(clauses@[j as int]));
        }
        j = j + 1;
    }
    false
}

/// A merge result is satisfied exactly when both sources are (as
/// `Condition::and` ensures for well-formed sources).
pub open spec fn merged_equiv(
    r: Seq<Seq<ConditionAtomV>>,
    a: Seq<Seq<ConditionAtomV>>,
    b: Seq<Seq<ConditionAtomV>>,
) -> bool {
    forall|env: BuildEnv|
        #[trigger] cond_holds(env, r) <==> (cond_holds(env, a) && cond_holds(env, b))
}

/// Law: the merge is idempotent and commutative in outcome. Merging a
/// condition with itself yields an equivalent condition, and merging in
/// either order yields conditions satisfied by exactly the same builds,
/// though the internal clause lists may differ.
pub proof fn lemma_merge_idempotent_commutative(
    c1: Seq<Seq<ConditionAtomV>>,
    c2: Seq<Seq<ConditionAtomV>>,
    r12: Seq<Seq<ConditionAtomV>>,
    r21: Seq<Seq<ConditionAtomV>>,
    rself: Seq<Seq<ConditionAtomV>>,
)
    requires
        merged_equiv(r12, c1, c2),
        merged_equiv(r21, c2, c1),
        merged_equiv(rself, c1, c1),
    ensures
        forall|env: BuildEnv| #[trigger] cond_holds(env, r12) <==> cond_holds(env, r21),
        forall|env: BuildEnv| #[trigger] cond_holds(env, rself) <==> cond_holds(env, c1),
{
    assert forall|env: BuildEnv| #[trigger]
        cond_holds(env, r12) <==> cond_holds(env, r21) by {
        assert(cond_holds(env, r12) <==> (cond_holds(env, c1) && cond_holds(env, c2)));
        assert(cond_holds(env, r21) <==> (cond_holds(env, c2) && cond_holds(env, c1)));
    }
    assert forall|env: BuildEnv| #[trigger]
        cond_holds(env, rself) <==> cond_holds(env, c1) by {
        assert(cond_holds(env, rself) <==> (cond_holds(env, c1) && cond_holds(env, c1)));
    }
}

/// Appending a clause conjoins it.
proof fn lemma_cond_push(env: BuildEnv, s: Seq<Seq<ConditionAtomV>>, cl: Seq<ConditionAtomV>)
    ensures
        cond_holds(env, s.push(cl)) <==> (cond_holds(env, s) && clause_holds(env, cl)),
{
    if cond_holds(env, s.push(cl)) {
        assert forall|i: int| 0 <= i < s.len() implies clause_holds(env, s[i]) by {
            assert(s.push(cl)[i] == s[i]);
            assert(clause_holds(env, s.push(cl)[i]));
        }
        assert(s.push(cl)[s.len() as int] == cl);
        assert(clause_holds(env, s.push(cl)[s.len() as int]));
    }
    if cond_holds(env, s) && clause_holds(env, cl) {
        assert forall|i: int| 0 <= i < s.push(cl).len() implies clause_holds(
            env,
            s.push(cl)[i],
        ) by {
            if i < s.len() {
                assert(s.push(cl)[i] == s[i]);
            } else {
                assert(s.push(cl)[i] == cl);
            }
        }
    }
}

/// After a swap-removal at `k`, a conjunction holds exactly when every clause
/// but the removed one holds.
proof fn lemma_cond_holds_swap_remove(env: BuildEnv, s: Seq<Seq<ConditionAtomV>>, k: int)
    requires
        0 <= k < s.len(),
    ensures
        cond_holds(env, s.update(k, s.last()).drop_last()) <==> (forall|i: int|
            0 <= i < s.len() && i != k ==> clause_holds(env, #[trigger] s[i])),
{
    let t = s.update(k, s.last()).drop_last();
    if cond_holds(env, t) {
        assert forall|i: int| 0 <= i < s.len() && i != k implies clause_holds(
            env,
            #[trigger] s[i],
        ) by {
            if i < s.len() - 1 {
                assert(t[i] == s[i]);
                assert(clause_holds(env, t[i]));
            } else if k < s.len() - 1 {
                assert(t[k] == s.last());
                assert(clause_holds(env, t[k]));
            }
        }
    }
    if forall|i: int| 0 <= i < s.len() && i != k ==> clause_holds(env, #[trigger] s[i]) {
        assert forall|i: int| 0 <= i < t.len() implies clause_holds(env, t[i]) by {
            if i == k {
                if k < s.len() - 1 {
                    assert(t[i] == s.last());
                    assert(clause_holds(env, s[s.len() - 1]));
                }
            } else {
                assert(t[i] == s[i]);
            }
        }
    }
}

/// A swap-removal keeps well-formedness of the kept clauses.
proof fn lemma_cond_wf_swap_remove(s: Seq<Seq<ConditionAtomV>>, k: int)
    requires
        0 <= k < s.len(),
        cond_wf(s),
    ensures
        cond_wf(s.update(k, s.last()).drop_last()),
{
    let t = s.update(k, s.last()).drop_last();
    assert forall|i: int| 0 <= i < t.len() implies clause_wf(#[trigger] t[i]) by {
        if i == k {
            assert(t[i] == s.last() || t[i] == s[i]);
        } else {
            assert(t[i] == s[i]);
        }
    }
}

} // verus!
