//! The derived-statistic engine.
//!
//! `Character::get_caracs` aggregates, per statistic kind, the innate
//! baseline, the conservative (upper-bound) roll of every equipped record's
//! line, the active set bonuses, and the allocated points; the resulting
//! raw table answers `get_carac`, which applies the game's derived-formula
//! rules: caps on action points, movement points, range and percent
//! resistances, and the cross-feeding of elemental statistics into
//! initiative, prospecting, carry capacity, dodge, lock and the
//! wisdom-driven resistances.

use vstd::prelude::*;

use crate::carac::{effective_stat_spec, CaracKind, CaracKindV, Element};
use crate::character::{
    count_set, count_set_from, first_occurrence, set_of_slot, slot_count, slots_in_catalog,
    Character, ItemSlotV,
};
use crate::equipment::{find_bonus, find_set, lemma_find_bonus_index, lemma_find_set_range, Equipement, ItemSet};
use crate::lines::{lemma_line_bonus_bounded, lemma_lines_all_bounded, line_bonus, CaracLine, CaracLines};

verus! {

/// The bound kept on every aggregated raw value: wide enough for any real
/// catalog, narrow enough that every derived formula stays far from the
/// sixty-four-bit limits.
pub open spec fn raw_bound() -> int {
    16777216
}

/// The first entry of `s` whose kind views as `kind`, if any.
pub open spec fn find_val(s: Seq<(CaracKind, i64)>, kind: CaracKindV) -> Option<int>
    decreases s.len(),
{
    if s.len() == 0 {
        None
    } else if s[0].0@ == kind {
        Some(s[0].1 as int)
    } else {
        find_val(s.drop_first(), kind)
    }
}

/// The raw aggregated statistic table of a character snapshot.
#[derive(Debug)]
pub struct RawCaracs {
    entries: Vec<(CaracKind, i64)>,
}

impl RawCaracs {
    /// The aggregated raw value of `kind`; zero when no contribution was
    /// recorded.
    pub closed spec fn raw(self, kind: CaracKindV) -> int {
        match find_val(self.entries@, kind) {
            Some(v) => v,
            None => 0,
        }
    }

    /// The raw table as a function of the kind.
    pub open spec fn raw_fn(self) -> spec_fn(CaracKindV) -> int {
        |k: CaracKindV| self.raw(k)
    }

    /// Distinct kinds, every value within `raw_bound`.
    pub closed spec fn wf(self) -> bool {
        &&& forall|i: int, j: int|
            0 <= i < j < self.entries@.len() ==> self.entries@[i].0@ != self.entries@[j].0@
        &&& forall|i: int|
            0 <= i < self.entries@.len() ==> -raw_bound() <= (#[trigger] self.entries@[i]).1
                <= raw_bound()
    }

    /// A table with no contributions.
    pub fn new() -> (r: Self)
        ensures
            r.wf(),
            forall|k: CaracKindV| r.raw(k) == 0,
    {
        RawCaracs { entries: Vec::new() }
    }

    /// The entries of the table, usable as a map thanks to the distinctness
    /// of their kinds.
    pub fn as_map(&self) -> (r: &Vec<(CaracKind, i64)>)
        ensures
            r@ == self.entries_spec(),
    {
        &self.entries
    }
}

/// A raw value is within `raw_bound` on a well-formed table.
pub proof fn lemma_raw_bounded(rc: RawCaracs, kind: CaracKindV)
    requires
        rc.wf(),
    ensures
        -raw_bound() <= rc.raw(kind) <= raw_bound(),
{
    lemma_find_val_index(rc, kind);
}

/// A successful raw lookup is witnessed by an entry.
proof fn lemma_find_val_index_seq(s: Seq<(CaracKind, i64)>, kind: CaracKindV)
    ensures
        match find_val(s, kind) {
            Some(v) => exists|i: int|
                0 <= i < s.len() && (#[trigger] s[i]).0@ == kind && s[i].1 as int == v,
            None => forall|i: int| 0 <= i < s.len() ==> (#[trigger] s[i]).0@ != kind,
        },
    decreases s.len(),
{
    if s.len() > 0 {
        lemma_find_val_index_seq(s.drop_first(), kind);
        if s[0].0@ != kind {
            match find_val(s.drop_first(), kind) {
                Some(v) => {
                    let i = choose|i: int|
                        0 <= i < s.drop_first().len() && (#[trigger] s.drop_first()[i]).0@ == kind
                            && s.drop_first()[i].1 as int == v;
                    assert(s[i + 1] == s.drop_first()[i]);
                },
                None => {
                    assert forall|i: int| 0 <= i < s.len() implies (#[trigger] s[i]).0@
                        != kind by {
                        if i > 0 {
                            assert(s.drop_first()[i - 1] == s[i]);
                        }
                    }
                },
            }
        }
    }
}

/// Same, phrased on a table.
proof fn lemma_find_val_index(rc: RawCaracs, kind: CaracKindV)
    ensures
        match find_val(rc.entries_spec(), kind) {
            Some(v) => rc.raw(kind) == v && exists|i: int|
                0 <= i < rc.entries_spec().len() && (#[trigger] rc.entries_spec()[i]).0@ == kind
                    && rc.entries_spec()[i].1 as int == v,
            None => rc.raw(kind) == 0,
        },
{
    lemma_find_val_index_seq(rc.entries_spec(), kind);
}

impl RawCaracs {
    /// The entries, for proofs in this module.
    pub closed spec fn entries_spec(self) -> Seq<(CaracKind, i64)> {
        self.entries@
    }
}

/// Updating the entry at `i`, whose kind is `kind`, changes only that
/// lookup.
proof fn lemma_find_val_set(
    old_s: Seq<(CaracKind, i64)>,
    new_s: Seq<(CaracKind, i64)>,
    i: int,
    kind: CaracKindV,
)
    requires
        forall|a: int, b: int| 0 <= a < b < old_s.len() ==> old_s[a].0@ != old_s[b].0@,
        0 <= i < old_s.len(),
        new_s.len() == old_s.len(),
        old_s[i].0@ == kind,
        new_s[i].0@ == kind,
        forall|j: int| 0 <= j < old_s.len() && j != i ==> new_s[j] == old_s[j],
    ensures
        forall|a: int, b: int| 0 <= a < b < new_s.len() ==> new_s[a].0@ != new_s[b].0@,
        find_val(new_s, kind) == Some(new_s[i].1 as int),
        forall|k: CaracKindV| k != kind ==> find_val(new_s, k) == find_val(old_s, k),
    decreases old_s.len(),
{
    assert forall|a: int, b: int| 0 <= a < b < new_s.len() implies new_s[a].0@
        != new_s[b].0@ by {
        assert(new_s[a].0@ == old_s[a].0@);
        assert(new_s[b].0@ == old_s[b].0@);
    }
    if i == 0 {
        assert(new_s.drop_first() =~= old_s.drop_first());
    } else {
        assert(old_s.drop_first()[i - 1] == old_s[i]);
        assert(new_s.drop_first()[i - 1] == new_s[i]);
        assert(old_s[0].0@ != kind);
        assert(new_s[0] == old_s[0]);
        assert forall|j: int|
            0 <= j < old_s.drop_first().len() && j != i - 1 implies new_s.drop_first()[j]
            == old_s.drop_first()[j] by {
            assert(new_s.drop_first()[j] == new_s[j + 1]);
            assert(old_s.drop_first()[j] == old_s[j + 1]);
        }
        lemma_find_val_set(old_s.drop_first(), new_s.drop_first(), i - 1, kind);
        assert forall|k: CaracKindV| k != kind implies find_val(new_s, k) == find_val(
            old_s,
            k,
        ) by {
            if new_s[0].0@ == k {
            } else {
                assert(find_val(new_s, k) == find_val(new_s.drop_first(), k));
                assert(find_val(old_s, k) == find_val(old_s.drop_first(), k));
            }
        }
    }
}

/// Appending an entry of a fresh kind changes only that lookup.
proof fn lemma_find_val_push(s: Seq<(CaracKind, i64)>, entry: (CaracKind, i64))
    requires
        forall|i: int| 0 <= i < s.len() ==> (#[trigger] s[i]).0@ != entry.0@,
    ensures
        find_val(s.push(entry), entry.0@) == Some(entry.1 as int),
        forall|k: CaracKindV| k != entry.0@ ==> find_val(s.push(entry), k) == find_val(s, k),
    decreases s.len(),
{
    if s.len() == 0 {
        assert(s.push(entry)[0] == entry);
        assert(s.push(entry).drop_first() =~= Seq::<(CaracKind, i64)>::empty());
        assert forall|k: CaracKindV| k != entry.0@ implies find_val(s.push(entry), k) == find_val(
            s,
            k,
        ) by {
            assert(find_val(s.push(entry), k) == find_val(s.push(entry).drop_first(), k));
            assert(find_val(s.push(entry).drop_first(), k) is None);
            assert(find_val(s, k) is None);
        }
    } else {
        assert(s.push(entry)[0] == s[0]);
        assert(s.push(entry).drop_first() =~= s.drop_first().push(entry));
        assert forall|i: int| 0 <= i < s.drop_first().len() implies (#[trigger] s.drop_first()[
        i]).0@ != entry.0@ by {
            assert(s.drop_first()[i] == s[i + 1]);
        }
        lemma_find_val_push(s.drop_first(), entry);
        assert(s[0].0@ != entry.0@);
        assert(find_val(s.push(entry), entry.0@) == find_val(s.drop_first().push(entry), entry.0@));
        assert forall|k: CaracKindV| k != entry.0@ implies find_val(s.push(entry), k) == find_val(
            s,
            k,
        ) by {
            if s[0].0@ == k {
            } else {
                assert(find_val(s.push(entry), k) == find_val(s.drop_first().push(entry), k));
                assert(find_val(s, k) == find_val(s.drop_first(), k));
            }
        }
    }
}

impl RawCaracs {
    /// Add `v` to the value recorded for `kind`.
    fn add_value(&mut self, kind: &CaracKind, v: i64)
        requires
            old(self).wf(),
            -raw_bound() <= old(self).raw(kind@) + v <= raw_bound(),
            -raw_bound() <= v <= raw_bound(),
        ensures
            final(self).wf(),
            final(self).raw(kind@) == old(self).raw(kind@) + v,
            forall|k: CaracKindV| k != kind@ ==> final(self).raw(k) == old(self).raw(k),
    {
        proof {
            lemma_find_val_index(*self, kind@);
        }
        let n = self.entries.len();
        let mut i: usize = 0;
        while i < n
            invariant
                0 <= i <= n,
                n == self.entries.len(),
                *self == *old(self),
                old(self).wf(),
                -raw_bound() <= old(self).raw(kind@) + v <= raw_bound(),
                -raw_bound() <= v <= raw_bound(),
                forall|j: int| 0 <= j < i ==> (#[trigger] self.entries@[j]).0@ != kind@,
            decreases n - i,
        {
            if self.entries[i].0.eq(kind) {
                proof {
                    lemma_find_val_index_seq(self.entries@, kind@);
                    assert(self.entries@[i as int].0@ == kind@);
                    lemma_first_match_is_found(self.entries@, kind@, i as int);
                }
                let k = self.entries[i].0.clone();
                let newv = self.entries[i].1 + v;
                self.entries.set(i, (k, newv));
                proof {
                    lemma_find_val_set(
                        old(self).entries_spec(),
                        self.entries@,
                        i as int,
                        kind@,
                    );
                }
                return ;
            }
            i = i + 1;
        }
        proof {
            lemma_find_val_index_seq(self.entries@, kind@);
            assert(find_val(self.entries@, kind@) is None);
        }
        let k = kind.clone();
        self.entries.push((k, v));
        proof {
            lemma_find_val_push(old(self).entries_spec(), self.entries@[self.entries@.len() - 1]);
            assert(self.entries@ =~= old(self).entries_spec().push(
                self.entries@[self.entries@.len() - 1],
            ));
            assert forall|a: int, b: int|
                0 <= a < b < self.entries@.len() implies self.entries@[a].0@
                != self.entries@[b].0@ by {
                if b < self.entries@.len() - 1 {
                    assert(self.entries@[a] == old(self).entries_spec()[a]);
                    assert(self.entries@[b] == old(self).entries_spec()[b]);
                } else {
                    assert(self.entries@[a] == old(self).entries_spec()[a]);
                }
            }
        }
    }

    /// The raw aggregated value of `kind`.
    pub fn get_raw_carac(&self, kind: &CaracKind) -> (r: i64)
        ensures
            r as int == self.raw(kind@),
    {
        proof {
            lemma_find_val_index(*self, kind@);
        }
        let n = self.entries.len();
        let mut i: usize = 0;
        while i < n
            invariant
                0 <= i <= n,
                n == self.entries.len(),
                forall|j: int| 0 <= j < i ==> (#[trigger] self.entries@[j]).0@ != kind@,
            decreases n - i,
        {
            if self.entries[i].0.eq(kind) {
                proof {
                    lemma_first_match_is_found(self.entries@, kind@, i as int);
                }
                return self.entries[i].1;
            }
            i = i + 1;
        }
        proof {
            lemma_find_val_index_seq(self.entries@, kind@);
        }
        0
    }
}

/// When every entry before `i` misses and entry `i` matches, the lookup
/// returns entry `i`.
proof fn lemma_first_match_is_found(s: Seq<(CaracKind, i64)>, kind: CaracKindV, i: int)
    requires
        0 <= i < s.len(),
        s[i].0@ == kind,
        forall|j: int| 0 <= j < i ==> (#[trigger] s[j]).0@ != kind,
    ensures
        find_val(s, kind) == Some(s[i].1 as int),
    decreases i,
{
    if i > 0 {
        assert(s.drop_first()[i - 1] == s[i]);
        assert forall|j: int| 0 <= j < i - 1 implies (#[trigger] s.drop_first()[j]).0@ != kind by {
            assert(s.drop_first()[j] == s[j + 1]);
        }
        lemma_first_match_is_found(s.drop_first(), kind, i - 1);
    }
}

/// The innate baseline of each statistic: base vitality, action and
/// movement points, range one, one hundred points of each elemental
/// statistic, wisdom and prospecting, and a thousand initiative.
pub open spec fn base_carac(kind: CaracKindV) -> int {
    match kind {
        CaracKindV::Vitality => 1150,
        CaracKindV::AP => 8,
        CaracKindV::MP => 4,
        CaracKindV::Range => 1,
        CaracKindV::Stats(_) => 100,
        CaracKindV::Wisdom => 100,
        CaracKindV::Prospecting => 100,
        CaracKindV::Initiative => 1000,
        _ => 0,
    }
}

/// Signed division by ten, rounding toward zero as the machine does.
pub open spec fn div10_trunc(v: int) -> int {
    if v >= 0 {
        v / 10
    } else {
        -((-v) / 10)
    }
}

/// The effective value of `kind` over a raw table: the raw total plus the
/// baseline, with the derived-formula post-processing applied.
pub open spec fn get_carac_from(raw: spec_fn(CaracKindV) -> int, kind: CaracKindV) -> int {
    let res = raw(kind) + base_carac(kind);
    match kind {
        CaracKindV::AP => if res <= 12 {
            res
        } else {
            12
        },
        CaracKindV::MP => if res <= 6 {
            res
        } else {
            6
        },
        CaracKindV::Range => if res <= 6 {
            res
        } else {
            6
        },
        CaracKindV::Initiative => res + raw(CaracKindV::Stats(Element::Air)) + raw(
            CaracKindV::Stats(Element::Earth),
        ) + raw(CaracKindV::Stats(Element::Fire)) + raw(CaracKindV::Stats(Element::Water)),
        CaracKindV::Damage(_) => res + raw(CaracKindV::RawDamage),
        CaracKindV::Prospecting => res + div10_trunc(raw(CaracKindV::Stats(Element::Water))),
        CaracKindV::Pods => res + 5 * raw(CaracKindV::Stats(Element::Earth)),
        CaracKindV::Dodge => res + div10_trunc(raw(CaracKindV::Stats(Element::Air))),
        CaracKindV::Lock => res + div10_trunc(raw(CaracKindV::Stats(Element::Air))),
        CaracKindV::APReduction => res + div10_trunc(
            raw(CaracKindV::Wisdom) + base_carac(CaracKindV::Wisdom),
        ),
        CaracKindV::APResistance => res + div10_trunc(
            raw(CaracKindV::Wisdom) + base_carac(CaracKindV::Wisdom),
        ),
        CaracKindV::MPReduction => res + div10_trunc(
            raw(CaracKindV::Wisdom) + base_carac(CaracKindV::Wisdom),
        ),
        CaracKindV::MPResistance => res + div10_trunc(
            raw(CaracKindV::Wisdom) + base_carac(CaracKindV::Wisdom),
        ),
        CaracKindV::PerResistance(_) => if res <= 50 {
            res
        } else {
            50
        },
        _ => res,
    }
}

/// Signed division by ten, rounding toward zero.
fn div10(v: i64) -> (r: i64)
    requires
        -0x4000_0000_0000_0000 <= v <= 0x4000_0000_0000_0000,
    ensures
        r as int == div10_trunc(v as int),
{
    if v >= 0 {
        ((v as u64) / 10) as i64
    } else {
        -((((-v) as u64) / 10) as i64)
    }
}

impl RawCaracs {
    /// The innate baseline of `kind`.
    pub fn get_base_carac(&self, kind: &CaracKind) -> (r: i64)
        ensures
            r as int == base_carac(kind@),
    {
        match kind {
            CaracKind::Vitality => 1150,
            CaracKind::AP => 8,
            CaracKind::MP => 4,
            CaracKind::Range => 1,
            CaracKind::Stats(_) => 100,
            CaracKind::Wisdom => 100,
            CaracKind::Prospecting => 100,
            CaracKind::Initiative => 1000,
            _ => 0,
        }
    }

    /// The effective value of `kind`: raw total plus baseline, with caps and
    /// cross-fed derived formulas applied.
    pub fn get_carac(&self, kind: &CaracKind) -> (r: i64)
        requires
            self.wf(),
        ensures
            r as int == get_carac_from(self.raw_fn(), kind@),
    {
        proof {
            lemma_raw_bounded(*self, kind@);
            lemma_raw_bounded(*self, CaracKindV::Stats(Element::Air));
            lemma_raw_bounded(*self, CaracKindV::Stats(Element::Earth));
            lemma_raw_bounded(*self, CaracKindV::Stats(Element::Fire));
            lemma_raw_bounded(*self, CaracKindV::Stats(Element::Water));
            lemma_raw_bounded(*self, CaracKindV::RawDamage);
            lemma_raw_bounded(*self, CaracKindV::Wisdom);
        }
        let res = self.get_raw_carac(kind) + self.get_base_carac(kind);
        match kind {
            CaracKind::AP => if res <= 12 {
                res
            } else {
                12
            },
            CaracKind::MP => if res <= 6 {
                res
            } else {
                6
            },
            CaracKind::Range => if res <= 6 {
                res
            } else {
                6
            },
            CaracKind::Initiative => res + self.get_raw_carac(&CaracKind::Stats(Element::Air))
                + self.get_raw_carac(&CaracKind::Stats(Element::Earth)) + self.get_raw_carac(
                &CaracKind::Stats(Element::Fire),
            ) + self.get_raw_carac(&CaracKind::Stats(Element::Water)),
            CaracKind::Damage(_) => res + self.get_raw_carac(&CaracKind::RawDamage),
            CaracKind::Prospecting => res + div10(
                self.get_raw_carac(&CaracKind::Stats(Element::Water)),
            ),
            CaracKind::Pods => res + 5 * self.get_raw_carac(&CaracKind::Stats(Element::Earth)),
            CaracKind::Dodge => res + div10(self.get_raw_carac(&CaracKind::Stats(Element::Air))),
            CaracKind::Lock => res + div10(self.get_raw_carac(&CaracKind::Stats(Element::Air))),
            CaracKind::APReduction => res + div10(
                self.get_raw_carac(&CaracKind::Wisdom) + 100,
            ),
            CaracKind::APResistance => res + div10(
                self.get_raw_carac(&CaracKind::Wisdom) + 100,
            ),
            CaracKind::MPReduction => res + div10(
                self.get_raw_carac(&CaracKind::Wisdom) + 100,
            ),
            CaracKind::MPResistance => res + div10(
                self.get_raw_carac(&CaracKind::Wisdom) + 100,
            ),
            CaracKind::PerResistance(_) => if res <= 50 {
                res
            } else {
                50
            },
            _ => res,
        }
    }

    /// The sum of an elemental statistic and power: the "power statistic"
    /// that scales damages of that element. (See below for `get_caracs`.)
    pub fn pow_stats(&self, elem: Element) -> (r: i64)
        requires
            self.wf(),
        ensures
            r as int == get_carac_from(
                self.raw_fn(),
                CaracKindV::Stats(effective_stat_spec(elem)),
            ) + get_carac_from(self.raw_fn(), CaracKindV::Power),
    {
        proof {
            lemma_raw_bounded(*self, CaracKindV::Stats(effective_stat_spec(elem)));
            lemma_raw_bounded(*self, CaracKindV::Power);
        }
        let eff = elem.effective_stat();
        self.get_carac(&CaracKind::Stats(eff)) + self.get_carac(&CaracKind::Power)
    }
}

/// The conservative value of one line: the upper end of its bounds.
pub open spec fn line_value(l: crate::lines::CaracLineV) -> int {
    if l.min >= l.max {
        l.min
    } else {
        l.max
    }
}

/// The summed values of the lines of kind `kind` from index `from` on.
pub open spec fn lines_sum_from(
    lines: Seq<crate::lines::CaracLineV>,
    kind: CaracKindV,
    from: int,
) -> int
    decreases lines.len() - from,
{
    if from < 0 || from >= lines.len() {
        0
    } else {
        (if lines[from].kind == kind {
            line_value(lines[from])
        } else {
            0int
        }) + lines_sum_from(lines, kind, from + 1)
    }
}

/// With no matching line from `from` on, the sum is zero.
proof fn lemma_lines_sum_absent(lines: Seq<crate::lines::CaracLineV>, kind: CaracKindV, from: int)
    requires
        forall|i: int| from <= i < lines.len() ==> (#[trigger] lines[i]).kind != kind,
    ensures
        lines_sum_from(lines, kind, from) == 0,
    decreases lines.len() - from,
{
    if 0 <= from < lines.len() {
        lemma_lines_sum_absent(lines, kind, from + 1);
    }
}

/// Over lines with distinct kinds the sum from `from` equals the lookup of
/// the suffix.
proof fn lemma_lines_sum_is_bonus_from(
    lines: Seq<crate::lines::CaracLineV>,
    kind: CaracKindV,
    from: int,
)
    requires
        crate::lines::lines_distinct(lines),
        0 <= from <= lines.len(),
    ensures
        lines_sum_from(lines, kind, from) == line_bonus(lines.skip(from), kind),
    decreases lines.len() - from,
{
    if from == lines.len() {
        assert(lines.skip(from) =~= Seq::<crate::lines::CaracLineV>::empty());
    } else {
        assert(lines.skip(from)[0] == lines[from]);
        assert(lines.skip(from).drop_first() =~= lines.skip(from + 1));
        lemma_lines_sum_is_bonus_from(lines, kind, from + 1);
        if lines[from].kind == kind {
            assert forall|i: int| from + 1 <= i < lines.len() implies (#[trigger] lines[i]).kind
                != kind by {}
            lemma_lines_sum_absent(lines, kind, from + 1);
            lemma_lines_sum_is_bonus_from(lines, kind, from + 1);
        }
    }
}

/// Over lines with distinct kinds the whole sum is the lookup.
proof fn lemma_lines_sum_is_bonus(lines: Seq<crate::lines::CaracLineV>, kind: CaracKindV)
    requires
        crate::lines::lines_distinct(lines),
    ensures
        lines_sum_from(lines, kind, 0) == line_bonus(lines, kind),
{
    lemma_lines_sum_is_bonus_from(lines, kind, 0);
    assert(lines.skip(0) =~= lines);
}

/// Over lines with distinct kinds at most one line matches, so the sum fits
/// the line bounds.
proof fn lemma_lines_sum_bound(lines: Seq<crate::lines::CaracLineV>, kind: CaracKindV, from: int)
    requires
        crate::lines::lines_distinct(lines),
        forall|i: int|
            0 <= i < lines.len() ==> -32768 <= (#[trigger] lines[i]).min <= 32767 && -32768 <= lines[i].max
                <= 32767,
        0 <= from <= lines.len(),
    ensures
        -32768 <= lines_sum_from(lines, kind, from) <= 32767,
    decreases lines.len() - from,
{
    if from < lines.len() {
        lemma_lines_sum_bound(lines, kind, from + 1);
        if lines[from].kind == kind {
            assert forall|i: int| from + 1 <= i < lines.len() implies (#[trigger] lines[i]).kind
                != kind by {}
            lemma_lines_sum_absent(lines, kind, from + 1);
        }
    }
}

/// The per-kind contribution of the record equipped in slot `i`.
pub open spec fn item_contrib(
    slots: Seq<ItemSlotV>,
    catalog: Seq<Equipement>,
    kind: CaracKindV,
    i: int,
) -> int {
    match slots[i].item {
        Some(idx) => if 0 <= idx < catalog.len() {
            line_bonus(catalog[idx].statistics@, kind)
        } else {
            0
        },
        None => 0,
    }
}

/// The summed per-kind contributions of the records equipped from slot
/// `from` on.
pub open spec fn items_total_from(
    slots: Seq<ItemSlotV>,
    catalog: Seq<Equipement>,
    kind: CaracKindV,
    from: int,
) -> int
    decreases slots.len() - from,
{
    if from < 0 || from >= slots.len() {
        0
    } else {
        item_contrib(slots, catalog, kind, from) + items_total_from(slots, catalog, kind, from + 1)
    }
}

/// The per-kind bonus granted for wearing `count` pieces of set `sid`, read
/// from the bonus table entry for that exact count.
pub open spec fn set_bonus_value(
    sets: Seq<ItemSet>,
    sid: u64,
    count: int,
    kind: CaracKindV,
) -> int {
    match find_set(sets, sid) {
        Some(si) => match find_bonus(sets[si].bonus@, count as u8) {
            Some(lines) => line_bonus(lines@, kind),
            None => 0,
        },
        None => 0,
    }
}

/// The per-kind set-bonus contribution attributed to slot `i`: its set's
/// bonus, counted once per set at its first slot.
pub open spec fn bonus_contrib(
    slots: Seq<ItemSlotV>,
    catalog: Seq<Equipement>,
    sets: Seq<ItemSet>,
    kind: CaracKindV,
    i: int,
) -> int {
    match set_of_slot(slots, catalog, i) {
        Some(sid) => if first_occurrence(slots, catalog, i) {
            set_bonus_value(sets, sid, count_set(slots, catalog, sid), kind)
        } else {
            0
        },
        None => 0,
    }
}

/// The summed per-kind set-bonus contributions from slot `from` on.
pub open spec fn bonus_total_from(
    slots: Seq<ItemSlotV>,
    catalog: Seq<Equipement>,
    sets: Seq<ItemSet>,
    kind: CaracKindV,
    from: int,
) -> int
    decreases slots.len() - from,
{
    if from < 0 || from >= slots.len() {
        0
    } else {
        bonus_contrib(slots, catalog, sets, kind, from) + bonus_total_from(
            slots,
            catalog,
            sets,
            kind,
            from + 1,
        )
    }
}

/// The raw aggregated value of `kind` for a character: allocated points plus
/// item lines plus set bonuses.
pub open spec fn agg_carac(
    c: Character,
    catalog: Seq<Equipement>,
    sets: Seq<ItemSet>,
    kind: CaracKindV,
) -> int {
    c.allocation(kind) + items_total_from(c.slots_view(), catalog, kind, 0) + bonus_total_from(
        c.slots_view(),
        catalog,
        sets,
        kind,
        0,
    )
}

/// The raw aggregated table of a character, as a function of the kind.
pub open spec fn agg_fn(c: Character, catalog: Seq<Equipement>, sets: Seq<ItemSet>) -> spec_fn(
    CaracKindV,
) -> int {
    |k: CaracKindV| agg_carac(c, catalog, sets, k)
}

/// Every statistic line of every catalog record has distinct kinds.
pub open spec fn catalog_lines_wf(catalog: Seq<Equipement>) -> bool {
    forall|i: int| 0 <= i < catalog.len() ==> (#[trigger] catalog[i]).statistics.wf()
}

/// Every bonus table entry of every set has lines with distinct kinds.
pub open spec fn sets_lines_wf(sets: Seq<ItemSet>) -> bool {
    forall|i: int, j: int|
        0 <= i < sets.len() && 0 <= j < sets[i].bonus@.len() ==> (#[trigger] sets[i].bonus@[j]).1.wf()
}

/// Item contributions are bounded by the line bounds.
proof fn lemma_items_total_bound(
    slots: Seq<ItemSlotV>,
    catalog: Seq<Equipement>,
    kind: CaracKindV,
    from: int,
)
    requires
        0 <= from <= slots.len(),
    ensures
        -(slots.len() - from) * 32768 <= items_total_from(slots, catalog, kind, from) <= (
        slots.len() - from) * 32768,
    decreases slots.len() - from,
{
    if from < slots.len() {
        lemma_items_total_bound(slots, catalog, kind, from + 1);
        match slots[from].item {
            Some(idx) => {
                if 0 <= idx < catalog.len() {
                    lemma_line_bonus_bounded(catalog[idx].statistics, kind);
                }
            },
            None => {},
        }
    }
}

/// Set-bonus contributions are bounded by the line bounds.
proof fn lemma_bonus_total_bound(
    slots: Seq<ItemSlotV>,
    catalog: Seq<Equipement>,
    sets: Seq<ItemSet>,
    kind: CaracKindV,
    from: int,
)
    requires
        0 <= from <= slots.len(),
    ensures
        -(slots.len() - from) * 32768 <= bonus_total_from(slots, catalog, sets, kind, from) <= (
        slots.len() - from) * 32768,
    decreases slots.len() - from,
{
    if from < slots.len() {
        lemma_bonus_total_bound(slots, catalog, sets, kind, from + 1);
        lemma_bonus_contrib_bound(slots, catalog, sets, kind, from);
    }
}

/// One slot's set-bonus contribution is bounded by the line bounds.
proof fn lemma_bonus_contrib_bound(
    slots: Seq<ItemSlotV>,
    catalog: Seq<Equipement>,
    sets: Seq<ItemSet>,
    kind: CaracKindV,
    i: int,
)
    ensures
        -32768 <= bonus_contrib(slots, catalog, sets, kind, i) <= 32768,
{
    match set_of_slot(slots, catalog, i) {
        Some(sid) => {
            match find_set(sets, sid) {
                Some(si) => {
                    match find_bonus(
                        sets[si].bonus@,
                        count_set(slots, catalog, sid) as u8,
                    ) {
                        Some(lines) => {
                            lemma_line_bonus_bounded(lines, kind);
                        },
                        None => {},
                    }
                },
                None => {},
            }
        },
        None => {},
    }
}

/// Add every line of a record to the table: per kind, the conservative roll
/// of its line, if any.
fn add_lines(acc: &mut RawCaracs, lines: &CaracLines)
    requires
        old(acc).wf(),
        lines.wf(),
        forall|k: CaracKindV|
            -(raw_bound() - 131072) <= #[trigger] old(acc).raw(k) <= raw_bound() - 131072,
    ensures
        final(acc).wf(),
        forall|k: CaracKindV|
            #[trigger] final(acc).raw(k) == old(acc).raw(k) + line_bonus(lines@, k),
{
    let ghost lv = lines@;
    proof {
        lemma_lines_all_bounded(*lines);
    }
    let entries = lines.as_map();
    let m = entries.len();
    let mut j: usize = 0;
    while j < m
        invariant
            0 <= j <= m,
            m == entries.len(),
            entries@.map_values(|line: CaracLine| line@) == lv,
            lv == lines@,
            lines.wf(),
            acc.wf(),
            forall|i: int|
                0 <= i < lv.len() ==> -32768 <= (#[trigger] lv[i]).min <= 32767 && -32768
                    <= lv[i].max <= 32767,
            forall|k: CaracKindV|
                -(raw_bound() - 131072) <= #[trigger] old(acc).raw(k) <= raw_bound() - 131072,
            forall|k: CaracKindV|
                #[trigger] acc.raw(k) == old(acc).raw(k) + (lines_sum_from(lv, k, 0)
                    - lines_sum_from(lv, k, j as int)),
        decreases m - j,
    {
        proof {
            assert(lv[j as int] == entries@[j as int]@);
        }
        let line = &entries[j];
        let v: i64 = if line.min >= line.max {
            line.min as i64
        } else {
            line.max as i64
        };
        proof {
            assert(v as int == line_value(lv[j as int]));
            lemma_lines_sum_bound(lv, line.kind@, 0);
            lemma_lines_sum_bound(lv, line.kind@, j as int);
        }
        acc.add_value(&line.kind, v);
        proof {
            assert forall|k: CaracKindV| #[trigger]
                acc.raw(k) == old(acc).raw(k) + (lines_sum_from(lv, k, 0) - lines_sum_from(
                lv,
                k,
                j + 1,
            )) by {
                assert(lines_sum_from(lv, k, j as int) == (if lv[j as int].kind == k {
                    line_value(lv[j as int])
                } else {
                    0int
                }) + lines_sum_from(lv, k, j + 1));
            }
        }
        j = j + 1;
    }
    proof {
        assert forall|k: CaracKindV| #[trigger]
            final(acc).raw(k) == old(acc).raw(k) + line_bonus(lines@, k) by {
            assert(lines_sum_from(lv, k, m as int) == 0);
            lemma_lines_sum_is_bonus(lv, k);
        }
    }
}

/// The set identity of the record in slot `i` of a character, if any.
pub(crate) fn slot_set_of(c: &Character, catalog: &Vec<Equipement>, i: usize) -> (r: Option<u64>)
    requires
        i < c.slots_view().len(),
        slots_in_catalog(c.slots_view(), catalog@),
    ensures
        r == set_of_slot(c.slots_view(), catalog@, i as int),
{
    let slots = c.slots();
    proof {
        assert(slots@[i as int]@ == c.slots_view()[i as int]);
    }
    match slots[i].get_item() {
        Some(idx) => catalog[idx].set_id,
        None => None,
    }
}

impl Character {
    /// The derived raw statistic table of this snapshot: per kind, the
    /// allocated points, plus the conservative roll of every equipped
    /// record's line, plus the set bonuses earned by the exact piece count
    /// of every worn set.
    #[verifier::rlimit(100)]
    pub fn get_caracs(&self, catalog: &Vec<Equipement>, sets: &Vec<ItemSet>) -> (r: RawCaracs)
        requires
            slots_in_catalog(self.slots_view(), catalog@),
            self.slots_view().len() == slot_count(),
            catalog_lines_wf(catalog@),
            sets_lines_wf(sets@),
        ensures
            r.wf(),
            forall|k: CaracKindV| #[trigger] r.raw(k) == agg_carac(*self, catalog@, sets@, k),
    {
        let ghost sv = self.slots_view();
        let ghost cv = catalog@;
        let ghost stv = sets@;
        let mut acc = RawCaracs::new();
        acc.add_value(&CaracKind::Vitality, self.base_stats().get(&CaracKind::Vitality) as i64);
        acc.add_value(&CaracKind::Wisdom, self.base_stats().get(&CaracKind::Wisdom) as i64);
        acc.add_value(
            &CaracKind::Stats(Element::Earth),
            self.base_stats().get(&CaracKind::Stats(Element::Earth)) as i64,
        );
        acc.add_value(
            &CaracKind::Stats(Element::Water),
            self.base_stats().get(&CaracKind::Stats(Element::Water)) as i64,
        );
        acc.add_value(
            &CaracKind::Stats(Element::Air),
            self.base_stats().get(&CaracKind::Stats(Element::Air)) as i64,
        );
        acc.add_value(
            &CaracKind::Stats(Element::Fire),
            self.base_stats().get(&CaracKind::Stats(Element::Fire)) as i64,
        );
        acc.add_value(
            &CaracKind::Stats(Element::Neutral),
            self.base_stats().get(&CaracKind::Stats(Element::Neutral)) as i64,
        );
        proof {
            assert forall|k: CaracKindV| #[trigger] acc.raw(k) == self.allocation(k) by {}
        }
        let n = self.slot_len();
        let mut i: usize = 0;
        while i < n
            invariant
                0 <= i <= n,
                n == self.slots_view().len(),
                sv == self.slots_view(),
                cv == catalog@,
                sv.len() == slot_count(),
                slots_in_catalog(sv, cv),
                catalog_lines_wf(cv),
                acc.wf(),
                forall|k: CaracKindV|
                    #[trigger] acc.raw(k) == self.allocation(k) + (items_total_from(sv, cv, k, 0)
                        - items_total_from(sv, cv, k, i as int)),
            decreases n - i,
        {
            let slots = self.slots();
            proof {
                assert(slots@[i as int]@ == sv[i as int]);
            }
            match slots[i].get_item() {
                Some(idx) => {
                    proof {
                        assert(sv[i as int].item == Some(idx as int));
                        assert forall|k: CaracKindV|
                            -(raw_bound() - 131072) <= #[trigger] acc.raw(k) <= raw_bound()
                                - 131072 by {
                            lemma_items_total_bound(sv, cv, k, 0);
                            lemma_items_total_bound(sv, cv, k, i as int);
                        }
                    }
                    let ghost pre = acc;
                    add_lines(&mut acc, &catalog[idx].statistics);
                    proof {
                        assert forall|k: CaracKindV| #[trigger]
                            acc.raw(k) == self.allocation(k) + (items_total_from(sv, cv, k, 0)
                                - items_total_from(sv, cv, k, i + 1)) by {
                            assert(acc.raw(k) == pre.raw(k) + line_bonus(cv[idx as int].statistics@, k));
                            assert(items_total_from(sv, cv, k, i as int) == item_contrib(
                                sv,
                                cv,
                                k,
                                i as int,
                            ) + items_total_from(sv, cv, k, i + 1));
                            assert(item_contrib(sv, cv, k, i as int) == line_bonus(
                                cv[idx as int].statistics@,
                                k,
                            ));
                        }
                    }
                },
                None => {
                    proof {
                        assert(sv[i as int].item is None);
                        assert forall|k: CaracKindV| #[trigger]
                            acc.raw(k) == self.allocation(k) + (items_total_from(sv, cv, k, 0)
                                - items_total_from(sv, cv, k, i + 1)) by {
                            assert(items_total_from(sv, cv, k, i as int) == item_contrib(
                                sv,
                                cv,
                                k,
                                i as int,
                            ) + items_total_from(sv, cv, k, i + 1));
                            assert(item_contrib(sv, cv, k, i as int) == 0);
                        }
                    }
                },
            }
            i = i + 1;
        }
        proof {
            assert forall|k: CaracKindV| #[trigger]
                acc.raw(k) == self.allocation(k) + items_total_from(sv, cv, k, 0) by {
                assert(items_total_from(sv, cv, k, n as int) == 0);
            }
        }
        // set bonuses, once per worn set, at its first slot
        let mut i2: usize = 0;
        while i2 < n
            invariant
                0 <= i2 <= n,
                n == self.slots_view().len(),
                sv == self.slots_view(),
                cv == catalog@,
                stv == sets@,
                sv.len() == slot_count(),
                slots_in_catalog(sv, cv),
                catalog_lines_wf(cv),
                sets_lines_wf(stv),
                acc.wf(),
                forall|k: CaracKindV|
                    #[trigger] acc.raw(k) == self.allocation(k) + items_total_from(sv, cv, k, 0)
                        + (bonus_total_from(sv, cv, stv, k, 0) - bonus_total_from(
                        sv,
                        cv,
                        stv,
                        k,
                        i2 as int,
                    )),
            decreases n - i2,
        {
            let ghost pre = acc;
            match slot_set_of(self, catalog, i2) {
                Some(sid) => {
                    // is this the first slot of that set?
                    let mut j: usize = 0;
                    let mut first = true;
                    while j < i2
                        invariant
                            0 <= j <= i2 < n,
                            n == self.slots_view().len(),
                            sv == self.slots_view(),
                            cv == catalog@,
                            slots_in_catalog(sv, cv),
                            set_of_slot(sv, cv, i2 as int) == Some(sid),
                            first <==> (forall|j2: int|
                                0 <= j2 < j ==> set_of_slot(sv, cv, j2) != Some(sid)),
                        decreases i2 - j,
                    {
                        match slot_set_of(self, catalog, j) {
                            Some(other) => {
                                if other == sid {
                                    first = false;
                                }
                            },
                            None => {},
                        }
                        j = j + 1;
                    }
                    if first {
                        // count the worn pieces of that set
                        let mut k2: usize = 0;
                        let mut cnt: u8 = 0;
                        while k2 < n
                            invariant
                                0 <= k2 <= n,
                                n == self.slots_view().len(),
                                sv == self.slots_view(),
                                sv.len() == slot_count(),
                                cv == catalog@,
                                slots_in_catalog(sv, cv),
                                cnt as int + count_set_from(sv, cv, sid, k2 as int) == count_set(
                                    sv,
                                    cv,
                                    sid,
                                ),
                                cnt as int <= k2,
                            decreases n - k2,
                        {
                            match slot_set_of(self, catalog, k2) {
                                Some(other) => {
                                    if other == sid {
                                        cnt = cnt + 1;
                                    }
                                },
                                None => {},
                            }
                            k2 = k2 + 1;
                        }
                        proof {
                            assert(count_set_from(sv, cv, sid, n as int) == 0);
                            assert(cnt as int == count_set(sv, cv, sid));
                        }
                        match crate::equipment::set_by_id(sets, sid) {
                            Some(set) => {
                                match set.bonus_for(cnt) {
                                    Some(bonus_lines) => {
                                        proof {
                                            assert forall|k: CaracKindV|
                                                -(raw_bound() - 131072) <= #[trigger] acc.raw(k)
                                                    <= raw_bound() - 131072 by {
                                                lemma_items_total_bound(sv, cv, k, 0);
                                                lemma_bonus_total_bound(sv, cv, stv, k, 0);
                                                lemma_bonus_total_bound(sv, cv, stv, k, i2 as int);
                                            }
                                            lemma_find_set_range(stv, sid);
                                            let si = find_set(stv, sid).unwrap();
                                            assert(*set == stv[si]);
                                            lemma_find_bonus_index(set.bonus@, cnt);
                                            let bj = choose|bj: int|
                                                0 <= bj < set.bonus@.len() && (
                                                #[trigger] set.bonus@[bj]).0 == cnt
                                                    && set.bonus@[bj].1 == *bonus_lines;
                                            assert(stv[si].bonus@[bj].1 == *bonus_lines);
                                            assert((stv[si].bonus@[bj]).1.wf());
                                            assert(bonus_lines.wf());
                                        }
                                        add_lines(&mut acc, bonus_lines);
                                        proof {
                                            assert forall|k: CaracKindV| #[trigger]
                                                acc.raw(k) == pre.raw(k) + bonus_contrib(
                                                sv,
                                                cv,
                                                stv,
                                                k,
                                                i2 as int,
                                            ) by {
                                                assert(first_occurrence(sv, cv, i2 as int));
                                                assert(bonus_contrib(sv, cv, stv, k, i2 as int)
                                                    == set_bonus_value(
                                                    stv,
                                                    sid,
                                                    count_set(sv, cv, sid),
                                                    k,
                                                ));
                                                assert(set_bonus_value(
                                                    stv,
                                                    sid,
                                                    count_set(sv, cv, sid),
                                                    k,
                                                ) == line_bonus(bonus_lines@, k));
                                            }
                                        }
                                    },
                                    None => {
                                        proof {
                                            assert forall|k: CaracKindV| #[trigger]
                                                bonus_contrib(sv, cv, stv, k, i2 as int) == 0 by {
                                                assert(first_occurrence(sv, cv, i2 as int));
                                            }
                                        }
                                    },
                                }
                            },
                            None => {
                                proof {
                                    assert forall|k: CaracKindV| #[trigger]
                                        bonus_contrib(sv, cv, stv, k, i2 as int) == 0 by {}
                                }
                            },
                        }
                    } else {
                        proof {
                            assert(!first_occurrence(sv, cv, i2 as int));
                            assert forall|k: CaracKindV| #[trigger]
                                bonus_contrib(sv, cv, stv, k, i2 as int) == 0 by {}
                        }
                    }
                },
                None => {
                    proof {
                        assert forall|k: CaracKindV| #[trigger]
                            bonus_contrib(sv, cv, stv, k, i2 as int) == 0 by {}
                    }
                },
            }
            proof {
                assert forall|k: CaracKindV| #[trigger]
                    acc.raw(k) == self.allocation(k) + items_total_from(sv, cv, k, 0) + (
                bonus_total_from(sv, cv, stv, k, 0) - bonus_total_from(
                    sv,
                    cv,
                    stv,
                    k,
                    i2 + 1,
                )) by {
                    assert(bonus_total_from(sv, cv, stv, k, i2 as int) == bonus_contrib(
                        sv,
                        cv,
                        stv,
                        k,
                        i2 as int,
                    ) + bonus_total_from(sv, cv, stv, k, i2 + 1));
                }
            }
            i2 = i2 + 1;
        }
        proof {
            assert forall|k: CaracKindV| #[trigger]
                acc.raw(k) == agg_carac(*self, catalog@, sets@, k) by {
                assert(bonus_total_from(sv, cv, stv, k, n as int) == 0);
            }
        }
        acc
    }
}

/// A value that can be computed from a raw statistic table: a direct
/// statistic, or one of the composite metrics of the fitness evaluator.
#[derive(Debug)]
pub enum RawCaracsValue {
    Carac(CaracKind),
    PowStats(Element),
    MeanExtraDamage(Element),
    MeanDamage(crate::effect::SpellEffects),
    PerResVariance,
    Resiliance,
}

impl RawCaracsValue {
    /// Whether a smaller value of this metric is better: only the
    /// resistance-variance metric is minimized.
    pub fn is_decreasing(&self) -> (r: bool)
        ensures
            r == (*self is PerResVariance),
    {
        matches!(self, RawCaracsValue::PerResVariance)
    }
}

/// The effective statistic table of a raw table, as a function of the kind.
pub open spec fn derived_fn(raw: spec_fn(CaracKindV) -> int) -> spec_fn(CaracKindV) -> int {
    |k: CaracKindV| get_carac_from(raw, k)
}

/// Every effective value of a well-formed table is within a small multiple
/// of the raw bound.
pub proof fn lemma_get_carac_bound(rc: RawCaracs, kind: CaracKindV)
    requires
        rc.wf(),
    ensures
        -8 * raw_bound() <= get_carac_from(rc.raw_fn(), kind) <= 8 * raw_bound(),
{
    lemma_raw_bounded(rc, kind);
    lemma_raw_bounded(rc, CaracKindV::Stats(Element::Air));
    lemma_raw_bounded(rc, CaracKindV::Stats(Element::Earth));
    lemma_raw_bounded(rc, CaracKindV::Stats(Element::Fire));
    lemma_raw_bounded(rc, CaracKindV::Stats(Element::Water));
    lemma_raw_bounded(rc, CaracKindV::RawDamage);
    lemma_raw_bounded(rc, CaracKindV::Wisdom);
}

} // verus!
