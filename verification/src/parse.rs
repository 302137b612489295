//! Parsing of catalog text: statistic names, condition strings, and the
//! assembly of statistic lines from raw record entries.
//!
//! The condition grammar is a conjunction of clauses separated by " and ",
//! each clause a disjunction of atoms separated by " or "; an atom is a
//! statistic comparison `name sign threshold` with a strict sign and a
//! decimal threshold reaching the end of the atom, or an opaque fragment.

use vstd::prelude::*;

use crate::carac::{CaracKind, CaracKindV, Element};
use crate::condition::ConditionAtom;
use crate::lines::{find_line, CaracLine, CaracLineV, CaracLines};

verus! {

/// Equality of two strings, decided character by character.
fn str_eq(a: &str, b: &str) -> (r: bool)
    ensures
        r == (a@ == b@),
{
    let na = a.unicode_len();
    let nb = b.unicode_len();
    if na != nb {
        return false;
    }
    let mut i: usize = 0;
    while i < na
        invariant
            0 <= i <= na,
            na == a@.len(),
            nb == b@.len(),
            na == nb,
            forall|j: int| 0 <= j < i ==> a@[j] == b@[j],
        decreases na - i,
    {
        if a.get_char(i) != b.get_char(i) {
            return false;
        }
        i = i + 1;
    }
    proof {
        assert(a@ =~= b@);
    }
    true
}

/// The statistic kind named by a label of the catalog's vocabulary; an
/// unrecognized label maps to the residual kind carrying the label itself.
pub open spec fn kind_of_name(s: Seq<char>) -> CaracKindV {
    if s == "Agility"@ {
        CaracKindV::Stats(Element::Air)
    } else if s == "Air Damage"@ {
        CaracKindV::Damage(Element::Air)
    } else if s == "% Air Resistance"@ {
        CaracKindV::PerResistance(Element::Air)
    } else if s == "Air Resistance"@ {
        CaracKindV::Resistance(Element::Air)
    } else if s == "AP"@ {
        CaracKindV::AP
    } else if s == "AP Reduction"@ {
        CaracKindV::APReduction
    } else if s == "AP Resistance"@ || s == "AP Parry"@ {
        CaracKindV::APResistance
    } else if s == "Chance"@ {
        CaracKindV::Stats(Element::Water)
    } else if s == "% Critical"@ || s == "Critical"@ {
        CaracKindV::Critical
    } else if s == "Critical Damage"@ {
        CaracKindV::CriticalDamage
    } else if s == "Critical Resistance"@ {
        CaracKindV::CriticalResistance
    } else if s == "Damage"@ {
        CaracKindV::RawDamage
    } else if s == "Dodge"@ {
        CaracKindV::Dodge
    } else if s == "Earth Damage"@ {
        CaracKindV::Damage(Element::Earth)
    } else if s == "% Earth Resistance"@ {
        CaracKindV::PerResistance(Element::Earth)
    } else if s == "Earth Resistance"@ {
        CaracKindV::Resistance(Element::Earth)
    } else if s == "Fire Damage"@ {
        CaracKindV::Damage(Element::Fire)
    } else if s == "% Fire Resistance"@ {
        CaracKindV::PerResistance(Element::Fire)
    } else if s == "Fire Resistance"@ {
        CaracKindV::Resistance(Element::Fire)
    } else if s == "Heals"@ {
        CaracKindV::Heals
    } else if s == "Initiative"@ {
        CaracKindV::Initiative
    } else if s == "Intelligence"@ {
        CaracKindV::Stats(Element::Fire)
    } else if s == "Lock"@ {
        CaracKindV::Lock
    } else if s == "% Melee Damage"@ {
        CaracKindV::PerMeleeDamage
    } else if s == "% Melee Resistance"@ {
        CaracKindV::PerMeleeResistance
    } else if s == "MP"@ {
        CaracKindV::MP
    } else if s == "MP Reduction"@ {
        CaracKindV::MPReduction
    } else if s == "MP Resistance"@ || s == "MP Parry"@ {
        CaracKindV::MPResistance
    } else if s == "Neutral Damage"@ {
        CaracKindV::Damage(Element::Neutral)
    } else if s == "% Neutral Resistance"@ {
        CaracKindV::PerResistance(Element::Neutral)
    } else if s == "Neutral Resistance"@ {
        CaracKindV::Resistance(Element::Neutral)
    } else if s == "Pods"@ {
        CaracKindV::Pods
    } else if s == "Power"@ {
        CaracKindV::Power
    } else if s == "Power (traps)"@ {
        CaracKindV::TrapPower
    } else if s == "Prospecting"@ {
        CaracKindV::Prospecting
    } else if s == "Pushback Damage"@ {
        CaracKindV::PushbackDamage
    } else if s == "Pushback Resistance"@ {
        CaracKindV::PushbackResistance
    } else if s == "% Ranged Damage"@ {
        CaracKindV::PerRangedDamage
    } else if s == "% Ranged Resistance"@ {
        CaracKindV::PerRangedResistance
    } else if s == "Range"@ {
        CaracKindV::Range
    } else if s == "Reflects  damage"@ {
        CaracKindV::ReflectDamage
    } else if s == "% Spell Damage"@ {
        CaracKindV::PerSpellDamage
    } else if s == "Strength"@ {
        CaracKindV::Stats(Element::Earth)
    } else if s == "Summons"@ {
        CaracKindV::Summons
    } else if s == "Trap Damage"@ {
        CaracKindV::TrapDamage
    } else if s == "Vitality"@ {
        CaracKindV::Vitality
    } else if s == "Water Damage"@ {
        CaracKindV::Damage(Element::Water)
    } else if s == "% Water Resistance"@ {
        CaracKindV::PerResistance(Element::Water)
    } else if s == "Water Resistance"@ {
        CaracKindV::Resistance(Element::Water)
    } else if s == "% Weapon Damage"@ {
        CaracKindV::PerWeaponDamage
    } else if s == "Wisdom"@ {
        CaracKindV::Wisdom
    } else {
        CaracKindV::Special(s)
    }
}

impl CaracKind {
    /// Parse a statistic label of the catalog's vocabulary; an unrecognized
    /// label becomes the residual kind carrying the label.
    #[verifier::rlimit(100)]
    pub fn from_name(s: &str) -> (r: CaracKind)
        ensures
            r@ == kind_of_name(s@),
    {
        if str_eq(s, "Agility") {
            CaracKind::Stats(Element::Air)
        } else if str_eq(s, "Air Damage") {
            CaracKind::Damage(Element::Air)
        } else if str_eq(s, "% Air Resistance") {
            CaracKind::PerResistance(Element::Air)
        } else if str_eq(s, "Air Resistance") {
            CaracKind::Resistance(Element::Air)
        } else if str_eq(s, "AP") {
            CaracKind::AP
        } else if str_eq(s, "AP Reduction") {
            CaracKind::APReduction
        } else if str_eq(s, "AP Resistance") || str_eq(s, "AP Parry") {
            CaracKind::APResistance
        } else if str_eq(s, "Chance") {
            CaracKind::Stats(Element::Water)
        } else if str_eq(s, "% Critical") || str_eq(s, "Critical") {
            CaracKind::Critical
        } else if str_eq(s, "Critical Damage") {
            CaracKind::CriticalDamage
        } else if str_eq(s, "Critical Resistance") {
            CaracKind::CriticalResistance
        } else if str_eq(s, "Damage") {
            CaracKind::RawDamage
        } else if str_eq(s, "Dodge") {
            CaracKind::Dodge
        } else if str_eq(s, "Earth Damage") {
            CaracKind::Damage(Element::Earth)
        } else if str_eq(s, "% Earth Resistance") {
            CaracKind::PerResistance(Element::Earth)
        } else if str_eq(s, "Earth Resistance") {
            CaracKind::Resistance(Element::Earth)
        } else if str_eq(s, "Fire Damage") {
            CaracKind::Damage(Element::Fire)
        } else if str_eq(s, "% Fire Resistance") {
            CaracKind::PerResistance(Element::Fire)
        } else if str_eq(s, "Fire Resistance") {
            CaracKind::Resistance(Element::Fire)
        } else if str_eq(s, "Heals") {
            CaracKind::Heals
        } else if str_eq(s, "Initiative") {
            CaracKind::Initiative
        } else if str_eq(s, "Intelligence") {
            CaracKind::Stats(Element::Fire)
        } else if str_eq(s, "Lock") {
            CaracKind::Lock
        } else if str_eq(s, "% Melee Damage") {
            CaracKind::PerMeleeDamage
        } else if str_eq(s, "% Melee Resistance") {
            CaracKind::PerMeleeResistance
        } else if str_eq(s, "MP") {
            CaracKind::MP
        } else if str_eq(s, "MP Reduction") {
            CaracKind::MPReduction
        } else if str_eq(s, "MP Resistance") || str_eq(s, "MP Parry") {
            CaracKind::MPResistance
        } else if str_eq(s, "Neutral Damage") {
            CaracKind::Damage(Element::Neutral)
        } else if str_eq(s, "% Neutral Resistance") {
            CaracKind::PerResistance(Element::Neutral)
        } else if str_eq(s, "Neutral Resistance") {
            CaracKind::Resistance(Element::Neutral)
        } else if str_eq(s, "Pods") {
            CaracKind::Pods
        } else if str_eq(s, "Power") {
            CaracKind::Power
        } else if str_eq(s, "Power (traps)") {
            CaracKind::TrapPower
        } else if str_eq(s, "Prospecting") {
            CaracKind::Prospecting
        } else if str_eq(s, "Pushback Damage") {
            CaracKind::PushbackDamage
        } else if str_eq(s, "Pushback Resistance") {
            CaracKind::PushbackResistance
        } else if str_eq(s, "% Ranged Damage") {
            CaracKind::PerRangedDamage
        } else if str_eq(s, "% Ranged Resistance") {
            CaracKind::PerRangedResistance
        } else if str_eq(s, "Range") {
            CaracKind::Range
        } else if str_eq(s, "Reflects  damage") {
            CaracKind::ReflectDamage
        } else if str_eq(s, "% Spell Damage") {
            CaracKind::PerSpellDamage
        } else if str_eq(s, "Strength") {
            CaracKind::Stats(Element::Earth)
        } else if str_eq(s, "Summons") {
            CaracKind::Summons
        } else if str_eq(s, "Trap Damage") {
            CaracKind::TrapDamage
        } else if str_eq(s, "Vitality") {
            CaracKind::Vitality
        } else if str_eq(s, "Water Damage") {
            CaracKind::Damage(Element::Water)
        } else if str_eq(s, "% Water Resistance") {
            CaracKind::PerResistance(Element::Water)
        } else if str_eq(s, "Water Resistance") {
            CaracKind::Resistance(Element::Water)
        } else if str_eq(s, "% Weapon Damage") {
            CaracKind::PerWeaponDamage
        } else if str_eq(s, "Wisdom") {
            CaracKind::Wisdom
        } else {
            CaracKind::Special(s.to_owned())
        }
    }
}

/// One raw entry of a record's statistic list: a statistic line with its
/// optional minimum and maximum rolls, or a decorative (emote or title)
/// entry that grants nothing.
#[derive(Debug)]
pub enum CaracEntry {
    Stat(CaracKind, Option<i16>, Option<i16>),
    Decorative,
}

/// The bounds a raw entry denotes: a missing minimum defaults to zero, a
/// missing maximum to the minimum.
pub open spec fn entry_bounds(min: Option<i16>, max: Option<i16>) -> (int, int) {
    let mn: int = match min {
        Some(v) => v as int,
        None => 0,
    };
    let mx: int = match max {
        Some(v) => v as int,
        None => mn,
    };
    (mn, mx)
}

/// The bounds the last matching entry of the list gives to `kind`, if any
/// entry matches.
pub open spec fn last_entry_bounds(entries: Seq<CaracEntry>, kind: CaracKindV) -> Option<
    (int, int),
>
    decreases entries.len(),
{
    if entries.len() == 0 {
        None
    } else {
        match entries.last() {
            CaracEntry::Stat(k, mn, mx) => if k@ == kind {
                Some(entry_bounds(mn, mx))
            } else {
                last_entry_bounds(entries.drop_last(), kind)
            },
            CaracEntry::Decorative => last_entry_bounds(entries.drop_last(), kind),
        }
    }
}

impl CaracLines {
    /// Assemble the statistic lines of a record from its raw entries, in
    /// order: a later entry of a kind overwrites an earlier one, decorative
    /// entries are ignored, a missing minimum defaults to zero and a
    /// missing maximum to the minimum.
    pub fn from_entries(entries: Vec<CaracEntry>) -> (r: CaracLines)
        ensures
            r.wf(),
            forall|k: CaracKindV|
                #[trigger] find_line(r@, k) == match last_entry_bounds(entries@, k) {
                    Some((mn, mx)) => Some(CaracLineV { kind: k, min: mn, max: mx }),
                    None => None::<CaracLineV>,
                },
    {
        let ghost ev = entries@;
        let mut r = CaracLines::new();
        let n = entries.len();
        let mut i: usize = 0;
        proof {
            assert(ev.take(0) =~= Seq::<CaracEntry>::empty());
        }
        while i < n
            invariant
                0 <= i <= n,
                n == entries@.len(),
                ev == entries@,
                r.wf(),
                forall|k: CaracKindV|
                    #[trigger] find_line(r@, k) == match last_entry_bounds(ev.take(i as int), k) {
                        Some((mn, mx)) => Some(CaracLineV { kind: k, min: mn, max: mx }),
                        None => None::<CaracLineV>,
                    },
            decreases n - i,
        {
            proof {
                assert(ev.take(i + 1).drop_last() =~= ev.take(i as int));
                assert(ev.take(i + 1).last() == ev[i as int]);
            }
            match &entries[i] {
                CaracEntry::Stat(kind, min, max) => {
                    let mn: i16 = match min {
                        Some(v) => *v,
                        None => 0,
                    };
                    let mx: i16 = match max {
                        Some(v) => *v,
                        None => mn,
                    };
                    r.set_bounds(kind, mn, mx);
                },
                CaracEntry::Decorative => {},
            }
            i = i + 1;
        }
        proof {
            assert(ev.take(n as int) =~= ev);
        }
        r
    }
}

/// The first index where `pat` occurs in `s`, if any.
pub open spec fn find_sub_spec(s: Seq<char>, pat: Seq<char>) -> Option<int>
    decreases s.len(),
{
    if pat.len() == 0 {
        Some(0)
    } else if s.len() < pat.len() {
        None
    } else if s.take(pat.len() as int) == pat {
        Some(0)
    } else {
        match find_sub_spec(s.drop_first(), pat) {
            Some(i) => Some(i + 1),
            None => None,
        }
    }
}

/// A found occurrence is in range and matches.
proof fn lemma_find_sub_range(s: Seq<char>, pat: Seq<char>)
    requires
        pat.len() >= 1,
    ensures
        match find_sub_spec(s, pat) {
            Some(i) => 0 <= i && i + pat.len() <= s.len() && s.subrange(i, i + pat.len()) == pat,
            None => true,
        },
    decreases s.len(),
{
    if s.len() >= pat.len() && s.take(pat.len() as int) != pat {
        lemma_find_sub_range(s.drop_first(), pat);
        match find_sub_spec(s.drop_first(), pat) {
            Some(i) => {
                assert(s.drop_first().subrange(i, i + pat.len()) =~= s.subrange(
                    i + 1,
                    i + 1 + pat.len(),
                ));
            },
            None => {},
        }
    } else if s.len() >= pat.len() {
        assert(s.take(pat.len() as int) =~= s.subrange(0, pat.len() as int));
    }
}

/// Whether `pat` occurs in `s` starting at `at`.
fn match_at(s: &str, n: usize, at: usize, pat: &str, m: usize) -> (r: bool)
    requires
        n == s@.len(),
        m == pat@.len(),
        at + m <= n,
    ensures
        r == (s@.subrange(at as int, at as int + m) == pat@),
{
    let mut j: usize = 0;
    while j < m
        invariant
            0 <= j <= m,
            n == s@.len(),
            m == pat@.len(),
            at + m <= n,
            forall|k: int| 0 <= k < j ==> s@[at + k] == pat@[k],
        decreases m - j,
    {
        if s.get_char(at + j) != pat.get_char(j) {
            proof {
                assert(s@.subrange(at as int, at as int + m)[j as int] == s@[at + j]);
            }
            return false;
        }
        j = j + 1;
    }
    proof {
        assert(s@.subrange(at as int, at as int + m) =~= pat@);
    }
    true
}

/// The first occurrence of `pat` in `s`, if any.
fn find_sub(s: &str, pat: &str) -> (r: Option<usize>)
    requires
        pat@.len() >= 1,
    ensures
        match r {
            Some(i) => find_sub_spec(s@, pat@) == Some(i as int),
            None => find_sub_spec(s@, pat@) is None,
        },
{
    let n = s.unicode_len();
    let m = pat.unicode_len();
    if n < m {
        return None;
    }
    let mut i: usize = 0;
    proof {
        assert(s@.skip(0) =~= s@);
    }
    while i <= n - m
        invariant
            0 <= i <= n - m + 1,
            m >= 1,
            m <= n,
            n == s@.len(),
            m == pat@.len(),
            find_sub_spec(s@, pat@) == match find_sub_spec(s@.skip(i as int), pat@) {
                Some(k) => Some(k + i as int),
                None => None::<int>,
            },
        decreases n - i,
    {
        proof {
            assert(s@.skip(i as int).take(m as int) =~= s@.subrange(i as int, i as int + m));
            assert(s@.skip(i as int).drop_first() =~= s@.skip(i + 1));
        }
        if match_at(s, n, i, pat, m) {
            proof {
                assert(s@.skip(i as int).take(m as int) == pat@);
            }
            return Some(i);
        }
        i = i + 1;
    }
    proof {
        assert(s@.skip(i as int).len() < pat@.len());
    }
    None
}

/// Whether `c` is a decimal digit.
pub open spec fn is_digit(c: char) -> bool {
    '0' <= c && c <= '9'
}

/// Every character of `s` is a decimal digit.
pub open spec fn all_digits(s: Seq<char>) -> bool {
    forall|i: int| 0 <= i < s.len() ==> is_digit(#[trigger] s[i])
}

/// The decimal value of a digit string.
pub open spec fn digits_val(s: Seq<char>) -> int
    decreases s.len(),
{
    if s.len() == 0 {
        0
    } else {
        digits_val(s.drop_last()) * 10 + (s.last() as int - 48)
    }
}

/// Whether a comparison separator sits at `i`: a space, a strict sign, a
/// space, and a non-empty all-digit suffix reaching the end, with at least
/// one character of name before it.
pub open spec fn sep_at(s: Seq<char>, i: int) -> bool {
    &&& 1 <= i
    &&& i + 3 < s.len()
    &&& s[i] == ' '
    &&& (s[i + 1] == '<' || s[i + 1] == '>')
    &&& s[i + 2] == ' '
    &&& all_digits(s.skip(i + 3))
}

/// The rightmost separator position at or below `i`, if any.
pub open spec fn find_sep_from(s: Seq<char>, i: int) -> Option<int>
    decreases i + 1,
{
    if i < 1 {
        None
    } else if sep_at(s, i) {
        Some(i)
    } else {
        find_sep_from(s, i - 1)
    }
}

/// The atom a fragment parses to: a statistic comparison when the fragment
/// has the shape `name sign digits` with a threshold that fits its storage,
/// an opaque fragment otherwise.
pub open spec fn parse_atom_spec(s: Seq<char>) -> crate::condition::ConditionAtomV {
    match find_sep_from(s, s.len() - 4) {
        Some(i) => {
            let v = digits_val(s.skip(i + 3));
            if v <= 32767 {
                crate::condition::ConditionAtomV::Stats(
                    kind_of_name(s.take(i)),
                    if s[i + 1] == '<' {
                        core::cmp::Ordering::Less
                    } else {
                        core::cmp::Ordering::Greater
                    },
                    v,
                )
            } else {
                crate::condition::ConditionAtomV::Other(s)
            }
        },
        None => crate::condition::ConditionAtomV::Other(s),
    }
}

/// The atoms of one clause: fragments separated by " or ".
pub open spec fn parse_clause_spec(s: Seq<char>) -> Seq<crate::condition::ConditionAtomV>
    decreases s.len(),
{
    match find_sub_spec(s, " or "@) {
        Some(i) => if 0 <= i && i + 4 <= s.len() {
            seq![parse_atom_spec(s.take(i))] + parse_clause_spec(s.skip(i + 4))
        } else {
            seq![parse_atom_spec(s)]
        },
        None => seq![parse_atom_spec(s)],
    }
}

/// The clauses of a condition: fragments separated by " and ".
pub open spec fn parse_condition_spec(s: Seq<char>) -> Seq<Seq<crate::condition::ConditionAtomV>>
    decreases s.len(),
{
    match find_sub_spec(s, " and "@) {
        Some(i) => if 0 <= i && i + 5 <= s.len() {
            seq![parse_clause_spec(s.take(i))] + parse_condition_spec(s.skip(i + 5))
        } else {
            seq![parse_clause_spec(s)]
        },
        None => seq![parse_clause_spec(s)],
    }
}

/// A found occurrence index is non-negative and leaves room for the
/// pattern.
proof fn lemma_find_sub_nonneg(s: Seq<char>, pat: Seq<char>)
    requires
        pat.len() >= 1,
    ensures
        match find_sub_spec(s, pat) {
            Some(i) => 0 <= i && i + pat.len() <= s.len(),
            None => true,
        },
    decreases s.len(),
{
    lemma_find_sub_range(s, pat);
}

/// Parse one atom fragment.
fn parse_atom(s: &str) -> (r: ConditionAtom)
    ensures
        r@ == parse_atom_spec(s@),
        crate::condition::atom_wf(r@),
{
    let n = s.unicode_len();
    if n < 5 {
        proof {
            assert(find_sep_from(s@, s@.len() - 4) is None);
        }
        return ConditionAtom::Other(s.to_owned());
    }
    let mut i: usize = n - 4;
    let mut found: Option<usize> = None;
    while i >= 1 && found.is_none()
        invariant
            0 <= i <= n - 4,
            n == s@.len(),
            n >= 5,
            match found {
                Some(f) => f == i && sep_at(s@, i as int) && find_sep_from(s@, s@.len() - 4)
                    == Some(i as int),
                None => find_sep_from(s@, s@.len() - 4) == find_sep_from(s@, i as int),
            },
        decreases i + (if found is None {
            1int
        } else {
            0int
        }),
    {
        if sep_at_exec(s, n, i) {
            found = Some(i);
        } else {
            i = i - 1;
        }
    }
    match found {
        Some(f) => {
            proof {
                assert(sep_at(s@, f as int));
            }
            // the digit suffix, with its value saturated above the i16 range
            let mut j: usize = f + 3;
            let mut val: u32 = 0;
            while j < n
                invariant
                    f + 3 <= j <= n,
                    n == s@.len(),
                    sep_at(s@, f as int),
                    if digits_val(s@.subrange(f + 3, j as int)) <= 32767 {
                        val == digits_val(s@.subrange(f + 3, j as int))
                    } else {
                        val == 40000
                    },
                    val <= 40000,
                decreases n - j,
            {
                let c = s.get_char(j);
                proof {
                    assert(s@.skip(f + 3)[j - (f + 3)] == s@[j as int]);
                    assert(is_digit(s@[j as int]));
                    assert(s@.subrange(f + 3, j + 1).drop_last() =~= s@.subrange(f + 3, j as int));
                    assert(s@.subrange(f + 3, j + 1).last() == s@[j as int]);
                }
                let d = (c as u32) - 48;
                let next = val * 10 + d;
                val = if next > 32767 {
                    40000
                } else {
                    next
                };
                j = j + 1;
            }
            proof {
                assert(s@.subrange(f + 3, n as int) =~= s@.skip(f + 3));
            }
            if val <= 32767 {
                let name = s.substring_char(0, f);
                proof {
                    assert(name@ =~= s@.take(f as int));
                }
                let kind = CaracKind::from_name(name);
                let sign = s.get_char(f + 1);
                let ord = if sign == '<' {
                    core::cmp::Ordering::Less
                } else {
                    core::cmp::Ordering::Greater
                };
                ConditionAtom::Stats(kind, ord, val as i16)
            } else {
                ConditionAtom::Other(s.to_owned())
            }
        },
        None => {
            proof {
                assert(find_sep_from(s@, s@.len() - 4) is None);
            }
            ConditionAtom::Other(s.to_owned())
        },
    }
}

/// Whether a comparison separator sits at `i`, decided by inspection.
fn sep_at_exec(s: &str, n: usize, i: usize) -> (r: bool)
    requires
        n == s@.len(),
        1 <= i,
        i + 4 <= n,
    ensures
        r == sep_at(s@, i as int),
{
    if s.get_char(i) != ' ' {
        return false;
    }
    let sign = s.get_char(i + 1);
    if sign != '<' && sign != '>' {
        return false;
    }
    if s.get_char(i + 2) != ' ' {
        return false;
    }
    let mut j: usize = i + 3;
    while j < n
        invariant
            i + 3 <= j <= n,
            n == s@.len(),
            forall|k: int| i + 3 <= k < j ==> is_digit(#[trigger] s@[k]),
        decreases n - j,
    {
        let c = s.get_char(j);
        if !(c >= '0' && c <= '9') {
            proof {
                assert(s@.skip(i + 3)[j - (i + 3)] == s@[j as int]);
            }
            return false;
        }
        j = j + 1;
    }
    proof {
        assert forall|k: int| 0 <= k < s@.skip(i + 3).len() implies is_digit(
            #[trigger] s@.skip(i + 3)[k],
        ) by {
            assert(s@.skip(i + 3)[k] == s@[k + i + 3]);
        }
    }
    true
}

/// Parse one clause: atoms separated by " or ".
fn parse_clause(s: &str) -> (r: Vec<ConditionAtom>)
    ensures
        r@.map_values(|a: ConditionAtom| a@) == parse_clause_spec(s@),
        r@.len() >= 1,
        forall|j: int| 0 <= j < r@.len() ==> crate::condition::atom_wf((#[trigger] r@[j])@),
    decreases s@.len(),
{
    proof {
        reveal_strlit(" or ");
    }
    match find_sub(s, " or ") {
        Some(i) => {
            proof {
                lemma_find_sub_nonneg(s@, " or "@);
            }
            let n = s.unicode_len();
            let head = s.substring_char(0, i);
            let tail = s.substring_char(i + 4, n);
            proof {
                assert(head@ =~= s@.take(i as int));
                assert(tail@ =~= s@.skip(i + 4));
            }
            let atom = parse_atom(head);
            let mut rest = parse_clause(tail);
            let mut r: Vec<ConditionAtom> = Vec::new();
            r.push(atom);
            let m = rest.len();
            let mut k: usize = 0;
            while k < m
                invariant
                    0 <= k <= m,
                    m == rest@.len(),
                    r@.len() == 1 + k,
                    r@[0]@ == parse_atom_spec(s@.take(i as int)),
                    crate::condition::atom_wf(r@[0]@),
                    forall|j: int| 0 <= j < k ==> r@[j + 1] == rest@[j],
                    forall|j: int|
                        0 <= j < rest@.len() ==> crate::condition::atom_wf(
                            (#[trigger] rest@[j])@,
                        ),
                    rest@.map_values(|a: ConditionAtom| a@) == parse_clause_spec(s@.skip(i + 4)),
                decreases m - k,
            {
                let a = rest[k].clone();
                r.push(a);
                k = k + 1;
            }
            proof {
                assert(r@.map_values(|a: ConditionAtom| a@) =~= parse_clause_spec(s@));
                assert forall|j: int|
                    0 <= j < r@.len() implies crate::condition::atom_wf(
                    (#[trigger] r@[j])@,
                ) by {
                    if j > 0 {
                        assert(r@[(j - 1) + 1] == rest@[j - 1]);
                    }
                }
            }
            r
        },
        None => {
            let atom = parse_atom(s);
            let mut r: Vec<ConditionAtom> = Vec::new();
            r.push(atom);
            proof {
                assert(r@.map_values(|a: ConditionAtom| a@) =~= parse_clause_spec(s@));
            }
            r
        },
    }
}

impl crate::condition::Condition {
    /// Parse a condition string: clauses separated by " and ", atoms
    /// separated by " or ", a comparison atom of the shape
    /// `name sign threshold` with a strict sign and a decimal threshold
    /// reaching the end of the atom; anything else becomes an opaque atom.
    /// The result is always well-formed.
    pub fn parse(s: &str) -> (r: crate::condition::Condition)
        ensures
            r@ == parse_condition_spec(s@),
            crate::condition::cond_wf(r@),
        decreases s@.len(),
    {
        proof {
            reveal_strlit(" and ");
        }
        match find_sub(s, " and ") {
            Some(i) => {
                proof {
                    lemma_find_sub_nonneg(s@, " and "@);
                }
                let n = s.unicode_len();
                let head = s.substring_char(0, i);
                let tail = s.substring_char(i + 5, n);
                proof {
                    assert(head@ =~= s@.take(i as int));
                    assert(tail@ =~= s@.skip(i + 5));
                }
                let clause = parse_clause(head);
                let rest = crate::condition::Condition::parse(tail);
                let rest_clauses = rest.into_clauses();
                let mut clauses: Vec<Vec<ConditionAtom>> = Vec::new();
                clauses.push(clause);
                let m = rest_clauses.len();
                let mut k: usize = 0;
                while k < m
                    invariant
                        0 <= k <= m,
                        m == rest_clauses@.len(),
                        clauses@.len() == 1 + k,
                        crate::condition::clause_view(clauses@[0]) == parse_clause_spec(
                            s@.take(i as int),
                        ),
                        crate::condition::clause_wf(crate::condition::clause_view(clauses@[0])),
                        forall|j: int| 0 <= j < k ==> (#[trigger] clauses@[j + 1])@
                            == rest_clauses@[j]@,
                        rest_clauses@.map_values(
                            |cl: Vec<ConditionAtom>| crate::condition::clause_view(cl),
                        ) == parse_condition_spec(s@.skip(i + 5)),
                        crate::condition::cond_wf(parse_condition_spec(s@.skip(i + 5))),
                    decreases m - k,
                {
                    let cl = crate::condition::clone_clause(&rest_clauses[k]);
                    clauses.push(cl);
                    k = k + 1;
                }
                let r = crate::condition::Condition::from_clauses(clauses);
                proof {
                    assert forall|j: int|
                        0 <= j < r@.len() implies r@[j] == parse_condition_spec(s@)[j] by {
                        if j > 0 {
                            assert(clauses@[(j - 1) + 1]@ == rest_clauses@[j - 1]@);
                            assert(clauses@[j]@ == rest_clauses@[j - 1]@);
                            assert(crate::condition::clause_view(clauses@[j])
                                =~= crate::condition::clause_view(rest_clauses@[j - 1]));
                            assert(parse_condition_spec(s@)[j] == parse_condition_spec(
                                s@.skip(i + 5),
                            )[j - 1]);
                        }
                    }
                    assert(r@ =~= parse_condition_spec(s@));
                    assert forall|j: int|
                        0 <= j < r@.len() implies crate::condition::clause_wf(
                        #[trigger] r@[j],
                    ) by {
                        if j > 0 {
                            assert(r@[j] == parse_condition_spec(s@.skip(i + 5))[j - 1]);
                        }
                    }
                }
                r
            },
            None => {
                let clause = parse_clause(s);
                let mut clauses: Vec<Vec<ConditionAtom>> = Vec::new();
                clauses.push(clause);
                let r = crate::condition::Condition::from_clauses(clauses);
                proof {
                    assert(r@ =~= parse_condition_spec(s@));
                }
                r
            },
        }
    }
}

} // verus!
