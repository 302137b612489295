//! The statistic lines of an equipment or set-bonus record.
//!
//! A record carries a map from statistic kind to an inclusive bounds range,
//! the minimum and maximum roll of that line. The map is kept as a vector of
//! lines with pairwise distinct kinds; its view is the sequence of line
//! views.

use vstd::prelude::*;

use crate::carac::{CaracKind, CaracKindV};

verus! {

/// One statistic line of a record: an inclusive `min ..= max` bounds range
/// for one statistic kind.
#[derive(Debug)]
pub struct CaracLine {
    pub kind: CaracKind,
    pub min: i16,
    pub max: i16,
}

impl Clone for CaracLine {
    fn clone(&self) -> (r: Self)
        ensures
            r == *self,
    {
        CaracLine { kind: self.kind.clone(), min: self.min, max: self.max }
    }
}

/// Mathematical view of a statistic line.
pub struct CaracLineV {
    pub kind: CaracKindV,
    pub min: int,
    pub max: int,
}

impl View for CaracLine {
    type V = CaracLineV;

    open spec fn view(&self) -> CaracLineV {
        CaracLineV { kind: self.kind@, min: self.min as int, max: self.max as int }
    }
}

/// The first line of `s` whose kind is `kind`, if any.
pub open spec fn find_line(s: Seq<CaracLineV>, kind: CaracKindV) -> Option<CaracLineV>
    decreases s.len(),
{
    if s.len() == 0 {
        None
    } else if s[0].kind == kind {
        Some(s[0])
    } else {
        find_line(s.drop_first(), kind)
    }
}

/// Whether some line of `s` has kind `kind`.
pub open spec fn lines_contain(s: Seq<CaracLineV>, kind: CaracKindV) -> bool {
    find_line(s, kind) is Some
}

/// The conservative value of the line of kind `kind`: the upper end of its
/// bounds (records roll a value in range, the engine uses the larger bound),
/// or zero when no line of that kind exists.
pub open spec fn line_bonus(s: Seq<CaracLineV>, kind: CaracKindV) -> int {
    match find_line(s, kind) {
        Some(line) => if line.min >= line.max {
            line.min
        } else {
            line.max
        },
        None => 0,
    }
}

/// Pairwise distinct kinds.
pub open spec fn lines_distinct(s: Seq<CaracLineV>) -> bool {
    forall|i: int, j: int| 0 <= i < j < s.len() ==> s[i].kind != s[j].kind
}

/// A successful lookup is witnessed by an index, and conversely.
pub proof fn lemma_find_line_index(s: Seq<CaracLineV>, kind: CaracKindV)
    ensures
        lines_contain(s, kind) <==> (exists|i: int| 0 <= i < s.len() && s[i].kind == kind),
        match find_line(s, kind) {
            Some(line) => line.kind == kind && exists|i: int|
                0 <= i < s.len() && s[i] == line,
            None => true,
        },
    decreases s.len(),
{
    if s.len() == 0 {
    } else if s[0].kind == kind {
        assert(0 <= 0 < s.len() && s[0].kind == kind);
        assert(0 <= 0 < s.len() && s[0] == s[0]);
    } else {
        lemma_find_line_index(s.drop_first(), kind);
        assert forall|i: int| 0 <= i < s.len() && s[i].kind == kind implies lines_contain(
            s,
            kind,
        ) by {
            assert(s.drop_first()[i - 1] == s[i]);
            assert(lines_contain(s.drop_first(), kind));
        }
        if lines_contain(s.drop_first(), kind) {
            match find_line(s.drop_first(), kind) {
                Some(line) => {
                    let i = choose|i: int|
                        0 <= i < s.drop_first().len() && s.drop_first()[i] == line;
                    assert(s[i + 1] == line);
                },
                None => {},
            }
        }
    }
}

/// The statistic lines of a record, with pairwise distinct kinds.
#[derive(Debug)]
pub struct CaracLines {
    lines: Vec<CaracLine>,
}

impl Clone for CaracLines {
    fn clone(&self) -> (r: Self)
        ensures
            r@ == self@,
    {
        let r = CaracLines { lines: self.lines.clone() };
        proof {
            assert forall|i: int| 0 <= i < self.lines@.len() implies r.lines@[i]
                == self.lines@[i] by {
                assert(vstd::pervasive::cloned::<CaracLine>(self.lines@[i], r.lines@[i]));
            }
            assert(r.lines@ =~= self.lines@);
            assert(r@ =~= self@);
        }
        r
    }
}

impl View for CaracLines {
    type V = Seq<CaracLineV>;

    closed spec fn view(&self) -> Seq<CaracLineV> {
        self.lines@.map_values(|line: CaracLine| line@)
    }
}

impl CaracLines {
    /// An empty set of lines.
    pub fn new() -> (r: CaracLines)
        ensures
            r@ =~= Seq::<CaracLineV>::empty(),
            r.wf(),
    {
        CaracLines { lines: Vec::new() }
    }

    /// The lines have pairwise distinct kinds.
    pub open spec fn wf(&self) -> bool {
        lines_distinct(self@)
    }

    /// The lines as a vector, usable as a map thanks to the distinctness of
    /// their kinds.
    pub fn as_map(&self) -> (r: &Vec<CaracLine>)
        ensures
            r@.map_values(|line: CaracLine| line@) == self@,
    {
        &self.lines
    }

    /// The bounds of the line of kind `kind`, if any.
    pub fn get_bounds(&self, kind: &CaracKind) -> (r: Option<(i16, i16)>)
        ensures
            match r {
                Some((min, max)) => find_line(self@, kind@) == Some(
                    CaracLineV { kind: kind@, min: min as int, max: max as int },
                ),
                None => !lines_contain(self@, kind@),
            },
    {
        proof {
            assert(self@.skip(0) =~= self@);
        }
        let n = self.lines.len();
        let mut i: usize = 0;
        while i < n
            invariant
                0 <= i <= n,
                n == self.lines.len(),
                find_line(self@, kind@) == find_line(self@.skip(i as int), kind@),
            decreases n - i,
        {
            proof {
                assert(self@.skip(i as int)[0] == self@[i as int]);
                assert(self@.skip(i as int).drop_first() =~= self@.skip(i + 1));
            }
            if self.lines[i].kind.eq(kind) {
                return Some((self.lines[i].min, self.lines[i].max));
            }
            i = i + 1;
        }
        proof {
            assert(self@.skip(n as int) =~= Seq::<CaracLineV>::empty());
        }
        None
    }

    /// Append a line of a kind not present yet.
    pub fn push_line(&mut self, line: CaracLine)
        requires
            old(self).wf(),
            !lines_contain(old(self)@, line.kind@),
        ensures
            final(self)@ =~= old(self)@.push(line@),
            final(self).wf(),
    {
        proof {
            lemma_find_line_index(old(self)@, line.kind@);
        }
        self.lines.push(line);
        proof {
            assert(self@ =~= old(self)@.push(line@));
            assert forall|i: int, j: int| 0 <= i < j < self@.len() implies self@[i].kind
                != self@[j].kind by {
                if j < self@.len() - 1 {
                    assert(old(self)@[i].kind != old(self)@[j].kind);
                } else {
                    assert(self@[i] == old(self)@[i]);
                }
            }
        }
    }

    /// Replace the bounds of the line of kind `kind`, or append a new line
    /// when none exists yet.
    pub fn set_bounds(&mut self, kind: &CaracKind, min: i16, max: i16)
        requires
            old(self).wf(),
        ensures
            final(self).wf(),
            lines_contain(final(self)@, kind@),
            find_line(final(self)@, kind@) == Some(
                CaracLineV { kind: kind@, min: min as int, max: max as int },
            ),
            forall|k: CaracKindV|
                k != kind@ ==> find_line(final(self)@, k) == find_line(old(self)@, k),
    {
        let n = self.lines.len();
        let mut i: usize = 0;
        while i < n
            invariant
                0 <= i <= n,
                n == self.lines.len(),
                self == old(self),
                old(self).wf(),
                forall|j: int| 0 <= j < i ==> self@[j].kind != kind@,
            decreases n - i,
        {
            if self.lines[i].kind.eq(kind) {
                let new_line = CaracLine { kind: kind.clone(), min, max };
                proof {
                    assert(old(self)@[i as int].kind == kind@);
                }
                self.lines.set(i, new_line);
                proof {
                    assert forall|j: int|
                        0 <= j < old(self)@.len() && j != i as int implies self@[j] == old(
                        self,
                    )@[j] by {}
                    lemma_find_line_set(old(self)@, self@, i as int, kind@);
                }
                return ;
            }
            i = i + 1;
        }
        let new_line = CaracLine { kind: kind.clone(), min, max };
        proof {
            lemma_find_line_index(self@, kind@);
        }
        let ghost before = self@;
        self.push_line(new_line);
        proof {
            assert(self@ =~= before.push(new_line@));
            lemma_find_line_push(before, new_line@);
        }
    }
}

/// The bounds of every line fit the signed sixteen-bit range they are
/// stored in.
pub proof fn lemma_lines_all_bounded(l: CaracLines)
    ensures
        forall|i: int|
            0 <= i < l@.len() ==> -32768 <= (#[trigger] l@[i]).min <= 32767 && -32768 <= l@[i].max
                <= 32767,
{
    assert forall|i: int|
        0 <= i < l@.len() implies -32768 <= (#[trigger] l@[i]).min <= 32767 && -32768 <= l@[i].max
        <= 32767 by {
        assert(l@[i] == l.lines@[i]@);
    }
}

/// A looked-up line's value fits the signed sixteen-bit range it is stored
/// in.
pub proof fn lemma_line_bonus_bounded(l: CaracLines, kind: CaracKindV)
    ensures
        -32768 <= line_bonus(l@, kind) <= 32767,
{
    lemma_find_line_index(l@, kind);
    match find_line(l@, kind) {
        Some(line) => {
            let i = choose|i: int| 0 <= i < l@.len() && l@[i] == line;
            assert(l@[i] == l.lines@[i]@);
        },
        None => {},
    }
}

/// Every line of `a` with a non-negative minimum has a line of the same kind
/// in `b`.
pub open spec fn covers(a: Seq<CaracLineV>, b: Seq<CaracLineV>) -> bool {
    forall|k: int| 0 <= k < a.len() && a[k].min >= 0 ==> lines_contain(b, (#[trigger] a[k]).kind)
}

/// One line of `other` is covered from above by `s`: the guaranteed minimum
/// of the matching line of `s` reaches the maximum of the line, and a missing
/// line only covers a non-positive maximum.
pub open spec fn dominates_line(s: Seq<CaracLineV>, line: CaracLineV) -> bool {
    match find_line(s, line.kind) {
        Some(sb) => sb.min >= line.max,
        None => line.max <= 0,
    }
}

/// One line of `s` stays above the matching line of `other`; a line missing
/// from `other` must be non-negative in `s`.
pub open spec fn dominated_from(other: Seq<CaracLineV>, line: CaracLineV) -> bool {
    match find_line(other, line.kind) {
        Some(ob) => line.min >= ob.max,
        None => line.min >= 0,
    }
}

/// The statistics `s` are at least as good as `other`, line by line: every
/// line of `other` is covered from above by `s`, and every line of `s`
/// (negative ones included) stays above what `other` grants.
pub open spec fn lines_stronger(s: Seq<CaracLineV>, other: Seq<CaracLineV>) -> bool {
    &&& forall|i: int| 0 <= i < other.len() ==> dominates_line(s, #[trigger] other[i])
    &&& forall|i: int| 0 <= i < s.len() ==> dominated_from(other, #[trigger] s[i])
}

impl CaracLines {
    /// Whether this record's statistics are at least as good as `other`'s,
    /// line by line.
    pub fn is_stronger_than(&self, other: &CaracLines) -> (r: bool)
        ensures
            r == lines_stronger(self@, other@),
    {
        let olines = other.as_map();
        let n = olines.len();
        let mut i: usize = 0;
        while i < n
            invariant
                0 <= i <= n,
                n == olines.len(),
                olines@.map_values(|line: CaracLine| line@) == other@,
                forall|j: int| 0 <= j < i ==> dominates_line(self@, #[trigger] other@[j]),
            decreases n - i,
        {
            proof {
                assert(other@[i as int] == olines@[i as int]@);
            }
            let covered = match self.get_bounds(&olines[i].kind) {
                Some((smin, _)) => smin >= olines[i].max,
                None => olines[i].max <= 0,
            };
            if !covered {
                return false;
            }
            i = i + 1;
        }
        let slines = self.as_map();
        let m = slines.len();
        let mut k: usize = 0;
        while k < m
            invariant
                0 <= k <= m,
                m == slines.len(),
                slines@.map_values(|line: CaracLine| line@) == self@,
                forall|j: int| 0 <= j < i ==> dominates_line(self@, #[trigger] other@[j]),
                i == other@.len(),
                forall|j: int| 0 <= j < k ==> dominated_from(other@, #[trigger] self@[j]),
            decreases m - k,
        {
            proof {
                assert(self@[k as int] == slines@[k as int]@);
            }
            let above = match other.get_bounds(&slines[k].kind) {
                Some((_, omax)) => slines[k].min >= omax,
                None => slines[k].min >= 0,
            };
            if !above {
                return false;
            }
            k = k + 1;
        }
        true
    }
}

/// Updating the line at an index `i` whose kind is `kind`, in a sequence with
/// distinct kinds, changes only the lookup of `kind`.
proof fn lemma_find_line_set(
    old_s: Seq<CaracLineV>,
    new_s: Seq<CaracLineV>,
    i: int,
    kind: CaracKindV,
)
    requires
        lines_distinct(old_s),
        0 <= i < old_s.len(),
        new_s.len() == old_s.len(),
        old_s[i].kind == kind,
        new_s[i].kind == kind,
        forall|j: int| 0 <= j < old_s.len() && j != i ==> new_s[j] == old_s[j],
    ensures
        lines_distinct(new_s),
        find_line(new_s, kind) == Some(new_s[i]),
        forall|k: CaracKindV| k != kind ==> find_line(new_s, k) == find_line(old_s, k),
    decreases old_s.len(),
{
    assert forall|a: int, b: int| 0 <= a < b < new_s.len() implies new_s[a].kind
        != new_s[b].kind by {
        assert(new_s[a].kind == old_s[a].kind);
        assert(new_s[b].kind == old_s[b].kind);
    }
    if i == 0 {
        assert(new_s.drop_first() =~= old_s.drop_first());
        assert(find_line(new_s, kind) == Some(new_s[0]));
        assert forall|k: CaracKindV| k != kind implies find_line(new_s, k) == find_line(
            old_s,
            k,
        ) by {
            assert(new_s[0].kind == kind);
            assert(old_s[0].kind == kind);
            assert(find_line(new_s, k) == find_line(new_s.drop_first(), k));
            assert(find_line(old_s, k) == find_line(old_s.drop_first(), k));
        }
    } else {
        assert(old_s.drop_first()[i - 1] == old_s[i]);
        assert(new_s.drop_first()[i - 1] == new_s[i]);
        assert(old_s[0].kind != kind);
        assert(new_s[0] == old_s[0]);
        assert forall|j: int|
            0 <= j < old_s.drop_first().len() && j != i - 1 implies new_s.drop_first()[j]
            == old_s.drop_first()[j] by {
            assert(new_s.drop_first()[j] == new_s[j + 1]);
            assert(old_s.drop_first()[j] == old_s[j + 1]);
        }
        lemma_find_line_set(old_s.drop_first(), new_s.drop_first(), i - 1, kind);
        assert(find_line(new_s, kind) == find_line(new_s.drop_first(), kind));
        assert forall|k: CaracKindV| k != kind implies find_line(new_s, k) == find_line(
            old_s,
            k,
        ) by {
            if new_s[0].kind == k {
                assert(find_line(new_s, k) == Some(new_s[0]));
                assert(find_line(old_s, k) == Some(old_s[0]));
            } else {
                assert(find_line(new_s, k) == find_line(new_s.drop_first(), k));
                assert(find_line(old_s, k) == find_line(old_s.drop_first(), k));
            }
        }
    }
}

/// Appending a line of a fresh kind changes only the lookup of that kind.
proof fn lemma_find_line_push(s: Seq<CaracLineV>, line: CaracLineV)
    ensures
        find_line(s.push(line), line.kind) == if lines_contain(s, line.kind) {
            find_line(s, line.kind)
        } else {
            Some(line)
        },
        forall|k: CaracKindV| k != line.kind ==> find_line(s.push(line), k) == find_line(s, k),
    decreases s.len(),
{
    if s.len() == 0 {
        assert(s.push(line)[0] == line);
        assert(s.push(line).drop_first() =~= Seq::<CaracLineV>::empty());
        assert forall|k: CaracKindV| k != line.kind implies find_line(s.push(line), k)
            == find_line(s, k) by {
            assert(s.push(line).len() == 1);
            assert(s.push(line)[0].kind != k);
            assert(find_line(s.push(line), k) == find_line(s.push(line).drop_first(), k));
            assert(s.push(line).drop_first().len() == 0);
            assert(find_line(s.push(line).drop_first(), k) is None);
            assert(find_line(s, k) is None);
            assert(find_line(s.push(line), k) is None);
            assert(find_line(s.push(line), k) == find_line(s, k));
        }
    } else {
        assert(s.push(line)[0] == s[0]);
        assert(s.push(line).drop_first() =~= s.drop_first().push(line));
        lemma_find_line_push(s.drop_first(), line);
        assert forall|k: CaracKindV| k != line.kind implies find_line(s.push(line), k)
            == find_line(s, k) by {
            if s[0].kind == k {
                assert(find_line(s.push(line), k) == Some(s[0]));
                assert(find_line(s, k) == Some(s[0]));
            } else {
                assert(find_line(s.push(line), k) == find_line(s.drop_first().push(line), k));
                assert(find_line(s.drop_first().push(line), k) == find_line(s.drop_first(), k));
                assert(find_line(s, k) == find_line(s.drop_first(), k));
            }
        }
        if s[0].kind == line.kind {
            assert(find_line(s.push(line), line.kind) == Some(s[0]));
        } else {
            assert(find_line(s.push(line), line.kind) == find_line(
                s.drop_first().push(line),
                line.kind,
            ));
        }
    }
}

} // verus!
