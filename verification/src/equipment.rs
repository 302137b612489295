//! Equipment and set records of the catalog.
//!
//! Records are loaded once, live for the whole run and are only read by the
//! optimizer; candidates refer to them by index into the catalog vector. The
//! one correction applied to the catalog is `fix_all_trophy`, which infers
//! the missing set-bonus restriction of the strongest trophies.

use vstd::prelude::*;

use crate::condition::{cond_wf, Condition, ConditionAtom, ConditionAtomV};
use crate::lines::{covers, lines_stronger, CaracLines};

verus! {

/// The classification of an equipment record, restricting the slots it fits.
#[derive(Clone, Copy, Debug, PartialEq, Eq, Structural)]
pub enum ItemType {
    Amulet,
    Backpack,
    Belt,
    Boots,
    Cloak,
    Dofus,
    Hat,
    Ring,
    Shield,
    Trophy,
    Petsmount,
    Pet,
    LivingObject,
    Mount,
    Axe,
    Sword,
    Staff,
    Wand,
    Bow,
    Dagger,
    Shovel,
    Hammer,
    Scythe,
    Pickaxe,
    Tool,
    SoulStone,
}

/// One equipment record of the catalog: identity, classification, statistic
/// bounds and equip-eligibility condition. Immutable once the catalog is
/// fixed; shared read-only across the whole run.
#[derive(Debug)]
pub struct Equipement {
    pub item_type: ItemType,
    pub ankama_id: u64,
    pub _id: u64,
    pub name: String,
    pub level: u8,
    pub url: String,
    pub set_id: Option<u64>,
    pub description: String,
    pub img_url: String,
    pub statistics: CaracLines,
    pub conditions: Condition,
}

impl Equipement {
    /// The statistic lines have distinct kinds and the condition is
    /// well-formed.
    pub open spec fn wf(&self) -> bool {
        &&& self.statistics.wf()
        &&& cond_wf(self.conditions@)
    }

    /// Whether this record is a weapon, of any of the weapon classes.
    pub fn is_weapon(&self) -> (r: bool)
        ensures
            r == is_weapon_type(self.item_type),
    {
        match self.item_type {
            ItemType::Axe => true,
            ItemType::Sword => true,
            ItemType::Staff => true,
            ItemType::Wand => true,
            ItemType::Bow => true,
            ItemType::Dagger => true,
            ItemType::Shovel => true,
            ItemType::Hammer => true,
            ItemType::Scythe => true,
            ItemType::Pickaxe => true,
            ItemType::Tool => true,
            ItemType::SoulStone => true,
            _ => false,
        }
    }
}

/// The item types that count as weapons.
pub open spec fn is_weapon_type(t: ItemType) -> bool {
    ||| t is Axe
    ||| t is Sword
    ||| t is Staff
    ||| t is Wand
    ||| t is Bow
    ||| t is Dagger
    ||| t is Shovel
    ||| t is Hammer
    ||| t is Scythe
    ||| t is Pickaxe
    ||| t is Tool
    ||| t is SoulStone
}

/// One equipment set: identity plus the bonus statistic lines granted at
/// each exact count of worn pieces. (Named to keep clear of the prelude's
/// mathematical sets.)
#[derive(Debug)]
pub struct ItemSet {
    pub ankama_id: u64,
    pub img_url: String,
    pub _id: u64,
    pub name: String,
    pub level: u8,
    pub url: String,
    pub equipement_id: Option<u64>,
    pub weapon_id: Option<u64>,
    pub bonus: Vec<(u8, CaracLines)>,
}

/// The bonus table entry of `s` for an exact count of worn pieces, if any:
/// the first entry with that count.
pub open spec fn find_bonus(bonus: Seq<(u8, CaracLines)>, count: u8) -> Option<CaracLines>
    decreases bonus.len(),
{
    if bonus.len() == 0 {
        None
    } else if bonus[0].0 == count {
        Some(bonus[0].1)
    } else {
        find_bonus(bonus.drop_first(), count)
    }
}

impl ItemSet {
    /// The bonus lines granted when exactly `count` pieces of this set are
    /// worn, if the table has an entry for that count.
    pub fn bonus_for(&self, count: u8) -> (r: Option<&CaracLines>)
        ensures
            match r {
                Some(lines) => find_bonus(self.bonus@, count) == Some(*lines),
                None => find_bonus(self.bonus@, count) is None,
            },
    {
        let n = self.bonus.len();
        let mut i: usize = 0;
        proof {
            assert(self.bonus@.skip(0) =~= self.bonus@);
        }
        while i < n
            invariant
                0 <= i <= n,
                n == self.bonus.len(),
                find_bonus(self.bonus@, count) == find_bonus(self.bonus@.skip(i as int), count),
            decreases n - i,
        {
            proof {
                assert(self.bonus@.skip(i as int)[0] == self.bonus@[i as int]);
                assert(self.bonus@.skip(i as int).drop_first() =~= self.bonus@.skip(i + 1));
            }
            if self.bonus[i].0 == count {
                return Some(&self.bonus[i].1);
            }
            i = i + 1;
        }
        proof {
            assert(self.bonus@.skip(n as int) =~= Seq::<(u8, CaracLines)>::empty());
        }
        None
    }
}

/// A successful bonus lookup is witnessed by a table entry.
pub proof fn lemma_find_bonus_index(bonus: Seq<(u8, CaracLines)>, count: u8)
    ensures
        match find_bonus(bonus, count) {
            Some(lines) => exists|j: int|
                0 <= j < bonus.len() && (#[trigger] bonus[j]).0 == count && bonus[j].1 == lines,
            None => true,
        },
    decreases bonus.len(),
{
    if bonus.len() > 0 {
        if bonus[0].0 == count {
            assert(0 <= 0 < bonus.len() && (bonus[0]).0 == count && bonus[0].1 == bonus[0].1);
        } else {
            lemma_find_bonus_index(bonus.drop_first(), count);
            match find_bonus(bonus.drop_first(), count) {
                Some(lines) => {
                    let j = choose|j: int|
                        0 <= j < bonus.drop_first().len() && (#[trigger] bonus.drop_first()[j]).0
                            == count && bonus.drop_first()[j].1 == lines;
                    assert(bonus[j + 1] == bonus.drop_first()[j]);
                },
                None => {},
            }
        }
    }
}

/// The first set of `sets` with identity `id`, if any.
pub open spec fn find_set(sets: Seq<ItemSet>, id: u64) -> Option<int>
    decreases sets.len(),
{
    if sets.len() == 0 {
        None
    } else if sets[0]._id == id {
        Some(0)
    } else {
        match find_set(sets.drop_first(), id) {
            Some(i) => Some(i + 1),
            None => None,
        }
    }
}

/// A found set index is in range and matches the identity.
pub proof fn lemma_find_set_range(sets: Seq<ItemSet>, id: u64)
    ensures
        match find_set(sets, id) {
            Some(i) => 0 <= i < sets.len() && sets[i]._id == id,
            None => true,
        },
    decreases sets.len(),
{
    if sets.len() > 0 && sets[0]._id != id {
        lemma_find_set_range(sets.drop_first(), id);
        match find_set(sets.drop_first(), id) {
            Some(i) => {
                assert(sets.drop_first()[i] == sets[i + 1]);
            },
            None => {},
        }
    }
}

/// Look a set up by its identity.
pub fn set_by_id(sets: &Vec<ItemSet>, id: u64) -> (r: Option<&ItemSet>)
    ensures
        match r {
            Some(set) => {
                &&& find_set(sets@, id) is Some
                &&& *set == sets@[find_set(sets@, id).unwrap()]
            },
            None => find_set(sets@, id) is None,
        },
{
    let n = sets.len();
    let mut i: usize = 0;
    proof {
        assert(sets@.skip(0) =~= sets@);
    }
    while i < n
        invariant
            0 <= i <= n,
            n == sets.len(),
            forall|j: int| 0 <= j < i ==> sets@[j]._id != id,
            find_set(sets@, id) == match find_set(sets@.skip(i as int), id) {
                Some(k) => Some(k + i as int),
                None => None::<int>,
            },
        decreases n - i,
    {
        proof {
            assert(sets@.skip(i as int)[0] == sets@[i as int]);
            assert(sets@.skip(i as int).drop_first() =~= sets@.skip(i + 1));
        }
        if sets[i]._id == id {
            return Some(&sets[i]);
        }
        i = i + 1;
    }
    proof {
        assert(sets@.skip(n as int) =~= Seq::<ItemSet>::empty());
    }
    None
}

/// Whether the trophy at `i` is "unique": no trophy of the same level has a
/// line for every non-negative statistic kind the record grants.
pub open spec fn trophy_unique(db: Seq<Equipement>, i: int) -> bool {
    !exists|j: int|
        0 <= j < db.len() && (#[trigger] db[j]).item_type is Trophy && db[j].level == db[i].level
            && covers(db[i].statistics@, db[j].statistics@)
}

/// Whether the trophy at `i` is "strong": unique, or at least as good as a
/// distinct trophy of its level or above.
pub open spec fn trophy_strong(db: Seq<Equipement>, i: int) -> bool {
    ||| trophy_unique(db, i)
    ||| exists|j: int|
        0 <= j < db.len() && (#[trigger] db[j]).item_type is Trophy && db[i]._id != db[j]._id
            && db[i].level <= db[j].level && lines_stronger(db[i].statistics@, db[j].statistics@)
}

/// Whether some trophy of the same level covers the record's non-negative
/// kinds.
fn trophy_covered_exec(db: &Vec<Equipement>, i: usize) -> (r: bool)
    requires
        i < db.len(),
    ensures
        r == !trophy_unique(db@, i as int),
{
    let n = db.len();
    let mut j: usize = 0;
    while j < n
        invariant
            0 <= j <= n,
            n == db.len(),
            i < db.len(),
            forall|b: int|
                0 <= b < j ==> !((#[trigger] db@[b]).item_type is Trophy && db@[b].level
                    == db@[i as int].level && covers(db@[i as int].statistics@, db@[b].statistics@)),
        decreases n - j,
    {
        if matches!(db[j].item_type, ItemType::Trophy) && db[j].level == db[i].level {
            if covers_exec(&db[i].statistics, &db[j].statistics) {
                return true;
            }
        }
        j = j + 1;
    }
    false
}

/// Whether every line of `a` with a non-negative minimum has a line of the
/// same kind in `b`.
fn covers_exec(a: &CaracLines, b: &CaracLines) -> (r: bool)
    ensures
        r == covers(a@, b@),
{
    let alines = a.as_map();
    let n = alines.len();
    let mut k: usize = 0;
    while k < n
        invariant
            0 <= k <= n,
            n == alines.len(),
            alines@.map_values(|line: crate::lines::CaracLine| line@) == a@,
            forall|c: int|
                0 <= c < k && a@[c].min >= 0 ==> crate::lines::lines_contain(
                    b@,
                    (#[trigger] a@[c]).kind,
                ),
        decreases n - k,
    {
        proof {
            assert(a@[k as int] == alines@[k as int]@);
        }
        if alines[k].min >= 0 {
            if b.get_bounds(&alines[k].kind).is_none() {
                return false;
            }
        }
        k = k + 1;
    }
    true
}

/// Whether some distinct trophy of the same level or above is dominated by
/// the record at `i`.
fn trophy_dominates_exec(db: &Vec<Equipement>, i: usize) -> (r: bool)
    requires
        i < db.len(),
    ensures
        r == exists|j: int|
            0 <= j < db@.len() && (#[trigger] db@[j]).item_type is Trophy && db@[i as int]._id
                != db@[j]._id && db@[i as int].level <= db@[j].level && lines_stronger(
                db@[i as int].statistics@,
                db@[j].statistics@,
            ),
{
    let n = db.len();
    let mut j: usize = 0;
    while j < n
        invariant
            0 <= j <= n,
            n == db.len(),
            i < db.len(),
            forall|b: int|
                0 <= b < j ==> !((#[trigger] db@[b]).item_type is Trophy && db@[i as int]._id
                    != db@[b]._id && db@[i as int].level <= db@[b].level && lines_stronger(
                    db@[i as int].statistics@,
                    db@[b].statistics@,
                )),
        decreases n - j,
    {
        if matches!(db[j].item_type, ItemType::Trophy) && db[i]._id != db[j]._id && db[i].level
            <= db[j].level {
            if db[i].statistics.is_stronger_than(&db[j].statistics) {
                return true;
            }
        }
        j = j + 1;
    }
    false
}

/// Infer the missing set-bonus restriction of strong trophies: the catalog
/// does not mark the most powerful trophies as incompatible with active set
/// bonuses, so every strong trophy gets the `RestrictSetBonuses` condition.
/// Only the condition of those records changes; everything else is kept.
pub fn fix_all_trophy(db: &mut Vec<Equipement>)
    ensures
        final(db)@.len() == old(db)@.len(),
        forall|i: int|
            0 <= i < old(db)@.len() && !((#[trigger] old(db)@[i]).item_type is Trophy
                && trophy_strong(old(db)@, i)) ==> final(db)@[i] == old(db)@[i],
        forall|i: int|
            0 <= i < old(db)@.len() && (#[trigger] old(db)@[i]).item_type is Trophy
                && trophy_strong(old(db)@, i) ==> {
                let new = final(db)@[i];
                let prev = old(db)@[i];
                &&& new.item_type == prev.item_type
                &&& new.ankama_id == prev.ankama_id
                &&& new._id == prev._id
                &&& new.name == prev.name
                &&& new.level == prev.level
                &&& new.url == prev.url
                &&& new.set_id == prev.set_id
                &&& new.description == prev.description
                &&& new.img_url == prev.img_url
                &&& new.statistics == prev.statistics
                &&& new.conditions@.len() == 1
                &&& new.conditions@[0].len() == 1
                &&& new.conditions@[0][0] == ConditionAtomV::RestrictSetBonuses
            },
{
    let ghost dbv = old(db)@;
    let n = db.len();
    let mut strong: Vec<bool> = Vec::new();
    let mut i: usize = 0;
    while i < n
        invariant
            0 <= i <= n,
            n == db.len(),
            db@ == dbv,
            strong@.len() == i,
            forall|k: int|
                0 <= k < i ==> strong@[k] == ((#[trigger] dbv[k]).item_type is Trophy
                    && trophy_strong(dbv, k)),
        decreases n - i,
    {
        if matches!(db[i].item_type, ItemType::Trophy) {
            let is_unique = !trophy_covered_exec(db, i);
            let is_strong = is_unique || trophy_dominates_exec(db, i);
            strong.push(is_strong);
        } else {
            strong.push(false);
        }
        i = i + 1;
    }
    let mut k: usize = 0;
    while k < n
        invariant
            0 <= k <= n,
            n == db.len(),
            db@.len() == dbv.len(),
            strong@.len() == n,
            forall|c: int|
                0 <= c < n ==> strong@[c] == ((#[trigger] dbv[c]).item_type is Trophy
                    && trophy_strong(dbv, c)),
            forall|c: int| k <= c < n ==> #[trigger] db@[c] == dbv[c],
            forall|c: int|
                0 <= c < k && !((#[trigger] dbv[c]).item_type is Trophy && trophy_strong(dbv, c))
                    ==> db@[c] == dbv[c],
            forall|c: int|
                0 <= c < k && (#[trigger] dbv[c]).item_type is Trophy && trophy_strong(dbv, c)
                    ==> {
                    let new = db@[c];
                    let prev = dbv[c];
                    &&& new.item_type == prev.item_type
                    &&& new.ankama_id == prev.ankama_id
                    &&& new._id == prev._id
                    &&& new.name == prev.name
                    &&& new.level == prev.level
                    &&& new.url == prev.url
                    &&& new.set_id == prev.set_id
                    &&& new.description == prev.description
                    &&& new.img_url == prev.img_url
                    &&& new.statistics == prev.statistics
                    &&& new.conditions@.len() == 1
                    &&& new.conditions@[0].len() == 1
                    &&& new.conditions@[0][0] == ConditionAtomV::RestrictSetBonuses
                },
        decreases n - k,
    {
        if strong[k] {
            let ghost pre = db@;
            let item = db.remove(k);
            let fixed = Equipement {
                conditions: Condition::from_atom(ConditionAtom::RestrictSetBonuses),
                ..item
            };
            db.insert(k, fixed);
            proof {
                assert(db@ =~= pre.update(k as int, db@[k as int]));
                assert(pre[k as int] == dbv[k as int]);
            }
        }
        k = k + 1;
    }
}

} // verus!
