//! The deterministic core of the local-search walk.
//!
//! The optimizer perturbs a candidate by either equipping a random record
//! into a random slot or moving allocation points between two statistics.
//! The random draws are made by the caller; this module supplies the legal
//! per-slot candidate pools and applies a drawn perturbation, so that every
//! state change of the walk is verified.

use vstd::prelude::*;

use crate::carac::CaracKind;
use crate::character::{
    seek_ok_outcome, seek_would_succeed, slots_in_catalog, spent_total, Character,
};
use crate::equipment::{Equipement, ItemType};
use crate::points::is_allocatable;

verus! {

/// Whether the record at `idx` may enter slot `s` of the character: its
/// type is acceptable to the slot, its level is within the build level, and
/// its type is not banned.
pub open spec fn pool_admits(
    slots_allowed: Seq<ItemType>,
    catalog: Seq<Equipement>,
    level: u8,
    banned: Seq<ItemType>,
    idx: int,
) -> bool {
    &&& 0 <= idx < catalog.len()
    &&& slots_allowed.contains(catalog[idx].item_type)
    &&& catalog[idx].level <= level
    &&& !banned.contains(catalog[idx].item_type)
}

/// One random perturbation of the walk, with every draw already made.
#[derive(Debug)]
pub enum Perturbation {
    /// Equip the record at catalog index `item` into slot `slot`.
    EquipItem { slot: usize, item: usize },
    /// Move `amount` points onto `kind`, seeking missing points from
    /// `seek_from`; on failure retry with a single point; on repeated
    /// failure leave the candidate unchanged.
    MovePoints { kind: CaracKind, amount: u16, seek_from: CaracKind },
}

impl Character {
    /// The candidate pool of every slot: the catalog indices, in ascending
    /// order, of the records this slot accepts at this level with none of
    /// the banned types.
    pub fn build_slot_pools(
        &self,
        catalog: &Vec<Equipement>,
        level: u8,
        banned: &Vec<ItemType>,
    ) -> (r: Vec<Vec<usize>>)
        ensures
            r@.len() == self.slots_view().len(),
            forall|s: int, k: int|
                0 <= s < r@.len() && 0 <= k < r@[s].len() ==> pool_admits(
                    self.slots_view()[s].allowed,
                    catalog@,
                    level,
                    banned@,
                    (#[trigger] r@[s][k]) as int,
                ),
            forall|s: int, k1: int, k2: int|
                0 <= s < r@.len() && 0 <= k1 < k2 < r@[s].len() ==> r@[s][k1] < r@[s][k2],
            forall|s: int, idx: int|
                0 <= s < r@.len() && pool_admits(
                    self.slots_view()[s].allowed,
                    catalog@,
                    level,
                    banned@,
                    idx,
                ) ==> exists|k: int| 0 <= k < r@[s].len() && r@[s][k] == idx,
    {
        let ghost sv = self.slots_view();
        let slots = self.slots();
        let n = slots.len();
        let mut pools: Vec<Vec<usize>> = Vec::new();
        let mut s: usize = 0;
        while s < n
            invariant
                0 <= s <= n,
                n == slots@.len(),
                slots@.map_values(|sl: crate::character::ItemSlot| sl@) == sv,
                sv == self.slots_view(),
                pools@.len() == s,
                forall|s2: int, k: int|
                    0 <= s2 < s && 0 <= k < pools@[s2].len() ==> pool_admits(
                        sv[s2].allowed,
                        catalog@,
                        level,
                        banned@,
                        (#[trigger] pools@[s2][k]) as int,
                    ),
                forall|s2: int, k1: int, k2: int|
                    0 <= s2 < s && 0 <= k1 < k2 < pools@[s2].len() ==> pools@[s2][k1]
                        < pools@[s2][k2],
                forall|s2: int, idx: int|
                    0 <= s2 < s && pool_admits(sv[s2].allowed, catalog@, level, banned@, idx)
                        ==> exists|k: int| 0 <= k < pools@[s2].len() && pools@[s2][k] == idx,
            decreases n - s,
        {
            proof {
                assert(slots@[s as int]@ == sv[s as int]);
            }
            let allowed = slots[s].get_allowed();
            let m = catalog.len();
            let mut pool: Vec<usize> = Vec::new();
            let mut idx: usize = 0;
            while idx < m
                invariant
                    0 <= idx <= m,
                    m == catalog@.len(),
                    allowed@ == sv[s as int].allowed,
                    s < n,
                    forall|k: int|
                        0 <= k < pool@.len() ==> pool_admits(
                            sv[s as int].allowed,
                            catalog@,
                            level,
                            banned@,
                            (#[trigger] pool@[k]) as int,
                        ),
                    forall|k: int| 0 <= k < pool@.len() ==> (#[trigger] pool@[k]) < idx,
                    forall|k1: int, k2: int|
                        0 <= k1 < k2 < pool@.len() ==> pool@[k1] < pool@[k2],
                    forall|i2: int|
                        0 <= i2 < idx && pool_admits(
                            sv[s as int].allowed,
                            catalog@,
                            level,
                            banned@,
                            i2,
                        ) ==> exists|k: int| 0 <= k < pool@.len() && pool@[k] == i2,
                decreases m - idx,
            {
                let item = &catalog[idx];
                let ghost oldpool = pool@;
                if item.level <= level && contains_type(allowed, item.item_type)
                    && !contains_type(banned, item.item_type) {
                    pool.push(idx);
                }
                proof {
                    assert forall|i2: int|
                        0 <= i2 < idx + 1 && pool_admits(
                            sv[s as int].allowed,
                            catalog@,
                            level,
                            banned@,
                            i2,
                        ) implies exists|k: int| 0 <= k < pool@.len() && pool@[k] == i2 by {
                        if i2 < idx {
                            let k = choose|k: int| 0 <= k < oldpool.len() && oldpool[k] == i2;
                            assert(pool@[k] == oldpool[k]);
                        } else {
                            assert(pool@[pool@.len() - 1] == idx);
                        }
                    }
                }
                idx = idx + 1;
            }
            let ghost oldpools = pools@;
            pools.push(pool);
            proof {
                assert forall|s2: int, idx2: int|
                    0 <= s2 < s + 1 && pool_admits(
                        sv[s2].allowed,
                        catalog@,
                        level,
                        banned@,
                        idx2,
                    ) implies exists|k: int|
                    0 <= k < pools@[s2].len() && pools@[s2][k] == idx2 by {
                    if s2 < s {
                        assert(pools@[s2] == oldpools[s2]);
                        let k = choose|k: int|
                            0 <= k < oldpools[s2].len() && oldpools[s2][k] == idx2;
                        assert(pools@[s2][k] == idx2);
                    } else {
                        assert(pools@[s2] == pool);
                        let k = choose|k: int| 0 <= k < pool@.len() && pool@[k] == idx2;
                        assert(pools@[s2][k] == idx2);
                    }
                }
            }
            s = s + 1;
        }
        pools
    }

    /// Apply one drawn perturbation. Equipping replaces the slot occupant.
    /// Moving points spends onto `kind`, seeking from `seek_from`: when the
    /// drawn amount can go through it does; otherwise a single point is
    /// tried; only when that fails too is the candidate left unchanged. The
    /// ledger accounts are conserved either way.
    pub fn apply_perturbation(&mut self, catalog: &Vec<Equipement>, p: &Perturbation)
        requires
            old(self).ledger_wf(),
            match *p {
                Perturbation::EquipItem { slot, item } => {
                    &&& (slot as int) < old(self).slots_view().len()
                    &&& (item as int) < catalog@.len()
                    &&& old(self).slots_view()[slot as int].allowed.contains(
                        catalog@[item as int].item_type,
                    )
                },
                Perturbation::MovePoints { kind, amount, seek_from } => {
                    &&& is_allocatable(kind@)
                    &&& is_allocatable(seek_from@)
                },
            },
        ensures
            final(self).ledger_wf(),
            final(self).slots_view().len() == old(self).slots_view().len(),
            final(self).unspent_spec() + crate::character::spent_total(final(self).base_spec())
                == old(self).unspent_spec() + crate::character::spent_total(
                old(self).base_spec(),
            ),
            match *p {
                Perturbation::EquipItem { slot, item } => {
                    &&& final(self).slots_view()[slot as int].item == Some(item as int)
                    &&& forall|i: int|
                        0 <= i < old(self).slots_view().len() && i != slot
                            ==> final(self).slots_view()[i] == old(self).slots_view()[i]
                    &&& final(self).base_spec() == old(self).base_spec()
                    &&& final(self).unspent_spec() == old(self).unspent_spec()
                },
                Perturbation::MovePoints { kind, amount, seek_from } => {
                    &&& final(self).slots_view() == old(self).slots_view()
                    &&& if seek_would_succeed(*old(self), kind@, amount as int, seek_from@) {
                        seek_ok_outcome(*old(self), *final(self), kind@, amount as int, seek_from@)
                    } else if seek_would_succeed(*old(self), kind@, 1, seek_from@) {
                        seek_ok_outcome(*old(self), *final(self), kind@, 1, seek_from@)
                    } else {
                        *final(self) == *old(self)
                    }
                },
            },
    {
        match p {
            Perturbation::EquipItem { slot, item } => {
                self.equip_slot(*slot, catalog, *item);
            },
            Perturbation::MovePoints { kind, amount, seek_from } => {
                match self.carac_spend_or_seek(kind, *amount, seek_from) {
                    Ok(()) => {},
                    Err(_) => {
                        match self.carac_spend_or_seek(kind, 1, seek_from) {
                            Ok(()) => {},
                            Err(_) => {},
                        }
                    },
                }
            },
        }
    }
}

/// Whether a type list holds a type.
fn contains_type(list: &Vec<ItemType>, t: ItemType) -> (r: bool)
    ensures
        r == list@.contains(t),
{
    let n = list.len();
    let mut i: usize = 0;
    while i < n
        invariant
            0 <= i <= n,
            n == list@.len(),
            forall|j: int| 0 <= j < i ==> list@[j] != t,
        decreases n - i,
    {
        if list[i] == t {
            proof {
                assert(list@[i as int] == t);
            }
            return true;
        }
        i = i + 1;
    }
    proof {
        assert(forall|j: int| 0 <= j < list@.len() ==> list@[j] != t);
    }
    false
}

} // verus!
