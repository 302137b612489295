//! The mutable candidate of the optimizer: a fixed list of equipment slots
//! and the point-allocation ledger.
//!
//! The ledger tracks, per allocatable statistic, how many points are
//! allocated, and one pool of unspent points seeded from the character
//! level. Spending follows the non-linear cost curve of `crate::points`;
//! the conservation law — pool plus priced allocations never changes except
//! through the documented operations — is part of every contract, so no
//! operation can ever drive a balance negative.

use vstd::prelude::*;

use crate::carac::{CaracKind, CaracKindV, Element};
use crate::equipment::{Equipement, ItemType};
use crate::points::{
    cost_from_zero_spec, cost_from_zero_wide, is_allocatable, lemma_cost_convex,
    lemma_cost_from_zero_properties, lemma_cost_gap,
};

verus! {

/// One equipment slot: the item types it accepts and, possibly, the catalog
/// index of the record currently equipped.
#[derive(Debug)]
pub struct ItemSlot {
    allowed: Vec<ItemType>,
    item: Option<usize>,
}

/// Mathematical view of a slot.
pub struct ItemSlotV {
    pub allowed: Seq<ItemType>,
    pub item: Option<int>,
}

impl View for ItemSlot {
    type V = ItemSlotV;

    closed spec fn view(&self) -> ItemSlotV {
        ItemSlotV {
            allowed: self.allowed@,
            item: match self.item {
                Some(i) => Some(i as int),
                None => None,
            },
        }
    }
}

impl Clone for ItemSlot {
    fn clone(&self) -> (r: Self)
        ensures
            r@ == self@,
    {
        let r = ItemSlot { allowed: self.allowed.clone(), item: self.item };
        proof {
            assert forall|i: int| 0 <= i < self.allowed@.len() implies r.allowed@[i]
                == self.allowed@[i] by {
                assert(vstd::pervasive::cloned::<ItemType>(self.allowed@[i], r.allowed@[i]));
            }
            assert(r.allowed@ =~= self.allowed@);
            assert(r@ =~= self@);
        }
        r
    }
}

impl ItemSlot {
    /// A fresh, empty slot accepting the given item types.
    pub fn new(allowed: Vec<ItemType>) -> (r: Self)
        ensures
            r@.allowed == allowed@,
            r@.item is None,
    {
        ItemSlot { allowed, item: None }
    }

    /// The item types this slot accepts.
    pub fn get_allowed(&self) -> (r: &Vec<ItemType>)
        ensures
            r@ == self@.allowed,
    {
        &self.allowed
    }

    /// The catalog index of the equipped record, if any.
    pub fn get_item(&self) -> (r: Option<usize>)
        ensures
            match r {
                Some(i) => self@.item == Some(i as int),
                None => self@.item is None,
            },
    {
        self.item
    }

    /// Equip the record at catalog index `item`, replacing any occupant.
    /// Equipping a record whose type the slot does not accept is a contract
    /// violation.
    pub fn equip(&mut self, catalog: &Vec<Equipement>, item: usize)
        requires
            item < catalog.len(),
            old(self)@.allowed.contains(catalog[item as int].item_type),
        ensures
            final(self)@.allowed == old(self)@.allowed,
            final(self)@.item == Some(item as int),
    {
        self.item = Some(item);
    }
}

/// The point allocations of a character, one counter per allocatable
/// statistic.
#[derive(Clone, Copy, Debug, PartialEq, Eq, Structural)]
pub struct BaseStats {
    pub vitality: u16,
    pub wisdom: u16,
    pub earth: u16,
    pub water: u16,
    pub air: u16,
    pub fire: u16,
    pub neutral: u16,
}

/// The points allocated to `kind`; zero for a non-allocatable kind.
pub open spec fn alloc_of(b: BaseStats, kind: CaracKindV) -> int {
    match kind {
        CaracKindV::Vitality => b.vitality as int,
        CaracKindV::Wisdom => b.wisdom as int,
        CaracKindV::Stats(e) => match e {
            Element::Earth => b.earth as int,
            Element::Water => b.water as int,
            Element::Air => b.air as int,
            Element::Fire => b.fire as int,
            Element::Neutral => b.neutral as int,
        },
        _ => 0,
    }
}

/// The ledger with the allocation of `kind` replaced by `v`.
pub open spec fn with_alloc(b: BaseStats, kind: CaracKindV, v: u16) -> BaseStats {
    match kind {
        CaracKindV::Vitality => BaseStats { vitality: v, ..b },
        CaracKindV::Wisdom => BaseStats { wisdom: v, ..b },
        CaracKindV::Stats(e) => match e {
            Element::Earth => BaseStats { earth: v, ..b },
            Element::Water => BaseStats { water: v, ..b },
            Element::Air => BaseStats { air: v, ..b },
            Element::Fire => BaseStats { fire: v, ..b },
            Element::Neutral => BaseStats { neutral: v, ..b },
        },
        _ => b,
    }
}

/// The points sunk into the whole ledger: the cost from zero of every
/// allocation, summed.
pub open spec fn spent_total(b: BaseStats) -> int {
    cost_from_zero_spec(CaracKindV::Vitality, b.vitality as int) + cost_from_zero_spec(
        CaracKindV::Wisdom,
        b.wisdom as int,
    ) + cost_from_zero_spec(CaracKindV::Stats(Element::Earth), b.earth as int)
        + cost_from_zero_spec(CaracKindV::Stats(Element::Water), b.water as int)
        + cost_from_zero_spec(CaracKindV::Stats(Element::Air), b.air as int)
        + cost_from_zero_spec(CaracKindV::Stats(Element::Fire), b.fire as int)
        + cost_from_zero_spec(CaracKindV::Stats(Element::Neutral), b.neutral as int)
}

/// Replacing one allocation moves the total by the cost difference of that
/// one statistic.
proof fn lemma_spent_update(b: BaseStats, kind: CaracKindV, v: u16)
    requires
        is_allocatable(kind),
    ensures
        spent_total(with_alloc(b, kind, v)) == spent_total(b) - cost_from_zero_spec(
            kind,
            alloc_of(b, kind),
        ) + cost_from_zero_spec(kind, v as int),
{
}

/// Every single allocation's cost is within the non-negative total.
proof fn lemma_spent_bounds(b: BaseStats, kind: CaracKindV)
    requires
        is_allocatable(kind),
    ensures
        0 <= cost_from_zero_spec(kind, alloc_of(b, kind)) <= spent_total(b),
{
    lemma_cost_from_zero_properties(CaracKindV::Vitality, b.vitality as int, b.vitality as int);
    lemma_cost_from_zero_properties(CaracKindV::Wisdom, b.wisdom as int, b.wisdom as int);
    lemma_cost_from_zero_properties(
        CaracKindV::Stats(Element::Earth),
        b.earth as int,
        b.earth as int,
    );
    lemma_cost_from_zero_properties(
        CaracKindV::Stats(Element::Water),
        b.water as int,
        b.water as int,
    );
    lemma_cost_from_zero_properties(CaracKindV::Stats(Element::Air), b.air as int, b.air as int);
    lemma_cost_from_zero_properties(
        CaracKindV::Stats(Element::Fire),
        b.fire as int,
        b.fire as int,
    );
    lemma_cost_from_zero_properties(
        CaracKindV::Stats(Element::Neutral),
        b.neutral as int,
        b.neutral as int,
    );
}

impl BaseStats {
    /// A ledger with nothing allocated.
    pub fn new() -> (r: Self)
        ensures
            forall|k: CaracKindV| alloc_of(r, k) == 0,
            spent_total(r) == 0,
    {
        let r = BaseStats {
            vitality: 0,
            wisdom: 0,
            earth: 0,
            water: 0,
            air: 0,
            fire: 0,
            neutral: 0,
        };
        proof {
            assert(0int / 100 == 0 && 0int % 100 == 0) by (nonlinear_arith);
        }
        r
    }

    /// The points allocated to `kind`; zero for a non-allocatable kind.
    pub fn get(&self, kind: &CaracKind) -> (r: u16)
        ensures
            r as int == alloc_of(*self, kind@),
    {
        match kind {
            CaracKind::Vitality => self.vitality,
            CaracKind::Wisdom => self.wisdom,
            CaracKind::Stats(Element::Earth) => self.earth,
            CaracKind::Stats(Element::Water) => self.water,
            CaracKind::Stats(Element::Air) => self.air,
            CaracKind::Stats(Element::Fire) => self.fire,
            CaracKind::Stats(Element::Neutral) => self.neutral,
            _ => 0,
        }
    }

    /// Replace the allocation of `kind`.
    fn set(&mut self, kind: &CaracKind, v: u16)
        requires
            is_allocatable(kind@),
        ensures
            *final(self) == with_alloc(*old(self), kind@, v),
    {
        match kind {
            CaracKind::Vitality => self.vitality = v,
            CaracKind::Wisdom => self.wisdom = v,
            CaracKind::Stats(Element::Earth) => self.earth = v,
            CaracKind::Stats(Element::Water) => self.water = v,
            CaracKind::Stats(Element::Air) => self.air = v,
            CaracKind::Stats(Element::Fire) => self.fire = v,
            CaracKind::Stats(Element::Neutral) => self.neutral = v,
            _ => {},
        }
    }
}

/// The recoverable failures of the ledger: not enough unspent points for a
/// spend, or not enough allocated points for a refund.
#[derive(Debug, PartialEq)]
pub enum CharacterError {
    NotEnoughPoints,
    NotEnoughCaracs(CaracKind),
}

/// The mutable candidate: the equipment slots and the point ledger.
#[derive(Debug)]
pub struct Character {
    item_slots: Vec<ItemSlot>,
    base_stats: BaseStats,
    unspent: u16,
}

impl Clone for Character {
    fn clone(&self) -> (r: Self)
        ensures
            r.slots_view() == self.slots_view(),
            r.base_spec() == self.base_spec(),
            r.unspent_spec() == self.unspent_spec(),
    {
        let mut slots: Vec<ItemSlot> = Vec::new();
        let n = self.item_slots.len();
        let mut i: usize = 0;
        while i < n
            invariant
                0 <= i <= n,
                n == self.item_slots.len(),
                slots@.len() == i,
                forall|j: int| 0 <= j < i ==> slots@[j]@ == self.item_slots@[j]@,
            decreases n - i,
        {
            slots.push(self.item_slots[i].clone());
            i = i + 1;
        }
        let r = Character { item_slots: slots, base_stats: self.base_stats, unspent: self.unspent };
        proof {
            assert(r.slots_view() =~= self.slots_view());
        }
        r
    }
}

/// The number of equipment positions of the fixed layout.
pub open spec fn slot_count() -> int {
    16
}

/// The item types accepted by slot `i` of the fixed layout: hat, cloak or
/// backpack, amulet, two rings, belt, boots, one weapon of any class, one
/// mount or pet, shield, and six trophy-or-dofus positions.
pub open spec fn default_slot_allowed(i: int) -> Seq<ItemType> {
    if i == 0 {
        seq![ItemType::Hat]
    } else if i == 1 {
        seq![ItemType::Cloak, ItemType::Backpack]
    } else if i == 2 {
        seq![ItemType::Amulet]
    } else if i == 3 || i == 4 {
        seq![ItemType::Ring]
    } else if i == 5 {
        seq![ItemType::Belt]
    } else if i == 6 {
        seq![ItemType::Boots]
    } else if i == 7 {
        seq![
            ItemType::Axe,
            ItemType::Sword,
            ItemType::Staff,
            ItemType::Wand,
            ItemType::Bow,
            ItemType::Dagger,
            ItemType::Shovel,
            ItemType::Hammer,
            ItemType::Scythe,
            ItemType::Pickaxe,
            ItemType::Tool,
            ItemType::SoulStone,
        ]
    } else if i == 8 {
        seq![ItemType::Mount, ItemType::Pet, ItemType::Petsmount]
    } else if i == 9 {
        seq![ItemType::Shield]
    } else {
        seq![ItemType::Dofus, ItemType::Trophy]
    }
}

impl Character {
    /// The slots, as their views.
    pub closed spec fn slots_view(self) -> Seq<ItemSlotV> {
        self.item_slots@.map_values(|s: ItemSlot| s@)
    }

    /// The ledger.
    pub closed spec fn base_spec(self) -> BaseStats {
        self.base_stats
    }

    /// The points allocated to `kind`.
    pub open spec fn allocation(self, kind: CaracKindV) -> int {
        alloc_of(self.base_spec(), kind)
    }

    /// The unspent pool.
    pub closed spec fn unspent_spec(self) -> int {
        self.unspent as int
    }

    /// The ledger accounts stay within the machine bound: the pool plus the
    /// priced allocations never exceed what a `u16` holds. Every operation
    /// preserves this, and it keeps every cost computation exact.
    pub open spec fn ledger_wf(self) -> bool {
        self.unspent_spec() + spent_total(self.base_spec()) <= 65535
    }

    /// The cost of raising `kind` from its current allocation by `amount`.
    pub open spec fn spend_cost_spec(self, kind: CaracKindV, amount: int) -> int {
        cost_from_zero_spec(kind, self.allocation(kind) + amount) - cost_from_zero_spec(
            kind,
            self.allocation(kind),
        )
    }

    /// The points given back by lowering `kind` from its current allocation
    /// by `amount`.
    pub open spec fn unspend_recover_spec(self, kind: CaracKindV, amount: int) -> int {
        cost_from_zero_spec(kind, self.allocation(kind)) - cost_from_zero_spec(
            kind,
            self.allocation(kind) - amount,
        )
    }

    /// A fresh character of the given level: the fixed slot layout, an empty
    /// ledger, and five unspent points per level above the first.
    pub fn new(level: u8) -> (r: Self)
        requires
            level >= 1,
        ensures
            r.slots_view().len() == slot_count(),
            forall|i: int|
                0 <= i < slot_count() ==> (#[trigger] r.slots_view()[i]).allowed
                    == default_slot_allowed(i) && r.slots_view()[i].item is None,
            forall|k: CaracKindV| r.allocation(k) == 0,
            r.unspent_spec() == 5 * (level - 1),
            r.ledger_wf(),
    {
        let mut slots: Vec<ItemSlot> = Vec::new();
        slots.push(ItemSlot::new(vec![ItemType::Hat]));
        slots.push(ItemSlot::new(vec![ItemType::Cloak, ItemType::Backpack]));
        slots.push(ItemSlot::new(vec![ItemType::Amulet]));
        slots.push(ItemSlot::new(vec![ItemType::Ring]));
        slots.push(ItemSlot::new(vec![ItemType::Ring]));
        slots.push(ItemSlot::new(vec![ItemType::Belt]));
        slots.push(ItemSlot::new(vec![ItemType::Boots]));
        slots.push(
            ItemSlot::new(
                vec![
                    ItemType::Axe,
                    ItemType::Sword,
                    ItemType::Staff,
                    ItemType::Wand,
                    ItemType::Bow,
                    ItemType::Dagger,
                    ItemType::Shovel,
                    ItemType::Hammer,
                    ItemType::Scythe,
                    ItemType::Pickaxe,
                    ItemType::Tool,
                    ItemType::SoulStone,
                ],
            ),
        );
        slots.push(ItemSlot::new(vec![ItemType::Mount, ItemType::Pet, ItemType::Petsmount]));
        slots.push(ItemSlot::new(vec![ItemType::Shield]));
        slots.push(ItemSlot::new(vec![ItemType::Dofus, ItemType::Trophy]));
        slots.push(ItemSlot::new(vec![ItemType::Dofus, ItemType::Trophy]));
        slots.push(ItemSlot::new(vec![ItemType::Dofus, ItemType::Trophy]));
        slots.push(ItemSlot::new(vec![ItemType::Dofus, ItemType::Trophy]));
        slots.push(ItemSlot::new(vec![ItemType::Dofus, ItemType::Trophy]));
        slots.push(ItemSlot::new(vec![ItemType::Dofus, ItemType::Trophy]));
        let unspent: u16 = 5 * ((level as u16) - 1);
        let r = Character { item_slots: slots, base_stats: BaseStats::new(), unspent };
        proof {
            assert forall|i: int| 0 <= i < slot_count() implies (#[trigger] r.slots_view()[
            i]).allowed == default_slot_allowed(i) && r.slots_view()[i].item is None by {
                assert(r.slots_view()[i] == r.item_slots@[i]@);
                assert(r.item_slots@[i]@.allowed =~= default_slot_allowed(i));
            }
        }
        r
    }

    /// The number of slots.
    pub fn slot_len(&self) -> (r: usize)
        ensures
            r == self.slots_view().len(),
    {
        self.item_slots.len()
    }

    /// The slots, read-only.
    pub fn slots(&self) -> (r: &Vec<ItemSlot>)
        ensures
            r@.map_values(|s: ItemSlot| s@) == self.slots_view(),
    {
        &self.item_slots
    }

    /// The ledger, read-only.
    pub fn base_stats(&self) -> (r: &BaseStats)
        ensures
            *r == self.base_spec(),
    {
        &self.base_stats
    }

    /// The unspent pool.
    pub fn unspent(&self) -> (r: u16)
        ensures
            r as int == self.unspent_spec(),
    {
        self.unspent
    }

    /// Equip the record at catalog index `item` into slot `slot`, replacing
    /// any occupant. The record's type must be acceptable to the slot.
    pub fn equip_slot(&mut self, slot: usize, catalog: &Vec<Equipement>, item: usize)
        requires
            slot < old(self).slots_view().len(),
            item < catalog.len(),
            old(self).slots_view()[slot as int].allowed.contains(catalog[item as int].item_type),
        ensures
            final(self).slots_view().len() == old(self).slots_view().len(),
            final(self).slots_view()[slot as int].allowed == old(self).slots_view()[
                slot as int].allowed,
            final(self).slots_view()[slot as int].item == Some(item as int),
            forall|i: int|
                0 <= i < old(self).slots_view().len() && i != slot ==> final(self).slots_view()[i]
                    == old(self).slots_view()[i],
            final(self).base_spec() == old(self).base_spec(),
            final(self).unspent_spec() == old(self).unspent_spec(),
    {
        proof {
            assert(self.slots_view()[slot as int] == self.item_slots@[slot as int]@);
        }
        let mut updated = self.item_slots[slot].clone();
        updated.equip(catalog, item);
        self.item_slots.set(slot, updated);
        proof {
            assert forall|i: int|
                0 <= i < old(self).slots_view().len() && i != slot implies self.slots_view()[i]
                == old(self).slots_view()[i] by {
                assert(self.item_slots@[i] == old(self).item_slots@[i]);
            }
        }
    }

    /// Law: the number of points needed to raise an initially zero statistic
    /// to `val`; zero at zero, non-negative, and non-decreasing in `val` (see
    /// `lemma_cost_from_zero_properties`).
    pub fn carac_cost_from_zero(kind: &CaracKind, val: u16) -> (r: u16)
        requires
            is_allocatable(kind@),
            cost_from_zero_spec(kind@, val as int) <= 65535,
        ensures
            r as int == cost_from_zero_spec(kind@, val as int),
    {
        let wide = cost_from_zero_wide(kind, val as u32);
        wide as u16
    }

    /// The cost of raising `kind` by `amount` from its current allocation,
    /// computed in wide integers.
    fn spend_cost_wide(&self, kind: &CaracKind, amount: u16) -> (r: u64)
        requires
            is_allocatable(kind@),
        ensures
            r == self.spend_cost_spec(kind@, amount as int),
    {
        let current = self.base_stats.get(kind);
        let target: u32 = current as u32 + amount as u32;
        let hi = cost_from_zero_wide(kind, target);
        let lo = cost_from_zero_wide(kind, current as u32);
        proof {
            lemma_cost_from_zero_properties(kind@, current as int, target as int);
        }
        hi - lo
    }

    /// The cost of raising `kind` by `amount` from its current allocation.
    pub fn carac_spend_cost(&self, kind: &CaracKind, amount: u16) -> (r: u16)
        requires
            is_allocatable(kind@),
            self.spend_cost_spec(kind@, amount as int) <= 65535,
        ensures
            r as int == self.spend_cost_spec(kind@, amount as int),
    {
        let wide = self.spend_cost_wide(kind, amount);
        proof {
            lemma_cost_from_zero_properties(kind@, 0, self.allocation(kind@));
        }
        wide as u16
    }

    /// The points given back by lowering `kind` by `amount`, or
    /// `NotEnoughCaracs` when `amount` exceeds the current allocation:
    /// exactly then.
    pub fn carac_unspend_recover(&self, kind: &CaracKind, amount: u16) -> (r: Result<
        u16,
        CharacterError,
    >)
        requires
            is_allocatable(kind@),
            self.ledger_wf(),
        ensures
            match r {
                Ok(recovered) => amount as int <= self.allocation(kind@) && recovered as int
                    == self.unspend_recover_spec(kind@, amount as int),
                Err(e) => amount as int > self.allocation(kind@) && (e matches
                    CharacterError::NotEnoughCaracs(k) && k@ == kind@),
            },
    {
        let current = self.base_stats.get(kind);
        if current < amount {
            Err(CharacterError::NotEnoughCaracs(kind.clone()))
        } else {
            let hi = cost_from_zero_wide(kind, current as u32);
            let lo = cost_from_zero_wide(kind, (current - amount) as u32);
            proof {
                lemma_cost_from_zero_properties(kind@, (current - amount) as int, current as int);
                lemma_spent_bounds(self.base_stats, kind@);
            }
            Ok((hi - lo) as u16)
        }
    }

    /// Spend points to raise `kind` by `amount`; `NotEnoughPoints` when the
    /// cost exceeds the unspent pool: exactly then. On success the pool drops
    /// by the cost and the allocation rises by `amount`; the slots and every
    /// other allocation are untouched, and pool plus priced allocations is
    /// conserved.
    pub fn carac_spend(&mut self, kind: &CaracKind, amount: u16) -> (r: Result<(), CharacterError>)
        requires
            is_allocatable(kind@),
            old(self).ledger_wf(),
        ensures
            final(self).ledger_wf(),
            0 <= final(self).unspent_spec(),
            match r {
                Ok(()) => {
                    let cost = old(self).spend_cost_spec(kind@, amount as int);
                    &&& cost <= old(self).unspent_spec()
                    &&& final(self).unspent_spec() == old(self).unspent_spec() - cost
                    &&& final(self).allocation(kind@) == old(self).allocation(kind@) + amount
                    &&& forall|k: CaracKindV|
                        k != kind@ ==> final(self).allocation(k) == old(self).allocation(k)
                    &&& final(self).slots_view() == old(self).slots_view()
                    &&& final(self).unspent_spec() + spent_total(final(self).base_spec()) == old(
                        self,
                    ).unspent_spec() + spent_total(old(self).base_spec())
                },
                Err(e) => {
                    &&& e is NotEnoughPoints
                    &&& old(self).spend_cost_spec(kind@, amount as int) > old(self).unspent_spec()
                    &&& *final(self) == *old(self)
                },
            },
    {
        let cost = self.spend_cost_wide(kind, amount);
        if cost > self.unspent as u64 {
            Err(CharacterError::NotEnoughPoints)
        } else {
            let current = self.base_stats.get(kind);
            proof {
                lemma_spent_bounds(self.base_stats, kind@);
                lemma_cost_from_zero_properties(kind@, 0, current as int);
                lemma_cost_gap(kind@, 0, current as int + amount as int);
                lemma_spent_update(self.base_stats, kind@, (current + amount) as u16);
            }
            self.unspent = self.unspent - (cost as u16);
            self.base_stats.set(kind, current + amount);
            proof {
                assert(final(self).slots_view() =~= old(self).slots_view());
            }
            Ok(())
        }
    }

    /// Give back the points of lowering `kind` by `amount`;
    /// `NotEnoughCaracs` when `amount` exceeds the allocation: exactly then.
    /// On success the pool grows by the recovered points and the allocation
    /// drops by `amount`; the slots and every other allocation are untouched,
    /// and pool plus priced allocations is conserved.
    pub fn carac_unspend(&mut self, kind: &CaracKind, amount: u16) -> (r: Result<
        (),
        CharacterError,
    >)
        requires
            is_allocatable(kind@),
            old(self).ledger_wf(),
        ensures
            final(self).ledger_wf(),
            0 <= final(self).unspent_spec(),
            match r {
                Ok(()) => {
                    let recovered = old(self).unspend_recover_spec(kind@, amount as int);
                    &&& amount as int <= old(self).allocation(kind@)
                    &&& final(self).unspent_spec() == old(self).unspent_spec() + recovered
                    &&& final(self).allocation(kind@) == old(self).allocation(kind@) - amount
                    &&& forall|k: CaracKindV|
                        k != kind@ ==> final(self).allocation(k) == old(self).allocation(k)
                    &&& final(self).slots_view() == old(self).slots_view()
                    &&& final(self).unspent_spec() + spent_total(final(self).base_spec()) == old(
                        self,
                    ).unspent_spec() + spent_total(old(self).base_spec())
                },
                Err(e) => {
                    &&& amount as int > old(self).allocation(kind@)
                    &&& (e matches CharacterError::NotEnoughCaracs(k) && k@ == kind@)
                    &&& *final(self) == *old(self)
                },
            },
    {
        let recovered = match self.carac_unspend_recover(kind, amount) {
            Ok(recovered) => recovered,
            Err(e) => {
                return Err(e);
            },
        };
        let current = self.base_stats.get(kind);
        proof {
            lemma_spent_bounds(self.base_stats, kind@);
            lemma_cost_from_zero_properties(kind@, (current - amount) as int, current as int);
            lemma_spent_update(self.base_stats, kind@, (current - amount) as u16);
        }
        self.unspent = self.unspent + recovered;
        self.base_stats.set(kind, current - amount);
        proof {
            assert(final(self).slots_view() =~= old(self).slots_view());
        }
        Ok(())
    }

}

/// Whether a spend of `amount` onto `kind`, seeking missing points from
/// `seek`, can go through: the pool covers the cost, or fully zeroing the
/// seek source recovers at least the shortfall.
pub open spec fn seek_would_succeed(
    c: Character,
    kind: CaracKindV,
    amount: int,
    seek: CaracKindV,
) -> bool {
    ||| c.spend_cost_spec(kind, amount) <= c.unspent_spec()
    ||| cost_from_zero_spec(seek, c.allocation(seek)) >= c.spend_cost_spec(kind, amount)
        - c.unspent_spec()
}

/// The state change of a successful spend-or-seek: a plain spend when the
/// pool covers the cost; otherwise the minimal sufficient decrease `d` of
/// the seek source, followed by the spend at the lowered allocation.
pub open spec fn seek_ok_outcome(
    pre: Character,
    post: Character,
    kind: CaracKindV,
    amount: int,
    seek: CaracKindV,
) -> bool {
    let cost = pre.spend_cost_spec(kind, amount);
    if cost <= pre.unspent_spec() {
        &&& post.allocation(kind) == pre.allocation(kind) + amount
        &&& forall|k: CaracKindV| k != kind ==> post.allocation(k) == pre.allocation(k)
        &&& post.unspent_spec() == pre.unspent_spec() - cost
    } else {
        exists|d: int|
            {
                let required = cost - pre.unspent_spec();
                let mid_alloc = pre.allocation(kind) - (if kind == seek {
                    d
                } else {
                    0
                });
                let recover = pre.unspend_recover_spec(seek, d);
                let cost_after = cost_from_zero_spec(kind, mid_alloc + amount)
                    - cost_from_zero_spec(kind, mid_alloc);
                &&& 1 <= d <= pre.allocation(seek)
                &&& #[trigger] pre.unspend_recover_spec(seek, d) >= required
                &&& (forall|d2: int| 1 <= d2 < d ==> pre.unspend_recover_spec(seek, d2) < required)
                &&& post.allocation(kind) == mid_alloc + amount
                &&& post.allocation(seek) == pre.allocation(seek) - d + (if kind == seek {
                    amount
                } else {
                    0
                })
                &&& (forall|k: CaracKindV|
                    k != kind && k != seek ==> post.allocation(k) == pre.allocation(k))
                &&& post.unspent_spec() == pre.unspent_spec() + recover - cost_after
            }
    }
}

impl Character {
    /// Spend points to raise `kind` by `amount`; when the pool cannot cover
    /// the cost, first free exactly enough points by lowering `seek_from` by
    /// the minimal sufficient decrease, found by binary search — valid
    /// because the recovered points grow monotonically with the decrease.
    /// Succeeds exactly when `seek_would_succeed`; on success the new state
    /// is pinned by `seek_ok_outcome`. Pool plus priced allocations is
    /// conserved, and no account is ever driven negative.
    pub fn carac_spend_or_seek(
        &mut self,
        kind: &CaracKind,
        amount: u16,
        seek_from: &CaracKind,
    ) -> (r: Result<(), CharacterError>)
        requires
            is_allocatable(kind@),
            is_allocatable(seek_from@),
            old(self).ledger_wf(),
        ensures
            final(self).ledger_wf(),
            final(self).slots_view() == old(self).slots_view(),
            final(self).unspent_spec() + spent_total(final(self).base_spec()) == old(
                self,
            ).unspent_spec() + spent_total(old(self).base_spec()),
            0 <= final(self).unspent_spec(),
            forall|k: CaracKindV| 0 <= final(self).allocation(k),
            match r {
                Ok(()) => {
                    &&& seek_would_succeed(*old(self), kind@, amount as int, seek_from@)
                    &&& seek_ok_outcome(
                        *old(self),
                        *final(self),
                        kind@,
                        amount as int,
                        seek_from@,
                    )
                },
                Err(e) => {
                    &&& (e matches CharacterError::NotEnoughCaracs(k) && k@ == seek_from@)
                    &&& !seek_would_succeed(*old(self), kind@, amount as int, seek_from@)
                    &&& *final(self) == *old(self)
                },
            },
    {
        let cost = self.spend_cost_wide(kind, amount);
        if cost <= self.unspent as u64 {
            match self.carac_spend(kind, amount) {
                Ok(()) => Ok(()),
                Err(e) => {
                    proof {
                        assert(false);
                    }
                    Err(e)
                },
            }
        } else {
            let required: u64 = cost - self.unspent as u64;
            let current = self.base_stats.get(seek_from);
            let full = cost_from_zero_wide(seek_from, current as u32);
            proof {
                lemma_cost_from_zero_properties(seek_from@, 0, current as int);
            }
            if full < required {
                return Err(CharacterError::NotEnoughCaracs(seek_from.clone()));
            }
            // recover(current) covers the shortfall and recover(0) == 0 does
            // not, so a minimal sufficient decrease exists in [1, current];
            // monotonicity of the recovery makes binary search valid.
            let ghost oldc = *self;
            let mut min: u32 = 1;
            let mut max: u32 = current as u32 + 1;
            proof {
                assert(oldc.unspend_recover_spec(seek_from@, current as int) == full);
                assert(required >= 1);
                assert(current >= 1);
            }
            while min + 1 < max
                invariant
                    1 <= min < max <= current as int + 1,
                    current as int == oldc.allocation(seek_from@),
                    is_allocatable(seek_from@),
                    *self == oldc,
                    oldc.unspend_recover_spec(seek_from@, max as int - 1) >= required,
                    forall|d2: int|
                        1 <= d2 < min ==> oldc.unspend_recover_spec(seek_from@, d2) < required,
                decreases max - min,
            {
                let mid: u32 = (min + max - 1) / 2;
                proof {
                    assert(min <= mid < max);
                }
                let hi = cost_from_zero_wide(seek_from, current as u32);
                let lo = cost_from_zero_wide(seek_from, current as u32 - mid);
                proof {
                    lemma_cost_from_zero_properties(
                        seek_from@,
                        current as int - mid as int,
                        current as int,
                    );
                }
                let rec_mid = hi - lo;
                if rec_mid < required {
                    proof {
                        assert forall|d2: int|
                            1 <= d2 <= mid implies oldc.unspend_recover_spec(seek_from@, d2)
                            < required by {
                            lemma_cost_from_zero_properties(
                                seek_from@,
                                current as int - mid as int,
                                current as int - d2,
                            );
                        }
                    }
                    min = mid + 1;
                } else {
                    max = mid + 1;
                }
            }
            let decrease: u16 = min as u16;
            proof {
                assert(min + 1 == max);
                assert(oldc.unspend_recover_spec(seek_from@, min as int) >= required);
            }
            match self.carac_unspend(seek_from, decrease) {
                Ok(()) => {},
                Err(_) => {
                    proof {
                        assert(false);
                    }
                },
            }
            proof {
                if kind@ == seek_from@ {
                    lemma_cost_convex(
                        kind@,
                        oldc.allocation(kind@) - min as int,
                        oldc.allocation(kind@),
                        amount as int,
                    );
                } else {
                    assert(self.allocation(kind@) == oldc.allocation(kind@));
                }
            }
            match self.carac_spend(kind, amount) {
                Ok(()) => {
                    proof {
                        let d = min as int;
                        assert(oldc.unspend_recover_spec(seek_from@, d) >= required);
                    }
                    Ok(())
                },
                Err(e) => {
                    proof {
                        assert(false);
                    }
                    Err(e)
                },
            }
        }
    }
}

/// Every occupied slot refers into the catalog.
pub open spec fn slots_in_catalog(slots: Seq<ItemSlotV>, catalog: Seq<Equipement>) -> bool {
    forall|i: int|
        0 <= i < slots.len() ==> match (#[trigger] slots[i]).item {
            Some(idx) => 0 <= idx < catalog.len(),
            None => true,
        }
}

/// Whether equipping this record twice is illegal: it belongs to a set, or
/// is a trophy or a dofus-class accessory.
pub open spec fn conflict_flag(item: Equipement) -> bool {
    ||| item.set_id is Some
    ||| item.item_type is Trophy
    ||| item.item_type is Dofus
}

/// The conflict test of an ordered record pair, as the count uses it: same
/// identity, and the first record is unique-equip.
pub open spec fn conflicting(a: Equipement, b: Equipement) -> bool {
    a._id == b._id && conflict_flag(a)
}

/// The conflict test between two slots: both occupied, with conflicting
/// records.
pub open spec fn slot_conflict(catalog: Seq<Equipement>, a: ItemSlotV, b: ItemSlotV) -> bool {
    match (a.item, b.item) {
        (Some(x), Some(y)) => 0 <= x < catalog.len() && 0 <= y < catalog.len() && conflicting(
            catalog[x],
            catalog[y],
        ),
        _ => false,
    }
}

/// How many slots of `s` conflict with the slot `a`.
pub open spec fn cross_slot_conflicts(
    catalog: Seq<Equipement>,
    a: ItemSlotV,
    s: Seq<ItemSlotV>,
) -> int
    decreases s.len(),
{
    if s.len() == 0 {
        0
    } else {
        (if slot_conflict(catalog, a, s[0]) {
            1int
        } else {
            0int
        }) + cross_slot_conflicts(catalog, a, s.drop_first())
    }
}

/// The number of conflicting unordered slot pairs, each tested with the
/// earlier slot first.
pub open spec fn total_slot_conflicts(catalog: Seq<Equipement>, s: Seq<ItemSlotV>) -> int
    decreases s.len(),
{
    if s.len() == 0 {
        0
    } else {
        cross_slot_conflicts(catalog, s[0], s.drop_first()) + total_slot_conflicts(
            catalog,
            s.drop_first(),
        )
    }
}

/// An unoccupied slot conflicts with nothing.
proof fn lemma_cross_unoccupied(catalog: Seq<Equipement>, a: ItemSlotV, s: Seq<ItemSlotV>)
    requires
        a.item is None,
    ensures
        cross_slot_conflicts(catalog, a, s) == 0,
    decreases s.len(),
{
    if s.len() > 0 {
        lemma_cross_unoccupied(catalog, a, s.drop_first());
    }
}

/// Cross-counts are non-negative and bounded by the sequence length.
proof fn lemma_cross_bound(catalog: Seq<Equipement>, a: ItemSlotV, s: Seq<ItemSlotV>)
    ensures
        0 <= cross_slot_conflicts(catalog, a, s) <= s.len(),
    decreases s.len(),
{
    if s.len() > 0 {
        lemma_cross_bound(catalog, a, s.drop_first());
    }
}

/// Totals are non-negative and bounded by the square of the length.
proof fn lemma_total_bound(catalog: Seq<Equipement>, s: Seq<ItemSlotV>)
    ensures
        0 <= total_slot_conflicts(catalog, s) <= s.len() * (s.len() - 1),
    decreases s.len(),
{
    if s.len() > 0 {
        lemma_cross_bound(catalog, s[0], s.drop_first());
        lemma_total_bound(catalog, s.drop_first());
        assert((s.len() - 1) + (s.len() - 1) * (s.len() - 2) <= s.len() * (s.len() - 1))
            by (nonlinear_arith)
            requires
                s.len() >= 1,
        ;
    }
}

/// A cross-count splits at any index.
proof fn lemma_cross_remove(catalog: Seq<Equipement>, a: ItemSlotV, s: Seq<ItemSlotV>, k: int)
    requires
        0 <= k < s.len(),
    ensures
        cross_slot_conflicts(catalog, a, s) == (if slot_conflict(catalog, a, s[k]) {
            1int
        } else {
            0int
        }) + cross_slot_conflicts(catalog, a, s.remove(k)),
    decreases k,
{
    if k == 0 {
        assert(s.remove(0) =~= s.drop_first());
    } else {
        assert(s.remove(k).drop_first() =~= s.drop_first().remove(k - 1));
        assert(s.remove(k)[0] == s[0]);
        assert(s.drop_first()[k - 1] == s[k]);
        lemma_cross_remove(catalog, a, s.drop_first(), k - 1);
    }
}

/// Cross-counts depend only on the multiset of slots.
proof fn lemma_cross_multiset(
    catalog: Seq<Equipement>,
    a: ItemSlotV,
    s1: Seq<ItemSlotV>,
    s2: Seq<ItemSlotV>,
)
    requires
        s1.to_multiset() == s2.to_multiset(),
    ensures
        cross_slot_conflicts(catalog, a, s1) == cross_slot_conflicts(catalog, a, s2),
    decreases s1.len(),
{
    broadcast use vstd::seq_lib::group_to_multiset_ensures;

    if s1.len() == 0 {
        assert(s2.to_multiset().len() == 0);
        assert(s2.len() == 0);
    } else {
        let h = s1[0];
        assert(s1.contains(h));
        assert(s1.to_multiset().count(h) > 0);
        assert(s2.to_multiset().count(h) > 0);
        assert(s2.contains(h));
        let k = choose|k: int| 0 <= k < s2.len() && s2[k] == h;
        lemma_cross_remove(catalog, a, s2, k);
        assert(s1.drop_first() =~= s1.remove(0));
        assert(s1.remove(0).to_multiset() =~= s1.to_multiset().remove(h));
        assert(s2.remove(k).to_multiset() =~= s2.to_multiset().remove(h));
        lemma_cross_multiset(catalog, a, s1.drop_first(), s2.remove(k));
    }
}

/// When the pair test is symmetric over the slots of `s`, the total splits
/// at any index: the removed slot's pairs become its cross-count against the
/// rest.
proof fn lemma_total_remove(catalog: Seq<Equipement>, s: Seq<ItemSlotV>, k: int)
    requires
        0 <= k < s.len(),
        forall|i: int, j: int|
            0 <= i < s.len() && 0 <= j < s.len() ==> slot_conflict(catalog, s[i], s[j])
                == slot_conflict(catalog, s[j], s[i]),
    ensures
        total_slot_conflicts(catalog, s) == cross_slot_conflicts(catalog, s[k], s.remove(k))
            + total_slot_conflicts(catalog, s.remove(k)),
    decreases k,
{
    if k == 0 {
        assert(s.remove(0) =~= s.drop_first());
    } else {
        let t = s.drop_first();
        let h = s[0];
        assert forall|i: int, j: int|
            0 <= i < t.len() && 0 <= j < t.len() implies slot_conflict(catalog, t[i], t[j])
            == slot_conflict(catalog, t[j], t[i]) by {
            assert(t[i] == s[i + 1]);
            assert(t[j] == s[j + 1]);
        }
        assert(t[k - 1] == s[k]);
        lemma_total_remove(catalog, t, k - 1);
        lemma_cross_remove(catalog, h, t, k - 1);
        assert(s.remove(k)[0] == h);
        assert(s.remove(k).drop_first() =~= t.remove(k - 1));
        assert(s.remove(k)[0] == s[0]);
        // the pair (first slot, removed slot) flips direction when the
        // removed slot is counted first
        assert(slot_conflict(catalog, h, s[k]) == slot_conflict(catalog, s[k], h));
        lemma_cross_remove(catalog, s[k], s, 0);
        assert(s.remove(0) =~= t);
        assert(cross_slot_conflicts(catalog, s[k], s.remove(k)) == (if slot_conflict(
            catalog,
            s[k],
            h,
        ) {
            1int
        } else {
            0int
        }) + cross_slot_conflicts(catalog, s[k], t.remove(k - 1)));
    }
}

/// Law: conflict counting is order-independent. Whenever the catalog gives
/// records of one identity one consistent unique-equip flag, two slot lists
/// holding the same slots as a multiset — any permutation of one another —
/// have the same total conflict count.
pub proof fn lemma_conflicts_order_independent(
    catalog: Seq<Equipement>,
    s1: Seq<ItemSlotV>,
    s2: Seq<ItemSlotV>,
)
    requires
        s1.to_multiset() == s2.to_multiset(),
        forall|i: int, j: int|
            0 <= i < catalog.len() && 0 <= j < catalog.len() && (#[trigger] catalog[i])._id == (
            #[trigger] catalog[j])._id ==> conflict_flag(catalog[i]) == conflict_flag(catalog[j]),
    ensures
        total_slot_conflicts(catalog, s1) == total_slot_conflicts(catalog, s2),
    decreases s1.len(),
{
    broadcast use vstd::seq_lib::group_to_multiset_ensures;

    if s1.len() == 0 {
        assert(s2.to_multiset().len() == 0);
        assert(s2.len() == 0);
    } else {
        let h = s1[0];
        assert(s1.contains(h));
        assert(s1.to_multiset().count(h) > 0);
        assert(s2.to_multiset().count(h) > 0);
        assert(s2.contains(h));
        let k = choose|k: int| 0 <= k < s2.len() && s2[k] == h;
        assert forall|i: int, j: int|
            0 <= i < s2.len() && 0 <= j < s2.len() implies slot_conflict(catalog, s2[i], s2[j])
            == slot_conflict(catalog, s2[j], s2[i]) by {}
        lemma_total_remove(catalog, s2, k);
        assert(s1.drop_first() =~= s1.remove(0));
        assert(s1.remove(0).to_multiset() =~= s1.to_multiset().remove(h));
        assert(s2.remove(k).to_multiset() =~= s2.to_multiset().remove(h));
        lemma_cross_multiset(catalog, h, s1.drop_first(), s2.remove(k));
        lemma_conflicts_order_independent(catalog, s1.drop_first(), s2.remove(k));
    }
}

impl Character {
    /// Count the conflicting pairs of equipped items: two occupied slots
    /// conflict when they hold records of the same identity and the record
    /// is unique-equip — set-affiliated, a trophy, or a dofus-class
    /// accessory. Symmetric and order-independent over the equipped multiset
    /// (see `lemma_conflicts_order_independent`).
    pub fn count_item_conflicts(&self, catalog: &Vec<Equipement>) -> (r: u8)
        requires
            slots_in_catalog(self.slots_view(), catalog@),
            self.slots_view().len() == slot_count(),
        ensures
            r as int == total_slot_conflicts(catalog@, self.slots_view()),
    {
        let ghost sv = self.slots_view();
        let n = self.item_slots.len();
        let mut acc: u32 = 0;
        let mut i: usize = 0;
        proof {
            assert(sv.skip(0) =~= sv);
            lemma_total_bound(catalog@, sv);
        }
        while i < n
            invariant
                0 <= i <= n,
                n == self.item_slots.len(),
                sv == self.slots_view(),
                sv.len() == slot_count(),
                slots_in_catalog(sv, catalog@),
                acc + total_slot_conflicts(catalog@, sv.skip(i as int)) == total_slot_conflicts(
                    catalog@,
                    sv,
                ),
                acc <= 240,
            decreases n - i,
        {
            proof {
                assert(sv.skip(i as int)[0] == sv[i as int]);
                assert(sv.skip(i as int).drop_first() =~= sv.skip(i + 1));
                lemma_total_bound(catalog@, sv.skip(i + 1));
                lemma_cross_bound(catalog@, sv[i as int], sv.skip(i + 1));
                lemma_total_bound(catalog@, sv);
            }
            match self.item_slots[i].get_item() {
                Some(item1) => {
                    let mut j: usize = i + 1;
                    proof {
                        assert(sv[i as int].item == Some(item1 as int));
                    }
                    while j < n
                        invariant
                            i < j <= n,
                            n == self.item_slots.len(),
                            sv == self.slots_view(),
                            sv.len() == slot_count(),
                            slots_in_catalog(sv, catalog@),
                            sv[i as int].item == Some(item1 as int),
                            item1 < catalog@.len(),
                            acc + cross_slot_conflicts(
                                catalog@,
                                sv[i as int],
                                sv.skip(j as int),
                            ) + total_slot_conflicts(catalog@, sv.skip(i + 1))
                                == total_slot_conflicts(catalog@, sv),
                            acc <= 256,
                        decreases n - j,
                    {
                        proof {
                            assert(sv.skip(j as int)[0] == sv[j as int]);
                            assert(sv.skip(j as int).drop_first() =~= sv.skip(j + 1));
                            lemma_cross_bound(catalog@, sv[i as int], sv.skip(j + 1));
                            lemma_cross_bound(catalog@, sv[i as int], sv.skip(i + 1));
                            lemma_total_bound(catalog@, sv.skip(i + 1));
                            lemma_total_bound(catalog@, sv);
                        }
                        match self.item_slots[j].get_item() {
                            Some(item2) => {
                                proof {
                                    assert(sv[j as int].item == Some(item2 as int));
                                }
                                let it1 = &catalog[item1];
                                let it2 = &catalog[item2];
                                if it1._id == it2._id && (it1.set_id.is_some() || matches!(
                                    it1.item_type,
                                    ItemType::Trophy,
                                ) || matches!(it1.item_type, ItemType::Dofus)) {
                                    acc = acc + 1;
                                }
                            },
                            None => {},
                        }
                        j = j + 1;
                    }
                    proof {
                        assert(sv.skip(n as int) =~= Seq::<ItemSlotV>::empty());
                    }
                },
                None => {
                    proof {
                        assert(sv[i as int].item is None);
                        lemma_cross_unoccupied(catalog@, sv[i as int], sv.skip(i + 1));
                    }
                },
            }
            i = i + 1;
        }
        proof {
            assert(sv.skip(n as int) =~= Seq::<ItemSlotV>::empty());
            lemma_total_bound(catalog@, sv);
            assert(total_slot_conflicts(catalog@, sv) <= 240);
        }
        acc as u8
    }
}

/// The catalog indices of the records equipped from slot `from` on, in slot
/// order.
pub open spec fn equipped_from(slots: Seq<ItemSlotV>, from: int) -> Seq<int>
    decreases slots.len() - from,
{
    if from < 0 || from >= slots.len() {
        Seq::empty()
    } else {
        match slots[from].item {
            Some(idx) => seq![idx] + equipped_from(slots, from + 1),
            None => equipped_from(slots, from + 1),
        }
    }
}

impl Character {
    /// The catalog indices of the equipped records, in slot order.
    pub fn iter_items(&self) -> (r: Vec<usize>)
        ensures
            r@.map_values(|u: usize| u as int) == equipped_from(self.slots_view(), 0),
    {
        let ghost sv = self.slots_view();
        let n = self.item_slots.len();
        let mut r: Vec<usize> = Vec::new();
        let mut i: usize = 0;
        while i < n
            invariant
                0 <= i <= n,
                n == self.item_slots.len(),
                sv == self.slots_view(),
                equipped_from(sv, 0) == r@.map_values(|u: usize| u as int) + equipped_from(
                    sv,
                    i as int,
                ),
            decreases n - i,
        {
            proof {
                assert(self.item_slots@[i as int]@ == sv[i as int]);
            }
            let ghost oldr = r@;
            match self.item_slots[i].get_item() {
                Some(idx) => {
                    r.push(idx);
                    proof {
                        assert(r@.map_values(|u: usize| u as int) =~= oldr.map_values(
                            |u: usize| u as int,
                        ) + seq![idx as int]);
                        assert(oldr.map_values(|u: usize| u as int) + (seq![idx as int]
                            + equipped_from(sv, i + 1)) =~= (oldr.map_values(|u: usize| u as int)
                            + seq![idx as int]) + equipped_from(sv, i + 1));
                    }
                },
                None => {},
            }
            i = i + 1;
        }
        proof {
            assert(equipped_from(sv, n as int) =~= Seq::<int>::empty());
            assert(r@.map_values(|u: usize| u as int) =~= r@.map_values(|u: usize| u as int)
                + Seq::<int>::empty());
        }
        r
    }
}

/// The set identity the record in slot `i` belongs to, if the slot holds a
/// set-affiliated record.
pub open spec fn set_of_slot(slots: Seq<ItemSlotV>, catalog: Seq<Equipement>, i: int) -> Option<
    u64,
> {
    match slots[i].item {
        Some(idx) => if 0 <= idx < catalog.len() {
            catalog[idx].set_id
        } else {
            None
        },
        None => None,
    }
}

/// How many slots from `from` on hold a record of set `sid`.
pub open spec fn count_set_from(
    slots: Seq<ItemSlotV>,
    catalog: Seq<Equipement>,
    sid: u64,
    from: int,
) -> int
    decreases slots.len() - from,
{
    if from < 0 || from >= slots.len() {
        0
    } else {
        (if set_of_slot(slots, catalog, from) == Some(sid) {
            1int
        } else {
            0int
        }) + count_set_from(slots, catalog, sid, from + 1)
    }
}

/// How many worn pieces belong to set `sid`.
pub open spec fn count_set(slots: Seq<ItemSlotV>, catalog: Seq<Equipement>, sid: u64) -> int {
    count_set_from(slots, catalog, sid, 0)
}

/// Whether slot `i` is the first one holding a record of its set.
pub open spec fn first_occurrence(slots: Seq<ItemSlotV>, catalog: Seq<Equipement>, i: int) -> bool {
    &&& set_of_slot(slots, catalog, i) is Some
    &&& forall|j: int|
        0 <= j < i ==> set_of_slot(slots, catalog, j) != set_of_slot(slots, catalog, i)
}

/// The first slot at or after `from` holding a record of set `sid`; the
/// slot count when no slot does.
pub open spec fn first_slot_of_set(
    slots: Seq<ItemSlotV>,
    catalog: Seq<Equipement>,
    sid: u64,
    from: int,
) -> int
    decreases slots.len() - from,
{
    if from < 0 || from >= slots.len() {
        slots.len() as int
    } else if set_of_slot(slots, catalog, from) == Some(sid) {
        from
    } else {
        first_slot_of_set(slots, catalog, sid, from + 1)
    }
}

/// When every slot before `i` misses the set and slot `i` holds it, slot
/// `i` is the first.
proof fn lemma_first_slot_of_set(
    slots: Seq<ItemSlotV>,
    catalog: Seq<Equipement>,
    sid: u64,
    from: int,
    i: int,
)
    requires
        0 <= from <= i < slots.len(),
        set_of_slot(slots, catalog, i) == Some(sid),
        forall|j: int| from <= j < i ==> set_of_slot(slots, catalog, j) != Some(sid),
    ensures
        first_slot_of_set(slots, catalog, sid, from) == i,
    decreases i - from,
{
    if from < i {
        lemma_first_slot_of_set(slots, catalog, sid, from + 1, i);
    }
}

/// What slot `i` adds to the synergy-pair total: the piece count of its set,
/// counted once per set (at its first slot) and only when at least two
/// pieces are worn.
pub open spec fn synergy_contribution(
    slots: Seq<ItemSlotV>,
    catalog: Seq<Equipement>,
    i: int,
) -> int {
    match set_of_slot(slots, catalog, i) {
        Some(sid) => if first_occurrence(slots, catalog, i) && count_set(slots, catalog, sid)
            > 1 {
            count_set(slots, catalog, sid)
        } else {
            0
        },
        None => 0,
    }
}

/// The synergy-pair total over the first `upto` slots.
pub open spec fn synergy_pairs_upto(
    slots: Seq<ItemSlotV>,
    catalog: Seq<Equipement>,
    upto: int,
) -> int
    decreases upto,
{
    if upto <= 0 {
        0
    } else {
        synergy_pairs_upto(slots, catalog, upto - 1) + synergy_contribution(
            slots,
            catalog,
            upto - 1,
        )
    }
}

/// The number of active set-bonus synergy pairs of a build: the summed piece
/// counts of every set contributing at least two pieces.
pub open spec fn synergy_pairs(slots: Seq<ItemSlotV>, catalog: Seq<Equipement>) -> int {
    synergy_pairs_upto(slots, catalog, slots.len() as int)
}

/// Piece counts are non-negative and bounded by the slots remaining.
pub proof fn lemma_count_set_bound(
    slots: Seq<ItemSlotV>,
    catalog: Seq<Equipement>,
    sid: u64,
    from: int,
)
    requires
        0 <= from <= slots.len(),
    ensures
        0 <= count_set_from(slots, catalog, sid, from) <= slots.len() - from,
    decreases slots.len() - from,
{
    if from < slots.len() {
        lemma_count_set_bound(slots, catalog, sid, from + 1);
    }
}

impl Character {
    /// The set identity of the record in slot `i`, if any.
    fn slot_set_id(&self, catalog: &Vec<Equipement>, i: usize) -> (r: Option<u64>)
        requires
            i < self.slots_view().len(),
            slots_in_catalog(self.slots_view(), catalog@),
        ensures
            r == set_of_slot(self.slots_view(), catalog@, i as int),
    {
        proof {
            assert(self.slots_view()[i as int] == self.item_slots@[i as int]@);
        }
        match self.item_slots[i].get_item() {
            Some(idx) => catalog[idx].set_id,
            None => None,
        }
    }

    /// The distinct sets worn and their piece counts, in order of their
    /// first slot.
    #[verifier::rlimit(100)]
    pub fn iter_set_synergies(&self, catalog: &Vec<Equipement>) -> (r: Vec<(u64, u8)>)
        requires
            slots_in_catalog(self.slots_view(), catalog@),
            self.slots_view().len() == slot_count(),
        ensures
            forall|a: int, b: int| 0 <= a < b < r@.len() ==> r@[a].0 != r@[b].0,
            forall|a: int|
                0 <= a < r@.len() ==> 1 <= (#[trigger] r@[a]).1 && r@[a].1 as int == count_set(
                    self.slots_view(),
                    catalog@,
                    r@[a].0,
                ),
            forall|i: int|
                0 <= i < self.slots_view().len() && set_of_slot(self.slots_view(), catalog@, i)
                    is Some ==> exists|a: int|
                    0 <= a < r@.len() && Some((#[trigger] r@[a]).0) == set_of_slot(
                        self.slots_view(),
                        catalog@,
                        i,
                    ),
            forall|a: int, b: int|
                0 <= a < b < r@.len() ==> first_slot_of_set(
                    self.slots_view(),
                    catalog@,
                    r@[a].0,
                    0,
                ) < first_slot_of_set(self.slots_view(), catalog@, r@[b].0, 0),
    {
        let ghost sv = self.slots_view();
        let n = self.item_slots.len();
        let mut res: Vec<(u64, u8)> = Vec::new();
        let mut i: usize = 0;
        while i < n
            invariant
                0 <= i <= n,
                n == self.item_slots.len(),
                sv == self.slots_view(),
                sv.len() == slot_count(),
                slots_in_catalog(sv, catalog@),
                forall|a: int|
                    0 <= a < res@.len() ==> exists|j: int|
                        0 <= j < i && Some((#[trigger] res@[a]).0) == set_of_slot(sv, catalog@, j),
                forall|a: int, b: int| 0 <= a < b < res@.len() ==> res@[a].0 != res@[b].0,
                forall|a: int|
                    0 <= a < res@.len() ==> 1 <= (#[trigger] res@[a]).1 && res@[a].1 as int
                        == count_set(sv, catalog@, res@[a].0),
                forall|j: int|
                    0 <= j < i && set_of_slot(sv, catalog@, j) is Some ==> exists|a: int|
                        0 <= a < res@.len() && Some((#[trigger] res@[a]).0) == set_of_slot(
                            sv,
                            catalog@,
                            j,
                        ),
                forall|a: int|
                    0 <= a < res@.len() ==> #[trigger] first_slot_of_set(
                        sv,
                        catalog@,
                        res@[a].0,
                        0,
                    ) < i,
                forall|a: int, b: int|
                    0 <= a < b < res@.len() ==> first_slot_of_set(sv, catalog@, res@[a].0, 0)
                        < first_slot_of_set(sv, catalog@, res@[b].0, 0),
            decreases n - i,
        {
            match self.slot_set_id(catalog, i) {
                Some(sid) => {
                    // is this the first slot of that set?
                    let mut j: usize = 0;
                    let mut first = true;
                    while j < i
                        invariant
                            0 <= j <= i < n,
                            n == self.item_slots.len(),
                            sv == self.slots_view(),
                            slots_in_catalog(sv, catalog@),
                            set_of_slot(sv, catalog@, i as int) == Some(sid),
                            first <==> (forall|j2: int|
                                0 <= j2 < j ==> set_of_slot(sv, catalog@, j2) != Some(sid)),
                        decreases i - j,
                    {
                        match self.slot_set_id(catalog, j) {
                            Some(other) => {
                                if other == sid {
                                    first = false;
                                }
                            },
                            None => {},
                        }
                        j = j + 1;
                    }
                    if first {
                        // count the pieces of that set over all slots
                        let mut k: usize = 0;
                        let mut cnt: u8 = 0;
                        proof {
                            lemma_count_set_bound(sv, catalog@, sid, 0);
                        }
                        while k < n
                            invariant
                                0 <= k <= n,
                                n == self.item_slots.len(),
                                sv == self.slots_view(),
                                sv.len() == slot_count(),
                                slots_in_catalog(sv, catalog@),
                                cnt as int + count_set_from(sv, catalog@, sid, k as int)
                                    == count_set(sv, catalog@, sid),
                                cnt as int <= k,
                            decreases n - k,
                        {
                            match self.slot_set_id(catalog, k) {
                                Some(other) => {
                                    if other == sid {
                                        cnt = cnt + 1;
                                    }
                                },
                                None => {},
                            }
                            k = k + 1;
                        }
                        proof {
                            lemma_count_split(sv, catalog@, sid, i as int);
                        }
                        let ghost oldres = res@;
                        res.push((sid, cnt));
                        proof {
                            assert(res@ =~= oldres.push((sid, cnt)));
                            lemma_first_slot_of_set(sv, catalog@, sid, 0, i as int);
                            assert forall|a: int|
                                0 <= a < res@.len() implies #[trigger] first_slot_of_set(
                                sv,
                                catalog@,
                                res@[a].0,
                                0,
                            ) < i + 1 by {
                                if a < res@.len() - 1 {
                                    assert(res@[a] == oldres[a]);
                                } else {
                                    assert(res@[a].0 == sid);
                                }
                            }
                            assert forall|a: int, b: int|
                                0 <= a < b < res@.len() implies first_slot_of_set(
                                sv,
                                catalog@,
                                res@[a].0,
                                0,
                            ) < first_slot_of_set(sv, catalog@, res@[b].0, 0) by {
                                assert(res@[a] == oldres[a]);
                                if b == res@.len() - 1 {
                                    assert(res@[b].0 == sid);
                                    assert(first_slot_of_set(sv, catalog@, oldres[a].0, 0) < i);
                                } else {
                                    assert(res@[b] == oldres[b]);
                                }
                            }
                            assert forall|a: int, b: int|
                                0 <= a < b < res@.len() implies res@[a].0 != res@[b].0 by {
                                if b == res@.len() - 1 {
                                    assert(res@[a] == oldres[a]);
                                    let j2 = choose|j2: int|
                                        0 <= j2 < i && Some(oldres[a].0) == set_of_slot(
                                            sv,
                                            catalog@,
                                            j2,
                                        );
                                    if res@[a].0 == sid {
                                        assert(set_of_slot(sv, catalog@, j2) == Some(sid));
                                        assert(false);
                                    }
                                } else {
                                    assert(res@[a] == oldres[a]);
                                    assert(res@[b] == oldres[b]);
                                }
                            }
                            assert forall|a: int|
                                0 <= a < res@.len() implies exists|j2: int|
                                0 <= j2 < i + 1 && Some((#[trigger] res@[a]).0) == set_of_slot(
                                    sv,
                                    catalog@,
                                    j2,
                                ) by {
                                if a < res@.len() - 1 {
                                    assert(res@[a] == oldres[a]);
                                    let j2 = choose|j2: int|
                                        0 <= j2 < i && Some(oldres[a].0) == set_of_slot(
                                            sv,
                                            catalog@,
                                            j2,
                                        );
                                    assert(0 <= j2 < i + 1 && Some(res@[a].0) == set_of_slot(
                                        sv,
                                        catalog@,
                                        j2,
                                    ));
                                } else {
                                    assert(Some(res@[a].0) == set_of_slot(sv, catalog@, i as int));
                                }
                            }
                            assert forall|j2: int|
                                0 <= j2 < i + 1 && set_of_slot(sv, catalog@, j2)
                                    is Some implies exists|a: int|
                                0 <= a < res@.len() && Some((#[trigger] res@[a]).0) == set_of_slot(
                                    sv,
                                    catalog@,
                                    j2,
                                ) by {
                                if j2 < i {
                                    let a = choose|a: int|
                                        0 <= a < oldres.len() && Some(oldres[a].0) == set_of_slot(
                                            sv,
                                            catalog@,
                                            j2,
                                        );
                                    assert(res@[a] == oldres[a]);
                                    assert(Some(res@[a].0) == set_of_slot(sv, catalog@, j2));
                                } else {
                                    let a = res@.len() - 1;
                                    assert(Some(res@[a].0) == set_of_slot(sv, catalog@, j2));
                                }
                            }
                        }
                    } else {
                        proof {
                            assert(!(forall|j2: int|
                                0 <= j2 < i ==> set_of_slot(sv, catalog@, j2) != Some(sid)));
                            let j2 = choose|j2: int|
                                0 <= j2 < i && set_of_slot(sv, catalog@, j2) == Some(sid);
                            assert(exists|a: int|
                                0 <= a < res@.len() && Some((#[trigger] res@[a]).0) == set_of_slot(
                                    sv,
                                    catalog@,
                                    j2,
                                ));
                            let a = choose|a: int|
                                0 <= a < res@.len() && Some((#[trigger] res@[a]).0) == set_of_slot(
                                    sv,
                                    catalog@,
                                    j2,
                                );
                            assert(Some(res@[a].0) == set_of_slot(sv, catalog@, i as int));
                        }
                    }
                },
                None => {},
            }
            i = i + 1;
        }
        res
    }
}

/// A piece count splits around any index: the pieces before `at`, the slot
/// at `at`, and those after it.
proof fn lemma_count_split(slots: Seq<ItemSlotV>, catalog: Seq<Equipement>, sid: u64, at: int)
    requires
        0 <= at < slots.len(),
        set_of_slot(slots, catalog, at) == Some(sid),
    ensures
        count_set(slots, catalog, sid) >= 1,
    decreases at,
{
    if at == 0 {
        lemma_count_set_bound(slots, catalog, sid, 1);
    } else {
        lemma_count_nonneg_prefix(slots, catalog, sid, 0, at);
    }
}

/// Counting from earlier in the sequence never yields less.
proof fn lemma_count_nonneg_prefix(
    slots: Seq<ItemSlotV>,
    catalog: Seq<Equipement>,
    sid: u64,
    from: int,
    at: int,
)
    requires
        0 <= from <= at < slots.len(),
        set_of_slot(slots, catalog, at) == Some(sid),
    ensures
        count_set_from(slots, catalog, sid, from) >= 1,
    decreases at - from,
{
    if from == at {
        lemma_count_set_bound(slots, catalog, sid, at + 1);
    } else {
        lemma_count_nonneg_prefix(slots, catalog, sid, from + 1, at);
        lemma_count_set_bound(slots, catalog, sid, from + 1);
    }
}

/// Law: refunding `amount` points of a statistic and immediately buying the
/// same `amount` back moves the pool by exactly opposite quantities: the
/// points recovered by the refund equal the cost of the repurchase, so the
/// ledger returns to its original balance.
pub proof fn lemma_unspend_spend_roundtrip(c: Character, kind: CaracKindV, amount: int)
    requires
        is_allocatable(kind),
        0 <= amount <= c.allocation(kind),
    ensures
        ({
            let recovered = c.unspend_recover_spec(kind, amount);
            let back = cost_from_zero_spec(kind, (c.allocation(kind) - amount) + amount)
                - cost_from_zero_spec(kind, c.allocation(kind) - amount);
            recovered == back
        }),
{
}

} // verus!
