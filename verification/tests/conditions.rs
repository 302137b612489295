use core::cmp::Ordering;

use dofus_stuff::carac::{CaracKind, Element};
use dofus_stuff::character::Character;
use dofus_stuff::condition::{Condition, ConditionAtom};
use dofus_stuff::equipment::{Equipement, ItemSet, ItemType};
use dofus_stuff::lines::CaracLines;

fn plain_item(id: u64, item_type: ItemType, set_id: Option<u64>) -> Equipement {
    Equipement {
        item_type,
        ankama_id: id,
        _id: id,
        name: String::new(),
        level: 1,
        url: String::new(),
        set_id,
        description: String::new(),
        img_url: String::new(),
        statistics: CaracLines::new(),
        conditions: Condition::new(),
    }
}

#[test]
fn parse_single_comparison() {
    let c = Condition::parse("Wisdom > 10");
    let clauses = c.clauses();
    assert_eq!(clauses.len(), 1);
    assert_eq!(clauses[0].len(), 1);
    match &clauses[0][0] {
        ConditionAtom::Stats(kind, ord, value) => {
            assert!(matches!(kind, CaracKind::Wisdom));
            assert_eq!(*ord, Ordering::Greater);
            assert_eq!(*value, 10);
        }
        other => panic!("expected a comparison atom, got {:?}", other),
    }
}

#[test]
fn parse_conjunction_and_disjunction() {
    let c = Condition::parse("Agility < 5 or Vitality > 2 and Range > 1");
    let clauses = c.clauses();
    assert_eq!(clauses.len(), 2);
    assert_eq!(clauses[0].len(), 2);
    assert_eq!(clauses[1].len(), 1);
    match &clauses[0][0] {
        ConditionAtom::Stats(kind, ord, value) => {
            assert!(matches!(kind, CaracKind::Stats(Element::Air)));
            assert_eq!(*ord, Ordering::Less);
            assert_eq!(*value, 5);
        }
        other => panic!("expected a comparison atom, got {:?}", other),
    }
}

#[test]
fn parse_opaque_fragment() {
    let c = Condition::parse("Aligned with the winds");
    let clauses = c.clauses();
    assert_eq!(clauses.len(), 1);
    assert!(matches!(&clauses[0][0], ConditionAtom::Other(s) if s == "Aligned with the winds"));
}

#[test]
fn parse_overflowing_threshold_is_opaque() {
    let c = Condition::parse("Wisdom > 99999");
    let clauses = c.clauses();
    assert!(matches!(&clauses[0][0], ConditionAtom::Other(_)));
}

#[test]
fn atom_subsumption() {
    let strong = ConditionAtom::Stats(CaracKind::Wisdom, Ordering::Greater, 10);
    let weak = ConditionAtom::Stats(CaracKind::Wisdom, Ordering::Greater, 5);
    assert!(strong.is_stronger_than(&weak));
    assert!(!weak.is_stronger_than(&strong));
    assert!(strong.is_stronger_than(&strong));
    let other_kind = ConditionAtom::Stats(CaracKind::Vitality, Ordering::Greater, 5);
    assert!(!strong.is_stronger_than(&other_kind));
}

#[test]
fn merge_drops_weaker_clause() {
    let strong = Condition::parse("Wisdom > 10");
    let weak = Condition::parse("Wisdom > 5");
    let merged = Condition::and(strong, weak);
    let clauses = merged.clauses();
    assert_eq!(clauses.len(), 1);
    assert!(matches!(
        &clauses[0][0],
        ConditionAtom::Stats(CaracKind::Wisdom, Ordering::Greater, 10)
    ));
}

#[test]
fn merge_replaces_weaker_kept_clause() {
    let weak = Condition::parse("Wisdom > 5");
    let strong = Condition::parse("Wisdom > 10");
    let merged = Condition::and(weak, strong);
    let clauses = merged.clauses();
    assert_eq!(clauses.len(), 1);
    assert!(matches!(
        &clauses[0][0],
        ConditionAtom::Stats(CaracKind::Wisdom, Ordering::Greater, 10)
    ));
}

#[test]
fn merge_keeps_incomparable_clauses() {
    let a = Condition::parse("Wisdom > 10");
    let b = Condition::parse("Agility < 3");
    let merged = Condition::and(a, b);
    assert_eq!(merged.clauses().len(), 2);
}

#[test]
fn merge_with_itself_is_equivalent() {
    let a = Condition::parse("Wisdom > 10");
    let b = Condition::parse("Wisdom > 10");
    let merged = Condition::and(a, b);
    let clauses = merged.clauses();
    assert_eq!(clauses.len(), 1);
    assert!(matches!(
        &clauses[0][0],
        ConditionAtom::Stats(CaracKind::Wisdom, Ordering::Greater, 10)
    ));
}

#[test]
fn conflict_count_and_order_independence() {
    // two records of one identity, set-affiliated: a conflict wherever the
    // pair sits
    let catalog = vec![
        plain_item(1, ItemType::Dofus, Some(7)),
        plain_item(1, ItemType::Dofus, Some(7)),
        plain_item(2, ItemType::Dofus, None),
    ];
    let mut c1 = Character::new(200);
    c1.equip_slot(10, &catalog, 0);
    c1.equip_slot(11, &catalog, 1);
    c1.equip_slot(12, &catalog, 2);
    assert_eq!(c1.count_item_conflicts(&catalog), 1);

    // the same equipped multiset in different slots
    let mut c2 = Character::new(200);
    c2.equip_slot(15, &catalog, 2);
    c2.equip_slot(13, &catalog, 1);
    c2.equip_slot(14, &catalog, 0);
    assert_eq!(c2.count_item_conflicts(&catalog), 1);
}

#[test]
fn three_copies_make_three_conflicting_pairs() {
    let catalog = vec![
        plain_item(9, ItemType::Trophy, None),
        plain_item(9, ItemType::Trophy, None),
        plain_item(9, ItemType::Trophy, None),
    ];
    let mut c = Character::new(200);
    c.equip_slot(10, &catalog, 0);
    c.equip_slot(11, &catalog, 1);
    c.equip_slot(12, &catalog, 2);
    assert_eq!(c.count_item_conflicts(&catalog), 3);
}

#[test]
fn no_conflict_without_unique_equip_flag() {
    // same identity but no set, not a trophy and not a dofus: legal twice
    let catalog = vec![
        plain_item(5, ItemType::Ring, None),
        plain_item(5, ItemType::Ring, None),
    ];
    let mut c = Character::new(200);
    c.equip_slot(3, &catalog, 0);
    c.equip_slot(4, &catalog, 1);
    assert_eq!(c.count_item_conflicts(&catalog), 0);
}

#[test]
fn synergy_pairs_overflow_boundary() {
    // three pieces of one set: three synergy pairs, one beyond the allowed
    // two, charged at the action-point weight
    let catalog = vec![
        plain_item(1, ItemType::Dofus, Some(7)),
        plain_item(2, ItemType::Dofus, Some(7)),
        plain_item(3, ItemType::Dofus, Some(7)),
    ];
    let sets: Vec<ItemSet> = Vec::new();
    let restrict = Condition::from_atom(ConditionAtom::RestrictSetBonuses);

    let mut three = Character::new(200);
    three.equip_slot(10, &catalog, 0);
    three.equip_slot(11, &catalog, 1);
    three.equip_slot(12, &catalog, 2);
    assert_eq!(
        three.condition_overflow_scaled(&catalog, &sets, &restrict),
        2000
    );

    let mut two = Character::new(200);
    two.equip_slot(10, &catalog, 0);
    two.equip_slot(11, &catalog, 1);
    assert_eq!(two.condition_overflow_scaled(&catalog, &sets, &restrict), 0);
}

#[test]
fn stat_atom_overflow_distance() {
    let catalog: Vec<Equipement> = Vec::new();
    let sets: Vec<ItemSet> = Vec::new();
    let c = Character::new(200);
    // effective wisdom is its baseline of 100: "Wisdom > 10" already holds
    let ok = Condition::parse("Wisdom > 10");
    assert_eq!(c.condition_overflow_scaled(&catalog, &sets, &ok), 0);
    // "Wisdom > 200" misses by 100: weight 60, distance plus one is 101
    let missed = Condition::parse("Wisdom > 200");
    assert_eq!(
        c.condition_overflow_scaled(&catalog, &sets, &missed),
        60 * 101
    );
}

#[test]
fn clause_overflow_takes_the_minimum() {
    let catalog: Vec<Equipement> = Vec::new();
    let sets: Vec<ItemSet> = Vec::new();
    let c = Character::new(200);
    // first disjunct misses by 101 * 60, second by (201 - 100 + 1) * 4
    let cond = Condition::parse("Wisdom > 200 or Vitality > 1350");
    // vitality baseline is 1150: misses 1350 by 200, distance plus one 201,
    // weight 4
    assert_eq!(
        c.condition_overflow_scaled(&catalog, &sets, &cond),
        4 * 201
    );
}

#[test]
fn all_conditions_merges_equipped_records() {
    let mut item = plain_item(1, ItemType::Hat, None);
    item.conditions = Condition::parse("Wisdom > 10");
    let catalog = vec![item];
    let mut c = Character::new(200);
    c.equip_slot(0, &catalog, 0);
    let merged = c.all_conditions(&catalog);
    let clauses = merged.clauses();
    assert_eq!(clauses.len(), 1);
    assert!(matches!(
        &clauses[0][0],
        ConditionAtom::Stats(CaracKind::Wisdom, Ordering::Greater, 10)
    ));
}
