use dofus_stuff::carac::{CaracKind, Element};
use dofus_stuff::caracs::RawCaracsValue;
use dofus_stuff::character::Character;
use dofus_stuff::condition::Condition;
use dofus_stuff::equipment::{Equipement, ItemSet, ItemType};
use dofus_stuff::lines::CaracLines;
use dofus_stuff::parse::CaracEntry;

fn item_with_stats(id: u64, item_type: ItemType, stats: Vec<CaracEntry>) -> Equipement {
    Equipement {
        item_type,
        ankama_id: id,
        _id: id,
        name: String::new(),
        level: 1,
        url: String::new(),
        set_id: None,
        description: String::new(),
        img_url: String::new(),
        statistics: CaracLines::from_entries(stats),
        conditions: Condition::new(),
    }
}

#[test]
fn baselines_of_a_naked_character() {
    let catalog: Vec<Equipement> = Vec::new();
    let sets: Vec<ItemSet> = Vec::new();
    let c = Character::new(200);
    let rc = c.get_caracs(&catalog, &sets);
    assert_eq!(rc.get_carac(&CaracKind::Vitality), 1150);
    assert_eq!(rc.get_carac(&CaracKind::AP), 8);
    assert_eq!(rc.get_carac(&CaracKind::MP), 4);
    assert_eq!(rc.get_carac(&CaracKind::Range), 1);
    assert_eq!(rc.get_carac(&CaracKind::Stats(Element::Fire)), 100);
    assert_eq!(rc.get_carac(&CaracKind::Initiative), 1000);
    assert_eq!(rc.get_carac(&CaracKind::Lock), 0);
}

#[test]
fn allocated_points_feed_the_table() {
    let catalog: Vec<Equipement> = Vec::new();
    let sets: Vec<ItemSet> = Vec::new();
    let mut c = Character::new(200);
    c.carac_spend(&CaracKind::Stats(Element::Water), 100).unwrap();
    let rc = c.get_caracs(&catalog, &sets);
    assert_eq!(rc.get_carac(&CaracKind::Stats(Element::Water)), 200);
    // prospecting gains a tenth of the raw water statistic
    assert_eq!(rc.get_carac(&CaracKind::Prospecting), 110);
    // initiative gains every raw elemental point
    assert_eq!(rc.get_carac(&CaracKind::Initiative), 1100);
}

#[test]
fn item_lines_use_the_upper_bound() {
    let catalog = vec![item_with_stats(
        1,
        ItemType::Hat,
        vec![CaracEntry::Stat(CaracKind::Vitality, Some(10), Some(40))],
    )];
    let sets: Vec<ItemSet> = Vec::new();
    let mut c = Character::new(200);
    c.equip_slot(0, &catalog, 0);
    let rc = c.get_caracs(&catalog, &sets);
    assert_eq!(rc.get_carac(&CaracKind::Vitality), 1190);
}

#[test]
fn action_points_are_capped() {
    let catalog = vec![item_with_stats(
        1,
        ItemType::Hat,
        vec![CaracEntry::Stat(CaracKind::AP, Some(6), Some(6))],
    )];
    let sets: Vec<ItemSet> = Vec::new();
    let mut c = Character::new(200);
    c.equip_slot(0, &catalog, 0);
    let rc = c.get_caracs(&catalog, &sets);
    assert_eq!(rc.get_carac(&CaracKind::AP), 12);
}

#[test]
fn percent_resistance_is_capped_at_fifty() {
    let catalog = vec![item_with_stats(
        1,
        ItemType::Hat,
        vec![CaracEntry::Stat(
            CaracKind::PerResistance(Element::Fire),
            Some(80),
            Some(80),
        )],
    )];
    let sets: Vec<ItemSet> = Vec::new();
    let mut c = Character::new(200);
    c.equip_slot(0, &catalog, 0);
    let rc = c.get_caracs(&catalog, &sets);
    assert_eq!(rc.get_carac(&CaracKind::PerResistance(Element::Fire)), 50);
}

#[test]
fn carry_capacity_scales_with_earth() {
    let catalog: Vec<Equipement> = Vec::new();
    let sets: Vec<ItemSet> = Vec::new();
    let mut c = Character::new(200);
    c.carac_spend(&CaracKind::Stats(Element::Earth), 100).unwrap();
    let rc = c.get_caracs(&catalog, &sets);
    assert_eq!(rc.get_carac(&CaracKind::Pods), 500);
}

#[test]
fn wisdom_feeds_the_resistances() {
    let catalog: Vec<Equipement> = Vec::new();
    let sets: Vec<ItemSet> = Vec::new();
    let mut c = Character::new(200);
    c.carac_spend(&CaracKind::Wisdom, 100).unwrap();
    let rc = c.get_caracs(&catalog, &sets);
    // effective wisdom is 200; its tenth feeds the four parry statistics
    assert_eq!(rc.get_carac(&CaracKind::Wisdom), 200);
    assert_eq!(rc.get_carac(&CaracKind::APResistance), 20);
    assert_eq!(rc.get_carac(&CaracKind::MPReduction), 20);
}

#[test]
fn set_bonus_applies_at_exact_count() {
    let mut piece1 = item_with_stats(1, ItemType::Ring, Vec::new());
    piece1.set_id = Some(7);
    let mut piece2 = item_with_stats(2, ItemType::Ring, Vec::new());
    piece2.set_id = Some(7);
    let catalog = vec![piece1, piece2];
    let sets = vec![ItemSet {
        ankama_id: 7,
        img_url: String::new(),
        _id: 7,
        name: String::new(),
        level: 1,
        url: String::new(),
        equipement_id: None,
        weapon_id: None,
        bonus: vec![(
            2,
            CaracLines::from_entries(vec![CaracEntry::Stat(
                CaracKind::Vitality,
                Some(50),
                Some(50),
            )]),
        )],
    }];
    let mut c = Character::new(200);
    c.equip_slot(3, &catalog, 0);
    let rc1 = c.get_caracs(&catalog, &sets);
    // one piece worn: no bonus entry for count one
    assert_eq!(rc1.get_carac(&CaracKind::Vitality), 1150);
    c.equip_slot(4, &catalog, 1);
    let rc2 = c.get_caracs(&catalog, &sets);
    assert_eq!(rc2.get_carac(&CaracKind::Vitality), 1200);
}

#[test]
fn synergies_list_sets_and_counts() {
    let mut piece1 = item_with_stats(1, ItemType::Ring, Vec::new());
    piece1.set_id = Some(7);
    let mut piece2 = item_with_stats(2, ItemType::Ring, Vec::new());
    piece2.set_id = Some(7);
    let catalog = vec![piece1, piece2];
    let mut c = Character::new(200);
    c.equip_slot(3, &catalog, 0);
    c.equip_slot(4, &catalog, 1);
    let synergies = c.iter_set_synergies(&catalog);
    assert_eq!(synergies.len(), 1);
    assert_eq!(synergies[0], (7, 2));
}

#[test]
fn pow_stats_blends_element_and_power() {
    let catalog = vec![item_with_stats(
        1,
        ItemType::Hat,
        vec![CaracEntry::Stat(CaracKind::Power, Some(30), Some(30))],
    )];
    let sets: Vec<ItemSet> = Vec::new();
    let mut c = Character::new(200);
    c.equip_slot(0, &catalog, 0);
    let rc = c.get_caracs(&catalog, &sets);
    // neutral damages scale with the earth statistic
    assert_eq!(rc.pow_stats(Element::Neutral), 130);
}

#[test]
fn duplicate_entries_keep_the_last() {
    let lines = CaracLines::from_entries(vec![
        CaracEntry::Stat(CaracKind::Vitality, Some(5), Some(10)),
        CaracEntry::Decorative,
        CaracEntry::Stat(CaracKind::Vitality, Some(20), None),
    ]);
    assert_eq!(lines.get_bounds(&CaracKind::Vitality), Some((20, 20)));
    assert_eq!(lines.get_bounds(&CaracKind::Wisdom), None);
}

#[test]
fn entry_defaults() {
    let lines = CaracLines::from_entries(vec![CaracEntry::Stat(CaracKind::Lock, None, None)]);
    assert_eq!(lines.get_bounds(&CaracKind::Lock), Some((0, 0)));
}

#[test]
fn residual_metric_is_weightless() {
    let special = CaracKind::Special(String::from("Unheard Of"));
    assert!(!special.has_weight());
    assert_eq!(special.weight_scaled(), 0);
    assert!(CaracKind::AP.has_weight());
    assert_eq!(CaracKind::AP.weight_scaled(), 2000);
    assert_eq!(CaracKind::Vitality.weight_scaled(), 4);
}

#[test]
fn only_variance_is_decreasing() {
    assert!(RawCaracsValue::PerResVariance.is_decreasing());
    assert!(!RawCaracsValue::Resiliance.is_decreasing());
    assert!(!RawCaracsValue::Carac(CaracKind::Vitality).is_decreasing());
}
