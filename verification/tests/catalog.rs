use dofus_stuff::carac::{CaracKind, Element};
use dofus_stuff::character::Character;
use dofus_stuff::condition::{Condition, ConditionAtom};
use dofus_stuff::equipment::{fix_all_trophy, set_by_id, Equipement, ItemSet, ItemType};
use dofus_stuff::lines::CaracLines;
use dofus_stuff::parse::CaracEntry;
use dofus_stuff::search::Perturbation;

fn item(id: u64, item_type: ItemType, level: u8, stats: Vec<CaracEntry>) -> Equipement {
    Equipement {
        item_type,
        ankama_id: id,
        _id: id,
        name: String::new(),
        level,
        url: String::new(),
        set_id: None,
        description: String::new(),
        img_url: String::new(),
        statistics: CaracLines::from_entries(stats),
        conditions: Condition::new(),
    }
}

#[test]
fn name_parsing_recognizes_the_vocabulary() {
    assert!(matches!(
        CaracKind::from_name("Strength"),
        CaracKind::Stats(Element::Earth)
    ));
    assert!(matches!(
        CaracKind::from_name("% Water Resistance"),
        CaracKind::PerResistance(Element::Water)
    ));
    assert!(matches!(CaracKind::from_name("AP Parry"), CaracKind::APResistance));
    assert!(matches!(CaracKind::from_name("Damage"), CaracKind::RawDamage));
    match CaracKind::from_name("Frobnication") {
        CaracKind::Special(s) => assert_eq!(s, "Frobnication"),
        other => panic!("expected a residual kind, got {:?}", other),
    }
}

#[test]
fn effective_stat_of_neutral_is_earth() {
    assert_eq!(Element::Neutral.effective_stat(), Element::Earth);
    assert_eq!(Element::Fire.effective_stat(), Element::Fire);
}

#[test]
fn weapon_classification() {
    let sword = item(1, ItemType::Sword, 1, Vec::new());
    let hat = item(2, ItemType::Hat, 1, Vec::new());
    assert!(sword.is_weapon());
    assert!(!hat.is_weapon());
}

#[test]
fn stronger_trophy_gains_the_restriction() {
    // the first trophy dominates the second: its guaranteed minimum tops
    // the other's maximum on the one shared line
    let strong = item(
        1,
        ItemType::Trophy,
        50,
        vec![CaracEntry::Stat(CaracKind::Vitality, Some(30), Some(30))],
    );
    let weak = item(
        2,
        ItemType::Trophy,
        50,
        vec![CaracEntry::Stat(CaracKind::Vitality, Some(10), Some(20))],
    );
    let mut db = vec![strong, weak];
    fix_all_trophy(&mut db);
    assert_eq!(db[0].conditions.clauses().len(), 1);
    assert!(matches!(
        db[0].conditions.clauses()[0][0],
        ConditionAtom::RestrictSetBonuses
    ));
    // the dominated trophy is covered by the other and dominates nothing:
    // its condition stays empty
    assert_eq!(db[1].conditions.clauses().len(), 0);
}

#[test]
fn set_lookup_by_identity() {
    let sets = vec![ItemSet {
        ankama_id: 3,
        img_url: String::new(),
        _id: 3,
        name: String::from("The Threesome"),
        level: 10,
        url: String::new(),
        equipement_id: None,
        weapon_id: None,
        bonus: Vec::new(),
    }];
    assert!(set_by_id(&sets, 3).is_some());
    assert!(set_by_id(&sets, 4).is_none());
}

#[test]
fn slot_pools_respect_type_level_and_bans() {
    let catalog = vec![
        item(1, ItemType::Hat, 10, Vec::new()),
        item(2, ItemType::Hat, 180, Vec::new()),
        item(3, ItemType::Ring, 10, Vec::new()),
        item(4, ItemType::Sword, 10, Vec::new()),
    ];
    let c = Character::new(100);
    let banned = vec![ItemType::Sword];
    let pools = c.build_slot_pools(&catalog, 100, &banned);
    assert_eq!(pools.len(), 16);
    // the hat slot takes only the low-level hat; the high-level one is out
    assert_eq!(pools[0], vec![0]);
    // both ring slots see the ring
    assert_eq!(pools[3], vec![2]);
    assert_eq!(pools[4], vec![2]);
    // the banned sword never enters the weapon slot
    assert_eq!(pools[7], Vec::<usize>::new());
}

#[test]
fn perturbation_equips_and_moves_points() {
    let catalog = vec![item(1, ItemType::Hat, 1, Vec::new())];
    let mut c = Character::new(200);
    c.apply_perturbation(&catalog, &Perturbation::EquipItem { slot: 0, item: 0 });
    assert_eq!(c.slots()[0].get_item(), Some(0));

    c.apply_perturbation(
        &catalog,
        &Perturbation::MovePoints {
            kind: CaracKind::Vitality,
            amount: 100,
            seek_from: CaracKind::Wisdom,
        },
    );
    assert_eq!(c.base_stats().vitality, 100);
    assert_eq!(c.unspent(), 895);
}

#[test]
fn failed_move_leaves_the_candidate_unchanged() {
    let catalog: Vec<Equipement> = Vec::new();
    let mut c = Character::new(2);
    // five unspent points: moving one hundred fails, the one-point retry
    // succeeds
    c.apply_perturbation(
        &catalog,
        &Perturbation::MovePoints {
            kind: CaracKind::Wisdom,
            amount: 100,
            seek_from: CaracKind::Vitality,
        },
    );
    assert_eq!(c.base_stats().wisdom, 1);
    assert_eq!(c.unspent(), 2);
    // nothing can be moved once the pool and the source are empty
    c.apply_perturbation(
        &catalog,
        &Perturbation::MovePoints {
            kind: CaracKind::Wisdom,
            amount: 100,
            seek_from: CaracKind::Wisdom,
        },
    );
    assert_eq!(c.base_stats().wisdom, 1);
    assert_eq!(c.unspent(), 2);
}

#[test]
fn equip_replaces_the_occupant() {
    let catalog = vec![
        item(1, ItemType::Hat, 1, Vec::new()),
        item(2, ItemType::Hat, 1, Vec::new()),
    ];
    let mut c = Character::new(200);
    c.equip_slot(0, &catalog, 0);
    c.equip_slot(0, &catalog, 1);
    assert_eq!(c.slots()[0].get_item(), Some(1));
}
