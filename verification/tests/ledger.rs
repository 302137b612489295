use dofus_stuff::carac::{CaracKind, Element};
use dofus_stuff::character::{Character, CharacterError};

#[test]
fn cost_from_zero_examples() {
    assert_eq!(Character::carac_cost_from_zero(&CaracKind::Wisdom, 100), 300);
    assert_eq!(
        Character::carac_cost_from_zero(&CaracKind::Stats(Element::Air), 100),
        100
    );
    assert_eq!(
        Character::carac_cost_from_zero(&CaracKind::Stats(Element::Air), 150),
        200
    );
}

#[test]
fn cost_from_zero_is_zero_at_zero() {
    assert_eq!(Character::carac_cost_from_zero(&CaracKind::Vitality, 0), 0);
    assert_eq!(Character::carac_cost_from_zero(&CaracKind::Wisdom, 0), 0);
    assert_eq!(
        Character::carac_cost_from_zero(&CaracKind::Stats(Element::Fire), 0),
        0
    );
}

#[test]
fn cost_from_zero_monotone_samples() {
    let mut prev = 0;
    for v in [0u16, 1, 50, 99, 100, 101, 150, 199, 200, 250, 300] {
        let c = Character::carac_cost_from_zero(&CaracKind::Stats(Element::Water), v);
        assert!(c >= prev);
        prev = c;
    }
}

#[test]
fn quadratic_block_formula() {
    // value 250 is two full blocks and a half: (2 + 1) * (50 * 2 + 50)
    assert_eq!(
        Character::carac_cost_from_zero(&CaracKind::Stats(Element::Earth), 250),
        450
    );
}

#[test]
fn spend_cost_tracks_current_allocation() {
    let mut character = Character::new(200);
    assert_eq!(character.carac_spend_cost(&CaracKind::Stats(Element::Air), 100), 100);
    assert_eq!(character.carac_spend_cost(&CaracKind::Stats(Element::Air), 150), 200);
    character.carac_spend(&CaracKind::Stats(Element::Air), 100).unwrap();
    assert_eq!(character.carac_spend_cost(&CaracKind::Stats(Element::Air), 50), 100);
    assert_eq!(character.carac_spend_cost(&CaracKind::Stats(Element::Air), 150), 350);
}

#[test]
fn unspend_recover_examples() {
    let mut character = Character::new(200);
    character.carac_spend(&CaracKind::Stats(Element::Air), 200).unwrap();
    assert_eq!(
        character.carac_unspend_recover(&CaracKind::Stats(Element::Air), 100),
        Ok(200)
    );
    assert_eq!(
        character.carac_unspend_recover(&CaracKind::Stats(Element::Air), 200),
        Ok(300)
    );
    assert!(character
        .carac_unspend_recover(&CaracKind::Stats(Element::Air), 201)
        .is_err());
}

#[test]
fn spend_rejects_beyond_pool() {
    let mut character = Character::new(200);
    assert!(character.carac_spend(&CaracKind::Stats(Element::Air), 100).is_ok());
    assert!(character.carac_spend(&CaracKind::Stats(Element::Air), 400).is_err());
}

#[test]
fn spend_error_is_not_enough_points() {
    let mut character = Character::new(2);
    let r = character.carac_spend(&CaracKind::Wisdom, 100);
    assert!(matches!(r, Err(CharacterError::NotEnoughPoints)));
}

#[test]
fn unspend_error_names_the_statistic() {
    let character = Character::new(10);
    let r = character.carac_unspend_recover(&CaracKind::Vitality, 1);
    match r {
        Err(CharacterError::NotEnoughCaracs(kind)) => {
            assert!(matches!(kind, CaracKind::Vitality));
        }
        other => panic!("expected NotEnoughCaracs, got {:?}", other),
    }
}

#[test]
fn unspend_then_spend_restores_the_pool() {
    let mut character = Character::new(200);
    character.carac_spend(&CaracKind::Stats(Element::Air), 150).unwrap();
    let before = character.unspent();
    let air = CaracKind::Stats(Element::Air);
    character.carac_unspend(&air, 70).unwrap();
    character.carac_spend(&air, 70).unwrap();
    assert_eq!(character.unspent(), before);
    assert_eq!(character.base_stats().air, 150);
}

#[test]
fn spend_or_seek_examples() {
    let mut character = Character::new(200);
    assert!(character
        .carac_spend_or_seek(&CaracKind::Stats(Element::Air), 150, &CaracKind::Wisdom)
        .is_ok());
    assert!(character
        .carac_spend_or_seek(&CaracKind::Vitality, 795, &CaracKind::Wisdom)
        .is_ok());
    assert!(character
        .carac_spend_or_seek(&CaracKind::Vitality, 200, &CaracKind::Stats(Element::Air))
        .is_ok());
    assert!(character
        .carac_spend_or_seek(&CaracKind::Vitality, 1, &CaracKind::Stats(Element::Air))
        .is_err());
}

#[test]
fn spend_or_seek_conserves_the_accounts() {
    let mut character = Character::new(200);
    character
        .carac_spend_or_seek(&CaracKind::Stats(Element::Air), 150, &CaracKind::Wisdom)
        .unwrap();
    character
        .carac_spend_or_seek(&CaracKind::Vitality, 795, &CaracKind::Wisdom)
        .unwrap();
    character
        .carac_spend_or_seek(&CaracKind::Vitality, 200, &CaracKind::Stats(Element::Air))
        .unwrap();
    // the whole budget of 5 * 199 points is accounted for
    let b = character.base_stats();
    let air_cost = Character::carac_cost_from_zero(&CaracKind::Stats(Element::Air), b.air);
    let vit_cost = Character::carac_cost_from_zero(&CaracKind::Vitality, b.vitality);
    assert_eq!(air_cost + vit_cost + character.unspent(), 995);
    assert_eq!(b.air, 0);
    assert_eq!(b.vitality, 995);
}

#[test]
fn spend_or_seek_finds_minimal_decrease() {
    let mut character = Character::new(200);
    // allocate 200 air (cost 300), pool drops to 695, then drain the pool
    character.carac_spend(&CaracKind::Stats(Element::Air), 200).unwrap();
    character.carac_spend(&CaracKind::Vitality, 695).unwrap();
    assert_eq!(character.unspent(), 0);
    // 10 more vitality cost 10; freeing them needs an air decrease of 5:
    // recover(5) = cost(200) - cost(195) = 300 - 2 * (50 + 45) = 10,
    // while recover(4) = 300 - 2 * (50 + 46) = 8 falls short
    character
        .carac_spend_or_seek(&CaracKind::Vitality, 10, &CaracKind::Stats(Element::Air))
        .unwrap();
    let b = character.base_stats();
    assert_eq!(b.vitality, 705);
    assert_eq!(b.air, 195);
}

#[test]
fn new_character_layout() {
    let character = Character::new(200);
    assert_eq!(character.slot_len(), 16);
    assert_eq!(character.unspent(), 995);
    assert_eq!(character.base_stats().vitality, 0);
}
