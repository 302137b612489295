//! The closed vocabulary of character statistics.
//!
//! An `Element` parametrizes the elemental statistics; a `CaracKind` names one
//! statistic of the game. `CaracKindV` is the mathematical view of a kind:
//! the residual `Special` variant is seen as the sequence of characters of its
//! label. Every kind except the residual one has a fixed positive relative
//! weight used to normalize penalties across heterogeneous metrics; the
//! weights are kept as integers scaled by `WEIGHT_SCALE` so that the whole
//! penalty computation stays exact.

use vstd::prelude::*;

verus! {

/// One of the five elements of the game.
#[derive(Clone, Copy, Debug, PartialEq, Eq, Structural)]
pub enum Element {
    Earth,
    Water,
    Air,
    Fire,
    Neutral,
}

/// The element whose statistic boosts damages applied in this element:
/// neutral damages scale with the earth statistic, every other element
/// scales with itself.
pub open spec fn effective_stat_spec(e: Element) -> Element {
    if e is Neutral {
        Element::Earth
    } else {
        e
    }
}

impl Element {
    /// The element whose statistic boosts damages applied in this element.
    pub fn effective_stat(&self) -> (r: Element)
        ensures
            r == effective_stat_spec(*self),
    {
        match self {
            Element::Neutral => Element::Earth,
            _ => *self,
        }
    }
}

/// One statistic of a character or of an equipment line.
///
/// `Special` is the residual variant: it carries the original textual label of
/// a statistic the vocabulary does not recognize. It has no defined relative
/// weight, and code that needs a weight must treat it as weightless.
#[derive(Debug)]
pub enum CaracKind {
    AP,
    APReduction,
    APResistance,
    Critical,
    CriticalDamage,
    CriticalResistance,
    Damage(Element),
    Dodge,
    Heals,
    Initiative,
    Lock,
    MP,
    MPReduction,
    MPResistance,
    PerMeleeDamage,
    PerMeleeResistance,
    PerRangedDamage,
    PerRangedResistance,
    PerResistance(Element),
    PerSpellDamage,
    PerWeaponDamage,
    Pods,
    Power,
    Prospecting,
    PushbackDamage,
    PushbackResistance,
    Range,
    RawDamage,
    ReflectDamage,
    Resistance(Element),
    Special(String),
    Stats(Element),
    Summons,
    TrapDamage,
    TrapPower,
    Vitality,
    Wisdom,
}

/// Mathematical view of a `CaracKind`: the same vocabulary, with the label of
/// a residual kind seen as its sequence of characters.
pub enum CaracKindV {
    AP,
    APReduction,
    APResistance,
    Critical,
    CriticalDamage,
    CriticalResistance,
    Damage(Element),
    Dodge,
    Heals,
    Initiative,
    Lock,
    MP,
    MPReduction,
    MPResistance,
    PerMeleeDamage,
    PerMeleeResistance,
    PerRangedDamage,
    PerRangedResistance,
    PerResistance(Element),
    PerSpellDamage,
    PerWeaponDamage,
    Pods,
    Power,
    Prospecting,
    PushbackDamage,
    PushbackResistance,
    Range,
    RawDamage,
    ReflectDamage,
    Resistance(Element),
    Special(Seq<char>),
    Stats(Element),
    Summons,
    TrapDamage,
    TrapPower,
    Vitality,
    Wisdom,
}

impl View for CaracKind {
    type V = CaracKindV;

    open spec fn view(&self) -> CaracKindV {
        match self {
            CaracKind::AP => CaracKindV::AP,
            CaracKind::APReduction => CaracKindV::APReduction,
            CaracKind::APResistance => CaracKindV::APResistance,
            CaracKind::Critical => CaracKindV::Critical,
            CaracKind::CriticalDamage => CaracKindV::CriticalDamage,
            CaracKind::CriticalResistance => CaracKindV::CriticalResistance,
            CaracKind::Damage(e) => CaracKindV::Damage(*e),
            CaracKind::Dodge => CaracKindV::Dodge,
            CaracKind::Heals => CaracKindV::Heals,
            CaracKind::Initiative => CaracKindV::Initiative,
            CaracKind::Lock => CaracKindV::Lock,
            CaracKind::MP => CaracKindV::MP,
            CaracKind::MPReduction => CaracKindV::MPReduction,
            CaracKind::MPResistance => CaracKindV::MPResistance,
            CaracKind::PerMeleeDamage => CaracKindV::PerMeleeDamage,
            CaracKind::PerMeleeResistance => CaracKindV::PerMeleeResistance,
            CaracKind::PerRangedDamage => CaracKindV::PerRangedDamage,
            CaracKind::PerRangedResistance => CaracKindV::PerRangedResistance,
            CaracKind::PerResistance(e) => CaracKindV::PerResistance(*e),
            CaracKind::PerSpellDamage => CaracKindV::PerSpellDamage,
            CaracKind::PerWeaponDamage => CaracKindV::PerWeaponDamage,
            CaracKind::Pods => CaracKindV::Pods,
            CaracKind::Power => CaracKindV::Power,
            CaracKind::Prospecting => CaracKindV::Prospecting,
            CaracKind::PushbackDamage => CaracKindV::PushbackDamage,
            CaracKind::PushbackResistance => CaracKindV::PushbackResistance,
            CaracKind::Range => CaracKindV::Range,
            CaracKind::RawDamage => CaracKindV::RawDamage,
            CaracKind::ReflectDamage => CaracKindV::ReflectDamage,
            CaracKind::Resistance(e) => CaracKindV::Resistance(*e),
            CaracKind::Special(s) => CaracKindV::Special(s@),
            CaracKind::Stats(e) => CaracKindV::Stats(*e),
            CaracKind::Summons => CaracKindV::Summons,
            CaracKind::TrapDamage => CaracKindV::TrapDamage,
            CaracKind::TrapPower => CaracKindV::TrapPower,
            CaracKind::Vitality => CaracKindV::Vitality,
            CaracKind::Wisdom => CaracKindV::Wisdom,
        }
    }
}

impl Clone for CaracKind {
    fn clone(&self) -> (r: Self)
        ensures
            r == *self,
    {
        match self {
            CaracKind::AP => CaracKind::AP,
            CaracKind::APReduction => CaracKind::APReduction,
            CaracKind::APResistance => CaracKind::APResistance,
            CaracKind::Critical => CaracKind::Critical,
            CaracKind::CriticalDamage => CaracKind::CriticalDamage,
            CaracKind::CriticalResistance => CaracKind::CriticalResistance,
            CaracKind::Damage(e) => CaracKind::Damage(*e),
            CaracKind::Dodge => CaracKind::Dodge,
            CaracKind::Heals => CaracKind::Heals,
            CaracKind::Initiative => CaracKind::Initiative,
            CaracKind::Lock => CaracKind::Lock,
            CaracKind::MP => CaracKind::MP,
            CaracKind::MPReduction => CaracKind::MPReduction,
            CaracKind::MPResistance => CaracKind::MPResistance,
            CaracKind::PerMeleeDamage => CaracKind::PerMeleeDamage,
            CaracKind::PerMeleeResistance => CaracKind::PerMeleeResistance,
            CaracKind::PerRangedDamage => CaracKind::PerRangedDamage,
            CaracKind::PerRangedResistance => CaracKind::PerRangedResistance,
            CaracKind::PerResistance(e) => CaracKind::PerResistance(*e),
            CaracKind::PerSpellDamage => CaracKind::PerSpellDamage,
            CaracKind::PerWeaponDamage => CaracKind::PerWeaponDamage,
            CaracKind::Pods => CaracKind::Pods,
            CaracKind::Power => CaracKind::Power,
            CaracKind::Prospecting => CaracKind::Prospecting,
            CaracKind::PushbackDamage => CaracKind::PushbackDamage,
            CaracKind::PushbackResistance => CaracKind::PushbackResistance,
            CaracKind::Range => CaracKind::Range,
            CaracKind::RawDamage => CaracKind::RawDamage,
            CaracKind::ReflectDamage => CaracKind::ReflectDamage,
            CaracKind::Resistance(e) => CaracKind::Resistance(*e),
            CaracKind::Special(s) => CaracKind::Special(s.clone()),
            CaracKind::Stats(e) => CaracKind::Stats(*e),
            CaracKind::Summons => CaracKind::Summons,
            CaracKind::TrapDamage => CaracKind::TrapDamage,
            CaracKind::TrapPower => CaracKind::TrapPower,
            CaracKind::Vitality => CaracKind::Vitality,
            CaracKind::Wisdom => CaracKind::Wisdom,
        }
    }
}

impl PartialEq for CaracKind {
    #[verifier::rlimit(50)]
    fn eq(&self, other: &Self) -> (r: bool) {
        match (self, other) {
            (CaracKind::AP, CaracKind::AP) => true,
            (CaracKind::APReduction, CaracKind::APReduction) => true,
            (CaracKind::APResistance, CaracKind::APResistance) => true,
            (CaracKind::Critical, CaracKind::Critical) => true,
            (CaracKind::CriticalDamage, CaracKind::CriticalDamage) => true,
            (CaracKind::CriticalResistance, CaracKind::CriticalResistance) => true,
            (CaracKind::Damage(a), CaracKind::Damage(b)) => a == b,
            (CaracKind::Dodge, CaracKind::Dodge) => true,
            (CaracKind::Heals, CaracKind::Heals) => true,
            (CaracKind::Initiative, CaracKind::Initiative) => true,
            (CaracKind::Lock, CaracKind::Lock) => true,
            (CaracKind::MP, CaracKind::MP) => true,
            (CaracKind::MPReduction, CaracKind::MPReduction) => true,
            (CaracKind::MPResistance, CaracKind::MPResistance) => true,
            (CaracKind::PerMeleeDamage, CaracKind::PerMeleeDamage) => true,
            (CaracKind::PerMeleeResistance, CaracKind::PerMeleeResistance) => true,
            (CaracKind::PerRangedDamage, CaracKind::PerRangedDamage) => true,
            (CaracKind::PerRangedResistance, CaracKind::PerRangedResistance) => true,
            (CaracKind::PerResistance(a), CaracKind::PerResistance(b)) => a == b,
            (CaracKind::PerSpellDamage, CaracKind::PerSpellDamage) => true,
            (CaracKind::PerWeaponDamage, CaracKind::PerWeaponDamage) => true,
            (CaracKind::Pods, CaracKind::Pods) => true,
            (CaracKind::Power, CaracKind::Power) => true,
            (CaracKind::Prospecting, CaracKind::Prospecting) => true,
            (CaracKind::PushbackDamage, CaracKind::PushbackDamage) => true,
            (CaracKind::PushbackResistance, CaracKind::PushbackResistance) => true,
            (CaracKind::Range, CaracKind::Range) => true,
            (CaracKind::RawDamage, CaracKind::RawDamage) => true,
            (CaracKind::ReflectDamage, CaracKind::ReflectDamage) => true,
            (CaracKind::Resistance(a), CaracKind::Resistance(b)) => a == b,
            (CaracKind::Special(a), CaracKind::Special(b)) => <String as PartialEq>::eq(a, b),
            (CaracKind::Stats(a), CaracKind::Stats(b)) => a == b,
            (CaracKind::Summons, CaracKind::Summons) => true,
            (CaracKind::TrapDamage, CaracKind::TrapDamage) => true,
            (CaracKind::TrapPower, CaracKind::TrapPower) => true,
            (CaracKind::Vitality, CaracKind::Vitality) => true,
            (CaracKind::Wisdom, CaracKind::Wisdom) => true,
            _ => false,
        }
    }
}

impl vstd::std_specs::cmp::PartialEqSpecImpl for CaracKind {
    open spec fn obeys_eq_spec() -> bool {
        true
    }

    open spec fn eq_spec(&self, other: &Self) -> bool {
        self@ == other@
    }
}

/// Scale by which the relative statistic weights are multiplied so that every
/// weight of the vocabulary is an exact integer.
pub const WEIGHT_SCALE: u64 = 20;

impl CaracKindV {
    /// The relative weight of this statistic, multiplied by `WEIGHT_SCALE`.
    ///
    /// The residual `Special` kind has no defined weight and yields zero, so
    /// that a penalty term over an unrecognized statistic vanishes instead of
    /// failing.
    pub open spec fn weight_scaled(self) -> u64 {
        match self {
            CaracKindV::Vitality => 4,
            CaracKindV::Stats(_) => 20,
            CaracKindV::Initiative => 2,
            CaracKindV::Wisdom => 60,
            CaracKindV::Prospecting => 60,
            CaracKindV::Power => 40,
            CaracKindV::Resistance(_) => 40,
            CaracKindV::PerResistance(_) => 120,
            CaracKindV::PushbackResistance => 40,
            CaracKindV::CriticalResistance => 40,
            CaracKindV::APResistance => 140,
            CaracKindV::APReduction => 140,
            CaracKindV::MPReduction => 140,
            CaracKindV::MPResistance => 140,
            CaracKindV::Pods => 5,
            CaracKindV::Lock => 80,
            CaracKindV::Dodge => 80,
            CaracKindV::RawDamage => 400,
            CaracKindV::Damage(_) => 100,
            CaracKindV::CriticalDamage => 100,
            CaracKindV::PushbackDamage => 100,
            CaracKindV::TrapDamage => 100,
            CaracKindV::PerMeleeDamage => 300,
            CaracKindV::PerMeleeResistance => 300,
            CaracKindV::PerRangedDamage => 300,
            CaracKindV::PerRangedResistance => 300,
            CaracKindV::PerWeaponDamage => 300,
            CaracKindV::PerSpellDamage => 300,
            CaracKindV::TrapPower => 40,
            CaracKindV::Heals => 200,
            CaracKindV::Critical => 200,
            CaracKindV::ReflectDamage => 200,
            CaracKindV::Summons => 600,
            CaracKindV::Range => 1000,
            CaracKindV::MP => 1800,
            CaracKindV::AP => 2000,
            CaracKindV::Special(_) => 0,
        }
    }
}

impl CaracKind {
    /// The relative weight of this statistic, multiplied by `WEIGHT_SCALE`;
    /// zero for the residual `Special` kind.
    pub fn weight_scaled(&self) -> (r: u64)
        ensures
            r == self@.weight_scaled(),
    {
        match self {
            CaracKind::Vitality => 4,
            CaracKind::Stats(_) => 20,
            CaracKind::Initiative => 2,
            CaracKind::Wisdom => 60,
            CaracKind::Prospecting => 60,
            CaracKind::Power => 40,
            CaracKind::Resistance(_) => 40,
            CaracKind::PerResistance(_) => 120,
            CaracKind::PushbackResistance => 40,
            CaracKind::CriticalResistance => 40,
            CaracKind::APResistance => 140,
            CaracKind::APReduction => 140,
            CaracKind::MPReduction => 140,
            CaracKind::MPResistance => 140,
            CaracKind::Pods => 5,
            CaracKind::Lock => 80,
            CaracKind::Dodge => 80,
            CaracKind::RawDamage => 400,
            CaracKind::Damage(_) => 100,
            CaracKind::CriticalDamage => 100,
            CaracKind::PushbackDamage => 100,
            CaracKind::TrapDamage => 100,
            CaracKind::PerMeleeDamage => 300,
            CaracKind::PerMeleeResistance => 300,
            CaracKind::PerRangedDamage => 300,
            CaracKind::PerRangedResistance => 300,
            CaracKind::PerWeaponDamage => 300,
            CaracKind::PerSpellDamage => 300,
            CaracKind::TrapPower => 40,
            CaracKind::Heals => 200,
            CaracKind::Critical => 200,
            CaracKind::ReflectDamage => 200,
            CaracKind::Summons => 600,
            CaracKind::Range => 1000,
            CaracKind::MP => 1800,
            CaracKind::AP => 2000,
            CaracKind::Special(_) => 0,
        }
    }

    /// Whether this statistic has a defined relative weight: every kind but
    /// the residual `Special` one.
    pub fn has_weight(&self) -> (r: bool)
        ensures
            r == !(self@ is Special),
    {
        match self {
            CaracKind::Special(_) => false,
            _ => true,
        }
    }
}

} // verus!
