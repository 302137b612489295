//! Damage effect lines of weapons and spells.
//!
//! Pure data consumed by the damage metrics: an effect hits in one element
//! for a bounded roll; a spell-effects record groups the plain and critical
//! effect lines with the critical chance and the ranged/weapon flags.

use vstd::prelude::*;

use crate::carac::Element;

verus! {

/// One damage line: a hit in `element` rolling between `bounds_min` and
/// `bounds_max`, possibly stealing life.
#[derive(Clone, Copy, Debug)]
pub enum Effect {
    Hit { element: Element, bounds_min: u8, bounds_max: u8, lifesteal: bool },
}

/// The effect lines of a weapon or spell: the plain lines, the critical
/// lines, the critical chance, and whether the attack is ranged and whether
/// it comes from a weapon.
#[derive(Debug)]
pub struct SpellEffects {
    pub effect: Vec<Effect>,
    pub ranged: bool,
    pub weapon: bool,
    pub critical: u8,
    pub critical_effect: Vec<Effect>,
}

impl Clone for SpellEffects {
    fn clone(&self) -> (r: Self)
        ensures
            r.effect@ == self.effect@,
            r.ranged == self.ranged,
            r.weapon == self.weapon,
            r.critical == self.critical,
            r.critical_effect@ == self.critical_effect@,
    {
        let r = SpellEffects {
            effect: self.effect.clone(),
            ranged: self.ranged,
            weapon: self.weapon,
            critical: self.critical,
            critical_effect: self.critical_effect.clone(),
        };
        proof {
            assert forall|i: int| 0 <= i < self.effect@.len() implies r.effect@[i]
                == self.effect@[i] by {
                assert(vstd::pervasive::cloned::<Effect>(self.effect@[i], r.effect@[i]));
            }
            assert forall|i: int| 0 <= i < self.critical_effect@.len() implies r.critical_effect@[i]
                == self.critical_effect@[i] by {
                assert(vstd::pervasive::cloned::<Effect>(
                    self.critical_effect@[i],
                    r.critical_effect@[i],
                ));
            }
            assert(r.effect@ =~= self.effect@);
            assert(r.critical_effect@ =~= self.critical_effect@);
        }
        r
    }
}

/// The default critical chance of a spell.
pub fn default_spell_critical() -> (r: u8)
    ensures
        r == 5,
{
    5
}

} // verus!
