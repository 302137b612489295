//! Search for a game character build that best matches a set of target
//! statistics.
//!
//! The crate holds the verified core of the optimizer: the statistic
//! vocabulary and its relative weights, the equipment catalog types, the
//! point-allocation ledger with its non-linear cost curve, the legality and
//! penalty evaluation (item conflicts and eligibility conditions), the
//! derived-statistic engine and the perturbation step of the local search.
//! Randomness, floating-point scoring and catalog I/O live with the callers,
//! which hand plain values in and take plain values back.

pub mod carac;
pub mod caracs;
pub mod character;
pub mod condition;
pub mod effect;
pub mod equipment;
pub mod eval;
pub mod lines;
pub mod parse;
pub mod points;
pub mod search;

pub use carac::{CaracKind, Element};
pub use caracs::{RawCaracs, RawCaracsValue};
pub use character::{BaseStats, Character, CharacterError, ItemSlot};
pub use condition::{Condition, ConditionAtom};
pub use effect::{Effect, SpellEffects};
pub use equipment::{fix_all_trophy, Equipement, ItemSet, ItemType};
pub use lines::CaracLines;
pub use search::Perturbation;
