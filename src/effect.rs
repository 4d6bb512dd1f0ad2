//! Lasting effects on units.

use vstd::prelude::*;

verus! {

/// A lasting effect on a unit.
#[derive(Clone, Copy, Debug, PartialEq, Eq, Structural)]
pub enum Effect {
    /// Movement taken away per turn, and for how many turns.
    ReduceMovement(i32, i32),
    /// Damage dealt per turn, and for how many turns.
    Poison(i32, i32),
}

} // verus!
