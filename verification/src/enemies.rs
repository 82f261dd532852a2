//! The enemy presence reported by one radar scan.

use vstd::prelude::*;

verus! {

/// Denotes the number and kind of enemies at one scanned coordinate.
#[derive(Clone, Copy, Debug)]
pub struct Enemies {
    /// The kind of this enemy.
    pub kind: EnemyKind,
    /// How many units of this enemy are there.
    pub number: u32,
}

/// Denotes the different kinds of enemy.
#[derive(Clone, Copy, Debug, PartialEq, Eq, Structural)]
pub enum EnemyKind {
    /// Enemies that are soldiers.
    Soldier,
    /// Enemies that are mechanical vehicles.
    Mech,
}

impl Enemies {
    /// True exactly when this presence is of the mechanical kind.
    pub open spec fn spec_is_mech(self) -> bool {
        self.kind == EnemyKind::Mech
    }

    /// Returns true if it is a mech enemy.
    pub fn is_mech(&self) -> (r: bool)
        ensures
            r == self.spec_is_mech(),
    {
        match self.kind {
            EnemyKind::Mech => true,
            _ => false,
        }
    }
}

} // verus!
