//! What a minion consists of.

use vstd::prelude::*;

verus! {

/// The cells a minion stands on, by their handles.
#[derive(PartialEq, Eq, Debug)]
pub struct OnGrids {
    pub grids: Vec<u64>,
}

/// How far a minion is in its animation.
#[derive(PartialEq, Eq, Clone, Copy, Debug, Structural)]
pub struct MinionAnimationStep {
    pub step: u8,
}

/// What a minion is doing.
#[derive(PartialEq, Eq, Clone, Copy, Debug, Structural)]
pub enum MinionAnimationState {
    Idle,
    Walking,
}

impl Default for MinionAnimationState {
    /// A minion starts idle.
    fn default() -> (state: Self)
        ensures
            state == MinionAnimationState::Idle,
    {
        MinionAnimationState::Idle
    }
}

} // verus!
