//! The minions that stand on the field.

pub mod components;

pub use components::{MinionAnimationState, MinionAnimationStep, OnGrids};
