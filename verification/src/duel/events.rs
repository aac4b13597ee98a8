//! What the pointer does to cells.

use vstd::prelude::*;

verus! {

/// The pointer came over the cell with this handle.
#[derive(PartialEq, Eq, Clone, Copy, Debug, Structural)]
pub struct MouseOnGrid(pub u64);

/// The pointer was pressed on the cell with this handle.
#[derive(PartialEq, Eq, Clone, Copy, Debug, Structural)]
pub struct MouseDownGrid(pub u64);

/// The pointer left the cell with this handle.
#[derive(PartialEq, Eq, Clone, Copy, Debug, Structural)]
pub struct MouseOffGrid(pub u64);

} // verus!
