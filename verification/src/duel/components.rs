//! What a cell of the field consists of.

use vstd::prelude::*;

verus! {

/// The outline of a cell's tile, chosen by which of its four neighbours lie in
/// the same layer.
#[derive(PartialEq, Eq, Clone, Copy, Debug, Structural)]
pub enum GridShape {
    /// No neighbour: all four sides are drawn.
    Closed,
    /// Two neighbours that meet at a corner.
    Corner,
    /// One neighbour: open on one side.
    Cup,
    /// Two neighbours opposite each other.
    Pipe,
    /// Three neighbours: one side is drawn.
    Side,
    /// Four neighbours: nothing is drawn.
    Empty,
}

impl GridShape {
    /// The place of this shape's tile in a palette of five tiles; `Empty` has
    /// a tile of its own and no place there.
    pub open spec fn spec_index(self) -> Option<usize> {
        match self {
            GridShape::Closed => Some(0),
            GridShape::Corner => Some(1),
            GridShape::Cup => Some(2),
            GridShape::Pipe => Some(3),
            GridShape::Side => Some(4),
            GridShape::Empty => None,
        }
    }

    #[verifier::when_used_as_spec(spec_index)]
    pub fn index(self) -> (slot: Option<usize>)
        ensures
            slot == self.spec_index(),
            slot matches Some(i) ==> i < 5,
    {
        match self {
            GridShape::Closed => Some(0),
            GridShape::Corner => Some(1),
            GridShape::Cup => Some(2),
            GridShape::Pipe => Some(3),
            GridShape::Side => Some(4),
            GridShape::Empty => None,
        }
    }
}

/// A tile's rotation about the normal of the field, in quarter turns.
#[derive(PartialEq, Eq, Clone, Copy, Debug, Structural)]
pub enum GridRot {
    Deg0,
    Deg90,
    Deg180,
    DegNeg90,
}

/// The colour scheme a cell is drawn in.
#[derive(PartialEq, Eq, Clone, Copy, Debug, Structural)]
pub enum GridColor {
    Default,
    Selected,
    MouseOn,
    Unpassable,
}

/// What a cell looks like: its outline and its colour scheme.
#[derive(PartialEq, Eq, Clone, Copy, Debug, Structural)]
pub struct GridColorAndShape {
    pub shape: GridShape,
    pub color: GridColor,
}

/// Marks the sign that is shown on a cell nothing can pass.
#[derive(PartialEq, Eq, Clone, Copy, Debug, Structural)]
pub struct GridUnpass;

/// A cell's column and row.
#[derive(PartialEq, Eq, Clone, Copy, Debug, Hash, Structural)]
pub struct GridPos {
    pub x: u8,
    pub y: u8,
}

/// The rotation a cell's tile turns towards.
#[derive(PartialEq, Eq, Clone, Copy, Debug, Structural)]
pub struct GridTargetRot {
    pub target_rot: GridRot,
}

/// How far a cell is lifted out of the plane of the field.
#[derive(PartialEq, Eq, Clone, Copy, Debug, Structural)]
pub enum GridLift {
    /// Below the plane, by one lift distance.
    Sunk,
    /// In the plane.
    Level,
    /// Above the plane, by one lift distance.
    Raised,
}

/// The height a cell moves towards.
#[derive(PartialEq, Eq, Clone, Copy, Debug, Structural)]
pub struct GridTargetPos {
    pub target_pos: GridLift,
}

/// Whether a cell can be walked on, and whether a cell that cannot is shown
/// at all.
#[derive(PartialEq, Eq, Clone, Copy, Debug, Structural)]
pub struct GridPassability {
    pub passable: bool,
    pub show_passable: bool,
}

/// Whether a cell is selected.
#[derive(PartialEq, Eq, Clone, Copy, Debug, Structural)]
pub struct GridSelected {
    pub selected: bool,
}

/// The minion that stands on a cell, if one does.
#[derive(PartialEq, Eq, Clone, Copy, Debug, Structural)]
pub struct GridMinion {
    pub minion: Option<u64>,
}

/// The five sets of tile materials, one set per colour scheme.
#[derive(PartialEq, Eq, Clone, Copy, Debug, Structural)]
pub enum GridPalette {
    Selected,
    MinionOn,
    NoMinion,
    MouseOn,
    Unpassable,
}

/// A material of the field.
#[derive(PartialEq, Eq, Clone, Copy, Debug, Structural)]
pub enum GridMaterial {
    /// The material that shows nothing.
    Empty,
    /// A tile of a palette, by its place among the palette's five tiles.
    Tile(GridPalette, usize),
}

/// What a cell is made of when it is spawned. `M` is what stands for a
/// material.
#[derive(PartialEq, Eq, Debug)]
pub struct GridBundle<M> {
    pub material: M,
    pub visible: bool,
    pub grid_pos: GridPos,
    pub target_pos: GridTargetPos,
    pub target_rot: GridTargetRot,
    pub passability: GridPassability,
    pub selected: GridSelected,
    pub color_and_shape: GridColorAndShape,
    pub minion: GridMinion,
}

impl<M> GridBundle<M> {
    /// A new cell at `(x, y)`: closed, unselected, without a minion. A cell
    /// that can be walked on lies in the plane with `material`; one that
    /// cannot is sunk, has `unpass_material`, and is hidden unless
    /// `show_passable` is set.
    pub fn create(
        x: u8,
        y: u8,
        passable: bool,
        show_passable: bool,
        material: M,
        unpass_material: M,
    ) -> (bundle: GridBundle<M>)
        ensures
            bundle == (GridBundle {
                material: if passable {
                    material
                } else {
                    unpass_material
                },
                visible: show_passable || passable,
                grid_pos: GridPos { x, y },
                target_pos: GridTargetPos {
                    target_pos: if passable {
                        GridLift::Level
                    } else {
                        GridLift::Sunk
                    },
                },
                target_rot: GridTargetRot { target_rot: GridRot::Deg0 },
                passability: GridPassability { passable, show_passable },
                selected: GridSelected { selected: false },
                color_and_shape: GridColorAndShape {
                    shape: GridShape::Closed,
                    color: if passable {
                        GridColor::Default
                    } else {
                        GridColor::Unpassable
                    },
                },
                minion: GridMinion { minion: None },
            }),
    {
        GridBundle {
            material: if passable {
                material
            } else {
                unpass_material
            },
            visible: if !show_passable && !passable {
                false
            } else {
                true
            },
            grid_pos: GridPos { x, y },
            target_pos: GridTargetPos {
                target_pos: if passable {
                    GridLift::Level
                } else {
                    GridLift::Sunk
                },
            },
            target_rot: GridTargetRot { target_rot: GridRot::Deg0 },
            passability: GridPassability { passable, show_passable },
            selected: GridSelected { selected: false },
            color_and_shape: GridColorAndShape {
                shape: GridShape::Closed,
                color: if passable {
                    GridColor::Default
                } else {
                    GridColor::Unpassable
                },
            },
            minion: GridMinion { minion: None },
        }
    }
}

/// The sign on a cell nothing can pass.
#[derive(PartialEq, Eq, Clone, Copy, Debug, Structural)]
pub struct UnpassBundle {
    pub visible: bool,
    pub tag: GridUnpass,
}

impl UnpassBundle {
    /// The sign of a cell: shown on a cell that cannot be walked on, hidden
    /// on one that can.
    pub fn create(passable: bool) -> (bundle: UnpassBundle)
        ensures
            bundle == (UnpassBundle { visible: !passable, tag: GridUnpass }),
    {
        UnpassBundle {
            visible: if !passable {
                true
            } else {
                false
            },
            tag: GridUnpass,
        }
    }
}

} // verus!
