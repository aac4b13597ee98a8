//! Everything a game that uses the field needs, under one import.

pub use crate::duel::{
    compute_shape_and_rot, despawn_grids, mouse_combine_change, mouse_off_grid, mouse_on_grid,
    mouse_select_grid, update_color_and_shape, update_layers, update_selection, GridBundle,
    GridCell, GridCells, GridChange, GridColor, GridColorAndShape, GridLift, GridMap, GridMaterial,
    GridMinion, GridPalette, GridPassability, GridPos, GridRot, GridSelected, GridShape,
    GridTargetPos, GridTargetRot, GridType, GridUnpass, Grids, MouseDownGrid, MouseOffGrid,
    MouseOnGrid, Selection, ShapeUpdate, UnpassBundle,
};
pub use crate::minion::{MinionAnimationState, MinionAnimationStep, OnGrids};
