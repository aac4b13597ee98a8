//! The field of a duel and its rules.

pub mod cells;
pub mod components;
pub mod events;
pub mod grid_map;
pub mod grids_resource;
pub mod input_systems;
pub mod laws;
pub mod resources;
pub mod screen;
mod tables;
pub mod tiles;
pub mod update_systems;

pub use cells::{GridCell, GridCells, GridChange};
pub use components::{
    GridBundle, GridColor, GridColorAndShape, GridLift, GridMaterial, GridMinion, GridPalette,
    GridPassability, GridPos, GridRot, GridSelected, GridShape, GridTargetPos, GridTargetRot,
    GridUnpass, UnpassBundle,
};
pub use events::{MouseDownGrid, MouseOffGrid, MouseOnGrid};
pub use grid_map::{GridMap, GridMapView, GridType};
pub use grids_resource::{Grids, GridsView, ShapeUpdate};
pub use input_systems::{mouse_combine_change, mouse_off_grid, mouse_on_grid, mouse_select_grid};
pub use resources::Selection;
pub use tiles::compute_shape_and_rot;
pub use update_systems::{
    despawn_grids, update_color_and_shape, update_layers, update_selection,
};
