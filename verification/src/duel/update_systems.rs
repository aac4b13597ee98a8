//! What follows for a cell from a change of its selection, of its look or of
//! the layers.

use vstd::prelude::*;

use crate::duel::components::{
    GridColor, GridColorAndShape, GridLift, GridMaterial, GridMinion, GridPalette,
    GridPassability, GridSelected, GridShape, GridTargetPos,
};
use crate::duel::grids_resource::{lists_handles, Grids, GridsView, ShapeUpdate};

verus! {

/// The material for a cell of the given look: the empty material for the
/// empty shape, else the tile of the shape in the palette of the colour. The
/// default colour has one palette for a cell with a minion on it and one for
/// a cell without.
pub open spec fn material_for(minion: GridMinion, look: GridColorAndShape) -> GridMaterial {
    match look.shape.spec_index() {
        None => GridMaterial::Empty,
        Some(slot) => match look.color {
            GridColor::Selected => GridMaterial::Tile(GridPalette::Selected, slot),
            GridColor::Default => if minion.minion is None {
                GridMaterial::Tile(GridPalette::NoMinion, slot)
            } else {
                GridMaterial::Tile(GridPalette::MinionOn, slot)
            },
            GridColor::MouseOn => GridMaterial::Tile(GridPalette::MouseOn, slot),
            GridColor::Unpassable => GridMaterial::Tile(GridPalette::Unpassable, slot),
        },
    }
}

/// Forgets all cells of the field and returns their handles, for the cells
/// to be despawned.
pub fn despawn_grids(grids: &mut Grids) -> (despawned: Vec<u64>)
    ensures
        final(grids).wf(),
        final(grids)@ == GridsView::empty(),
        lists_handles(despawned@, old(grids)@.grids),
{
    grids.destroy_all()
}

/// A cell whose selection changed: if it can be walked on, it is raised and
/// takes the colour of selection when selected, and goes back into the plane
/// when not.
pub fn update_selection(
    selection: &GridSelected,
    passable: &GridPassability,
    target_pos: &mut GridTargetPos,
    color_and_shape: &mut GridColorAndShape,
)
    ensures
        final(target_pos).target_pos == if !passable.passable {
            old(target_pos).target_pos
        } else if selection.selected {
            GridLift::Raised
        } else {
            GridLift::Level
        },
        final(color_and_shape).color == if passable.passable && selection.selected {
            GridColor::Selected
        } else {
            old(color_and_shape).color
        },
        final(color_and_shape).shape == old(color_and_shape).shape,
{
    if passable.passable {
        if selection.selected {
            color_and_shape.color = GridColor::Selected;
            target_pos.target_pos = GridLift::Raised;
        } else {
            target_pos.target_pos = GridLift::Level;
        }
    }
}

/// Works out the tiles that are due, if any are, and returns them: see
/// [`Grids::update_layers`].
pub fn update_layers(grids: &mut Grids) -> (updates: Vec<ShapeUpdate>)
    requires
        old(grids).wf(),
    ensures
        final(grids).wf(),
        final(grids)@ == old(grids)@.update_layers(),
        updates@ == old(grids)@.layer_updates(),
{
    if grids.need_update() {
        grids.update_layers()
    } else {
        proof {
            crate::duel::laws::law_nothing_waiting(old(grids)@);
        }
        Vec::new()
    }
}

/// A cell whose look changed gets the material for its look: see
/// [`material_for`].
pub fn update_color_and_shape(
    minion: &GridMinion,
    color_and_shape: &GridColorAndShape,
    material: &mut GridMaterial,
)
    ensures
        *final(material) == material_for(*minion, *color_and_shape),
        *final(material) matches GridMaterial::Tile(_, slot) ==> slot < 5,
{
    if color_and_shape.shape == GridShape::Empty {
        *material = GridMaterial::Empty;
        return ;
    }
    match color_and_shape.shape.index() {
        Some(shape) => match color_and_shape.color {
            GridColor::Selected => *material = GridMaterial::Tile(GridPalette::Selected, shape),
            GridColor::Default => {
                if minion.minion.is_none() {
                    *material = GridMaterial::Tile(GridPalette::NoMinion, shape)
                } else {
                    *material = GridMaterial::Tile(GridPalette::MinionOn, shape)
                }
            },
            GridColor::MouseOn => *material = GridMaterial::Tile(GridPalette::MouseOn, shape),
            GridColor::Unpassable => *material = GridMaterial::Tile(
                GridPalette::Unpassable,
                shape,
            ),
        },
        None => {},
    }
}

} // verus!
