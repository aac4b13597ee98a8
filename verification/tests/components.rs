use summoner::duel::{
    GridBundle, GridCell, GridCells, GridChange, GridColor, GridColorAndShape, GridLift,
    GridMaterial, GridMinion, GridPalette, GridPassability, GridPos, GridRot, GridSelected,
    GridShape, GridTargetPos, GridTargetRot, GridUnpass, Selection, UnpassBundle,
};
use summoner::minion::{MinionAnimationState, MinionAnimationStep, OnGrids};

const FREE: GridMaterial = GridMaterial::Tile(GridPalette::NoMinion, 0);
const BLOCKED: GridMaterial = GridMaterial::Tile(GridPalette::Unpassable, 0);

#[test]
fn a_passable_cell_starts_level_and_in_the_default_colour() {
    let bundle = GridBundle::create(3, 7, true, false, FREE, BLOCKED);
    assert_eq!(
        bundle,
        GridBundle {
            material: FREE,
            visible: true,
            grid_pos: GridPos { x: 3, y: 7 },
            target_pos: GridTargetPos { target_pos: GridLift::Level },
            target_rot: GridTargetRot { target_rot: GridRot::Deg0 },
            passability: GridPassability { passable: true, show_passable: false },
            selected: GridSelected { selected: false },
            color_and_shape: GridColorAndShape {
                shape: GridShape::Closed,
                color: GridColor::Default
            },
            minion: GridMinion { minion: None },
        }
    );
}

#[test]
fn an_unpassable_cell_starts_sunk_and_in_its_own_colour() {
    let bundle = GridBundle::create(0, 255, false, true, FREE, BLOCKED);
    assert_eq!(bundle.material, BLOCKED);
    assert!(bundle.visible);
    assert_eq!(bundle.grid_pos, GridPos { x: 0, y: 255 });
    assert_eq!(bundle.target_pos.target_pos, GridLift::Sunk);
    assert_eq!(bundle.passability, GridPassability { passable: false, show_passable: true });
    assert_eq!(bundle.color_and_shape.color, GridColor::Unpassable);
    assert_eq!(bundle.color_and_shape.shape, GridShape::Closed);
    assert!(!bundle.selected.selected);
}

#[test]
fn an_unpassable_cell_is_hidden_unless_it_is_to_be_shown() {
    assert!(!GridBundle::create(1, 1, false, false, FREE, BLOCKED).visible);
    assert!(GridBundle::create(1, 1, false, true, FREE, BLOCKED).visible);
    assert!(GridBundle::create(1, 1, true, false, FREE, BLOCKED).visible);
    assert!(GridBundle::create(1, 1, true, true, FREE, BLOCKED).visible);
}

#[test]
fn the_sign_shows_on_a_cell_that_cannot_be_walked_on() {
    assert_eq!(UnpassBundle::create(false), UnpassBundle { visible: true, tag: GridUnpass });
    assert_eq!(UnpassBundle::create(true), UnpassBundle { visible: false, tag: GridUnpass });
}

#[test]
fn every_shape_but_empty_has_a_place_in_a_palette() {
    assert_eq!(GridShape::Closed.index(), Some(0));
    assert_eq!(GridShape::Corner.index(), Some(1));
    assert_eq!(GridShape::Cup.index(), Some(2));
    assert_eq!(GridShape::Pipe.index(), Some(3));
    assert_eq!(GridShape::Side.index(), Some(4));
    assert_eq!(GridShape::Empty.index(), None);
}

fn cell(passable: bool, selected: bool, color: GridColor) -> GridCell {
    GridCell {
        grid_pos: GridPos { x: 1, y: 2 },
        passability: GridPassability { passable, show_passable: true },
        selected: GridSelected { selected },
        color_and_shape: GridColorAndShape { shape: GridShape::Pipe, color },
    }
}

#[test]
fn hover_colours_a_free_unselected_cell_only() {
    let change = GridChange::Hover(GridColor::MouseOn);
    let free = cell(true, false, GridColor::Default);
    assert_eq!(change.applied(free), cell(true, false, GridColor::MouseOn));
    let selected = cell(true, true, GridColor::Selected);
    assert_eq!(change.applied(selected), selected);
    let blocked = cell(false, false, GridColor::Unpassable);
    assert_eq!(change.applied(blocked), blocked);
}

#[test]
fn tint_colours_every_unselected_cell() {
    let change = GridChange::Tint(GridColor::Default);
    assert_eq!(
        change.applied(cell(true, false, GridColor::MouseOn)),
        cell(true, false, GridColor::Default)
    );
    assert_eq!(
        change.applied(cell(false, false, GridColor::Unpassable)),
        cell(false, false, GridColor::Default)
    );
    let selected = cell(true, true, GridColor::Selected);
    assert_eq!(change.applied(selected), selected);
}

#[test]
fn toggle_and_select_leave_a_blocked_cell_alone() {
    assert_eq!(
        GridChange::Toggle.applied(cell(true, false, GridColor::Default)),
        cell(true, true, GridColor::Default)
    );
    assert_eq!(
        GridChange::Toggle.applied(cell(true, true, GridColor::Default)),
        cell(true, false, GridColor::Default)
    );
    assert_eq!(
        GridChange::Select(true).applied(cell(true, false, GridColor::Default)),
        cell(true, true, GridColor::Default)
    );
    assert_eq!(
        GridChange::Select(false).applied(cell(true, true, GridColor::Default)),
        cell(true, false, GridColor::Default)
    );
    let blocked = cell(false, false, GridColor::Unpassable);
    assert_eq!(GridChange::Toggle.applied(blocked), blocked);
    assert_eq!(GridChange::Select(true).applied(blocked), blocked);
}

#[test]
fn a_cell_may_stand_for_its_materials_by_any_value() {
    let bundle = GridBundle::create(9, 9, false, false, "plain", "barred");
    assert_eq!(bundle.material, "barred");
    assert_eq!(GridBundle::create(9, 9, true, false, 1u8, 2u8).material, 1);
}

#[test]
fn the_cells_are_found_by_their_handles() {
    let mut cells = GridCells::new();
    assert_eq!(cells.get(5), None);
    let first = cell(true, false, GridColor::Default);
    let second = cell(false, false, GridColor::Unpassable);
    cells.insert(5, first);
    cells.insert(u64::MAX, second);
    assert_eq!(cells.get(5), Some(first));
    assert_eq!(cells.get(u64::MAX), Some(second));
    assert_eq!(cells.get(6), None);
    cells.insert(5, second);
    assert_eq!(cells.get(5), Some(second));
}

#[test]
fn a_change_reaches_the_cells_that_are_named() {
    let mut cells = GridCells::new();
    cells.insert(1, cell(true, false, GridColor::Default));
    cells.insert(2, cell(true, false, GridColor::Default));
    cells.insert(3, cell(true, false, GridColor::Default));
    cells.change(9, GridChange::Toggle);
    cells.change(2, GridChange::Toggle);
    assert_eq!(cells.get(2), Some(cell(true, true, GridColor::Default)));
    assert_eq!(cells.get(9), None);
    cells.change_each(&vec![1, 2, 7, 1], GridChange::Toggle);
    assert_eq!(cells.get(1), Some(cell(true, false, GridColor::Default)));
    assert_eq!(cells.get(2), Some(cell(true, false, GridColor::Default)));
    assert_eq!(cells.get(3), Some(cell(true, false, GridColor::Default)));
    assert_eq!(cells.get(7), None);
}

#[test]
fn nothing_is_selected_and_a_minion_idles_at_first() {
    assert_eq!(Selection::default(), Selection { selected_minion: None });
    assert_eq!(MinionAnimationState::default(), MinionAnimationState::Idle);
    assert_ne!(MinionAnimationState::default(), MinionAnimationState::Walking);
    assert_eq!(MinionAnimationStep { step: 3 }.step, 3);
    assert_eq!(OnGrids { grids: vec![4, 5] }.grids, vec![4, 5]);
}
