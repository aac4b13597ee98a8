use summoner::duel::{
    despawn_grids, mouse_combine_change, mouse_off_grid, mouse_on_grid, mouse_select_grid,
    update_color_and_shape, update_layers, update_selection, GridCell, GridCells, GridColor,
    GridColorAndShape, GridLift, GridMaterial, GridMinion, GridPalette, GridPassability, GridPos,
    GridRot, GridSelected, GridShape, GridTargetPos, GridType, Grids, MouseDownGrid,
    MouseOffGrid, MouseOnGrid, ShapeUpdate,
};

/// The cell at `(x, 0)` as it is at first.
fn fresh(x: u8, passable: bool) -> GridCell {
    GridCell {
        grid_pos: GridPos { x, y: 0 },
        passability: GridPassability { passable, show_passable: true },
        selected: GridSelected { selected: false },
        color_and_shape: GridColorAndShape {
            shape: GridShape::Closed,
            color: if passable { GridColor::Default } else { GridColor::Unpassable },
        },
    }
}

/// A row of cells at `(0, 0)`, `(1, 0)`, ... with handles 10, 11, ...: the
/// cells named in `blocked` cannot be walked on and are in layer 0.
fn row(len: u8, blocked: &[u8]) -> (Grids, GridCells) {
    let mut grids = Grids::default();
    let mut cells = GridCells::new();
    for x in 0..len {
        let passable = !blocked.contains(&x);
        let kind = if passable { GridType::Passable } else { GridType::Unpassable };
        grids.add(x, 0, &kind, 10 + x as u64);
        cells.insert(10 + x as u64, fresh(x, passable));
    }
    (grids, cells)
}

fn color(cells: &GridCells, grid: u64) -> GridColor {
    cells.get(grid).unwrap().color_and_shape.color
}

fn selected(cells: &GridCells, grid: u64) -> bool {
    cells.get(grid).unwrap().selected.selected
}

#[test]
fn the_pointer_colours_a_single_cell() {
    let (grids, mut cells) = row(3, &[]);
    mouse_on_grid(&vec![MouseOnGrid(11)], &grids, &mut cells);
    assert_eq!(color(&cells, 10), GridColor::Default);
    assert_eq!(color(&cells, 11), GridColor::MouseOn);
    assert_eq!(color(&cells, 12), GridColor::Default);
    mouse_off_grid(&vec![MouseOffGrid(11)], &grids, &mut cells);
    assert_eq!(color(&cells, 11), GridColor::Default);
}

#[test]
fn the_pointer_colours_the_whole_layer_of_a_cell() {
    let (mut grids, mut cells) = row(4, &[]);
    grids.add_to_or_change_layer(1, 0, 0);
    grids.add_to_or_change_layer(1, 2, 0);
    mouse_on_grid(&vec![MouseOnGrid(12)], &grids, &mut cells);
    assert_eq!(color(&cells, 10), GridColor::MouseOn);
    assert_eq!(color(&cells, 11), GridColor::Default);
    assert_eq!(color(&cells, 12), GridColor::MouseOn);
    assert_eq!(color(&cells, 13), GridColor::Default);
    mouse_off_grid(&vec![MouseOffGrid(10)], &grids, &mut cells);
    assert_eq!(color(&cells, 10), GridColor::Default);
    assert_eq!(color(&cells, 12), GridColor::Default);
}

#[test]
fn the_pointer_leaves_selected_and_blocked_cells_alone() {
    let (grids, mut cells) = row(3, &[1]);
    mouse_select_grid(&vec![MouseDownGrid(10)], &grids, &mut cells);
    let mut cell = cells.get(10).unwrap();
    cell.color_and_shape.color = GridColor::Selected;
    cells.insert(10, cell);
    mouse_on_grid(&vec![MouseOnGrid(10), MouseOnGrid(11), MouseOnGrid(12)], &grids, &mut cells);
    assert_eq!(color(&cells, 10), GridColor::Selected);
    assert_eq!(color(&cells, 11), GridColor::Unpassable);
    assert_eq!(color(&cells, 12), GridColor::MouseOn);
    mouse_off_grid(&vec![MouseOffGrid(10), MouseOffGrid(11)], &grids, &mut cells);
    assert_eq!(color(&cells, 10), GridColor::Selected);
    assert_eq!(color(&cells, 11), GridColor::Unpassable);
    assert_eq!(color(&cells, 12), GridColor::MouseOn);
}

#[test]
fn an_event_for_an_unknown_cell_changes_nothing() {
    let (mut grids, mut cells) = row(2, &[]);
    mouse_on_grid(&vec![MouseOnGrid(99)], &grids, &mut cells);
    mouse_select_grid(&vec![MouseDownGrid(99)], &grids, &mut cells);
    mouse_combine_change(&vec![MouseDownGrid(99)], true, &mut grids, &mut cells);
    mouse_off_grid(&vec![MouseOffGrid(99)], &grids, &mut cells);
    for grid in [10, 11] {
        assert_eq!(cells.get(grid), Some(fresh(grid as u8 - 10, true)));
    }
    assert_eq!(cells.get(99), None);
    assert_eq!(grids.get_layer(0, 0), None);
}

#[test]
fn a_press_toggles_the_selection_of_a_single_cell() {
    let (grids, mut cells) = row(2, &[1]);
    mouse_select_grid(&vec![MouseDownGrid(10)], &grids, &mut cells);
    assert!(selected(&cells, 10));
    mouse_select_grid(&vec![MouseDownGrid(10)], &grids, &mut cells);
    assert!(!selected(&cells, 10));
    mouse_select_grid(&vec![MouseDownGrid(10), MouseDownGrid(10), MouseDownGrid(10)], &grids, &mut cells);
    assert!(selected(&cells, 10));
}

#[test]
fn a_press_selects_the_whole_layer_of_a_cell() {
    let (mut grids, mut cells) = row(4, &[]);
    grids.add_to_or_change_layer(1, 0, 0);
    grids.add_to_or_change_layer(1, 1, 0);
    grids.add_to_or_change_layer(1, 3, 0);
    mouse_select_grid(&vec![MouseDownGrid(11)], &grids, &mut cells);
    assert!(selected(&cells, 10));
    assert!(selected(&cells, 11));
    assert!(!selected(&cells, 12));
    assert!(selected(&cells, 13));
    mouse_select_grid(&vec![MouseDownGrid(13)], &grids, &mut cells);
    assert!(!selected(&cells, 10));
    assert!(!selected(&cells, 11));
    assert!(!selected(&cells, 13));
}

#[test]
fn a_press_on_a_blocked_cell_unselects_nothing_it_cannot_reach() {
    let (grids, mut cells) = row(3, &[0, 1]);
    mouse_select_grid(&vec![MouseDownGrid(2 + 10)], &grids, &mut cells);
    assert!(selected(&cells, 12));
    mouse_select_grid(&vec![MouseDownGrid(10)], &grids, &mut cells);
    assert!(!selected(&cells, 10));
    assert!(!selected(&cells, 11));
    assert!(selected(&cells, 12));
}

#[test]
fn a_press_on_a_blocked_cell_unselects_the_free_cells_of_its_layer() {
    let (mut grids, mut cells) = row(3, &[0]);
    grids.add_to_or_change_layer(0, 1, 0);
    mouse_select_grid(&vec![MouseDownGrid(11)], &grids, &mut cells);
    assert!(selected(&cells, 11));
    assert!(!selected(&cells, 10));
    mouse_select_grid(&vec![MouseDownGrid(10)], &grids, &mut cells);
    assert!(!selected(&cells, 11));
    assert!(!selected(&cells, 10));
}

#[test]
fn combining_puts_a_free_cell_into_layer_one() {
    let (mut grids, mut cells) = row(3, &[]);
    mouse_combine_change(&vec![MouseDownGrid(10), MouseDownGrid(12)], true, &mut grids, &mut cells);
    assert_eq!(grids.get_cells_from_layer(1), Some(vec![(0, 0), (2, 0)]));
    assert_eq!(color(&cells, 10), GridColor::MouseOn);
    assert_eq!(color(&cells, 11), GridColor::Default);
    assert_eq!(color(&cells, 12), GridColor::MouseOn);
}

#[test]
fn combining_takes_a_cell_out_of_the_layer_it_is_in() {
    let (mut grids, mut cells) = row(3, &[]);
    mouse_combine_change(&vec![MouseDownGrid(10), MouseDownGrid(12)], true, &mut grids, &mut cells);
    mouse_combine_change(&vec![MouseDownGrid(10)], true, &mut grids, &mut cells);
    assert_eq!(grids.get_layer(0, 0), None);
    assert_eq!(grids.get_cells_from_layer(1), Some(vec![(2, 0)]));
    assert_eq!(color(&cells, 10), GridColor::Default);
    assert_eq!(color(&cells, 12), GridColor::Default);
}

#[test]
fn combining_leaves_selected_cells_in_their_colour() {
    let (mut grids, mut cells) = row(2, &[]);
    mouse_combine_change(&vec![MouseDownGrid(10)], true, &mut grids, &mut cells);
    let mut cell = cells.get(10).unwrap();
    cell.selected.selected = true;
    cell.color_and_shape.color = GridColor::Selected;
    cells.insert(10, cell);
    mouse_combine_change(&vec![MouseDownGrid(11)], true, &mut grids, &mut cells);
    assert_eq!(color(&cells, 10), GridColor::Selected);
    assert_eq!(color(&cells, 11), GridColor::MouseOn);
    assert_eq!(grids.get_cells_from_layer(1), Some(vec![(0, 0), (1, 0)]));
}

#[test]
fn combining_needs_the_key_and_a_cell_that_can_be_walked_on() {
    let (mut grids, mut cells) = row(2, &[1]);
    mouse_combine_change(&vec![MouseDownGrid(10)], false, &mut grids, &mut cells);
    assert_eq!(grids.get_layer(0, 0), None);
    assert_eq!(color(&cells, 10), GridColor::Default);
    mouse_combine_change(&vec![MouseDownGrid(11)], true, &mut grids, &mut cells);
    assert_eq!(grids.get_layer(1, 0), Some(&0));
    assert_eq!(grids.get_cells_from_layer(1), None);
    assert_eq!(color(&cells, 11), GridColor::Unpassable);
}

#[test]
fn a_selected_cell_is_raised_and_an_unselected_one_lowered() {
    let passable = GridPassability { passable: true, show_passable: true };
    let mut target_pos = GridTargetPos { target_pos: GridLift::Level };
    let mut look = GridColorAndShape { shape: GridShape::Pipe, color: GridColor::MouseOn };
    update_selection(&GridSelected { selected: true }, &passable, &mut target_pos, &mut look);
    assert_eq!(target_pos.target_pos, GridLift::Raised);
    assert_eq!(look, GridColorAndShape { shape: GridShape::Pipe, color: GridColor::Selected });
    update_selection(&GridSelected { selected: false }, &passable, &mut target_pos, &mut look);
    assert_eq!(target_pos.target_pos, GridLift::Level);
    assert_eq!(look, GridColorAndShape { shape: GridShape::Pipe, color: GridColor::Selected });
}

#[test]
fn the_selection_of_a_blocked_cell_moves_nothing() {
    let blocked = GridPassability { passable: false, show_passable: true };
    let mut target_pos = GridTargetPos { target_pos: GridLift::Sunk };
    let mut look = GridColorAndShape { shape: GridShape::Cup, color: GridColor::Unpassable };
    update_selection(&GridSelected { selected: true }, &blocked, &mut target_pos, &mut look);
    assert_eq!(target_pos.target_pos, GridLift::Sunk);
    assert_eq!(look, GridColorAndShape { shape: GridShape::Cup, color: GridColor::Unpassable });
    update_selection(&GridSelected { selected: false }, &blocked, &mut target_pos, &mut look);
    assert_eq!(target_pos.target_pos, GridLift::Sunk);
}

fn material(minion: Option<u64>, shape: GridShape, color: GridColor) -> GridMaterial {
    let mut material = GridMaterial::Tile(GridPalette::Selected, 4);
    update_color_and_shape(&GridMinion { minion }, &GridColorAndShape { shape, color }, &mut material);
    material
}

#[test]
fn the_material_goes_by_colour_and_shape() {
    assert_eq!(
        material(None, GridShape::Closed, GridColor::Selected),
        GridMaterial::Tile(GridPalette::Selected, 0)
    );
    assert_eq!(
        material(None, GridShape::Corner, GridColor::Default),
        GridMaterial::Tile(GridPalette::NoMinion, 1)
    );
    assert_eq!(
        material(Some(4), GridShape::Cup, GridColor::Default),
        GridMaterial::Tile(GridPalette::MinionOn, 2)
    );
    assert_eq!(
        material(Some(4), GridShape::Pipe, GridColor::MouseOn),
        GridMaterial::Tile(GridPalette::MouseOn, 3)
    );
    assert_eq!(
        material(None, GridShape::Side, GridColor::Unpassable),
        GridMaterial::Tile(GridPalette::Unpassable, 4)
    );
}

#[test]
fn the_empty_shape_has_the_empty_material_in_every_colour() {
    for color in [GridColor::Default, GridColor::Selected, GridColor::MouseOn, GridColor::Unpassable] {
        assert_eq!(material(None, GridShape::Empty, color), GridMaterial::Empty);
        assert_eq!(material(Some(1), GridShape::Empty, color), GridMaterial::Empty);
    }
}

#[test]
fn the_tiles_that_are_due_are_handed_out_once() {
    let (mut grids, _) = row(3, &[0, 1]);
    assert_eq!(
        update_layers(&mut grids),
        vec![
            ShapeUpdate { grid: 10, x: 0, y: 0, shape: GridShape::Cup, rot: GridRot::Deg0 },
            ShapeUpdate { grid: 11, x: 1, y: 0, shape: GridShape::Cup, rot: GridRot::Deg180 },
        ]
    );
    assert!(!grids.need_update());
    assert!(update_layers(&mut grids).is_empty());
    grids.remove_from_layer(1, 0);
    assert_eq!(
        update_layers(&mut grids),
        vec![
            ShapeUpdate { grid: 10, x: 0, y: 0, shape: GridShape::Closed, rot: GridRot::Deg0 },
            ShapeUpdate { grid: 11, x: 1, y: 0, shape: GridShape::Closed, rot: GridRot::Deg0 },
        ]
    );
    assert!(update_layers(&mut grids).is_empty());
}

#[test]
fn despawning_hands_back_every_handle() {
    let (mut grids, _) = row(3, &[1]);
    let mut despawned = despawn_grids(&mut grids);
    despawned.sort();
    assert_eq!(despawned, vec![10, 11, 12]);
    assert_eq!(grids.get_grid(0, 0), None);
    assert_eq!(grids.get_layer(1, 0), None);
    assert!(despawn_grids(&mut grids).is_empty());
}
