use summoner::duel::{GridMap, GridType, Grids};

fn field_with(cells: &[(u8, u8, u64)]) -> Grids {
    let mut grids = Grids::default();
    for &(x, y, grid) in cells {
        grids.add(x, y, &GridType::Passable, grid);
    }
    grids
}

#[test]
fn a_new_field_holds_nothing_and_waits_for_its_first_tiles() {
    let grids = Grids::default();
    assert!(grids.need_update());
    assert_eq!(grids.get_grid(0, 0), None);
    assert_eq!(grids.get_layer(0, 0), None);
    assert!(!grids.contains(0, 0));
    assert_eq!(grids.get_grids_from_layer(0), None);
    assert_eq!(grids.get_cells_from_layer(0), None);
    assert_eq!(grids.get_max(), (0, 0));
}

#[test]
fn add_keeps_the_first_handle_of_a_cell() {
    let mut grids = Grids::default();
    grids.add(3, 4, &GridType::Passable, 7);
    grids.add(3, 4, &GridType::Unpassable, 8);
    assert_eq!(grids.get_grid(3, 4), Some(&7));
    assert_eq!(grids.get_layer(3, 4), None);
    assert_eq!(grids.get_max(), (3, 4));
}

#[test]
fn add_tracks_the_largest_column_and_row() {
    let mut grids = Grids::default();
    grids.add(3, 9, &GridType::Passable, 1);
    grids.add(11, 2, &GridType::Breakable, 2);
    grids.add(5, 5, &GridType::Passable, 3);
    assert_eq!(grids.get_max(), (11, 9));
}

#[test]
fn add_puts_an_unpassable_cell_into_layer_zero() {
    let mut grids = Grids::default();
    grids.add(1, 1, &GridType::Unpassable, 10);
    grids.add(2, 1, &GridType::Breakable, 11);
    grids.add(3, 1, &GridType::Passable, 12);
    assert_eq!(grids.get_layer(1, 1), Some(&0));
    assert_eq!(grids.get_layer(2, 1), None);
    assert_eq!(grids.get_layer(3, 1), None);
    assert_eq!(grids.get_grids_from_layer(0), Some(vec![10]));
}

#[test]
fn cells_of_a_layer_come_in_the_order_of_joining() {
    let mut grids = field_with(&[(0, 0, 100), (5, 5, 101), (2, 9, 102)]);
    grids.add_to_or_change_layer(4, 5, 5);
    grids.add_to_or_change_layer(4, 0, 0);
    grids.add_to_or_change_layer(4, 2, 9);
    assert_eq!(grids.get_cells_from_layer(4), Some(vec![(5, 5), (0, 0), (2, 9)]));
    assert_eq!(grids.get_grids_from_layer(4), Some(vec![101, 100, 102]));
}

#[test]
fn cells_in_same_layer_is_none_for_a_cell_never_inserted() {
    let mut grids = field_with(&[(0, 0, 1), (1, 0, 2)]);
    grids.add_to_or_change_layer(1, 0, 0);
    assert_eq!(grids.get_grids_from_same_layer(1, 0), None);
    assert_eq!(grids.get_cells_from_same_layer(1, 0), None);
    assert_eq!(grids.get_grids_from_same_layer(200, 200), None);
}

#[test]
fn cells_in_same_layer_matches_the_layer_as_a_set() {
    let mut grids = field_with(&[(0, 0, 1), (1, 0, 2), (7, 7, 3), (8, 8, 4)]);
    grids.add_to_or_change_layer(1, 7, 7);
    grids.add_to_or_change_layer(1, 0, 0);
    grids.add_to_or_change_layer(2, 8, 8);
    grids.add_to_or_change_layer(1, 1, 0);
    for &(x, y) in &[(0u8, 0u8), (1, 0), (7, 7)] {
        let mut cells = grids.get_cells_from_same_layer(x, y).unwrap();
        cells.sort();
        assert_eq!(cells, vec![(0, 0), (1, 0), (7, 7)]);
        let mut handles = grids.get_grids_from_same_layer(x, y).unwrap();
        handles.sort();
        assert_eq!(handles, vec![1, 2, 3]);
    }
    assert_eq!(grids.get_cells_from_same_layer(8, 8), Some(vec![(8, 8)]));
}

#[test]
fn a_layer_lists_only_the_cells_that_have_a_handle() {
    let mut grids = field_with(&[(0, 0, 1)]);
    grids.add_to_or_change_layer(3, 0, 0);
    grids.add_to_or_change_layer(3, 9, 9);
    assert_eq!(grids.get_cells_from_layer(3), Some(vec![(0, 0), (9, 9)]));
    assert_eq!(grids.get_grids_from_layer(3), Some(vec![1]));
}

#[test]
fn a_cell_is_in_one_layer_at_a_time() {
    let mut grids = field_with(&[(4, 4, 1), (5, 4, 2)]);
    grids.add_to_or_change_layer(1, 4, 4);
    grids.add_to_or_change_layer(1, 5, 4);
    grids.add_to_or_change_layer(2, 4, 4);
    assert_eq!(grids.get_layer(4, 4), Some(&2));
    assert_eq!(grids.get_cells_from_layer(1), Some(vec![(5, 4)]));
    assert_eq!(grids.get_cells_from_layer(2), Some(vec![(4, 4)]));
}

#[test]
fn a_layer_that_loses_its_last_cell_is_gone() {
    let mut grids = field_with(&[(4, 4, 1)]);
    grids.add_to_or_change_layer(6, 4, 4);
    grids.remove_from_layer(4, 4);
    assert_eq!(grids.get_layer(4, 4), None);
    assert!(!grids.contains(4, 4));
    assert_eq!(grids.get_cells_from_layer(6), None);
    assert_eq!(grids.get_grids_from_layer(6), None);
    grids.add_to_or_change_layer(1, 4, 4);
    grids.add_to_or_change_layer(2, 4, 4);
    assert_eq!(grids.get_cells_from_layer(1), None);
}

#[test]
fn removing_a_cell_that_is_in_no_layer_does_nothing() {
    let mut grids = field_with(&[(4, 4, 1)]);
    grids.update_layers();
    grids.remove_from_layer(4, 4);
    grids.remove_from_layer(9, 9);
    assert!(!grids.need_update());
    assert!(grids.update_layers().is_empty());
}

#[test]
fn putting_a_cell_into_its_own_layer_is_a_no_op() {
    let mut grids = field_with(&[(4, 4, 1), (4, 5, 2)]);
    grids.add_to_or_change_layer(1, 4, 4);
    grids.add_to_or_change_layer(1, 4, 5);
    grids.update_layers();
    assert!(!grids.need_update());
    grids.add_to_or_change_layer(1, 4, 4);
    assert!(!grids.need_update());
    assert!(grids.update_layers().is_empty());
    assert_eq!(grids.get_cells_from_layer(1), Some(vec![(4, 4), (4, 5)]));
}

#[test]
fn changes_wait_only_once_the_first_tiles_are_worked_out() {
    let mut grids = field_with(&[(4, 4, 1)]);
    assert!(grids.need_update());
    grids.add_to_or_change_layer(1, 4, 4);
    assert!(grids.need_update());
    grids.update_layers();
    assert!(!grids.need_update());
    grids.remove_from_layer(4, 4);
    assert!(grids.need_update());
    grids.update_layers();
    assert!(!grids.need_update());
    grids.add_to_or_change_layer(1, 4, 4);
    assert!(grids.need_update());
}

#[test]
fn destroy_forgets_the_handle_and_the_layer_of_a_cell() {
    let mut grids = Grids::default();
    grids.add(1, 1, &GridType::Unpassable, 10);
    grids.add(2, 1, &GridType::Unpassable, 11);
    assert_eq!(grids.destroy(1, 1), Some(10));
    assert_eq!(grids.get_grid(1, 1), None);
    assert_eq!(grids.get_layer(1, 1), None);
    assert_eq!(grids.get_grids_from_layer(0), Some(vec![11]));
    assert_eq!(grids.destroy(1, 1), None);
    assert_eq!(grids.destroy(9, 9), None);
    assert_eq!(grids.get_grid(2, 1), Some(&11));
}

#[test]
fn destroy_leaves_the_layer_of_a_cell_without_handle_alone() {
    let mut grids = Grids::default();
    grids.add_to_or_change_layer(2, 6, 6);
    assert_eq!(grids.destroy(6, 6), None);
    assert_eq!(grids.get_layer(6, 6), Some(&2));
}

#[test]
fn destroy_all_returns_every_handle_and_starts_over() {
    let mut grids = Grids::default();
    grids.add(1, 1, &GridType::Unpassable, 10);
    grids.add(2, 1, &GridType::Passable, 11);
    grids.add(3, 1, &GridType::Breakable, 12);
    grids.add_to_or_change_layer(5, 2, 1);
    grids.update_layers();
    grids.remove_from_layer(2, 1);
    let mut despawned = grids.destroy_all();
    despawned.sort();
    assert_eq!(despawned, vec![10, 11, 12]);
    assert!(grids.need_update());
    assert_eq!(grids.get_max(), (0, 0));
    assert_eq!(grids.get_grid(1, 1), None);
    assert_eq!(grids.get_layer(1, 1), None);
    assert_eq!(grids.get_grids_from_layer(0), None);
    assert!(grids.update_layers().is_empty());
    assert!(grids.destroy_all().is_empty());
}

fn small_map() -> GridMap {
    let mut grid_map = GridMap::new();
    grid_map.add(0, 0, GridType::Passable);
    grid_map.add(1, 0, GridType::Unpassable);
    grid_map.add(2, 3, GridType::Breakable);
    grid_map.add(1, 1, GridType::Unpassable);
    grid_map
}

#[test]
fn create_loads_a_map_with_the_handles_given() {
    let grid_map = small_map();
    let mut grids = Grids::default();
    let spawned = vec![((1, 1), 21), ((0, 0), 22), ((2, 3), 23), ((1, 0), 24)];
    let despawned = grids.create(&grid_map, &spawned);
    assert!(despawned.is_empty());
    assert_eq!(grids.get_max(), (2, 3));
    assert_eq!(grids.get_grid(1, 1), Some(&21));
    assert_eq!(grids.get_grid(0, 0), Some(&22));
    assert_eq!(grids.get_grid(2, 3), Some(&23));
    assert_eq!(grids.get_grid(1, 0), Some(&24));
    assert_eq!(grids.get_cells_from_layer(0), Some(vec![(1, 1), (1, 0)]));
    assert_eq!(grids.get_grids_from_layer(0), Some(vec![21, 24]));
    assert_eq!(grids.get_layer(0, 0), None);
    assert_eq!(grids.get_layer(2, 3), None);
}

#[test]
fn create_passes_over_a_position_the_map_has_no_cell_at() {
    let grid_map = small_map();
    let mut grids = Grids::default();
    grids.create(&grid_map, &vec![((9, 9), 30), ((1, 0), 31), ((1, 0), 32)]);
    assert_eq!(grids.get_grid(9, 9), None);
    assert_eq!(grids.get_grid(1, 0), Some(&32));
    assert_eq!(grids.get_grid(0, 0), None);
    assert_eq!(grids.get_grids_from_layer(0), Some(vec![32]));
}

#[test]
fn create_empties_a_field_that_had_cells() {
    let mut grids = Grids::default();
    grids.add(7, 7, &GridType::Unpassable, 1);
    grids.add(8, 7, &GridType::Passable, 2);
    grids.update_layers();
    let mut despawned = grids.create(&small_map(), &vec![((0, 0), 5)]);
    despawned.sort();
    assert_eq!(despawned, vec![1, 2]);
    assert_eq!(grids.get_grid(7, 7), None);
    assert_eq!(grids.get_layer(7, 7), None);
    assert_eq!(grids.get_grid(0, 0), Some(&5));
    assert_eq!(grids.get_max(), (2, 3));
    assert!(grids.need_update());
}

#[test]
fn create_keeps_the_layers_of_a_field_without_cells() {
    let mut grids = Grids::default();
    grids.add_to_or_change_layer(3, 0, 0);
    let despawned = grids.create(&small_map(), &vec![((0, 0), 5)]);
    assert!(despawned.is_empty());
    assert_eq!(grids.get_layer(0, 0), Some(&3));
    assert_eq!(grids.get_grids_from_layer(3), Some(vec![5]));
}
