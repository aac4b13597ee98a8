use summoner::duel::{GridRot, GridShape, GridType, Grids, ShapeUpdate};

fn tile(grid: u64, x: u8, y: u8, shape: GridShape, rot: GridRot) -> ShapeUpdate {
    ShapeUpdate { grid, x, y, shape, rot }
}

/// A field of unpassable cells, which all join layer 0; the handle of the
/// cell at `(x, y)` is `100 * x + y`.
fn wall(cells: &[(u8, u8)]) -> Grids {
    let mut grids = Grids::default();
    for &(x, y) in cells {
        grids.add(x, y, &GridType::Unpassable, handle(x, y));
    }
    grids
}

fn handle(x: u8, y: u8) -> u64 {
    100 * x as u64 + y as u64
}

fn tile_of(updates: &[ShapeUpdate], x: u8, y: u8) -> Option<(GridShape, GridRot)> {
    updates.iter().rev().find(|u| u.x == x && u.y == y).map(|u| (u.shape, u.rot))
}

#[test]
fn scattered_cells_all_resolve_to_closed() {
    let cells = [(0, 0), (2, 0), (1, 1), (0, 2), (2, 2), (255, 255), (4, 0), (10, 9)];
    let mut grids = wall(&cells);
    let updates = grids.update_layers();
    assert_eq!(updates.len(), cells.len());
    for (update, &(x, y)) in updates.iter().zip(cells.iter()) {
        assert_eq!(*update, tile(handle(x, y), x, y, GridShape::Closed, GridRot::Deg0));
    }
}

#[test]
fn a_block_of_four_resolves_to_four_corners() {
    let mut grids = wall(&[(0, 0), (1, 0), (0, 1), (1, 1)]);
    let updates = grids.update_layers();
    assert_eq!(
        updates,
        vec![
            tile(0, 0, 0, GridShape::Corner, GridRot::Deg90),
            tile(100, 1, 0, GridShape::Corner, GridRot::Deg180),
            tile(1, 0, 1, GridShape::Corner, GridRot::Deg0),
            tile(101, 1, 1, GridShape::Corner, GridRot::DegNeg90),
        ]
    );
}

#[test]
fn a_fifth_cell_touches_only_its_neighbourhood() {
    let mut grids = wall(&[(0, 0), (1, 0), (0, 1), (1, 1)]);
    let first = grids.update_layers();
    assert_eq!(tile_of(&first, 1, 0), Some((GridShape::Corner, GridRot::Deg180)));
    grids.add(2, 0, &GridType::Unpassable, 200);
    assert!(grids.need_update());
    let updates = grids.update_layers();
    assert_eq!(
        updates,
        vec![
            tile(100, 1, 0, GridShape::Side, GridRot::Deg180),
            tile(200, 2, 0, GridShape::Cup, GridRot::Deg180),
        ]
    );
    assert_eq!(tile_of(&updates, 0, 0), None);
    assert_eq!(tile_of(&updates, 0, 1), None);
}

#[test]
fn removing_a_cell_restores_the_tiles_around_it() {
    let mut without = wall(&[(0, 0), (0, 1), (1, 1), (2, 0)]);
    let before = without.update_layers();
    let origin_before = tile_of(&before, 0, 0);
    assert_eq!(origin_before, Some((GridShape::Cup, GridRot::Deg90)));

    let mut grids = wall(&[(0, 0), (1, 0), (0, 1), (1, 1)]);
    grids.update_layers();
    grids.add(2, 0, &GridType::Unpassable, 200);
    grids.update_layers();
    grids.remove_from_layer(1, 0);
    let updates = grids.update_layers();
    assert_eq!(
        updates,
        vec![
            tile(101, 1, 1, GridShape::Cup, GridRot::Deg180),
            tile(200, 2, 0, GridShape::Closed, GridRot::Deg0),
            tile(0, 0, 0, GridShape::Cup, GridRot::Deg90),
            tile(100, 1, 0, GridShape::Closed, GridRot::Deg0),
        ]
    );
    assert_eq!(tile_of(&updates, 0, 0), origin_before);
    assert_eq!(tile_of(&updates, 1, 1), tile_of(&before, 1, 1));
    assert_eq!(tile_of(&updates, 2, 0), tile_of(&before, 2, 0));
}

#[test]
fn working_out_the_tiles_twice_yields_nothing_the_second_time() {
    let mut grids = wall(&[(0, 0), (1, 0), (0, 1), (1, 1)]);
    assert_eq!(grids.update_layers().len(), 4);
    assert!(!grids.need_update());
    assert!(grids.update_layers().is_empty());
    grids.add(2, 0, &GridType::Unpassable, 200);
    assert_eq!(grids.update_layers().len(), 2);
    assert!(grids.update_layers().is_empty());
    grids.remove_from_layer(2, 0);
    assert_eq!(grids.update_layers().len(), 2);
    assert!(!grids.need_update());
    assert!(grids.update_layers().is_empty());
}

#[test]
fn the_first_tiles_go_by_layer_from_zero_up() {
    let mut grids = Grids::default();
    grids.add(5, 5, &GridType::Passable, 1);
    grids.add(6, 5, &GridType::Passable, 2);
    grids.add(0, 0, &GridType::Passable, 3);
    grids.add(9, 9, &GridType::Unpassable, 4);
    grids.add_to_or_change_layer(255, 0, 0);
    grids.add_to_or_change_layer(7, 6, 5);
    grids.add_to_or_change_layer(7, 5, 5);
    let updates = grids.update_layers();
    assert_eq!(
        updates,
        vec![
            tile(4, 9, 9, GridShape::Closed, GridRot::Deg0),
            tile(2, 6, 5, GridShape::Cup, GridRot::Deg180),
            tile(1, 5, 5, GridShape::Cup, GridRot::Deg0),
            tile(3, 0, 0, GridShape::Closed, GridRot::Deg0),
        ]
    );
}

#[test]
fn neighbours_in_another_layer_do_not_count() {
    let mut grids = Grids::default();
    grids.add(1, 1, &GridType::Unpassable, 1);
    grids.add(1, 2, &GridType::Passable, 2);
    grids.add(2, 1, &GridType::Passable, 3);
    grids.add_to_or_change_layer(1, 1, 2);
    grids.add_to_or_change_layer(1, 2, 1);
    let updates = grids.update_layers();
    for update in &updates {
        assert_eq!((update.shape, update.rot), (GridShape::Closed, GridRot::Deg0));
    }
    assert_eq!(updates.len(), 3);
}

#[test]
fn a_cross_shows_every_single_neighbour_and_all_four() {
    let mut grids = wall(&[(5, 5), (5, 6), (5, 4), (6, 5), (4, 5)]);
    let updates = grids.update_layers();
    assert_eq!(tile_of(&updates, 5, 5), Some((GridShape::Empty, GridRot::Deg0)));
    assert_eq!(tile_of(&updates, 5, 6), Some((GridShape::Cup, GridRot::DegNeg90)));
    assert_eq!(tile_of(&updates, 5, 4), Some((GridShape::Cup, GridRot::Deg90)));
    assert_eq!(tile_of(&updates, 6, 5), Some((GridShape::Cup, GridRot::Deg180)));
    assert_eq!(tile_of(&updates, 4, 5), Some((GridShape::Cup, GridRot::Deg0)));
}

#[test]
fn rows_and_columns_resolve_to_pipes() {
    let mut grids = wall(&[(1, 0), (2, 0), (3, 0), (9, 1), (9, 2), (9, 3)]);
    let updates = grids.update_layers();
    assert_eq!(tile_of(&updates, 2, 0), Some((GridShape::Pipe, GridRot::Deg0)));
    assert_eq!(tile_of(&updates, 9, 2), Some((GridShape::Pipe, GridRot::Deg90)));
}

#[test]
fn a_block_of_nine_shows_sides_and_an_empty_middle() {
    let mut cells = Vec::new();
    for x in 0..3 {
        for y in 0..3 {
            cells.push((x, y));
        }
    }
    let mut grids = wall(&cells);
    let updates = grids.update_layers();
    assert_eq!(tile_of(&updates, 1, 1), Some((GridShape::Empty, GridRot::Deg0)));
    assert_eq!(tile_of(&updates, 1, 0), Some((GridShape::Side, GridRot::Deg180)));
    assert_eq!(tile_of(&updates, 1, 2), Some((GridShape::Side, GridRot::Deg0)));
    assert_eq!(tile_of(&updates, 0, 1), Some((GridShape::Side, GridRot::Deg90)));
    assert_eq!(tile_of(&updates, 2, 1), Some((GridShape::Side, GridRot::DegNeg90)));
}

#[test]
fn the_edges_of_the_field_have_no_neighbours_beyond_them() {
    let mut grids = wall(&[(0, 0), (255, 0), (0, 255), (255, 255), (255, 254), (254, 255)]);
    let updates = grids.update_layers();
    assert_eq!(tile_of(&updates, 0, 0), Some((GridShape::Closed, GridRot::Deg0)));
    assert_eq!(tile_of(&updates, 255, 0), Some((GridShape::Closed, GridRot::Deg0)));
    assert_eq!(tile_of(&updates, 0, 255), Some((GridShape::Closed, GridRot::Deg0)));
    assert_eq!(tile_of(&updates, 255, 255), Some((GridShape::Corner, GridRot::DegNeg90)));
    assert_eq!(tile_of(&updates, 255, 254), Some((GridShape::Cup, GridRot::Deg90)));
    assert_eq!(tile_of(&updates, 254, 255), Some((GridShape::Cup, GridRot::Deg0)));
    grids.remove_from_layer(0, 0);
    grids.remove_from_layer(255, 255);
    let updates = grids.update_layers();
    assert_eq!(
        updates,
        vec![
            tile(0, 0, 0, GridShape::Closed, GridRot::Deg0),
            tile(25754, 255, 254, GridShape::Closed, GridRot::Deg0),
            tile(25655, 254, 255, GridShape::Closed, GridRot::Deg0),
            tile(25755, 255, 255, GridShape::Closed, GridRot::Deg0),
        ]
    );
}

#[test]
fn a_cell_without_handle_counts_as_neighbour_and_gets_no_tile() {
    let mut grids = Grids::default();
    grids.add(0, 0, &GridType::Unpassable, 1);
    grids.add_to_or_change_layer(0, 1, 0);
    let updates = grids.update_layers();
    assert_eq!(updates, vec![tile(1, 0, 0, GridShape::Cup, GridRot::Deg0)]);
    grids.remove_from_layer(1, 0);
    let updates = grids.update_layers();
    assert_eq!(updates, vec![tile(1, 0, 0, GridShape::Closed, GridRot::Deg0)]);
    grids.add_to_or_change_layer(0, 0, 1);
    let updates = grids.update_layers();
    assert_eq!(updates, vec![tile(1, 0, 0, GridShape::Cup, GridRot::Deg90)]);
}

#[test]
fn a_destroyed_cell_still_closes_its_neighbours() {
    let mut grids = wall(&[(3, 3), (4, 3)]);
    grids.update_layers();
    assert_eq!(grids.destroy(3, 3), Some(303));
    let updates = grids.update_layers();
    assert_eq!(updates, vec![tile(403, 4, 3, GridShape::Closed, GridRot::Deg0)]);
}

#[test]
fn cells_added_together_are_each_worked_out_once() {
    let mut grids = wall(&[(0, 0)]);
    grids.update_layers();
    grids.add(1, 0, &GridType::Unpassable, 100);
    grids.add(2, 0, &GridType::Unpassable, 200);
    let updates = grids.update_layers();
    assert_eq!(
        updates,
        vec![
            tile(0, 0, 0, GridShape::Cup, GridRot::Deg0),
            tile(100, 1, 0, GridShape::Pipe, GridRot::Deg0),
            tile(200, 2, 0, GridShape::Cup, GridRot::Deg180),
        ]
    );
}

#[test]
fn cells_removed_together_are_each_closed_once() {
    let mut grids = wall(&[(0, 0), (1, 0), (2, 0)]);
    grids.update_layers();
    grids.remove_from_layer(1, 0);
    grids.remove_from_layer(2, 0);
    let updates = grids.update_layers();
    assert_eq!(
        updates,
        vec![
            tile(0, 0, 0, GridShape::Closed, GridRot::Deg0),
            tile(100, 1, 0, GridShape::Closed, GridRot::Deg0),
            tile(200, 2, 0, GridShape::Closed, GridRot::Deg0),
        ]
    );
}

#[test]
fn a_move_before_the_first_tiles_is_not_noted() {
    let mut grids = wall(&[(0, 0), (1, 0)]);
    grids.add_to_or_change_layer(1, 1, 0);
    let updates = grids.update_layers();
    assert_eq!(
        updates,
        vec![
            tile(0, 0, 0, GridShape::Closed, GridRot::Deg0),
            tile(100, 1, 0, GridShape::Closed, GridRot::Deg0),
        ]
    );
    assert!(grids.update_layers().is_empty());
}

#[test]
fn a_moved_cell_repairs_the_layer_it_left_and_the_one_it_joined() {
    let mut grids = wall(&[(0, 0), (1, 0), (2, 0)]);
    grids.add_to_or_change_layer(1, 2, 0);
    grids.update_layers();
    grids.add_to_or_change_layer(1, 1, 0);
    assert_eq!(grids.get_layer(1, 0), Some(&1));
    let updates = grids.update_layers();
    assert_eq!(
        updates,
        vec![
            tile(0, 0, 0, GridShape::Closed, GridRot::Deg0),
            tile(100, 1, 0, GridShape::Closed, GridRot::Deg0),
            tile(200, 2, 0, GridShape::Cup, GridRot::Deg180),
            tile(100, 1, 0, GridShape::Cup, GridRot::Deg0),
        ]
    );
    assert_eq!(tile_of(&updates, 1, 0), Some((GridShape::Cup, GridRot::Deg0)));
}

#[test]
fn a_cell_that_left_and_came_back_ends_with_its_tile() {
    let mut grids = wall(&[(0, 0), (1, 0)]);
    grids.update_layers();
    grids.remove_from_layer(1, 0);
    grids.add_to_or_change_layer(0, 1, 0);
    let updates = grids.update_layers();
    assert_eq!(
        updates,
        vec![
            tile(0, 0, 0, GridShape::Cup, GridRot::Deg0),
            tile(100, 1, 0, GridShape::Closed, GridRot::Deg0),
            tile(0, 0, 0, GridShape::Cup, GridRot::Deg0),
            tile(100, 1, 0, GridShape::Cup, GridRot::Deg180),
        ]
    );
}

#[test]
fn a_cell_that_joined_and_left_again_ends_closed() {
    let mut grids = wall(&[(0, 0)]);
    grids.update_layers();
    grids.add(1, 0, &GridType::Unpassable, 100);
    grids.remove_from_layer(1, 0);
    let updates = grids.update_layers();
    assert_eq!(
        updates,
        vec![
            tile(0, 0, 0, GridShape::Closed, GridRot::Deg0),
            tile(100, 1, 0, GridShape::Closed, GridRot::Deg0),
            tile(0, 0, 0, GridShape::Closed, GridRot::Deg0),
            tile(100, 1, 0, GridShape::Closed, GridRot::Deg0),
        ]
    );
}

#[test]
fn a_cell_that_joined_one_layer_and_then_another_gets_the_tile_of_the_last() {
    let mut grids = wall(&[(0, 0), (2, 0)]);
    grids.add_to_or_change_layer(1, 2, 0);
    grids.add(1, 0, &GridType::Passable, 100);
    grids.update_layers();
    grids.add_to_or_change_layer(0, 1, 0);
    grids.add_to_or_change_layer(1, 1, 0);
    let updates = grids.update_layers();
    assert_eq!(
        updates,
        vec![
            tile(0, 0, 0, GridShape::Closed, GridRot::Deg0),
            tile(100, 1, 0, GridShape::Closed, GridRot::Deg0),
            tile(0, 0, 0, GridShape::Closed, GridRot::Deg0),
            tile(100, 1, 0, GridShape::Cup, GridRot::Deg0),
            tile(200, 2, 0, GridShape::Cup, GridRot::Deg180),
            tile(100, 1, 0, GridShape::Cup, GridRot::Deg0),
        ]
    );
}

/// The tile that every cell with a handle has once `updates` are taken in
/// their order.
fn shown(updates: &[ShapeUpdate]) -> std::collections::BTreeMap<(u8, u8), (GridShape, GridRot)> {
    let mut shown = std::collections::BTreeMap::new();
    for update in updates {
        shown.insert((update.x, update.y), (update.shape, update.rot));
    }
    shown
}

#[test]
fn tiles_worked_out_step_by_step_agree_with_tiles_worked_out_at_once() {
    // A walk over a small field: cells join layer 0 or 1 and leave again,
    // and the tiles are worked out after every few steps.
    let mut grids = Grids::default();
    for x in 0..6u8 {
        for y in 0..6u8 {
            grids.add(x, y, &GridType::Passable, handle(x, y));
        }
    }
    let mut screen = shown(&grids.update_layers());
    let mut seed: u32 = 12345;
    for step in 0..400 {
        seed = seed.wrapping_mul(1103515245).wrapping_add(12345);
        let x = ((seed >> 16) % 6) as u8;
        let y = ((seed >> 8) % 6) as u8;
        match (seed >> 24) % 3 {
            0 => grids.add_to_or_change_layer(0, x, y),
            1 => grids.add_to_or_change_layer(1, x, y),
            _ => grids.remove_from_layer(x, y),
        }
        if step % 3 == 0 {
            for (pos, tile) in shown(&grids.update_layers()) {
                screen.insert(pos, tile);
            }
            // The same layers, loaded into a new field and worked out at once.
            let mut fresh = Grids::default();
            for x in 0..6u8 {
                for y in 0..6u8 {
                    fresh.add(x, y, &GridType::Passable, handle(x, y));
                }
            }
            for layer in 0..2u8 {
                for (x, y) in grids.get_cells_from_layer(layer).unwrap_or_default() {
                    fresh.add_to_or_change_layer(layer, x, y);
                }
            }
            let expected = shown(&fresh.update_layers());
            for x in 0..6u8 {
                for y in 0..6u8 {
                    let tile = expected
                        .get(&(x, y))
                        .copied()
                        .unwrap_or((GridShape::Closed, GridRot::Deg0));
                    let on_screen = screen
                        .get(&(x, y))
                        .copied()
                        .unwrap_or((GridShape::Closed, GridRot::Deg0));
                    assert_eq!(on_screen, tile, "cell ({}, {}) after step {}", x, y, step);
                }
            }
        }
    }
}
