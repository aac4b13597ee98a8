//! What the cells show when the tiles that are due are taken as they come:
//! after the tiles have been worked out and taken, every cell shows the tile
//! that it has as the layers stand, whatever joined or left a layer before.

use vstd::prelude::*;

use crate::duel::components::{GridRot, GridShape};
use crate::duel::grids_resource::{GridsView, ShapeUpdate};
use crate::duel::tiles::{adjacent, neighbour};
use crate::duel::laws::{
    is_last_for_cell, law_due_tiles_are_touched, law_first_tiles_reach_every_cell,
    law_join_changes_tiles_nearby, law_last_tile_is_true, law_layer_after_add,
    law_layer_after_remove, law_leave_changes_tiles_nearby, law_touched_cells_are_due,
    lemma_members, lemma_neighbours_are_adjacent, same_cell, touched, touched_by,
};

verus! {

/// What the cell at `pos` shows on `screen`: a cell that was never given a
/// tile shows the closed tile.
pub open spec fn shown(screen: Map<(u8, u8), (GridShape, GridRot)>, pos: (u8, u8)) -> (
    GridShape,
    GridRot,
) {
    if screen.contains_key(pos) {
        screen[pos]
    } else {
        (GridShape::Closed, GridRot::Deg0)
    }
}

/// `screen` after the first `n` of `updates` were taken, one after the
/// other.
pub open spec fn taken(
    screen: Map<(u8, u8), (GridShape, GridRot)>,
    updates: Seq<ShapeUpdate>,
    n: nat,
) -> Map<(u8, u8), (GridShape, GridRot)>
    decreases n,
{
    if n == 0 {
        screen
    } else {
        taken(screen, updates, (n - 1) as nat).insert(
            (updates[n - 1].x, updates[n - 1].y),
            (updates[n - 1].shape, updates[n - 1].rot),
        )
    }
}

/// Whether a tile is due for the cell at `pos`.
pub open spec fn due(v: GridsView, pos: (u8, u8)) -> bool {
    exists|i: int|
        0 <= i < v.layer_updates().len() && (#[trigger] v.layer_updates()[i]).x == pos.0
            && v.layer_updates()[i].y == pos.1
}

/// Whether `screen` is up to date but for the tiles that are due: before
/// the tiles are worked out for the first time every cell shows the closed
/// tile, and after that every cell with a handle for which no tile is due
/// shows the tile that it has as the layers stand.
pub open spec fn up_to_date(v: GridsView, screen: Map<(u8, u8), (GridShape, GridRot)>) -> bool {
    if v.is_created {
        forall|pos: (u8, u8)|
            v.grids.contains_key(pos) && !due(v, pos) ==> #[trigger] shown(screen, pos) == (
                v.true_tile(pos).shape,
                v.true_tile(pos).rot,
            )
    } else {
        forall|pos: (u8, u8)| #[trigger] shown(screen, pos) == (GridShape::Closed, GridRot::Deg0)
    }
}

/// A screen on which no cell was ever given a tile is up to date for a field
/// without cells.
pub proof fn law_empty_screen_is_up_to_date()
    ensures
        up_to_date(GridsView::empty(), Map::empty()),
{
}

/// After tiles were taken, a cell shows the last tile that was for it, and
/// a cell that none was for shows what it showed before.
proof fn lemma_taken(
    screen: Map<(u8, u8), (GridShape, GridRot)>,
    updates: Seq<ShapeUpdate>,
    n: nat,
    pos: (u8, u8),
)
    requires
        n <= updates.len(),
    ensures
        (forall|i: int| 0 <= i < n ==> !((#[trigger] updates[i]).x == pos.0 && updates[i].y == pos.1))
            ==> shown(taken(screen, updates, n), pos) == shown(screen, pos),
        forall|i: int|
            0 <= i < n && (#[trigger] updates[i]).x == pos.0 && updates[i].y == pos.1 && (forall|
                j: int,
            |
                i < j < n ==> !same_cell(#[trigger] updates[j], updates[i])) ==> shown(
                taken(screen, updates, n),
                pos,
            ) == (updates[i].shape, updates[i].rot),
    decreases n,
{
    if n > 0 {
        lemma_taken(screen, updates, (n - 1) as nat, pos);
        let last = updates[n - 1];
        assert forall|i: int|
            0 <= i < n && (#[trigger] updates[i]).x == pos.0 && updates[i].y == pos.1 && (forall|
                j: int,
            |
                i < j < n ==> !same_cell(#[trigger] updates[j], updates[i])) implies shown(
            taken(screen, updates, n),
            pos,
        ) == (updates[i].shape, updates[i].rot) by {
            if i < n - 1 {
                assert(!same_cell(updates[n - 1], updates[i]));
            }
        }
    }
}

/// Among the tiles for one cell there is a last one.
proof fn lemma_last_exists(updates: Seq<ShapeUpdate>, n: nat, pos: (u8, u8))
    requires
        n <= updates.len(),
        exists|i: int| 0 <= i < n && (#[trigger] updates[i]).x == pos.0 && updates[i].y == pos.1,
    ensures
        exists|i: int|
            0 <= i < n && (#[trigger] updates[i]).x == pos.0 && updates[i].y == pos.1 && (forall|
                j: int,
            |
                i < j < n ==> !same_cell(#[trigger] updates[j], updates[i])),
    decreases n,
{
    let last = updates[n - 1];
    if last.x == pos.0 && last.y == pos.1 {
        assert(forall|j: int| n - 1 < j < n ==> !same_cell(#[trigger] updates[j], updates[n - 1]));
    } else {
        let k = choose|k: int| 0 <= k < n && (#[trigger] updates[k]).x == pos.0 && updates[k].y == pos.1;
        assert(k < n - 1);
        lemma_last_exists(updates, (n - 1) as nat, pos);
        let i = choose|i: int|
            0 <= i < n - 1 && (#[trigger] updates[i]).x == pos.0 && updates[i].y == pos.1 && (forall|
                j: int,
            |
                i < j < n - 1 ==> !same_cell(#[trigger] updates[j], updates[i]));
        assert forall|j: int| i < j < n implies !same_cell(#[trigger] updates[j], updates[i]) by {
        }
    }
}

/// Once the tiles that are due have been taken, every cell with a handle
/// shows the tile that it has as the layers stand, and the screen is up to
/// date for the field after the working out.
pub proof fn law_taking_the_tiles_brings_up_to_date(
    v: GridsView,
    screen: Map<(u8, u8), (GridShape, GridRot)>,
)
    requires
        v.wf(),
        up_to_date(v, screen),
    ensures
        forall|pos: (u8, u8)|
            v.grids.contains_key(pos) ==> #[trigger] shown(
                taken(screen, v.layer_updates(), v.layer_updates().len()),
                pos,
            ) == (v.true_tile(pos).shape, v.true_tile(pos).rot),
        up_to_date(
            v.update_layers(),
            taken(screen, v.layer_updates(), v.layer_updates().len()),
        ),
{
    let updates = v.layer_updates();
    let after = taken(screen, updates, updates.len());
    assert forall|pos: (u8, u8)| v.grids.contains_key(pos) implies #[trigger] shown(after, pos) == (
        v.true_tile(pos).shape,
        v.true_tile(pos).rot,
    ) by {
        lemma_taken(screen, updates, updates.len(), pos);
        if due(v, pos) {
            lemma_last_exists(updates, updates.len(), pos);
            let i = choose|i: int|
                0 <= i < updates.len() && (#[trigger] updates[i]).x == pos.0 && updates[i].y
                    == pos.1 && (forall|j: int|
                    i < j < updates.len() ==> !same_cell(#[trigger] updates[j], updates[i]));
            assert(is_last_for_cell(updates, i));
            law_last_tile_is_true(v, i);
        } else {
            if !v.is_created {
                if v.pos_to_layer.contains_key(pos) {
                    law_first_tiles_reach_every_cell(v, pos);
                    let i = choose|i: int|
                        0 <= i < updates.len() && updates[i] == v.true_tile(pos);
                    assert(updates[i].x == pos.0 && updates[i].y == pos.1);
                }
                assert(shown(screen, pos) == (GridShape::Closed, GridRot::Deg0));
            }
        }
    }
    let w = v.update_layers();
    assert forall|pos: (u8, u8)| w.grids.contains_key(pos) && !due(w, pos) implies #[trigger] shown(
        after,
        pos,
    ) == (w.true_tile(pos).shape, w.true_tile(pos).rot) by {
        assert(shown(after, pos) == (v.true_tile(pos).shape, v.true_tile(pos).rot));
    }
}

/// Whether `w` has the handles of `v` and all that `v` noted, and every
/// cell but the one at `cell` is in `w` where it is in `v`.
spec fn follows(v: GridsView, w: GridsView, cell: (u8, u8)) -> bool {
    &&& w.grids == v.grids
    &&& forall|event: (u8, u8, u8)|
        v.removed_from_layer.contains(event) ==> w.removed_from_layer.contains(event)
    &&& forall|event: (u8, u8, u8)|
        v.added_to_layer.contains(event) ==> w.added_to_layer.contains(event)
    &&& forall|l: u8, other: (u8, u8)|
        other != cell ==> (#[trigger] w.cells_of(l).contains(other) <==> v.cells_of(l).contains(
            other,
        ))
}

/// A cell that is touched stays touched when another cell joins or leaves a
/// layer.
proof fn lemma_stays_touched(v: GridsView, w: GridsView, cell: (u8, u8), pos: (u8, u8))
    requires
        follows(v, w, cell),
        pos != cell,
        touched(v, pos),
    ensures
        touched(w, pos),
{
    let (event, dir) = choose|event: (u8, u8, u8), dir: int|
        (v.removed_from_layer.contains(event) || v.added_to_layer.contains(event)) && touched_by(
            v,
            pos,
            event,
            dir,
        );
    if pos != (event.1, event.2) {
        assert(w.cells_of(event.0).contains(pos));
    }
    assert((w.removed_from_layer.contains(event) || w.added_to_layer.contains(event))
        && touched_by(w, pos, event, dir));
}

/// What is noted stays noted when more is noted after it.
proof fn lemma_push_keeps(events: Seq<(u8, u8, u8)>, more: (u8, u8, u8))
    ensures
        events.push(more).contains(more),
        forall|event: (u8, u8, u8)| events.contains(event) ==> events.push(more).contains(event),
{
    assert(events.push(more)[events.len() as int] == more);
    assert forall|event: (u8, u8, u8)| events.contains(event) implies events.push(more).contains(
        event,
    ) by {
        let k = choose|k: int| 0 <= k < events.len() && events[k] == event;
        assert(events.push(more)[k] == event);
    }
}

/// When a cell joins a layer, a screen that is up to date but for the tiles
/// that are due stays so: the tiles of the cells that the change touches
/// become due, and no other cell's tile changes.
pub proof fn law_join_keeps_up_to_date(
    v: GridsView,
    screen: Map<(u8, u8), (GridShape, GridRot)>,
    layer: u8,
    x: u8,
    y: u8,
)
    requires
        v.wf(),
        up_to_date(v, screen),
    ensures
        up_to_date(v.add_to_or_change_layer(layer, x, y), screen),
{
    let w = v.add_to_or_change_layer(layer, x, y);
    let cell = (x, y);
    if v.is_created && w != v {
        law_layer_after_add(v, layer, x, y);
        let moved = v.pos_to_layer.contains_key(cell);
        let from = v.pos_to_layer[cell];
        lemma_push_keeps(v.added_to_layer, (layer, x, y));
        lemma_push_keeps(v.removed_from_layer, (from, x, y));
        assert(follows(v, w, cell));
        assert forall|pos: (u8, u8)| w.grids.contains_key(pos) && !due(w, pos) implies #[trigger] shown(
            screen,
            pos,
        ) == (w.true_tile(pos).shape, w.true_tile(pos).rot) by {
            if pos == cell {
                assert(touched_by(w, pos, (layer, x, y), 0));
                law_touched_cells_are_due(w, pos);
            } else {
                if due(v, pos) {
                    let i = choose|i: int|
                        0 <= i < v.layer_updates().len() && (#[trigger] v.layer_updates()[i]).x
                            == pos.0 && v.layer_updates()[i].y == pos.1;
                    law_due_tiles_are_touched(v, i);
                    lemma_stays_touched(v, w, cell, pos);
                    law_touched_cells_are_due(w, pos);
                }
                if adjacent(cell, pos) && v.pos_to_layer.contains_key(pos) && (v.pos_to_layer[pos]
                    == layer || (moved && v.pos_to_layer[pos] == from)) {
                    lemma_neighbours_are_adjacent(cell, pos);
                    let dir = choose|dir: int| 0 <= dir < 4 && #[trigger] neighbour(cell, dir) == Some(pos);
                    lemma_members(v, v.pos_to_layer[pos], pos);
                    let event = (v.pos_to_layer[pos], x, y);
                    assert(touched_by(w, pos, event, dir));
                    law_touched_cells_are_due(w, pos);
                } else {
                    law_join_changes_tiles_nearby(v, layer, x, y, pos);
                }
            }
        }
    }
}

/// When a cell leaves its layer, a screen that is up to date but for the
/// tiles that are due stays so.
pub proof fn law_leave_keeps_up_to_date(
    v: GridsView,
    screen: Map<(u8, u8), (GridShape, GridRot)>,
    x: u8,
    y: u8,
)
    requires
        v.wf(),
        up_to_date(v, screen),
    ensures
        up_to_date(v.remove_from_layer(x, y), screen),
{
    let w = v.remove_from_layer(x, y);
    let cell = (x, y);
    if v.is_created && w != v {
        law_layer_after_remove(v, x, y);
        let from = v.pos_to_layer[cell];
        lemma_push_keeps(v.removed_from_layer, (from, x, y));
        assert(follows(v, w, cell));
        assert forall|pos: (u8, u8)| w.grids.contains_key(pos) && !due(w, pos) implies #[trigger] shown(
            screen,
            pos,
        ) == (w.true_tile(pos).shape, w.true_tile(pos).rot) by {
            if pos == cell {
                assert(touched_by(w, pos, (from, x, y), 0));
                law_touched_cells_are_due(w, pos);
            } else {
                if due(v, pos) {
                    let i = choose|i: int|
                        0 <= i < v.layer_updates().len() && (#[trigger] v.layer_updates()[i]).x
                            == pos.0 && v.layer_updates()[i].y == pos.1;
                    law_due_tiles_are_touched(v, i);
                    lemma_stays_touched(v, w, cell, pos);
                    law_touched_cells_are_due(w, pos);
                }
                if adjacent(cell, pos) && v.pos_to_layer.contains_key(pos) && v.pos_to_layer[pos]
                    == from {
                    lemma_neighbours_are_adjacent(cell, pos);
                    let dir = choose|dir: int| 0 <= dir < 4 && #[trigger] neighbour(cell, dir) == Some(pos);
                    lemma_members(v, from, pos);
                    assert(touched_by(w, pos, (from, x, y), dir));
                    law_touched_cells_are_due(w, pos);
                } else {
                    law_leave_changes_tiles_nearby(v, x, y, pos);
                }
            }
        }
    }
}

/// One step in the life of a field whose cells keep their handles.
pub enum FieldStep {
    /// The cell at the given column and row joins the given layer.
    Join(u8, u8, u8),
    /// The cell at the given column and row leaves its layer.
    Leave(u8, u8),
    /// The tiles that are due are worked out and taken.
    WorkOut,
}

/// The field and the screen after the first `n` of `steps`, from the field
/// `start` and a screen on which no cell was ever given a tile.
pub open spec fn played(start: GridsView, steps: Seq<FieldStep>, n: nat) -> (
    GridsView,
    Map<(u8, u8), (GridShape, GridRot)>,
)
    decreases n,
{
    if n == 0 {
        (start, Map::empty())
    } else {
        let before = played(start, steps, (n - 1) as nat);
        match steps[n - 1] {
            FieldStep::Join(layer, x, y) => (before.0.add_to_or_change_layer(layer, x, y), before.1),
            FieldStep::Leave(x, y) => (before.0.remove_from_layer(x, y), before.1),
            FieldStep::WorkOut => (
                before.0.update_layers(),
                taken(before.1, before.0.layer_updates(), before.0.layer_updates().len()),
            ),
        }
    }
}

/// Whatever joins and leaves layers, in whatever order, and whenever the
/// tiles are worked out in between: the screen stays up to date but for the
/// tiles that are due, and right after the tiles were worked out and taken,
/// every cell with a handle shows the tile that it has as the layers stand.
pub proof fn law_screen_follows_the_field(start: GridsView, steps: Seq<FieldStep>, n: nat)
    requires
        start.wf(),
        !start.is_created,
        n <= steps.len(),
    ensures
        played(start, steps, n).0.wf(),
        played(start, steps, n).0.grids == start.grids,
        up_to_date(played(start, steps, n).0, played(start, steps, n).1),
        n > 0 && steps[n - 1] is WorkOut ==> forall|pos: (u8, u8)|
            start.grids.contains_key(pos) ==> #[trigger] shown(played(start, steps, n).1, pos) == (
                played(start, steps, n).0.true_tile(pos).shape,
                played(start, steps, n).0.true_tile(pos).rot,
            ),
    decreases n,
{
    if n > 0 {
        law_screen_follows_the_field(start, steps, (n - 1) as nat);
        let before = played(start, steps, (n - 1) as nat);
        match steps[n - 1] {
            FieldStep::Join(layer, x, y) => {
                law_layer_after_add(before.0, layer, x, y);
                law_join_keeps_up_to_date(before.0, before.1, layer, x, y);
            },
            FieldStep::Leave(x, y) => {
                law_layer_after_remove(before.0, x, y);
                law_leave_keeps_up_to_date(before.0, before.1, x, y);
            },
            FieldStep::WorkOut => {
                law_taking_the_tiles_brings_up_to_date(before.0, before.1);
                let after = played(start, steps, n);
                assert forall|pos: (u8, u8)| start.grids.contains_key(pos) implies #[trigger] shown(
                    after.1,
                    pos,
                ) == (after.0.true_tile(pos).shape, after.0.true_tile(pos).rot) by {
                    assert(after.0.true_tile(pos) == before.0.true_tile(pos));
                }
            },
        }
    }
}

} // verus!
