//! What holds of the field whatever is done to it, proved from the
//! definitions in `grids_resource`.

use vstd::prelude::*;

use crate::duel::components::{GridRot, GridShape};
use crate::duel::grid_map::GridType;
use crate::duel::grids_resource::{
    lemma_add_keeps_wf, lemma_remove_keeps_wf, without_pos, GridsView, ShapeUpdate,
};
use crate::duel::tiles::{adjacent, joined, mask_in, neighbour};

verus! {

/// A list put together from two holds what either holds.
proof fn lemma_concat_contains(a: Seq<ShapeUpdate>, b: Seq<ShapeUpdate>, u: ShapeUpdate)
    ensures
        (a + b).contains(u) <==> a.contains(u) || b.contains(u),
{
    if (a + b).contains(u) {
        let i = choose|i: int| 0 <= i < (a + b).len() && (a + b)[i] == u;
        if i < a.len() {
            assert(a[i] == u);
        } else {
            assert(b[i - a.len()] == u);
        }
    }
    if a.contains(u) {
        let i = choose|i: int| 0 <= i < a.len() && a[i] == u;
        assert((a + b)[i] == u);
    }
    if b.contains(u) {
        let i = choose|i: int| 0 <= i < b.len() && b[i] == u;
        assert((a + b)[a.len() + i] == u);
    }
}

/// The neighbours of a cell are the cells side by side with it.
pub proof fn lemma_neighbours_are_adjacent(a: (u8, u8), b: (u8, u8))
    ensures
        adjacent(a, b) <==> exists|dir: int| 0 <= dir < 4 && #[trigger] neighbour(a, dir) == Some(b),
{
    if adjacent(a, b) {
        if a.0 == b.0 && a.1 + 1 == b.1 {
            assert(neighbour(a, 0) == Some(b));
        } else if a.0 == b.0 && b.1 + 1 == a.1 {
            assert(neighbour(a, 1) == Some(b));
        } else if a.1 == b.1 && a.0 + 1 == b.0 {
            assert(neighbour(a, 2) == Some(b));
        } else {
            assert(neighbour(a, 3) == Some(b));
        }
    }
}

/// A cell is in one layer at most.
pub proof fn law_one_layer_per_cell(v: GridsView, first: u8, second: u8, pos: (u8, u8))
    requires
        v.wf(),
        v.cells_of(first).contains(pos),
        v.cells_of(second).contains(pos),
    ensures
        first == second,
        v.pos_to_layer.contains_key(pos),
        v.pos_to_layer[pos] == first,
{
    let i = choose|i: int| 0 <= i < v.cells_of(first).len() && v.cells_of(first)[i] == pos;
    assert(v.pos_to_layer[v.layer_to_pos[first][i]] == first);
    let j = choose|j: int| 0 <= j < v.cells_of(second).len() && v.cells_of(second)[j] == pos;
    assert(v.pos_to_layer[v.layer_to_pos[second][j]] == second);
}

/// Putting a cell into the layer it is in changes nothing: nothing is noted,
/// and no tiles become due.
pub proof fn law_same_layer_changes_nothing(v: GridsView, x: u8, y: u8)
    requires
        v.pos_to_layer.contains_key((x, y)),
    ensures
        v.add_to_or_change_layer(v.pos_to_layer[(x, y)], x, y) == v,
        v.add_to_or_change_layer(v.pos_to_layer[(x, y)], x, y).need_update() == v.need_update(),
        v.add_to_or_change_layer(v.pos_to_layer[(x, y)], x, y).layer_updates()
            == v.layer_updates(),
{
}

/// After a cell was put into a layer, it is in that layer and in no other,
/// and every other cell is where it was.
pub proof fn law_layer_after_add(v: GridsView, layer: u8, x: u8, y: u8)
    requires
        v.wf(),
    ensures
        v.add_to_or_change_layer(layer, x, y).wf(),
        v.add_to_or_change_layer(layer, x, y).pos_to_layer == v.pos_to_layer.insert((x, y), layer),
        forall|l: u8, pos: (u8, u8)|
            #[trigger] v.add_to_or_change_layer(layer, x, y).cells_of(l).contains(pos) <==> if pos
                == (x, y) {
                l == layer
            } else {
                v.cells_of(l).contains(pos)
            },
{
    let w = v.add_to_or_change_layer(layer, x, y);
    lemma_add_keeps_wf(v, layer, x, y);
    assert(w.pos_to_layer =~= v.pos_to_layer.insert((x, y), layer));
    assert forall|l: u8, pos: (u8, u8)| #[trigger] w.cells_of(l).contains(pos) <==> if pos == (
        x,
        y,
    ) {
        l == layer
    } else {
        v.cells_of(l).contains(pos)
    } by {
        lemma_members(w, l, pos);
        lemma_members(v, l, pos);
    }
}

/// After a cell was taken out of its layer, it is in no layer, and every
/// other cell is where it was.
pub proof fn law_layer_after_remove(v: GridsView, x: u8, y: u8)
    requires
        v.wf(),
    ensures
        v.remove_from_layer(x, y).wf(),
        v.remove_from_layer(x, y).pos_to_layer == v.pos_to_layer.remove((x, y)),
        forall|l: u8, pos: (u8, u8)|
            #[trigger] v.remove_from_layer(x, y).cells_of(l).contains(pos) <==> pos != (x, y)
                && v.cells_of(l).contains(pos),
{
    let w = v.remove_from_layer(x, y);
    lemma_remove_keeps_wf(v, x, y);
    assert(w.pos_to_layer =~= v.pos_to_layer.remove((x, y)));
    assert forall|l: u8, pos: (u8, u8)| #[trigger] w.cells_of(l).contains(pos) <==> pos != (x, y)
        && v.cells_of(l).contains(pos) by {
        lemma_members(w, l, pos);
        lemma_members(v, l, pos);
    }
}

/// The cells of a layer are the cells that the field says are in it.
pub proof fn lemma_members(v: GridsView, layer: u8, pos: (u8, u8))
    requires
        v.wf(),
    ensures
        v.cells_of(layer).contains(pos) <==> v.pos_to_layer.contains_key(pos) && v.pos_to_layer[pos]
            == layer,
{
    if v.cells_of(layer).contains(pos) {
        let i = choose|i: int| 0 <= i < v.cells_of(layer).len() && v.cells_of(layer)[i] == pos;
        assert(v.pos_to_layer[v.layer_to_pos[layer][i]] == layer);
    }
}

/// A cell that joins a layer and leaves it again leaves the layers as they
/// were, down to the order of their cells: every cell then has the mask, and
/// so the tile, that it had before.
pub proof fn law_join_then_leave(v: GridsView, layer: u8, x: u8, y: u8)
    requires
        v.wf(),
        !v.pos_to_layer.contains_key((x, y)),
    ensures
        v.add_to_or_change_layer(layer, x, y).remove_from_layer(x, y).pos_to_layer
            == v.pos_to_layer,
        v.add_to_or_change_layer(layer, x, y).remove_from_layer(x, y).layer_to_pos
            == v.layer_to_pos,
{
    let pos = (x, y);
    let w = v.add_to_or_change_layer(layer, x, y);
    let back = w.remove_from_layer(x, y);
    let cells = v.cells_of(layer);
    lemma_members(v, layer, pos);
    let grown = cells.push(pos);
    assert(w.layer_to_pos[layer] == grown);
    assert(grown[grown.len() - 1] == pos);
    assert(grown.contains(pos));
    let k = grown.index_of(pos);
    assert(0 <= k < grown.len() && grown[k] == pos);
    if k < cells.len() {
        assert(cells[k] == pos);
        assert(cells.contains(pos));
    }
    assert(without_pos(grown, pos) =~= cells);
    assert(back.pos_to_layer =~= v.pos_to_layer);
    assert(back.layer_to_pos =~= v.layer_to_pos);
}

/// The mask of a cell goes by which cells its layer holds, not by their
/// order.
pub proof fn law_mask_ignores_order(first: Seq<(u8, u8)>, second: Seq<(u8, u8)>, pos: (u8, u8))
    requires
        forall|cell: (u8, u8)| first.contains(cell) <==> second.contains(cell),
    ensures
        mask_in(first, pos) == mask_in(second, pos),
{
}

/// Working out the tiles leaves nothing waiting: doing it once more yields
/// no tile and changes nothing.
pub proof fn law_update_layers_idempotent(v: GridsView)
    requires
        v.wf(),
    ensures
        v.update_layers().wf(),
        !v.update_layers().need_update(),
        v.update_layers().update_layers() == v.update_layers(),
        v.update_layers().layer_updates() == Seq::<ShapeUpdate>::empty(),
{
    let w = v.update_layers();
    assert(w.layer_updates() =~= Seq::empty());
}

/// Where nothing is waiting, working out the tiles yields no tile and leaves
/// the field as it is.
pub proof fn law_nothing_waiting(v: GridsView)
    requires
        v.wf(),
        !v.need_update(),
    ensures
        v.update_layers() == v,
        v.layer_updates() == Seq::<ShapeUpdate>::empty(),
{
    assert(v.added_to_layer =~= Seq::empty());
    assert(v.removed_from_layer =~= Seq::empty());
    assert(v.layer_updates() =~= Seq::empty());
}

/// What the tiles of the first `n` cells of a layer are: the tiles of those
/// of the cells that have a handle.
proof fn lemma_layer_shapes(v: GridsView, layer: u8, n: nat, u: ShapeUpdate)
    requires
        n <= v.cells_of(layer).len(),
    ensures
        v.layer_shapes(layer, n).contains(u) <==> exists|i: int|
            0 <= i < n && v.grids.contains_key(#[trigger] v.cells_of(layer)[i]) && u == v.tile(
                v.cells_of(layer),
                v.cells_of(layer)[i],
            ),
    decreases n,
{
    let cells = v.cells_of(layer);
    if n == 0 {
    } else {
        lemma_layer_shapes(v, layer, (n - 1) as nat, u);
        let last = v.shaped(cells, cells[n - 1]);
        lemma_concat_contains(v.layer_shapes(layer, (n - 1) as nat), last, u);
        if last.contains(u) {
            assert(last[0] == u);
            assert(v.grids.contains_key(cells[n - 1]));
        }
        if v.grids.contains_key(cells[n - 1]) && u == v.tile(cells, cells[n - 1]) {
            assert(last[0] == u);
        }
    }
}

/// What the tiles of the layers below `k` are: the tiles of those of their
/// cells that have a handle.
proof fn lemma_first_shapes(v: GridsView, k: nat, u: ShapeUpdate)
    requires
        k <= 256,
    ensures
        v.first_shapes(k).contains(u) <==> exists|layer: u8, i: int|
            layer < k && 0 <= i < v.cells_of(layer).len() && v.grids.contains_key(
                #[trigger] v.cells_of(layer)[i],
            ) && u == v.tile(v.cells_of(layer), v.cells_of(layer)[i]),
    decreases k,
{
    if k == 0 {
    } else {
        let layer = (k - 1) as u8;
        let n = v.cells_of(layer).len();
        lemma_first_shapes(v, (k - 1) as nat, u);
        lemma_layer_shapes(v, layer, n, u);
        lemma_concat_contains(v.first_shapes((k - 1) as nat), v.layer_shapes(layer, n), u);
    }
}

/// Where no two cells of a layer lie side by side, the first working out of
/// the tiles gives every cell of the layer that has a handle the closed
/// tile, and gives no cell of the layer any other tile.
pub proof fn law_scattered_layer_is_closed(v: GridsView, layer: u8)
    requires
        v.wf(),
        !v.is_created,
        forall|a: (u8, u8), b: (u8, u8)|
            v.cells_of(layer).contains(a) && v.cells_of(layer).contains(b) ==> !adjacent(a, b),
    ensures
        forall|pos: (u8, u8)|
            v.cells_of(layer).contains(pos) && v.grids.contains_key(pos)
                ==> #[trigger] v.layer_updates().contains(v.closed_tile(pos)),
        forall|i: int|
            0 <= i < v.layer_updates().len() && v.cells_of(layer).contains(
                (#[trigger] v.layer_updates()[i].x, v.layer_updates()[i].y),
            ) ==> v.layer_updates()[i].shape == GridShape::Closed && v.layer_updates()[i].rot
                == GridRot::Deg0,
{
    let cells = v.cells_of(layer);
    assert forall|pos: (u8, u8)| cells.contains(pos) implies mask_in(cells, pos) == 0 by {
        assert forall|dir: int| 0 <= dir < 4 implies !joined(cells, pos, dir) by {
            if joined(cells, pos, dir) {
                let next = neighbour(pos, dir).unwrap();
                lemma_neighbours_are_adjacent(pos, next);
                assert(neighbour(pos, dir) == Some(next));
                assert(adjacent(pos, next));
            }
        }
    }
    assert forall|pos: (u8, u8)|
        cells.contains(pos) && v.grids.contains_key(pos) implies #[trigger] v.layer_updates().contains(
        v.closed_tile(pos),
    ) by {
        let i = choose|i: int| 0 <= i < cells.len() && cells[i] == pos;
        assert(v.tile(cells, pos) == v.closed_tile(pos));
        lemma_first_shapes(v, 256, v.closed_tile(pos));
        assert(v.grids.contains_key(v.cells_of(layer)[i]));
    }
    assert forall|i: int|
        0 <= i < v.layer_updates().len() && cells.contains(
            (#[trigger] v.layer_updates()[i].x, v.layer_updates()[i].y),
        ) implies v.layer_updates()[i].shape == GridShape::Closed && v.layer_updates()[i].rot
        == GridRot::Deg0 by {
        let u = v.layer_updates()[i];
        assert(v.layer_updates().contains(u));
        lemma_first_shapes(v, 256, u);
        let (l, j) = choose|l: u8, j: int|
            l < 256 && 0 <= j < v.cells_of(l).len() && v.grids.contains_key(
                #[trigger] v.cells_of(l)[j],
            ) && u == v.tile(v.cells_of(l), v.cells_of(l)[j]);
        let pos = v.cells_of(l)[j];
        assert(v.cells_of(l).contains(pos));
        law_one_layer_per_cell(v, l, layer, pos);
    }
}

/// Whether two tiles are for one cell.
pub open spec fn same_cell(first: ShapeUpdate, second: ShapeUpdate) -> bool {
    first.x == second.x && first.y == second.y
}

/// Whether none of `updates` after the one at `i` is for the same cell.
pub open spec fn is_last_for_cell(updates: Seq<ShapeUpdate>, i: int) -> bool {
    forall|j: int| i < j < updates.len() ==> !same_cell(#[trigger] updates[j], updates[i])
}

/// The first tiles are the tiles that the cells have as the layers stand.
proof fn lemma_first_shapes_are_true(v: GridsView, u: ShapeUpdate)
    requires
        v.wf(),
        v.first_shapes(256).contains(u),
    ensures
        u == v.true_tile((u.x, u.y)),
{
    lemma_first_shapes(v, 256, u);
    let (layer, i) = choose|layer: u8, i: int|
        layer < 256 && 0 <= i < v.cells_of(layer).len() && v.grids.contains_key(
            #[trigger] v.cells_of(layer)[i],
        ) && u == v.tile(v.cells_of(layer), v.cells_of(layer)[i]);
    let pos = v.cells_of(layer)[i];
    assert(v.cells_of(layer).contains(pos));
    lemma_members(v, layer, pos);
}

/// The tiles around a cell are the tiles that its neighbours have as the
/// layers stand.
proof fn lemma_around_is_true(
    v: GridsView,
    event: (u8, u8, u8),
    pending: Seq<(u8, u8, u8)>,
    u: ShapeUpdate,
)
    requires
        v.wf(),
        v.around(event, pending).contains(u),
    ensures
        u == v.true_tile((u.x, u.y)),
{
    let pos = (event.1, event.2);
    let b0 = v.beside(event, pending, 0);
    let b1 = v.beside(event, pending, 1);
    let b2 = v.beside(event, pending, 2);
    let b3 = v.beside(event, pending, 3);
    lemma_concat_contains(b0 + b1 + b2, b3, u);
    lemma_concat_contains(b0 + b1, b2, u);
    lemma_concat_contains(b0, b1, u);
    let dir: int = if b0.contains(u) {
        0
    } else if b1.contains(u) {
        1
    } else if b2.contains(u) {
        2
    } else {
        3
    };
    let found = v.beside(event, pending, dir);
    assert(found.contains(u));
    assert(found[0] == u);
    let next = neighbour(pos, dir).unwrap();
    lemma_members(v, event.0, next);
}

/// The tiles that follow from cells that joined a layer are the tiles that
/// cells have as the layers stand.
proof fn lemma_added_shapes_are_true(v: GridsView, n: nat, u: ShapeUpdate)
    requires
        v.wf(),
        n <= v.added_to_layer.len(),
        v.added_shapes(n).contains(u),
    ensures
        u == v.true_tile((u.x, u.y)),
    decreases n,
{
    if n > 0 {
        let event = v.added_to_layer[n - 1];
        let before = v.added_shapes((n - 1) as nat);
        let around = v.around(event, v.added_to_layer);
        let own = v.own((event.1, event.2));
        lemma_concat_contains(before + around, own, u);
        lemma_concat_contains(before, around, u);
        if before.contains(u) {
            lemma_added_shapes_are_true(v, (n - 1) as nat, u);
        } else if around.contains(u) {
            lemma_around_is_true(v, event, v.added_to_layer, u);
        } else {
            assert(own[0] == u);
        }
    }
}

/// Each tile that follows from cells that left a layer is the tile that a
/// cell has as the layers stand, or the closed tile for one of the cells
/// that left.
proof fn lemma_removed_shapes_are_true_or_closed(v: GridsView, n: nat, u: ShapeUpdate)
    requires
        v.wf(),
        n <= v.removed_from_layer.len(),
        v.removed_shapes(n).contains(u),
    ensures
        u == v.true_tile((u.x, u.y)) || exists|k: int|
            0 <= k < n && u == v.closed_tile(
                ((#[trigger] v.removed_from_layer[k]).1, v.removed_from_layer[k].2),
            ),
    decreases n,
{
    if n > 0 {
        let event = v.removed_from_layer[n - 1];
        let before = v.removed_shapes((n - 1) as nat);
        let around = v.around(event, v.removed_from_layer);
        let own = v.closed((event.1, event.2));
        lemma_concat_contains(before + around, own, u);
        lemma_concat_contains(before, around, u);
        if before.contains(u) {
            lemma_removed_shapes_are_true_or_closed(v, (n - 1) as nat, u);
        } else if around.contains(u) {
            lemma_around_is_true(v, event, v.removed_from_layer, u);
        } else {
            assert(own[0] == u);
            assert(u == v.closed_tile((v.removed_from_layer[n - 1].1, v.removed_from_layer[n - 1].2)));
        }
    }
}

/// A cell with a handle that joined a layer gets its tile.
proof fn lemma_added_cells_get_their_tile(v: GridsView, n: nat, k: int)
    requires
        0 <= k < n <= v.added_to_layer.len(),
        v.grids.contains_key((v.added_to_layer[k].1, v.added_to_layer[k].2)),
    ensures
        v.added_shapes(n).contains(v.true_tile((v.added_to_layer[k].1, v.added_to_layer[k].2))),
    decreases n,
{
    let tile = v.true_tile((v.added_to_layer[k].1, v.added_to_layer[k].2));
    let event = v.added_to_layer[n - 1];
    let before = v.added_shapes((n - 1) as nat);
    let around = v.around(event, v.added_to_layer);
    let own = v.own((event.1, event.2));
    lemma_concat_contains(before + around, own, tile);
    lemma_concat_contains(before, around, tile);
    if k == n - 1 {
        assert(own[0] == tile);
    } else {
        lemma_added_cells_get_their_tile(v, (n - 1) as nat, k);
    }
}

/// What follows from the cell that left a layer as the `k`th is among what
/// follows from the first `n` cells that left.
proof fn lemma_removed_shapes_hold(v: GridsView, n: nat, k: int, u: ShapeUpdate)
    requires
        0 <= k < n <= v.removed_from_layer.len(),
        v.around(v.removed_from_layer[k], v.removed_from_layer).contains(u) || v.closed(
            (v.removed_from_layer[k].1, v.removed_from_layer[k].2),
        ).contains(u),
    ensures
        v.removed_shapes(n).contains(u),
    decreases n,
{
    let event = v.removed_from_layer[n - 1];
    let before = v.removed_shapes((n - 1) as nat);
    let around = v.around(event, v.removed_from_layer);
    let own = v.closed((event.1, event.2));
    lemma_concat_contains(before + around, own, u);
    lemma_concat_contains(before, around, u);
    if k < n - 1 {
        lemma_removed_shapes_hold(v, (n - 1) as nat, k, u);
    }
}

/// What follows from the cell that joined a layer as the `k`th is among what
/// follows from the first `n` cells that joined.
proof fn lemma_added_shapes_hold(v: GridsView, n: nat, k: int, u: ShapeUpdate)
    requires
        0 <= k < n <= v.added_to_layer.len(),
        v.around(v.added_to_layer[k], v.added_to_layer).contains(u),
    ensures
        v.added_shapes(n).contains(u),
    decreases n,
{
    let event = v.added_to_layer[n - 1];
    let before = v.added_shapes((n - 1) as nat);
    let around = v.around(event, v.added_to_layer);
    let own = v.own((event.1, event.2));
    lemma_concat_contains(before + around, own, u);
    lemma_concat_contains(before, around, u);
    if k < n - 1 {
        lemma_added_shapes_hold(v, (n - 1) as nat, k, u);
    }
}

/// The tile in direction `dir` of a cell is among the tiles around the cell.
proof fn lemma_beside_is_around(
    v: GridsView,
    event: (u8, u8, u8),
    pending: Seq<(u8, u8, u8)>,
    dir: int,
    u: ShapeUpdate,
)
    requires
        0 <= dir < 4,
        v.beside(event, pending, dir).contains(u),
    ensures
        v.around(event, pending).contains(u),
{
    let b0 = v.beside(event, pending, 0);
    let b1 = v.beside(event, pending, 1);
    let b2 = v.beside(event, pending, 2);
    let b3 = v.beside(event, pending, 3);
    lemma_concat_contains(b0 + b1 + b2, b3, u);
    lemma_concat_contains(b0 + b1, b2, u);
    lemma_concat_contains(b0, b1, u);
}

/// Once the tiles have been worked out, a cell with a handle that lies side
/// by side with a cell that joined or left its layer since is among the
/// cells whose tiles are due, with the tile that it has as the layers
/// stand.
pub proof fn law_neighbours_get_their_tile(v: GridsView, event: (u8, u8, u8), dir: int)
    requires
        v.wf(),
        v.is_created,
        v.removed_from_layer.contains(event) || v.added_to_layer.contains(event),
        0 <= dir < 4,
        neighbour((event.1, event.2), dir) is Some,
        v.cells_of(event.0).contains(neighbour((event.1, event.2), dir).unwrap()),
        v.grids.contains_key(neighbour((event.1, event.2), dir).unwrap()),
    ensures
        v.layer_updates().contains(v.true_tile(neighbour((event.1, event.2), dir).unwrap())),
{
    let next = neighbour((event.1, event.2), dir).unwrap();
    let tile = v.true_tile(next);
    let noted = (event.0, next.0, next.1);
    let removed = v.removed_shapes(v.removed_from_layer.len());
    let added = v.added_shapes(v.added_to_layer.len());
    lemma_concat_contains(removed, added, tile);
    lemma_members(v, event.0, next);
    if v.removed_from_layer.contains(event) && !v.removed_from_layer.contains(noted) {
        let k = choose|k: int| 0 <= k < v.removed_from_layer.len() && v.removed_from_layer[k] == event;
        let found = v.beside(event, v.removed_from_layer, dir);
        assert(found[0] == tile);
        lemma_beside_is_around(v, event, v.removed_from_layer, dir, tile);
        lemma_removed_shapes_hold(v, v.removed_from_layer.len(), k, tile);
    } else if v.added_to_layer.contains(event) && !v.added_to_layer.contains(noted) {
        let k = choose|k: int| 0 <= k < v.added_to_layer.len() && v.added_to_layer[k] == event;
        let found = v.beside(event, v.added_to_layer, dir);
        assert(found[0] == tile);
        lemma_beside_is_around(v, event, v.added_to_layer, dir, tile);
        lemma_added_shapes_hold(v, v.added_to_layer.len(), k, tile);
    } else {
        if !v.added_to_layer.contains(noted) {
            let k = choose|k: int|
                0 <= k < v.removed_from_layer.len() && v.removed_from_layer[k] == noted;
            assert(v.pos_to_layer.contains_key((v.removed_from_layer[k].1, v.removed_from_layer[k].2)));
        }
        let m = choose|m: int| 0 <= m < v.added_to_layer.len() && v.added_to_layer[m] == noted;
        lemma_added_cells_get_their_tile(v, v.added_to_layer.len(), m);
    }
}

/// Once the tiles have been worked out, a cell with a handle that joined or
/// left a layer since is among the cells whose tiles are due.
pub proof fn law_changed_cells_get_a_tile(v: GridsView, event: (u8, u8, u8))
    requires
        v.wf(),
        v.is_created,
        v.removed_from_layer.contains(event) || v.added_to_layer.contains(event),
        v.grids.contains_key((event.1, event.2)),
    ensures
        exists|i: int|
            0 <= i < v.layer_updates().len() && (#[trigger] v.layer_updates()[i]).x == event.1
                && v.layer_updates()[i].y == event.2,
{
    let cell = (event.1, event.2);
    let removed = v.removed_shapes(v.removed_from_layer.len());
    let added = v.added_shapes(v.added_to_layer.len());
    let tile = if v.added_to_layer.contains(event) {
        v.true_tile(cell)
    } else {
        v.closed_tile(cell)
    };
    lemma_concat_contains(removed, added, tile);
    if v.added_to_layer.contains(event) {
        let k = choose|k: int| 0 <= k < v.added_to_layer.len() && v.added_to_layer[k] == event;
        lemma_added_cells_get_their_tile(v, v.added_to_layer.len(), k);
    } else {
        let k = choose|k: int| 0 <= k < v.removed_from_layer.len() && v.removed_from_layer[k] == event;
        assert(v.closed(cell)[0] == tile);
        lemma_removed_shapes_hold(v, v.removed_from_layer.len(), k, tile);
    }
    let i = choose|i: int| 0 <= i < v.layer_updates().len() && v.layer_updates()[i] == tile;
    assert(v.layer_updates()[i].x == event.1 && v.layer_updates()[i].y == event.2);
}

/// The first time the tiles are worked out, every cell that is in a layer
/// and has a handle is among the cells whose tiles are due, with the tile
/// that it has as the layers stand.
pub proof fn law_first_tiles_reach_every_cell(v: GridsView, pos: (u8, u8))
    requires
        v.wf(),
        !v.is_created,
        v.pos_to_layer.contains_key(pos),
        v.grids.contains_key(pos),
    ensures
        v.layer_updates().contains(v.true_tile(pos)),
{
    let layer = v.pos_to_layer[pos];
    let cells = v.cells_of(layer);
    let i = choose|i: int| 0 <= i < cells.len() && cells[i] == pos;
    lemma_first_shapes(v, 256, v.true_tile(pos));
    assert(v.grids.contains_key(v.cells_of(layer)[i]));
}

/// Lying side by side goes both ways.
pub proof fn lemma_adjacent_is_mutual(a: (u8, u8), b: (u8, u8))
    ensures
        adjacent(a, b) == adjacent(b, a),
{
}

/// A cell has the same mask in two layers that hold the same of its
/// neighbours.
proof fn lemma_same_neighbours_same_mask(
    first: Seq<(u8, u8)>,
    second: Seq<(u8, u8)>,
    pos: (u8, u8),
)
    requires
        forall|cell: (u8, u8)| adjacent(pos, cell) ==> (first.contains(cell) <==> second.contains(cell)),
    ensures
        mask_in(first, pos) == mask_in(second, pos),
{
    assert forall|dir: int| 0 <= dir < 4 implies joined(first, pos, dir) == joined(
        second,
        pos,
        dir,
    ) by {
        if neighbour(pos, dir) is Some {
            let next = neighbour(pos, dir).unwrap();
            assert(neighbour(pos, dir) == Some(next));
            lemma_neighbours_are_adjacent(pos, next);
        }
    }
}

/// When a cell joins a layer, the tiles of the other cells stay as they
/// were, but for the cells side by side with it in the layer it joins and in
/// the layer it leaves.
pub proof fn law_join_changes_tiles_nearby(
    v: GridsView,
    layer: u8,
    x: u8,
    y: u8,
    other: (u8, u8),
)
    requires
        v.wf(),
        other != (x, y),
        !adjacent((x, y), other) || !v.pos_to_layer.contains_key(other) || (v.pos_to_layer[other]
            != layer && !(v.pos_to_layer.contains_key((x, y)) && v.pos_to_layer[other]
            == v.pos_to_layer[(x, y)])),
    ensures
        v.add_to_or_change_layer(layer, x, y).true_tile(other) == v.true_tile(other),
{
    let pos = (x, y);
    let w = v.add_to_or_change_layer(layer, x, y);
    law_layer_after_add(v, layer, x, y);
    if v.pos_to_layer.contains_key(other) {
        let l = v.pos_to_layer[other];
        assert forall|cell: (u8, u8)| adjacent(other, cell) implies (w.cells_of(l).contains(cell)
            <==> v.cells_of(l).contains(cell)) by {
            lemma_adjacent_is_mutual(other, cell);
            lemma_members(v, l, cell);
            lemma_members(w, l, cell);
        }
        lemma_same_neighbours_same_mask(w.cells_of(l), v.cells_of(l), other);
    }
}

/// When a cell leaves its layer, the tiles of the other cells stay as they
/// were, but for the cells side by side with it in that layer.
pub proof fn law_leave_changes_tiles_nearby(v: GridsView, x: u8, y: u8, other: (u8, u8))
    requires
        v.wf(),
        other != (x, y),
        !adjacent((x, y), other) || !v.pos_to_layer.contains_key(other)
            || !v.pos_to_layer.contains_key((x, y)) || v.pos_to_layer[other] != v.pos_to_layer[(
            x,
            y,
        )],
    ensures
        v.remove_from_layer(x, y).true_tile(other) == v.true_tile(other),
{
    let pos = (x, y);
    let w = v.remove_from_layer(x, y);
    law_layer_after_remove(v, x, y);
    if v.pos_to_layer.contains_key(other) {
        let l = v.pos_to_layer[other];
        assert forall|cell: (u8, u8)| adjacent(other, cell) implies (w.cells_of(l).contains(cell)
            <==> v.cells_of(l).contains(cell)) by {
            lemma_adjacent_is_mutual(other, cell);
            lemma_members(v, l, cell);
            lemma_members(w, l, cell);
        }
        lemma_same_neighbours_same_mask(w.cells_of(l), v.cells_of(l), other);
    }
}

/// Whether the cell at `pos` has a handle and is the cell that `event`
/// names, or is the neighbour of that cell in direction `dir` and in the
/// layer that `event` names.
pub open spec fn touched_by(v: GridsView, pos: (u8, u8), event: (u8, u8, u8), dir: int) -> bool {
    &&& v.grids.contains_key(pos)
    &&& pos == (event.1, event.2) || (0 <= dir < 4 && neighbour((event.1, event.2), dir) == Some(
        pos,
    ) && v.cells_of(event.0).contains(pos))
}

/// Whether the cell at `pos` is touched by a cell that joined or left a
/// layer since the tiles were last worked out.
pub open spec fn touched(v: GridsView, pos: (u8, u8)) -> bool {
    exists|event: (u8, u8, u8), dir: int|
        (v.removed_from_layer.contains(event) || v.added_to_layer.contains(event)) && touched_by(
            v,
            pos,
            event,
            dir,
        )
}

/// Every tile around the cell that an event names is for a cell that the
/// event touches.
proof fn lemma_around_touches(
    v: GridsView,
    event: (u8, u8, u8),
    pending: Seq<(u8, u8, u8)>,
    u: ShapeUpdate,
)
    requires
        v.around(event, pending).contains(u),
    ensures
        exists|dir: int| touched_by(v, (u.x, u.y), event, dir),
{
    let b0 = v.beside(event, pending, 0);
    let b1 = v.beside(event, pending, 1);
    let b2 = v.beside(event, pending, 2);
    let b3 = v.beside(event, pending, 3);
    lemma_concat_contains(b0 + b1 + b2, b3, u);
    lemma_concat_contains(b0 + b1, b2, u);
    lemma_concat_contains(b0, b1, u);
    let dir: int = if b0.contains(u) {
        0
    } else if b1.contains(u) {
        1
    } else if b2.contains(u) {
        2
    } else {
        3
    };
    let found = v.beside(event, pending, dir);
    assert(found.contains(u));
    assert(found[0] == u);
    assert(touched_by(v, (u.x, u.y), event, dir));
}

/// Every tile that follows from cells that left a layer is for a cell that
/// one of them touches.
proof fn lemma_removed_shapes_touch(v: GridsView, n: nat, u: ShapeUpdate)
    requires
        n <= v.removed_from_layer.len(),
        v.removed_shapes(n).contains(u),
    ensures
        exists|event: (u8, u8, u8), dir: int|
            v.removed_from_layer.contains(event) && touched_by(v, (u.x, u.y), event, dir),
    decreases n,
{
    if n > 0 {
        let event = v.removed_from_layer[n - 1];
        let before = v.removed_shapes((n - 1) as nat);
        let around = v.around(event, v.removed_from_layer);
        let own = v.closed((event.1, event.2));
        lemma_concat_contains(before + around, own, u);
        lemma_concat_contains(before, around, u);
        if before.contains(u) {
            lemma_removed_shapes_touch(v, (n - 1) as nat, u);
        } else {
            assert(v.removed_from_layer.contains(event));
            if around.contains(u) {
                lemma_around_touches(v, event, v.removed_from_layer, u);
                let dir = choose|dir: int| touched_by(v, (u.x, u.y), event, dir);
                assert(v.removed_from_layer.contains(event) && touched_by(v, (u.x, u.y), event, dir));
            } else {
                assert(own[0] == u);
                assert(v.removed_from_layer.contains(event) && touched_by(v, (u.x, u.y), event, 0));
            }
        }
    }
}

/// Every tile that follows from cells that joined a layer is for a cell that
/// one of them touches.
proof fn lemma_added_shapes_touch(v: GridsView, n: nat, u: ShapeUpdate)
    requires
        n <= v.added_to_layer.len(),
        v.added_shapes(n).contains(u),
    ensures
        exists|event: (u8, u8, u8), dir: int|
            v.added_to_layer.contains(event) && touched_by(v, (u.x, u.y), event, dir),
    decreases n,
{
    if n > 0 {
        let event = v.added_to_layer[n - 1];
        let before = v.added_shapes((n - 1) as nat);
        let around = v.around(event, v.added_to_layer);
        let own = v.own((event.1, event.2));
        lemma_concat_contains(before + around, own, u);
        lemma_concat_contains(before, around, u);
        if before.contains(u) {
            lemma_added_shapes_touch(v, (n - 1) as nat, u);
        } else {
            assert(v.added_to_layer.contains(event));
            if around.contains(u) {
                lemma_around_touches(v, event, v.added_to_layer, u);
                let dir = choose|dir: int| touched_by(v, (u.x, u.y), event, dir);
                assert(v.added_to_layer.contains(event) && touched_by(v, (u.x, u.y), event, dir));
            } else {
                assert(own[0] == u);
                assert(v.added_to_layer.contains(event) && touched_by(v, (u.x, u.y), event, 0));
            }
        }
    }
}

/// Once the tiles have been worked out, a tile is due only for a cell that
/// is touched by a cell that joined or left a layer since.
pub proof fn law_due_tiles_are_touched(v: GridsView, i: int)
    requires
        v.is_created,
        0 <= i < v.layer_updates().len(),
    ensures
        touched(v, (v.layer_updates()[i].x, v.layer_updates()[i].y)),
{
    let u = v.layer_updates()[i];
    assert(v.layer_updates().contains(u));
    let removed = v.removed_shapes(v.removed_from_layer.len());
    let added = v.added_shapes(v.added_to_layer.len());
    lemma_concat_contains(removed, added, u);
    if removed.contains(u) {
        lemma_removed_shapes_touch(v, v.removed_from_layer.len(), u);
    } else {
        lemma_added_shapes_touch(v, v.added_to_layer.len(), u);
    }
}

/// Whether `pos` is the cell that one of `events` names, or lies side by
/// side with it.
pub open spec fn near_some(events: Seq<(u8, u8, u8)>, pos: (u8, u8)) -> bool {
    exists|i: int|
        0 <= i < events.len() && (pos == ((#[trigger] events[i]).1, events[i].2) || adjacent(
            (events[i].1, events[i].2),
            pos,
        ))
}

/// Once the tiles have been worked out, working them out again touches only
/// the cells that joined or left a layer since, and the cells side by side
/// with those.
pub proof fn law_updates_stay_near(v: GridsView, i: int)
    requires
        v.is_created,
        0 <= i < v.layer_updates().len(),
    ensures
        near_some(v.removed_from_layer, (v.layer_updates()[i].x, v.layer_updates()[i].y))
            || near_some(v.added_to_layer, (v.layer_updates()[i].x, v.layer_updates()[i].y)),
{
    let pos = (v.layer_updates()[i].x, v.layer_updates()[i].y);
    law_due_tiles_are_touched(v, i);
    let (event, dir) = choose|event: (u8, u8, u8), dir: int|
        (v.removed_from_layer.contains(event) || v.added_to_layer.contains(event)) && touched_by(
            v,
            pos,
            event,
            dir,
        );
    if pos != (event.1, event.2) {
        lemma_neighbours_are_adjacent((event.1, event.2), pos);
    }
    if v.removed_from_layer.contains(event) {
        let k = choose|k: int| 0 <= k < v.removed_from_layer.len() && v.removed_from_layer[k] == event;
        assert(pos == (v.removed_from_layer[k].1, v.removed_from_layer[k].2) || adjacent(
            (v.removed_from_layer[k].1, v.removed_from_layer[k].2),
            pos,
        ));
    } else {
        let k = choose|k: int| 0 <= k < v.added_to_layer.len() && v.added_to_layer[k] == event;
        assert(pos == (v.added_to_layer[k].1, v.added_to_layer[k].2) || adjacent(
            (v.added_to_layer[k].1, v.added_to_layer[k].2),
            pos,
        ));
    }
}

/// Of the tiles that are due for one cell, the last is the tile that the
/// cell has as the layers stand: whoever takes the tiles in their order
/// ends with the right tile on every cell that is named.
pub proof fn law_last_tile_is_true(v: GridsView, i: int)
    requires
        v.wf(),
        0 <= i < v.layer_updates().len(),
        is_last_for_cell(v.layer_updates(), i),
    ensures
        v.layer_updates()[i] == v.true_tile((v.layer_updates()[i].x, v.layer_updates()[i].y)),
{
    let out = v.layer_updates();
    let u = out[i];
    assert(out.contains(u));
    if !v.is_created {
        lemma_first_shapes_are_true(v, u);
    } else {
        let removed = v.removed_shapes(v.removed_from_layer.len());
        let added = v.added_shapes(v.added_to_layer.len());
        if i >= removed.len() {
            assert(added[i - removed.len()] == u);
            lemma_added_shapes_are_true(v, v.added_to_layer.len(), u);
        } else {
            assert(removed[i] == u);
            lemma_removed_shapes_are_true_or_closed(v, v.removed_from_layer.len(), u);
            if u != v.true_tile((u.x, u.y)) {
                // The cell left a layer and is in one all the same: it is
                // noted as added, and its tile follows further on.
                let k = choose|k: int|
                    0 <= k < v.removed_from_layer.len() && u == v.closed_tile(
                        ((#[trigger] v.removed_from_layer[k]).1, v.removed_from_layer[k].2),
                    );
                let cell = (v.removed_from_layer[k].1, v.removed_from_layer[k].2);
                let noted = (v.pos_to_layer[cell], cell.0, cell.1);
                assert(v.added_to_layer.contains(noted));
                let m = choose|m: int| 0 <= m < v.added_to_layer.len() && v.added_to_layer[m] == noted;
                law_due_tiles_are_touched(v, i);
                lemma_added_cells_get_their_tile(v, v.added_to_layer.len(), m);
                let tile = v.true_tile(cell);
                let j = choose|j: int| 0 <= j < added.len() && added[j] == tile;
                assert(out[removed.len() + j] == tile);
                assert(same_cell(out[removed.len() + j], out[i]));
            }
        }
    }
}

/// Once the tiles have been worked out, a tile is due for every cell that is
/// touched by a cell that joined or left a layer since.
pub proof fn law_touched_cells_are_due(v: GridsView, pos: (u8, u8))
    requires
        v.wf(),
        v.is_created,
        touched(v, pos),
    ensures
        exists|i: int|
            0 <= i < v.layer_updates().len() && (#[trigger] v.layer_updates()[i]).x == pos.0
                && v.layer_updates()[i].y == pos.1,
{
    let (event, dir) = choose|event: (u8, u8, u8), dir: int|
        (v.removed_from_layer.contains(event) || v.added_to_layer.contains(event)) && touched_by(
            v,
            pos,
            event,
            dir,
        );
    if pos == (event.1, event.2) {
        law_changed_cells_get_a_tile(v, event);
    } else {
        law_neighbours_get_their_tile(v, event, dir);
        let i = choose|i: int|
            0 <= i < v.layer_updates().len() && v.layer_updates()[i] == v.true_tile(pos);
        assert(v.layer_updates()[i].x == pos.0 && v.layer_updates()[i].y == pos.1);
    }
}

/// Whether `pos` is among the first `n` of `spawned`.
pub open spec fn spawned_at(spawned: Seq<((u8, u8), u64)>, n: nat, pos: (u8, u8)) -> bool {
    exists|i: int| 0 <= i < n && (#[trigger] spawned[i]).0 == pos
}

/// A field that is loaded from nothing has a handle for exactly the cells
/// of the map that handles were spawned for, has exactly those of them in a
/// layer that nothing can pass, all in layer 0, and waits for its first
/// tiles.
pub proof fn law_loading_fills_layer_zero(
    kinds: Map<(u8, u8), GridType>,
    spawned: Seq<((u8, u8), u64)>,
    n: nat,
    pos: (u8, u8),
)
    requires
        n <= spawned.len(),
    ensures
        GridsView::empty().place_all(kinds, spawned, n).wf(),
        !GridsView::empty().place_all(kinds, spawned, n).is_created,
        GridsView::empty().place_all(kinds, spawned, n).grids.contains_key(pos) <==> kinds.contains_key(
            pos,
        ) && spawned_at(spawned, n, pos),
        GridsView::empty().place_all(kinds, spawned, n).pos_to_layer.contains_key(pos)
            <==> kinds.contains_key(pos) && kinds[pos] == GridType::Unpassable && spawned_at(
            spawned,
            n,
            pos,
        ),
        GridsView::empty().place_all(kinds, spawned, n).pos_to_layer.contains_key(pos)
            ==> GridsView::empty().place_all(kinds, spawned, n).pos_to_layer[pos] == 0,
    decreases n,
{
    if n > 0 {
        law_loading_fills_layer_zero(kinds, spawned, (n - 1) as nat, pos);
        let before = GridsView::empty().place_all(kinds, spawned, (n - 1) as nat);
        let cell = spawned[n - 1];
        let placed = GridsView { grids: before.grids.insert(cell.0, cell.1), ..before };
        if kinds.contains_key(cell.0) && kinds[cell.0] == GridType::Unpassable {
            law_layer_after_add(placed, 0, cell.0.0, cell.0.1);
        }
        if spawned_at(spawned, (n - 1) as nat, pos) {
            let i = choose|i: int| 0 <= i < n - 1 && (#[trigger] spawned[i]).0 == pos;
            assert(0 <= i < n && spawned[i].0 == pos);
        }
        if spawned_at(spawned, n, pos) && cell.0 != pos {
            let i = choose|i: int| 0 <= i < n && (#[trigger] spawned[i]).0 == pos;
            assert(0 <= i < n - 1 && spawned[i].0 == pos);
        }
        if cell.0 == pos {
            assert(spawned[n - 1].0 == pos);
        }
    }
}

} // verus!
