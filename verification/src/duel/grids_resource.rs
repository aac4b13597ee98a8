//! The field while a duel runs: the handles of its cells, the layers that
//! cells are grouped into, and the tiles that follow from the layers.

use vstd::prelude::*;

use crate::duel::components::{GridRot, GridShape};
use crate::duel::grid_map::{GridMap, GridMapView, GridType};
use crate::duel::tiles::{
    classify, compute_shape_and_rot, contains_pos, mask_among, mask_in, neighbour, neighbour_of,
};
use crate::duel::tables::{
    handle_entries, handle_table_clear, handle_table_entries, handle_table_get,
    handle_table_insert, handle_table_is_empty, handle_table_new, handle_table_remove,
    layer_entries, layer_table_clear, layer_table_get, layer_table_insert, layer_table_new,
    layer_table_remove, region_entries, region_table_clear, region_table_get,
    region_table_insert, region_table_new, region_table_remove, HandleTable, LayerTable,
    RegionTable,
};

verus! {

/// `cells` without `pos`.
pub open spec fn without_pos(cells: Seq<(u8, u8)>, pos: (u8, u8)) -> Seq<(u8, u8)> {
    if cells.contains(pos) {
        cells.remove(cells.index_of(pos))
    } else {
        cells
    }
}

/// `regions` after `pos` has left `layer`. A layer that loses its last cell
/// is gone.
pub open spec fn regions_without(regions: Map<u8, Seq<(u8, u8)>>, layer: u8, pos: (u8, u8)) -> Map<
    u8,
    Seq<(u8, u8)>,
> {
    if regions.contains_key(layer) {
        let rest = without_pos(regions[layer], pos);
        if rest.len() == 0 {
            regions.remove(layer)
        } else {
            regions.insert(layer, rest)
        }
    } else {
        regions
    }
}

/// Whether `handles` are the handles in `grids` of `cells`, and `cells` are
/// the cells of `grids`, each once.
pub open spec fn walks(cells: Seq<(u8, u8)>, handles: Seq<u64>, grids: Map<(u8, u8), u64>) -> bool {
    &&& cells.no_duplicates()
    &&& cells.len() == handles.len()
    &&& forall|pos: (u8, u8)| cells.contains(pos) <==> grids.contains_key(pos)
    &&& forall|i: int| 0 <= i < cells.len() ==> handles[i] == grids[#[trigger] cells[i]]
}

/// Whether `handles` holds the handle of every cell of `grids`, one for each
/// cell, in some order.
pub open spec fn lists_handles(handles: Seq<u64>, grids: Map<(u8, u8), u64>) -> bool {
    exists|cells: Seq<(u8, u8)>| walks(cells, handles, grids)
}

/// A tile to be drawn: the handle and position of a cell, and the shape and
/// rotation it now has.
#[derive(PartialEq, Eq, Clone, Copy, Debug, Structural)]
pub struct ShapeUpdate {
    pub grid: u64,
    pub x: u8,
    pub y: u8,
    pub shape: GridShape,
    pub rot: GridRot,
}

/// What a [`Grids`] holds.
pub struct GridsView {
    /// The handle of each cell that has one.
    pub grids: Map<(u8, u8), u64>,
    pub max_x: u8,
    pub max_y: u8,
    /// The layer of each cell that is in one.
    pub pos_to_layer: Map<(u8, u8), u8>,
    /// The cells of each layer, in the order in which they joined it.
    pub layer_to_pos: Map<u8, Seq<(u8, u8)>>,
    /// The cells that joined a layer since the tiles were last worked out:
    /// for each the layer, the column and the row.
    pub added_to_layer: Seq<(u8, u8, u8)>,
    /// The cells that left a layer since the tiles were last worked out: for
    /// each the layer, the column and the row.
    pub removed_from_layer: Seq<(u8, u8, u8)>,
    /// Whether the tiles have been worked out at all.
    pub is_created: bool,
    pub is_added: bool,
    pub is_removed: bool,
}

impl GridsView {
    /// The two tables agree, no layer is empty or names a cell twice, the
    /// flags say whether changes are waiting, and a cell that is noted as
    /// removed and is in a layer all the same is noted as added to that
    /// layer.
    pub open spec fn wf(self) -> bool {
        &&& forall|pos: (u8, u8)| #[trigger]
            self.pos_to_layer.contains_key(pos) ==> self.layer_to_pos.contains_key(
                self.pos_to_layer[pos],
            ) && self.layer_to_pos[self.pos_to_layer[pos]].contains(pos)
        &&& forall|layer: u8, i: int|
            self.layer_to_pos.contains_key(layer) && 0 <= i < self.layer_to_pos[layer].len()
                ==> self.pos_to_layer.contains_key(#[trigger] self.layer_to_pos[layer][i])
                && self.pos_to_layer[self.layer_to_pos[layer][i]] == layer
        &&& forall|layer: u8| #[trigger]
            self.layer_to_pos.contains_key(layer) ==> self.layer_to_pos[layer].no_duplicates()
                && self.layer_to_pos[layer].len() > 0
        &&& self.is_added == (self.added_to_layer.len() > 0)
        &&& self.is_removed == (self.removed_from_layer.len() > 0)
        &&& !self.is_created ==> !self.is_added && !self.is_removed
        &&& forall|i: int|
            0 <= i < self.removed_from_layer.len() && self.pos_to_layer.contains_key(
                ((#[trigger] self.removed_from_layer[i]).1, self.removed_from_layer[i].2),
            ) ==> self.added_to_layer.contains(
                (
                    self.pos_to_layer[(self.removed_from_layer[i].1, self.removed_from_layer[i].2)],
                    self.removed_from_layer[i].1,
                    self.removed_from_layer[i].2,
                ),
            )
    }

    /// A field without cells, as it is before anything is loaded.
    pub open spec fn empty() -> GridsView {
        GridsView {
            grids: Map::empty(),
            max_x: 0,
            max_y: 0,
            pos_to_layer: Map::empty(),
            layer_to_pos: Map::empty(),
            added_to_layer: Seq::empty(),
            removed_from_layer: Seq::empty(),
            is_created: false,
            is_added: false,
            is_removed: false,
        }
    }

    /// Whether tiles are waiting to be worked out.
    pub open spec fn need_update(self) -> bool {
        self.is_added || self.is_removed || !self.is_created
    }

    /// The cells of `layer`; none if there is no such layer.
    pub open spec fn cells_of(self, layer: u8) -> Seq<(u8, u8)> {
        if self.layer_to_pos.contains_key(layer) {
            self.layer_to_pos[layer]
        } else {
            Seq::empty()
        }
    }

    /// The handles of the first `n` of `cells`, leaving out the cells that
    /// have none.
    pub open spec fn handles_of(self, cells: Seq<(u8, u8)>, n: nat) -> Seq<u64>
        decreases n,
    {
        if n == 0 {
            Seq::empty()
        } else if self.grids.contains_key(cells[n - 1]) {
            self.handles_of(cells, (n - 1) as nat).push(self.grids[cells[n - 1]])
        } else {
            self.handles_of(cells, (n - 1) as nat)
        }
    }

    /// The handles of the cells in the layer of the cell at `(x, y)`, in the
    /// order in which the cells joined the layer and without the cells that
    /// have no handle.
    pub open spec fn handles_with(self, x: u8, y: u8) -> Seq<u64> {
        let cells = self.layer_to_pos[self.pos_to_layer[(x, y)]];
        self.handles_of(cells, cells.len())
    }

    /// The field after the cell at `(x, y)` was put into `layer`. Nothing
    /// changes if it was there already. Once the tiles have been worked out,
    /// the cell is noted as added, and as removed from the layer it came
    /// from.
    pub open spec fn add_to_or_change_layer(self, layer: u8, x: u8, y: u8) -> GridsView {
        let pos = (x, y);
        if self.pos_to_layer.contains_key(pos) && self.pos_to_layer[pos] == layer {
            self
        } else {
            let moved = self.pos_to_layer.contains_key(pos);
            let from = self.pos_to_layer[pos];
            let regions = if moved {
                regions_without(self.layer_to_pos, from, pos)
            } else {
                self.layer_to_pos
            };
            let cells = if regions.contains_key(layer) {
                regions[layer]
            } else {
                Seq::empty()
            };
            GridsView {
                pos_to_layer: self.pos_to_layer.insert(pos, layer),
                layer_to_pos: regions.insert(layer, cells.push(pos)),
                added_to_layer: if self.is_created {
                    self.added_to_layer.push((layer, x, y))
                } else {
                    self.added_to_layer
                },
                removed_from_layer: if self.is_created && moved {
                    self.removed_from_layer.push((from, x, y))
                } else {
                    self.removed_from_layer
                },
                is_added: self.is_added || self.is_created,
                is_removed: self.is_removed || (self.is_created && moved),
                ..self
            }
        }
    }

    /// The field after the cell at `(x, y)` was taken out of its layer.
    /// Nothing changes if it was in none. Once the tiles have been worked
    /// out, the cell is noted as removed.
    pub open spec fn remove_from_layer(self, x: u8, y: u8) -> GridsView {
        let pos = (x, y);
        if self.pos_to_layer.contains_key(pos) {
            let from = self.pos_to_layer[pos];
            GridsView {
                pos_to_layer: self.pos_to_layer.remove(pos),
                layer_to_pos: regions_without(self.layer_to_pos, from, pos),
                removed_from_layer: if self.is_created {
                    self.removed_from_layer.push((from, x, y))
                } else {
                    self.removed_from_layer
                },
                is_removed: self.is_removed || self.is_created,
                ..self
            }
        } else {
            self
        }
    }

    /// The field after a cell with handle `grid` was added at `(x, y)`:
    /// unchanged if there is a cell already, else with the cell, and with it
    /// in layer 0 if nothing can pass it.
    pub open spec fn add(self, x: u8, y: u8, grid_type: GridType, grid: u64) -> GridsView {
        if self.grids.contains_key((x, y)) {
            self
        } else {
            let placed = GridsView {
                grids: self.grids.insert((x, y), grid),
                max_x: if x > self.max_x {
                    x
                } else {
                    self.max_x
                },
                max_y: if y > self.max_y {
                    y
                } else {
                    self.max_y
                },
                ..self
            };
            if grid_type == GridType::Unpassable {
                placed.add_to_or_change_layer(0, x, y)
            } else {
                placed
            }
        }
    }

    /// The field after the cell at `(x, y)` was destroyed: without its
    /// handle, and out of its layer.
    pub open spec fn destroy(self, x: u8, y: u8) -> GridsView {
        if self.grids.contains_key((x, y)) {
            GridsView { grids: self.grids.remove((x, y)), ..self.remove_from_layer(x, y) }
        } else {
            self
        }
    }

    /// The field after the handle of one cell of a loaded field was set: the
    /// cell has the handle, and is in layer 0 if nothing can pass it. A
    /// position where `kinds` has no cell is passed over.
    pub open spec fn place(self, kinds: Map<(u8, u8), GridType>, cell: ((u8, u8), u64)) -> GridsView {
        if kinds.contains_key(cell.0) {
            let placed = GridsView { grids: self.grids.insert(cell.0, cell.1), ..self };
            if kinds[cell.0] == GridType::Unpassable {
                placed.add_to_or_change_layer(0, cell.0.0, cell.0.1)
            } else {
                placed
            }
        } else {
            self
        }
    }

    /// The field after the first `n` of `spawned` were placed, one after the
    /// other.
    pub open spec fn place_all(
        self,
        kinds: Map<(u8, u8), GridType>,
        spawned: Seq<((u8, u8), u64)>,
        n: nat,
    ) -> GridsView
        decreases n,
    {
        if n == 0 {
            self
        } else {
            self.place_all(kinds, spawned, (n - 1) as nat).place(kinds, spawned[n - 1])
        }
    }

    /// The field after `grid_map` was loaded into it with the handles of
    /// `spawned`. A field that had cells starts over from nothing.
    pub open spec fn create(self, grid_map: GridMapView, spawned: Seq<((u8, u8), u64)>) -> GridsView {
        let start = if self.grids.is_empty() {
            self
        } else {
            GridsView::empty()
        };
        (GridsView { max_x: grid_map.max_x, max_y: grid_map.max_y, ..start }).place_all(
            grid_map.map,
            spawned,
            spawned.len(),
        )
    }

    /// The tile of the cell at `pos` in a layer made of `cells`, for the
    /// handle that the cell has.
    pub open spec fn tile(self, cells: Seq<(u8, u8)>, pos: (u8, u8)) -> ShapeUpdate {
        ShapeUpdate {
            grid: self.grids[pos],
            x: pos.0,
            y: pos.1,
            shape: classify(mask_in(cells, pos)).0,
            rot: classify(mask_in(cells, pos)).1,
        }
    }

    /// The tile of a cell that stands alone, for the handle that the cell at
    /// `pos` has.
    pub open spec fn closed_tile(self, pos: (u8, u8)) -> ShapeUpdate {
        ShapeUpdate {
            grid: self.grids[pos],
            x: pos.0,
            y: pos.1,
            shape: GridShape::Closed,
            rot: GridRot::Deg0,
        }
    }

    /// The tile that the cell at `pos` has as the layers stand: its tile in
    /// the layer it is in, the closed tile if it is in none.
    pub open spec fn true_tile(self, pos: (u8, u8)) -> ShapeUpdate {
        if self.pos_to_layer.contains_key(pos) {
            self.tile(self.cells_of(self.pos_to_layer[pos]), pos)
        } else {
            self.closed_tile(pos)
        }
    }

    /// The tile of the cell at `pos` in a layer made of `cells`; nothing if
    /// the cell has no handle.
    pub open spec fn shaped(self, cells: Seq<(u8, u8)>, pos: (u8, u8)) -> Seq<ShapeUpdate> {
        if self.grids.contains_key(pos) {
            seq![self.tile(cells, pos)]
        } else {
            Seq::empty()
        }
    }

    /// The closed tile for the cell at `pos`; nothing if the cell has no
    /// handle.
    pub open spec fn closed(self, pos: (u8, u8)) -> Seq<ShapeUpdate> {
        if self.grids.contains_key(pos) {
            seq![self.closed_tile(pos)]
        } else {
            Seq::empty()
        }
    }

    /// The tile that the cell at `pos` has as the layers stand; nothing if
    /// the cell has no handle.
    pub open spec fn own(self, pos: (u8, u8)) -> Seq<ShapeUpdate> {
        if self.grids.contains_key(pos) {
            seq![self.true_tile(pos)]
        } else {
            Seq::empty()
        }
    }

    /// The tiles of the first `n` cells of `layer`.
    pub open spec fn layer_shapes(self, layer: u8, n: nat) -> Seq<ShapeUpdate>
        decreases n,
    {
        if n == 0 {
            Seq::empty()
        } else {
            self.layer_shapes(layer, (n - 1) as nat) + self.shaped(
                self.cells_of(layer),
                self.cells_of(layer)[n - 1],
            )
        }
    }

    /// The tiles of all cells of the layers below `k`, layer by layer.
    pub open spec fn first_shapes(self, k: nat) -> Seq<ShapeUpdate>
        decreases k,
    {
        if k == 0 {
            Seq::empty()
        } else {
            self.first_shapes((k - 1) as nat) + self.layer_shapes(
                (k - 1) as u8,
                self.cells_of((k - 1) as u8).len(),
            )
        }
    }

    /// The tile of the neighbour in direction `dir` of the cell that `event`
    /// names, if that neighbour is in the layer that `event` names and is not
    /// itself among `pending` with that layer.
    pub open spec fn beside(self, event: (u8, u8, u8), pending: Seq<(u8, u8, u8)>, dir: int) -> Seq<
        ShapeUpdate,
    > {
        match neighbour((event.1, event.2), dir) {
            Some(next) => if self.cells_of(event.0).contains(next) && !pending.contains(
                (event.0, next.0, next.1),
            ) {
                self.shaped(self.cells_of(event.0), next)
            } else {
                Seq::empty()
            },
            None => Seq::empty(),
        }
    }

    /// The tiles of the neighbours of the cell that `event` names: above,
    /// below, right, left.
    pub open spec fn around(self, event: (u8, u8, u8), pending: Seq<(u8, u8, u8)>) -> Seq<
        ShapeUpdate,
    > {
        self.beside(event, pending, 0) + self.beside(event, pending, 1) + self.beside(
            event,
            pending,
            2,
        ) + self.beside(event, pending, 3)
    }

    /// The tiles that follow from the first `n` cells that left a layer: for
    /// each, those of its neighbours that stayed, then the cell itself,
    /// closed.
    pub open spec fn removed_shapes(self, n: nat) -> Seq<ShapeUpdate>
        decreases n,
    {
        if n == 0 {
            Seq::empty()
        } else {
            let event = self.removed_from_layer[n - 1];
            self.removed_shapes((n - 1) as nat) + self.around(event, self.removed_from_layer)
                + self.closed((event.1, event.2))
        }
    }

    /// The tiles that follow from the first `n` cells that joined a layer:
    /// for each, those of its neighbours that were there already, then its
    /// own as the layers stand now.
    pub open spec fn added_shapes(self, n: nat) -> Seq<ShapeUpdate>
        decreases n,
    {
        if n == 0 {
            Seq::empty()
        } else {
            let event = self.added_to_layer[n - 1];
            self.added_shapes((n - 1) as nat) + self.around(event, self.added_to_layer)
                + self.own((event.1, event.2))
        }
    }

    /// The tiles that are due. The first time these are the tiles of all
    /// cells that are in a layer, by layer from 0 up and within a layer in
    /// the order of joining. After that they are those that follow from the
    /// cells that left a layer, then those that follow from the cells that
    /// joined one: a cell that moved ends with the tile of the layer it is
    /// in.
    pub open spec fn layer_updates(self) -> Seq<ShapeUpdate> {
        if !self.is_created {
            self.first_shapes(256)
        } else {
            self.removed_shapes(self.removed_from_layer.len()) + self.added_shapes(
                self.added_to_layer.len(),
            )
        }
    }

    /// The field after its tiles were worked out: nothing is waiting.
    pub open spec fn update_layers(self) -> GridsView {
        GridsView {
            added_to_layer: Seq::empty(),
            removed_from_layer: Seq::empty(),
            is_created: true,
            is_added: false,
            is_removed: false,
            ..self
        }
    }
}

/// The field of a duel: the handle of every cell, the layers that cells are
/// grouped into, and the changes to the layers whose tiles are still to be
/// worked out.
pub struct Grids {
    grids: HandleTable,
    max_x: u8,
    max_y: u8,
    pos_to_layer: LayerTable,
    layer_to_pos: RegionTable,
    added_to_layer: Vec<(u8, u8, u8)>,
    removed_from_layer: Vec<(u8, u8, u8)>,
    is_created: bool,
    is_added: bool,
    is_removed: bool,
}

impl View for Grids {
    type V = GridsView;

    closed spec fn view(&self) -> GridsView {
        GridsView {
            grids: handle_entries(self.grids),
            max_x: self.max_x,
            max_y: self.max_y,
            pos_to_layer: layer_entries(self.pos_to_layer),
            layer_to_pos: region_entries(self.layer_to_pos),
            added_to_layer: self.added_to_layer@,
            removed_from_layer: self.removed_from_layer@,
            is_created: self.is_created,
            is_added: self.is_added,
            is_removed: self.is_removed,
        }
    }
}

/// Takes `pos` out of `cells`, where it stands once.
fn take_pos(cells: &mut Vec<(u8, u8)>, pos: (u8, u8))
    requires
        old(cells)@.no_duplicates(),
    ensures
        final(cells)@ == without_pos(old(cells)@, pos),
{
    let mut i: usize = 0;
    while i < cells.len()
        invariant
            i <= cells.len(),
            cells@ == old(cells)@,
            cells@.no_duplicates(),
            forall|j: int| 0 <= j < i ==> cells@[j] != pos,
        decreases cells.len() - i,
    {
        let cell = cells[i];
        if cell.0 == pos.0 && cell.1 == pos.1 {
            proof {
                let k = cells@.index_of(pos);
                assert(cells@[i as int] == pos);
                assert(cells@.contains(pos));
                assert(0 <= k < cells@.len() && cells@[k] == pos);
                assert(k == i);
            }
            cells.remove(i);
            return ;
        }
        i += 1;
    }
}

/// Whether `event` is among `pending`.
fn contains_event(pending: &Vec<(u8, u8, u8)>, event: (u8, u8, u8)) -> (found: bool)
    ensures
        found == pending@.contains(event),
{
    let mut i: usize = 0;
    while i < pending.len()
        invariant
            i <= pending.len(),
            forall|j: int| 0 <= j < i ==> pending@[j] != event,
        decreases pending.len() - i,
    {
        let other = pending[i];
        if other.0 == event.0 && other.1 == event.1 && other.2 == event.2 {
            return true;
        }
        i += 1;
    }
    false
}

impl Grids {
    /// Whether what the field holds fits together: see [`GridsView::wf`].
    pub open spec fn wf(&self) -> bool {
        self@.wf()
    }

    /// Sets the handle of one cell of a loaded field.
    fn place(&mut self, grid_map: &GridMap, cell: ((u8, u8), u64))
        requires
            old(self).wf(),
        ensures
            final(self).wf(),
            final(self)@ == old(self)@.place(grid_map@.map, cell),
    {
        let pos = cell.0;
        match grid_map.get(pos.0, pos.1) {
            Some(kind) => {
                handle_table_insert(&mut self.grids, pos, cell.1);
                assert(self.wf()) by {
                    assert(self@.pos_to_layer == old(self)@.pos_to_layer);
                    assert(self@.layer_to_pos == old(self)@.layer_to_pos);
                }
                if *kind == GridType::Unpassable {
                    self.add_to_or_change_layer(0, pos.0, pos.1);
                }
            },
            None => {},
        }
    }

    /// Loads `grid_map` into the field. `spawned` gives the handles of its
    /// cells: each cell of `grid_map` that is named there gets the handle
    /// that stands with it, the last one if it is named more than once. A
    /// field that had cells is emptied first, and the handles that it held
    /// are returned.
    pub fn create(&mut self, grid_map: &GridMap, spawned: &Vec<((u8, u8), u64)>) -> (despawned: Vec<
        u64,
    >)
        requires
            old(self).wf(),
        ensures
            final(self).wf(),
            final(self)@ == old(self)@.create(grid_map@, spawned@),
            if old(self)@.grids.is_empty() {
                despawned@.len() == 0
            } else {
                lists_handles(despawned@, old(self)@.grids)
            },
    {
        let despawned = if !handle_table_is_empty(&self.grids) {
            self.destroy_all()
        } else {
            Vec::new()
        };
        let ghost cleared = self@;
        let (max_x, max_y) = grid_map.get_max();
        self.max_x = max_x;
        self.max_y = max_y;
        let ghost start = self@;
        assert(self.wf()) by {
            assert(start.pos_to_layer == cleared.pos_to_layer);
            assert(start.layer_to_pos == cleared.layer_to_pos);
        }
        let mut i: usize = 0;
        while i < spawned.len()
            invariant
                i <= spawned.len(),
                self.wf(),
                self@ == start.place_all(grid_map@.map, spawned@, i as nat),
            decreases spawned.len() - i,
        {
            self.place(grid_map, spawned[i]);
            i += 1;
        }
        despawned
    }

    /// Adds a cell of kind `grid_type` with handle `grid` at `(x, y)`, unless
    /// there is a cell already. A cell that nothing can pass joins layer 0.
    pub fn add(&mut self, x: u8, y: u8, grid_type: &GridType, grid: u64)
        requires
            old(self).wf(),
        ensures
            final(self).wf(),
            final(self)@ == old(self)@.add(x, y, *grid_type, grid),
    {
        if handle_table_get(&self.grids, (x, y)).is_some() {
            return ;
        }
        if x > self.max_x {
            self.max_x = x;
        }
        if y > self.max_y {
            self.max_y = y;
        }
        handle_table_insert(&mut self.grids, (x, y), grid);
        assert(self.wf()) by {
            assert(self@.pos_to_layer == old(self)@.pos_to_layer);
            assert(self@.layer_to_pos == old(self)@.layer_to_pos);
        }
        if *grid_type == GridType::Unpassable {
            self.add_to_or_change_layer(0, x, y);
        }
    }

    /// Takes `pos` out of the cells of `layer`, and the layer away if that
    /// was its last cell.
    fn leave_layer(&mut self, layer: u8, pos: (u8, u8))
        requires
            forall|l: u8| #[trigger]
                old(self)@.layer_to_pos.contains_key(l) ==> old(self)@.layer_to_pos[l].no_duplicates(),
        ensures
            final(self)@ == (GridsView {
                layer_to_pos: regions_without(old(self)@.layer_to_pos, layer, pos),
                ..old(self)@
            }),
    {
        match region_table_remove(&mut self.layer_to_pos, layer) {
            Some(cells) => {
                let mut cells = cells;
                assert(old(self)@.layer_to_pos.contains_key(layer));
                take_pos(&mut cells, pos);
                if cells.len() > 0 {
                    region_table_insert(&mut self.layer_to_pos, layer, cells);
                }
                assert(region_entries(self.layer_to_pos) =~= regions_without(
                    old(self)@.layer_to_pos,
                    layer,
                    pos,
                ));
            },
            None => {
                assert(region_entries(self.layer_to_pos) =~= old(self)@.layer_to_pos);
            },
        }
    }

    /// Puts the cell at `(x, y)` into `layer`, out of the layer it was in.
    /// Nothing happens if it is in `layer` already.
    pub fn add_to_or_change_layer(&mut self, layer: u8, x: u8, y: u8)
        requires
            old(self).wf(),
        ensures
            final(self).wf(),
            final(self)@ == old(self)@.add_to_or_change_layer(layer, x, y),
    {
        let pos = (x, y);
        let from = match layer_table_get(&self.pos_to_layer, pos) {
            Some(lay) => Some(*lay),
            None => None,
        };
        if let Some(lay) = from {
            if lay == layer {
                return ;
            }
            self.leave_layer(lay, pos);
            if self.is_created {
                self.removed_from_layer.push((lay, x, y));
                self.is_removed = true;
            }
        }
        layer_table_insert(&mut self.pos_to_layer, pos, layer);
        let mut cells = match region_table_remove(&mut self.layer_to_pos, layer) {
            Some(cells) => cells,
            None => Vec::new(),
        };
        cells.push(pos);
        region_table_insert(&mut self.layer_to_pos, layer, cells);
        if self.is_created {
            self.added_to_layer.push((layer, x, y));
            self.is_added = true;
        }
        proof {
            let goal = old(self)@.add_to_or_change_layer(layer, x, y);
            assert(self@.layer_to_pos =~= goal.layer_to_pos);
            assert(self@.pos_to_layer =~= goal.pos_to_layer);
            assert(self@ == goal);
            lemma_add_keeps_wf(old(self)@, layer, x, y);
        }
    }

    /// Takes the cell at `(x, y)` out of the layer it is in. Nothing happens
    /// if it is in none.
    pub fn remove_from_layer(&mut self, x: u8, y: u8)
        requires
            old(self).wf(),
        ensures
            final(self).wf(),
            final(self)@ == old(self)@.remove_from_layer(x, y),
    {
        let pos = (x, y);
        let from = match layer_table_get(&self.pos_to_layer, pos) {
            Some(lay) => Some(*lay),
            None => None,
        };
        if let Some(lay) = from {
            self.leave_layer(lay, pos);
            if self.is_created {
                self.removed_from_layer.push((lay, x, y));
                self.is_removed = true;
            }
            layer_table_remove(&mut self.pos_to_layer, pos);
            proof {
                let goal = old(self)@.remove_from_layer(x, y);
                assert(self@.pos_to_layer =~= goal.pos_to_layer);
                assert(self@ == goal);
                lemma_remove_keeps_wf(old(self)@, x, y);
            }
        }
    }

    /// Destroys the cell at `(x, y)`: forgets its handle, takes it out of its
    /// layer, and returns the handle. Nothing happens where there is no
    /// cell.
    pub fn destroy(&mut self, x: u8, y: u8) -> (despawned: Option<u64>)
        requires
            old(self).wf(),
        ensures
            final(self).wf(),
            final(self)@ == old(self)@.destroy(x, y),
            despawned == if old(self)@.grids.contains_key((x, y)) {
                Some(old(self)@.grids[(x, y)])
            } else {
                None
            },
    {
        let despawned = handle_table_remove(&mut self.grids, (x, y));
        assert(self.wf()) by {
            assert(self@.pos_to_layer == old(self)@.pos_to_layer);
            assert(self@.layer_to_pos == old(self)@.layer_to_pos);
        }
        if despawned.is_some() {
            self.remove_from_layer(x, y);
        } else {
            assert(self@.grids =~= old(self)@.grids);
        }
        despawned
    }

    /// Destroys all cells and forgets the layers and what was waiting. The
    /// handles that were held are returned.
    pub fn destroy_all(&mut self) -> (despawned: Vec<u64>)
        ensures
            final(self).wf(),
            final(self)@ == GridsView::empty(),
            lists_handles(despawned@, old(self)@.grids),
    {
        let entries = handle_table_entries(&self.grids);
        let mut despawned: Vec<u64> = Vec::new();
        let mut i: usize = 0;
        while i < entries.len()
            invariant
                i <= entries.len(),
                despawned@.len() == i,
                forall|j: int| 0 <= j < i ==> despawned@[j] == entries@[j].1,
            decreases entries.len() - i,
        {
            despawned.push(entries[i].1);
            i += 1;
        }
        proof {
            let cells = Seq::new(entries@.len(), |j: int| entries@[j].0);
            assert forall|pos: (u8, u8)| cells.contains(pos) <==> self@.grids.contains_key(
                pos,
            ) by {
                if cells.contains(pos) {
                    let j = choose|j: int| 0 <= j < cells.len() && cells[j] == pos;
                    assert(self@.grids.contains_key(entries@[j].0));
                }
                if self@.grids.contains_key(pos) {
                    let j = choose|j: int| 0 <= j < entries@.len() && #[trigger] entries@[j].0 == pos;
                    assert(cells[j] == pos);
                }
            }
            assert forall|j: int| 0 <= j < cells.len() implies despawned@[j] == self@.grids[#[trigger] cells[j]] by {
                assert(self@.grids.contains_key(entries@[j].0));
            }
            assert(walks(cells, despawned@, self@.grids));
        }
        handle_table_clear(&mut self.grids);
        self.max_x = 0;
        self.max_y = 0;
        layer_table_clear(&mut self.pos_to_layer);
        region_table_clear(&mut self.layer_to_pos);
        self.added_to_layer.clear();
        self.removed_from_layer.clear();
        self.is_created = false;
        self.is_added = false;
        self.is_removed = false;
        proof {
            assert(self@.grids =~= Map::empty());
            assert(self@.pos_to_layer =~= Map::empty());
            assert(self@.layer_to_pos =~= Map::empty());
            assert(self@ =~= GridsView::empty());
        }
        despawned
    }

    /// Whether tiles are waiting to be worked out: always before the first
    /// time, and after that whenever a cell has joined or left a layer.
    pub fn need_update(&self) -> (waiting: bool)
        ensures
            waiting == self@.need_update(),
    {
        self.is_added || self.is_removed || !self.is_created
    }

    /// The largest column and row given to [`Grids::add`] or loaded by
    /// [`Grids::create`].
    pub fn get_max(&self) -> (max: (u8, u8))
        ensures
            max == (self@.max_x, self@.max_y),
    {
        (self.max_x, self.max_y)
    }

    /// The handle of the cell at `(x, y)`, if it has one.
    pub fn get_grid(&self, x: u8, y: u8) -> (grid: Option<&u64>)
        ensures
            match grid {
                Some(handle) => self@.grids.contains_key((x, y)) && self@.grids[(x, y)] == *handle,
                None => !self@.grids.contains_key((x, y)),
            },
    {
        handle_table_get(&self.grids, (x, y))
    }

    /// The layer of the cell at `(x, y)`, if it is in one.
    pub fn get_layer(&self, x: u8, y: u8) -> (found: Option<&u8>)
        ensures
            match found {
                Some(layer) => self@.pos_to_layer.contains_key((x, y)) && self@.pos_to_layer[(
                    x,
                    y,
                )] == *layer,
                None => !self@.pos_to_layer.contains_key((x, y)),
            },
    {
        layer_table_get(&self.pos_to_layer, (x, y))
    }

    /// Whether the cell at `(x, y)` is in a layer.
    pub fn contains(&self, x: u8, y: u8) -> (found: bool)
        ensures
            found == self@.pos_to_layer.contains_key((x, y)),
    {
        layer_table_get(&self.pos_to_layer, (x, y)).is_some()
    }

    /// The positions of the cells of `layer`, in the order in which they
    /// joined it, if there is such a layer.
    pub fn get_cells_from_layer(&self, layer: u8) -> (found: Option<Vec<(u8, u8)>>)
        ensures
            match found {
                Some(cells) => self@.layer_to_pos.contains_key(layer) && cells@
                    == self@.layer_to_pos[layer],
                None => !self@.layer_to_pos.contains_key(layer),
            },
    {
        match region_table_get(&self.layer_to_pos, layer) {
            Some(cells) => {
                let mut copy: Vec<(u8, u8)> = Vec::new();
                let mut i: usize = 0;
                while i < cells.len()
                    invariant
                        i <= cells.len(),
                        copy@ == cells@.take(i as int),
                    decreases cells.len() - i,
                {
                    copy.push(cells[i]);
                    i += 1;
                    assert(copy@ =~= cells@.take(i as int));
                }
                assert(copy@ =~= cells@);
                Some(copy)
            },
            None => None,
        }
    }

    /// The positions of the cells in the layer of the cell at `(x, y)`, if it
    /// is in a layer.
    pub fn get_cells_from_same_layer(&self, x: u8, y: u8) -> (found: Option<Vec<(u8, u8)>>)
        requires
            self.wf(),
        ensures
            match found {
                Some(cells) => self@.pos_to_layer.contains_key((x, y)) && cells@
                    == self@.layer_to_pos[self@.pos_to_layer[(x, y)]],
                None => !self@.pos_to_layer.contains_key((x, y)),
            },
    {
        match layer_table_get(&self.pos_to_layer, (x, y)) {
            Some(layer) => {
                assert(self@.pos_to_layer.contains_key((x, y)));
                self.get_cells_from_layer(*layer)
            },
            None => None,
        }
    }

    /// The handles of the cells of `layer`, in the order in which the cells
    /// joined it and without those that have no handle, if there is such a
    /// layer.
    pub fn get_grids_from_layer(&self, layer: u8) -> (found: Option<Vec<u64>>)
        ensures
            match found {
                Some(grids) => self@.layer_to_pos.contains_key(layer) && grids@ == self@.handles_of(
                    self@.layer_to_pos[layer],
                    self@.layer_to_pos[layer].len(),
                ),
                None => !self@.layer_to_pos.contains_key(layer),
            },
    {
        match region_table_get(&self.layer_to_pos, layer) {
            Some(cells) => {
                let mut grids: Vec<u64> = Vec::new();
                let mut i: usize = 0;
                while i < cells.len()
                    invariant
                        i <= cells.len(),
                        grids@ == self@.handles_of(cells@, i as nat),
                    decreases cells.len() - i,
                {
                    match handle_table_get(&self.grids, cells[i]) {
                        Some(grid) => grids.push(*grid),
                        None => {},
                    }
                    i += 1;
                }
                Some(grids)
            },
            None => None,
        }
    }

    /// The handles of the cells in the layer of the cell at `(x, y)`, if it is
    /// in a layer.
    pub fn get_grids_from_same_layer(&self, x: u8, y: u8) -> (found: Option<Vec<u64>>)
        requires
            self.wf(),
        ensures
            match found {
                Some(grids) => self@.pos_to_layer.contains_key((x, y)) && grids@
                    == self@.handles_with(x, y),
                None => !self@.pos_to_layer.contains_key((x, y)),
            },
    {
        match layer_table_get(&self.pos_to_layer, (x, y)) {
            Some(layer) => {
                assert(self@.pos_to_layer.contains_key((x, y)));
                self.get_grids_from_layer(*layer)
            },
            None => None,
        }
    }

    /// Adds the tile of the cell at `pos`, in a layer made of `cells`, to
    /// `updates`, if the cell has a handle.
    fn push_shaped(&self, cells: &Vec<(u8, u8)>, pos: (u8, u8), updates: &mut Vec<ShapeUpdate>)
        ensures
            final(updates)@ == old(updates)@ + self@.shaped(cells@, pos),
    {
        match handle_table_get(&self.grids, pos) {
            Some(grid) => {
                let (shape, rot) = compute_shape_and_rot(mask_among(cells, pos));
                updates.push(ShapeUpdate { grid: *grid, x: pos.0, y: pos.1, shape, rot });
            },
            None => {},
        }
        assert(updates@ =~= old(updates)@ + self@.shaped(cells@, pos));
    }

    /// Adds the closed tile for the cell at `pos` to `updates`, if the cell
    /// has a handle.
    fn push_closed(&self, pos: (u8, u8), updates: &mut Vec<ShapeUpdate>)
        ensures
            final(updates)@ == old(updates)@ + self@.closed(pos),
    {
        match handle_table_get(&self.grids, pos) {
            Some(grid) => {
                updates.push(
                    ShapeUpdate {
                        grid: *grid,
                        x: pos.0,
                        y: pos.1,
                        shape: GridShape::Closed,
                        rot: GridRot::Deg0,
                    },
                );
            },
            None => {},
        }
        assert(updates@ =~= old(updates)@ + self@.closed(pos));
    }

    /// Adds to `updates` the tile that the cell at `pos` has as the layers
    /// stand, if the cell has a handle.
    fn push_own(&self, pos: (u8, u8), updates: &mut Vec<ShapeUpdate>)
        ensures
            final(updates)@ == old(updates)@ + self@.own(pos),
    {
        match layer_table_get(&self.pos_to_layer, pos) {
            Some(layer) => match region_table_get(&self.layer_to_pos, *layer) {
                Some(cells) => {
                    self.push_shaped(cells, pos, updates);
                },
                None => {
                    let none: Vec<(u8, u8)> = Vec::new();
                    assert(none@ =~= self@.cells_of(*layer));
                    self.push_shaped(&none, pos, updates);
                },
            },
            None => {
                self.push_closed(pos, updates);
            },
        }
        assert(updates@ =~= old(updates)@ + self@.own(pos));
    }

    /// Adds to `updates` the tile of the neighbour in direction `dir` of the
    /// cell that `event` names, where [`GridsView::beside`] has one.
    fn push_beside(
        &self,
        event: (u8, u8, u8),
        pending: &Vec<(u8, u8, u8)>,
        dir: u8,
        updates: &mut Vec<ShapeUpdate>,
    )
        ensures
            final(updates)@ == old(updates)@ + self@.beside(event, pending@, dir as int),
    {
        if let Some(next) = neighbour_of((event.1, event.2), dir) {
            if let Some(cells) = region_table_get(&self.layer_to_pos, event.0) {
                if contains_pos(cells, next.0, next.1) && !contains_event(
                    pending,
                    (event.0, next.0, next.1),
                ) {
                    self.push_shaped(cells, next, updates);
                }
            }
        }
        assert(updates@ =~= old(updates)@ + self@.beside(event, pending@, dir as int));
    }

    /// Adds to `updates` the tiles of the neighbours of the cell that `event`
    /// names.
    fn push_around(
        &self,
        event: (u8, u8, u8),
        pending: &Vec<(u8, u8, u8)>,
        updates: &mut Vec<ShapeUpdate>,
    )
        ensures
            final(updates)@ == old(updates)@ + self@.around(event, pending@),
    {
        self.push_beside(event, pending, 0, updates);
        self.push_beside(event, pending, 1, updates);
        self.push_beside(event, pending, 2, updates);
        self.push_beside(event, pending, 3, updates);
        assert(updates@ =~= old(updates)@ + self@.around(event, pending@));
    }

    /// Adds to `updates` the tiles of all cells of `layer`.
    fn push_layer(&self, layer: u8, updates: &mut Vec<ShapeUpdate>)
        ensures
            final(updates)@ == old(updates)@ + self@.layer_shapes(
                layer,
                self@.cells_of(layer).len(),
            ),
    {
        match region_table_get(&self.layer_to_pos, layer) {
            Some(cells) => {
                let mut i: usize = 0;
                assert(updates@ =~= old(updates)@ + self@.layer_shapes(layer, 0));
                while i < cells.len()
                    invariant
                        i <= cells.len(),
                        cells@ == self@.cells_of(layer),
                        updates@ == old(updates)@ + self@.layer_shapes(layer, i as nat),
                    decreases cells.len() - i,
                {
                    let ghost before = updates@;
                    self.push_shaped(cells, cells[i], updates);
                    i += 1;
                    assert(updates@ =~= old(updates)@ + self@.layer_shapes(layer, i as nat));
                }
            },
            None => {
                assert(updates@ =~= old(updates)@ + self@.layer_shapes(layer, 0));
            },
        }
    }

    /// Works out the tiles that are due and returns them, in the order of
    /// [`GridsView::layer_updates`]. Afterwards nothing is waiting.
    pub fn update_layers(&mut self) -> (updates: Vec<ShapeUpdate>)
        requires
            old(self).wf(),
        ensures
            final(self).wf(),
            final(self)@ == old(self)@.update_layers(),
            updates@ == old(self)@.layer_updates(),
    {
        let mut updates: Vec<ShapeUpdate> = Vec::new();
        if !self.is_created {
            let mut next: u16 = 0;
            while next < 256
                invariant
                    next <= 256,
                    updates@ == self@.first_shapes(next as nat),
                decreases 256 - next,
            {
                self.push_layer(next as u8, &mut updates);
                next += 1;
            }
            self.is_created = true;
            assert(self@ =~= old(self)@.update_layers()) by {
                assert(self@.added_to_layer =~= Seq::empty());
                assert(self@.removed_from_layer =~= Seq::empty());
            }
            return updates;
        }
        if self.is_removed {
            let mut i: usize = 0;
            while i < self.removed_from_layer.len()
                invariant
                    i <= self.removed_from_layer.len(),
                    updates@ == self@.removed_shapes(i as nat),
                decreases self.removed_from_layer.len() - i,
            {
                let event = self.removed_from_layer[i];
                self.push_around(event, &self.removed_from_layer, &mut updates);
                self.push_closed((event.1, event.2), &mut updates);
                i += 1;
            }
        }
        let ghost after_removed = updates@;
        if self.is_added {
            let mut i: usize = 0;
            assert(updates@ =~= after_removed + self@.added_shapes(0));
            while i < self.added_to_layer.len()
                invariant
                    i <= self.added_to_layer.len(),
                    updates@ == after_removed + self@.added_shapes(i as nat),
                decreases self.added_to_layer.len() - i,
            {
                let event = self.added_to_layer[i];
                self.push_around(event, &self.added_to_layer, &mut updates);
                self.push_own((event.1, event.2), &mut updates);
                i += 1;
                assert(updates@ =~= after_removed + self@.added_shapes(i as nat));
            }
        }
        assert(updates@ =~= old(self)@.layer_updates());
        self.removed_from_layer.clear();
        self.is_removed = false;
        self.added_to_layer.clear();
        self.is_added = false;
        assert(self@ =~= old(self)@.update_layers());
        updates
    }
}

impl Default for Grids {
    /// A field without cells.
    fn default() -> (grids: Self)
        ensures
            grids.wf(),
            grids@ == GridsView::empty(),
    {
        let grids = Self {
            grids: handle_table_new(),
            max_x: 0,
            max_y: 0,
            pos_to_layer: layer_table_new(),
            layer_to_pos: region_table_new(),
            added_to_layer: Vec::new(),
            removed_from_layer: Vec::new(),
            is_created: false,
            is_added: false,
            is_removed: false,
        };
        proof {
            assert(grids@.grids =~= Map::empty());
            assert(grids@.pos_to_layer =~= Map::empty());
            assert(grids@.layer_to_pos =~= Map::empty());
        }
        grids
    }
}

/// Taking a cell out of a duplicate-free list leaves a duplicate-free list
/// that holds the other cells, in their order.
pub proof fn lemma_without_pos(cells: Seq<(u8, u8)>, pos: (u8, u8))
    requires
        cells.no_duplicates(),
    ensures
        without_pos(cells, pos).no_duplicates(),
        !without_pos(cells, pos).contains(pos),
        forall|other: (u8, u8)|
            other != pos ==> (#[trigger] without_pos(cells, pos).contains(other) <==> cells.contains(
                other,
            )),
        cells.contains(pos) ==> without_pos(cells, pos).len() + 1 == cells.len(),
{
    if cells.contains(pos) {
        let k = cells.index_of(pos);
        let rest = cells.remove(k);
        assert forall|i: int, j: int| 0 <= i < rest.len() && 0 <= j < rest.len() && i != j implies rest[i]
            != rest[j] by {
            let a = if i < k { i } else { i + 1 };
            let b = if j < k { j } else { j + 1 };
            assert(rest[i] == cells[a]);
            assert(rest[j] == cells[b]);
        }
        assert forall|i: int| 0 <= i < rest.len() implies rest[i] != pos by {
            let a = if i < k { i } else { i + 1 };
            assert(rest[i] == cells[a]);
        }
        assert forall|other: (u8, u8)| other != pos implies (#[trigger] rest.contains(other)
            <==> cells.contains(other)) by {
            if rest.contains(other) {
                let i = choose|i: int| 0 <= i < rest.len() && rest[i] == other;
                let a = if i < k { i } else { i + 1 };
                assert(cells[a] == other);
            }
            if cells.contains(other) {
                let a = choose|a: int| 0 <= a < cells.len() && cells[a] == other;
                let i = if a < k { a } else { a - 1 };
                assert(rest[i] == other);
            }
        }
    }
}

/// Putting a cell into a layer keeps the field well formed.
pub proof fn lemma_add_keeps_wf(v: GridsView, layer: u8, x: u8, y: u8)
    requires
        v.wf(),
    ensures
        v.add_to_or_change_layer(layer, x, y).wf(),
{
    let pos = (x, y);
    let w = v.add_to_or_change_layer(layer, x, y);
    if !(v.pos_to_layer.contains_key(pos) && v.pos_to_layer[pos] == layer) {
        let moved = v.pos_to_layer.contains_key(pos);
        let from = v.pos_to_layer[pos];
        let regions = if moved {
            regions_without(v.layer_to_pos, from, pos)
        } else {
            v.layer_to_pos
        };
        if moved {
            lemma_without_pos(v.layer_to_pos[from], pos);
        }
        let cells = if regions.contains_key(layer) {
            regions[layer]
        } else {
            Seq::empty()
        };
        // The cell is in no layer of `regions`.
        assert forall|l: u8| #[trigger] regions.contains_key(l) implies !regions[l].contains(pos)
            && regions[l].no_duplicates() && regions[l].len() > 0 && v.layer_to_pos.contains_key(l)
            && (forall|p: (u8, u8)| #[trigger]
            regions[l].contains(p) ==> v.layer_to_pos[l].contains(p)) && (forall|p: (u8, u8)|
            p != pos && v.layer_to_pos[l].contains(p) ==> #[trigger] regions[l].contains(p)) by {
            if moved && l == from {
            } else {
                if v.layer_to_pos[l].contains(pos) {
                    let i = choose|i: int|
                        0 <= i < v.layer_to_pos[l].len() && v.layer_to_pos[l][i] == pos;
                    assert(v.pos_to_layer[v.layer_to_pos[l][i]] == l);
                }
            }
        }
        let grown = cells.push(pos);
        assert(grown.no_duplicates()) by {
            assert forall|i: int, j: int|
                0 <= i < grown.len() && 0 <= j < grown.len() && i != j implies grown[i]
                != grown[j] by {
                if i < cells.len() {
                    assert(cells.contains(grown[i]));
                }
                if j < cells.len() {
                    assert(cells.contains(grown[j]));
                }
            }
        }
        assert forall|p: (u8, u8)| #[trigger] w.pos_to_layer.contains_key(p) implies w.layer_to_pos.contains_key(
            w.pos_to_layer[p],
        ) && w.layer_to_pos[w.pos_to_layer[p]].contains(p) by {
            if p == pos {
                assert(grown[grown.len() - 1] == pos);
            } else {
                let l = v.pos_to_layer[p];
                assert(v.layer_to_pos[l].contains(p));
                if moved && l == from {
                    assert(without_pos(v.layer_to_pos[from], pos).contains(p));
                    assert(regions.contains_key(l));
                }
                assert(regions.contains_key(l));
                assert(regions[l].contains(p));
                if l == layer {
                    let i = choose|i: int| 0 <= i < cells.len() && cells[i] == p;
                    assert(grown[i] == p);
                }
            }
        }
        assert forall|l: u8, i: int|
            w.layer_to_pos.contains_key(l) && 0 <= i < w.layer_to_pos[l].len() implies w.pos_to_layer.contains_key(
            #[trigger] w.layer_to_pos[l][i],
        ) && w.pos_to_layer[w.layer_to_pos[l][i]] == l by {
            let p = w.layer_to_pos[l][i];
            if l == layer {
                if i < cells.len() {
                    assert(cells.contains(p));
                    assert(regions[l].contains(p));
                    assert(v.layer_to_pos[l].contains(p));
                    let k = choose|k: int|
                        0 <= k < v.layer_to_pos[l].len() && v.layer_to_pos[l][k] == p;
                    assert(v.pos_to_layer[v.layer_to_pos[l][k]] == l);
                }
            } else {
                assert(regions[l].contains(p));
                assert(v.layer_to_pos[l].contains(p));
                let k = choose|k: int|
                    0 <= k < v.layer_to_pos[l].len() && v.layer_to_pos[l][k] == p;
                assert(v.pos_to_layer[v.layer_to_pos[l][k]] == l);
            }
        }
        assert forall|l: u8| #[trigger] w.layer_to_pos.contains_key(l) implies w.layer_to_pos[l].no_duplicates()
            && w.layer_to_pos[l].len() > 0 by {
            if l != layer {
                assert(regions.contains_key(l));
            }
        }
        assert forall|i: int|
            0 <= i < w.removed_from_layer.len() && w.pos_to_layer.contains_key(
                ((#[trigger] w.removed_from_layer[i]).1, w.removed_from_layer[i].2),
            ) implies w.added_to_layer.contains(
            (
                w.pos_to_layer[(w.removed_from_layer[i].1, w.removed_from_layer[i].2)],
                w.removed_from_layer[i].1,
                w.removed_from_layer[i].2,
            ),
        ) by {
            let cell = (w.removed_from_layer[i].1, w.removed_from_layer[i].2);
            assert(v.is_created);
            assert(w.added_to_layer[w.added_to_layer.len() - 1] == (layer, x, y));
            if cell != pos {
                assert(v.removed_from_layer[i] == w.removed_from_layer[i]);
                let noted = (v.pos_to_layer[cell], cell.0, cell.1);
                assert(v.added_to_layer.contains(noted));
                let k = choose|k: int| 0 <= k < v.added_to_layer.len() && v.added_to_layer[k] == noted;
                assert(w.added_to_layer[k] == noted);
            }
        }
    }
}

/// Taking a cell out of its layer keeps the field well formed.
pub proof fn lemma_remove_keeps_wf(v: GridsView, x: u8, y: u8)
    requires
        v.wf(),
    ensures
        v.remove_from_layer(x, y).wf(),
{
    let pos = (x, y);
    let w = v.remove_from_layer(x, y);
    if v.pos_to_layer.contains_key(pos) {
        let from = v.pos_to_layer[pos];
        lemma_without_pos(v.layer_to_pos[from], pos);
        let regions = regions_without(v.layer_to_pos, from, pos);
        assert forall|p: (u8, u8)| #[trigger] w.pos_to_layer.contains_key(p) implies w.layer_to_pos.contains_key(
            w.pos_to_layer[p],
        ) && w.layer_to_pos[w.pos_to_layer[p]].contains(p) by {
            let l = v.pos_to_layer[p];
            assert(v.layer_to_pos[l].contains(p));
            if l == from {
                assert(without_pos(v.layer_to_pos[from], pos).contains(p));
            }
        }
        assert forall|l: u8, i: int|
            w.layer_to_pos.contains_key(l) && 0 <= i < w.layer_to_pos[l].len() implies w.pos_to_layer.contains_key(
            #[trigger] w.layer_to_pos[l][i],
        ) && w.pos_to_layer[w.layer_to_pos[l][i]] == l by {
            let p = w.layer_to_pos[l][i];
            assert(w.layer_to_pos[l].contains(p));
            if l == from {
                assert(v.layer_to_pos[l].contains(p));
            }
            assert(v.layer_to_pos[l].contains(p));
            let k = choose|k: int| 0 <= k < v.layer_to_pos[l].len() && v.layer_to_pos[l][k] == p;
            assert(v.pos_to_layer[v.layer_to_pos[l][k]] == l);
        }
    }
}

} // verus!
