//! What happens to the cells when the pointer moves over them or is pressed
//! on them.

use vstd::prelude::*;

use crate::duel::cells::{
    changed_at, changed_each, law_changes_keep_the_cells, GridCell, GridCells, GridChange,
};
use crate::duel::components::GridColor;
use crate::duel::events::{MouseDownGrid, MouseOffGrid, MouseOnGrid};
use crate::duel::grids_resource::{Grids, GridsView};

verus! {

/// `cells` after `change` was made for the cell with handle `grid`: to all
/// cells of its layer if it is in one, else to the cell alone. Nothing
/// changes if there is no cell with that handle.
pub open spec fn group_changed(
    cells: Map<u64, GridCell>,
    layers: GridsView,
    grid: u64,
    change: GridChange,
) -> Map<u64, GridCell> {
    if cells.contains_key(grid) {
        let x = cells[grid].grid_pos.x;
        let y = cells[grid].grid_pos.y;
        if layers.pos_to_layer.contains_key((x, y)) {
            let group = layers.handles_with(x, y);
            changed_each(cells, group, group.len(), change)
        } else {
            changed_at(cells, grid, change)
        }
    } else {
        cells
    }
}

/// `cells` after the pointer came over the cells that the first `n` of
/// `events` name, one after the other: see [`mouse_on_grid`].
pub open spec fn after_mouse_on(
    cells: Map<u64, GridCell>,
    layers: GridsView,
    events: Seq<MouseOnGrid>,
    n: nat,
) -> Map<u64, GridCell>
    decreases n,
{
    if n == 0 {
        cells
    } else {
        group_changed(
            after_mouse_on(cells, layers, events, (n - 1) as nat),
            layers,
            events[n - 1].0,
            GridChange::Hover(GridColor::MouseOn),
        )
    }
}

/// `cells` after the pointer left the cells that the first `n` of `events`
/// name, one after the other: see [`mouse_off_grid`].
pub open spec fn after_mouse_off(
    cells: Map<u64, GridCell>,
    layers: GridsView,
    events: Seq<MouseOffGrid>,
    n: nat,
) -> Map<u64, GridCell>
    decreases n,
{
    if n == 0 {
        cells
    } else {
        group_changed(
            after_mouse_off(cells, layers, events, (n - 1) as nat),
            layers,
            events[n - 1].0,
            GridChange::Hover(GridColor::Default),
        )
    }
}

/// `cells` after the cell with handle `grid` was pressed: a cell that can be
/// walked on changes between selected and not selected, and the cells of its
/// layer that can be walked on follow it. Where the pressed cell is in a
/// layer and cannot be walked on, the cells of the layer that can be become
/// unselected.
pub open spec fn select_pressed(cells: Map<u64, GridCell>, layers: GridsView, grid: u64) -> Map<
    u64,
    GridCell,
> {
    if cells.contains_key(grid) {
        let x = cells[grid].grid_pos.x;
        let y = cells[grid].grid_pos.y;
        if layers.pos_to_layer.contains_key((x, y)) {
            let group = layers.handles_with(x, y);
            let selection = cells[grid].passability.passable && !cells[grid].selected.selected;
            changed_each(
                changed_at(cells, grid, GridChange::Toggle),
                group,
                group.len(),
                GridChange::Select(selection),
            )
        } else {
            changed_at(cells, grid, GridChange::Toggle)
        }
    } else {
        cells
    }
}

/// `cells` after the cells that the first `n` of `events` name were pressed,
/// one after the other.
pub open spec fn after_mouse_select(
    cells: Map<u64, GridCell>,
    layers: GridsView,
    events: Seq<MouseDownGrid>,
    n: nat,
) -> Map<u64, GridCell>
    decreases n,
{
    if n == 0 {
        cells
    } else {
        select_pressed(
            after_mouse_select(cells, layers, events, (n - 1) as nat),
            layers,
            events[n - 1].0,
        )
    }
}

/// The cells and the layers after the cell with handle `grid` was pressed
/// while layers are being combined. A cell that can be walked on leaves its
/// layer, and the unselected cells of that layer go back to the default
/// colour; or, being in no layer, it joins layer 1, whose unselected cells
/// take the colour of the pointer.
pub open spec fn combine_pressed(cells: Map<u64, GridCell>, layers: GridsView, grid: u64) -> (
    Map<u64, GridCell>,
    GridsView,
) {
    if cells.contains_key(grid) && cells[grid].passability.passable {
        let x = cells[grid].grid_pos.x;
        let y = cells[grid].grid_pos.y;
        if layers.pos_to_layer.contains_key((x, y)) {
            let group = layers.handles_with(x, y);
            (
                changed_each(cells, group, group.len(), GridChange::Tint(GridColor::Default)),
                layers.remove_from_layer(x, y),
            )
        } else {
            let joined = layers.add_to_or_change_layer(1, x, y);
            let group = joined.handles_with(x, y);
            (changed_each(cells, group, group.len(), GridChange::Tint(GridColor::MouseOn)), joined)
        }
    } else {
        (cells, layers)
    }
}

/// The cells and the layers after the cells that the first `n` of `events`
/// name were pressed while layers are being combined, one after the other.
pub open spec fn after_mouse_combine(
    cells: Map<u64, GridCell>,
    layers: GridsView,
    events: Seq<MouseDownGrid>,
    n: nat,
) -> (Map<u64, GridCell>, GridsView)
    decreases n,
{
    if n == 0 {
        (cells, layers)
    } else {
        let before = after_mouse_combine(cells, layers, events, (n - 1) as nat);
        combine_pressed(before.0, before.1, events[n - 1].0)
    }
}

/// Makes `change` for the cell with handle `grid`: to its layer, or to the
/// cell alone.
fn change_group(grid: u64, combined_grids: &Grids, grids: &mut GridCells, change: GridChange)
    requires
        combined_grids.wf(),
    ensures
        final(grids)@ == group_changed(old(grids)@, combined_grids@, grid, change),
{
    if let Some(cell) = grids.get(grid) {
        match combined_grids.get_grids_from_same_layer(cell.grid_pos.x, cell.grid_pos.y) {
            Some(gridvec) => {
                grids.change_each(&gridvec, change);
            },
            None => {
                grids.change(grid, change);
            },
        }
    }
}

/// The pointer came over cells: each named cell that can be walked on and is
/// not selected takes the colour of the pointer, and with it the like cells
/// of its layer.
pub fn mouse_on_grid(mouse_on: &Vec<MouseOnGrid>, combined_grids: &Grids, grids: &mut GridCells)
    requires
        combined_grids.wf(),
    ensures
        final(grids)@ == after_mouse_on(old(grids)@, combined_grids@, mouse_on@, mouse_on@.len()),
{
    let mut i: usize = 0;
    while i < mouse_on.len()
        invariant
            i <= mouse_on.len(),
            combined_grids.wf(),
            grids@ == after_mouse_on(old(grids)@, combined_grids@, mouse_on@, i as nat),
        decreases mouse_on.len() - i,
    {
        change_group(mouse_on[i].0, combined_grids, grids, GridChange::Hover(GridColor::MouseOn));
        i += 1;
    }
}

/// Cells were pressed while layers are being combined, which they are while
/// `combining` is set: each named cell that can be walked on leaves the
/// layer it is in, or joins layer 1 if it is in none. Without `combining`
/// nothing happens.
pub fn mouse_combine_change(
    mouse_down: &Vec<MouseDownGrid>,
    combining: bool,
    combined_grids: &mut Grids,
    grids: &mut GridCells,
)
    requires
        old(combined_grids).wf(),
    ensures
        final(combined_grids).wf(),
        combining ==> (final(grids)@, final(combined_grids)@) == after_mouse_combine(
            old(grids)@,
            old(combined_grids)@,
            mouse_down@,
            mouse_down@.len(),
        ),
        !combining ==> final(grids)@ == old(grids)@ && final(combined_grids)@ == old(
            combined_grids,
        )@,
{
    let mut i: usize = 0;
    while i < mouse_down.len()
        invariant
            i <= mouse_down.len(),
            combined_grids.wf(),
            combining ==> (grids@, combined_grids@) == after_mouse_combine(
                old(grids)@,
                old(combined_grids)@,
                mouse_down@,
                i as nat,
            ),
            !combining ==> grids@ == old(grids)@ && combined_grids@ == old(combined_grids)@,
        decreases mouse_down.len() - i,
    {
        if let Some(cell) = grids.get(mouse_down[i].0) {
            if cell.passability.passable {
                if combining {
                    let x = cell.grid_pos.x;
                    let y = cell.grid_pos.y;
                    match combined_grids.get_grids_from_same_layer(x, y) {
                        Some(grid_v) => {
                            grids.change_each(&grid_v, GridChange::Tint(GridColor::Default));
                            combined_grids.remove_from_layer(x, y);
                        },
                        None => {
                            combined_grids.add_to_or_change_layer(1, x, y);
                            if let Some(grid_v) = combined_grids.get_grids_from_layer(1) {
                                grids.change_each(&grid_v, GridChange::Tint(GridColor::MouseOn));
                            }
                        },
                    }
                }
            }
        }
        i += 1;
    }
}

/// Cells were pressed: each named cell that can be walked on changes between
/// selected and not selected, and the cells of its layer follow it.
pub fn mouse_select_grid(
    mouse_down: &Vec<MouseDownGrid>,
    combined_grids: &Grids,
    grids: &mut GridCells,
)
    requires
        combined_grids.wf(),
    ensures
        final(grids)@ == after_mouse_select(
            old(grids)@,
            combined_grids@,
            mouse_down@,
            mouse_down@.len(),
        ),
{
    let mut i: usize = 0;
    while i < mouse_down.len()
        invariant
            i <= mouse_down.len(),
            combined_grids.wf(),
            grids@ == after_mouse_select(old(grids)@, combined_grids@, mouse_down@, i as nat),
        decreases mouse_down.len() - i,
    {
        let grid = mouse_down[i].0;
        if let Some(cell) = grids.get(grid) {
            match combined_grids.get_grids_from_same_layer(cell.grid_pos.x, cell.grid_pos.y) {
                Some(gridvec) => {
                    let mut selection = false;
                    if cell.passability.passable {
                        selection = !cell.selected.selected;
                    }
                    grids.change(grid, GridChange::Toggle);
                    grids.change_each(&gridvec, GridChange::Select(selection));
                },
                None => {
                    grids.change(grid, GridChange::Toggle);
                },
            }
        }
        i += 1;
    }
}

/// The pointer left cells: each named cell that can be walked on and is not
/// selected goes back to the default colour, and with it the like cells of
/// its layer.
pub fn mouse_off_grid(mouse_off: &Vec<MouseOffGrid>, combined_grids: &Grids, grids: &mut GridCells)
    requires
        combined_grids.wf(),
    ensures
        final(grids)@ == after_mouse_off(
            old(grids)@,
            combined_grids@,
            mouse_off@,
            mouse_off@.len(),
        ),
{
    let mut i: usize = 0;
    while i < mouse_off.len()
        invariant
            i <= mouse_off.len(),
            combined_grids.wf(),
            grids@ == after_mouse_off(old(grids)@, combined_grids@, mouse_off@, i as nat),
        decreases mouse_off.len() - i,
    {
        change_group(mouse_off[i].0, combined_grids, grids, GridChange::Hover(GridColor::Default));
        i += 1;
    }
}

/// The pointer makes no cell and loses none, and changes nothing of a cell
/// but its colour.
pub proof fn law_pointer_changes_colours_only(
    cells: Map<u64, GridCell>,
    layers: GridsView,
    on: Seq<MouseOnGrid>,
    off: Seq<MouseOffGrid>,
    grid: u64,
)
    ensures
        after_mouse_on(cells, layers, on, on.len()).contains_key(grid) == cells.contains_key(grid),
        after_mouse_off(cells, layers, off, off.len()).contains_key(grid) == cells.contains_key(
            grid,
        ),
        cells.contains_key(grid) ==> same_but_colour(
            after_mouse_on(cells, layers, on, on.len())[grid],
            cells[grid],
        ) && same_but_colour(after_mouse_off(cells, layers, off, off.len())[grid], cells[grid]),
{
    lemma_mouse_on_changes_colours_only(cells, layers, on, on.len(), grid);
    lemma_mouse_off_changes_colours_only(cells, layers, off, off.len(), grid);
}

/// Whether two cells are the same but for their colours.
pub open spec fn same_but_colour(first: GridCell, second: GridCell) -> bool {
    &&& first.grid_pos == second.grid_pos
    &&& first.passability == second.passability
    &&& first.selected == second.selected
    &&& first.color_and_shape.shape == second.color_and_shape.shape
}

/// A change of colour for the layer of a cell changes nothing but colours.
proof fn lemma_group_changes_colours_only(
    cells: Map<u64, GridCell>,
    layers: GridsView,
    pressed: u64,
    color: GridColor,
    grid: u64,
)
    ensures
        group_changed(cells, layers, pressed, GridChange::Hover(color)).contains_key(grid)
            == cells.contains_key(grid),
        cells.contains_key(grid) ==> same_but_colour(
            group_changed(cells, layers, pressed, GridChange::Hover(color))[grid],
            cells[grid],
        ),
{
    if cells.contains_key(pressed) {
        let x = cells[pressed].grid_pos.x;
        let y = cells[pressed].grid_pos.y;
        let group = layers.handles_with(x, y);
        law_changes_keep_the_cells(cells, group, group.len(), GridChange::Hover(color), grid);
    }
}

proof fn lemma_mouse_on_changes_colours_only(
    cells: Map<u64, GridCell>,
    layers: GridsView,
    events: Seq<MouseOnGrid>,
    n: nat,
    grid: u64,
)
    requires
        n <= events.len(),
    ensures
        after_mouse_on(cells, layers, events, n).contains_key(grid) == cells.contains_key(grid),
        cells.contains_key(grid) ==> same_but_colour(
            after_mouse_on(cells, layers, events, n)[grid],
            cells[grid],
        ),
    decreases n,
{
    if n > 0 {
        lemma_mouse_on_changes_colours_only(cells, layers, events, (n - 1) as nat, grid);
        lemma_group_changes_colours_only(
            after_mouse_on(cells, layers, events, (n - 1) as nat),
            layers,
            events[n - 1].0,
            GridColor::MouseOn,
            grid,
        );
    }
}

proof fn lemma_mouse_off_changes_colours_only(
    cells: Map<u64, GridCell>,
    layers: GridsView,
    events: Seq<MouseOffGrid>,
    n: nat,
    grid: u64,
)
    requires
        n <= events.len(),
    ensures
        after_mouse_off(cells, layers, events, n).contains_key(grid) == cells.contains_key(grid),
        cells.contains_key(grid) ==> same_but_colour(
            after_mouse_off(cells, layers, events, n)[grid],
            cells[grid],
        ),
    decreases n,
{
    if n > 0 {
        lemma_mouse_off_changes_colours_only(cells, layers, events, (n - 1) as nat, grid);
        lemma_group_changes_colours_only(
            after_mouse_off(cells, layers, events, (n - 1) as nat),
            layers,
            events[n - 1].0,
            GridColor::Default,
            grid,
        );
    }
}

/// A press makes no cell and loses none, and changes nothing of a cell but
/// whether it is selected.
pub proof fn law_press_changes_selection_only(
    cells: Map<u64, GridCell>,
    layers: GridsView,
    events: Seq<MouseDownGrid>,
    n: nat,
    grid: u64,
)
    requires
        n <= events.len(),
    ensures
        after_mouse_select(cells, layers, events, n).contains_key(grid) == cells.contains_key(grid),
        cells.contains_key(grid) ==> after_mouse_select(cells, layers, events, n)[grid].grid_pos
            == cells[grid].grid_pos && after_mouse_select(
            cells,
            layers,
            events,
            n,
        )[grid].passability == cells[grid].passability && after_mouse_select(
            cells,
            layers,
            events,
            n,
        )[grid].color_and_shape == cells[grid].color_and_shape,
        cells.contains_key(grid) && !cells[grid].passability.passable ==> after_mouse_select(
            cells,
            layers,
            events,
            n,
        )[grid] == cells[grid],
    decreases n,
{
    if n > 0 {
        law_press_changes_selection_only(cells, layers, events, (n - 1) as nat, grid);
        let before = after_mouse_select(cells, layers, events, (n - 1) as nat);
        let pressed = events[n - 1].0;
        if before.contains_key(pressed) {
            let x = before[pressed].grid_pos.x;
            let y = before[pressed].grid_pos.y;
            let group = layers.handles_with(x, y);
            let selection = before[pressed].passability.passable && !before[pressed].selected.selected;
            law_changes_keep_the_cells(
                changed_at(before, pressed, GridChange::Toggle),
                group,
                group.len(),
                GridChange::Select(selection),
                grid,
            );
            if cells.contains_key(grid) && !cells[grid].passability.passable {
                lemma_select_leaves_blocked_cells(
                    changed_at(before, pressed, GridChange::Toggle),
                    group,
                    group.len(),
                    selection,
                    grid,
                );
            }
        }
    }
}

/// A choice of selection leaves a cell that cannot be walked on as it is.
proof fn lemma_select_leaves_blocked_cells(
    cells: Map<u64, GridCell>,
    grids: Seq<u64>,
    n: nat,
    selection: bool,
    grid: u64,
)
    requires
        n <= grids.len(),
        cells.contains_key(grid),
        !cells[grid].passability.passable,
    ensures
        changed_each(cells, grids, n, GridChange::Select(selection))[grid] == cells[grid],
    decreases n,
{
    if n > 0 {
        lemma_select_leaves_blocked_cells(cells, grids, (n - 1) as nat, selection, grid);
        law_changes_keep_the_cells(cells, grids, (n - 1) as nat, GridChange::Select(selection), grid);
    }
}

} // verus!
