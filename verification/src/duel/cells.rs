//! The cells as the rules of pointer and selection see them.

use std::collections::HashMap;
use vstd::prelude::*;

use crate::duel::components::{
    GridColor, GridColorAndShape, GridPassability, GridPos, GridSelected,
};

verus! {

/// What the rules of pointer and selection read of a cell, and what they
/// change.
#[derive(PartialEq, Eq, Clone, Copy, Debug, Structural)]
pub struct GridCell {
    pub grid_pos: GridPos,
    pub passability: GridPassability,
    pub selected: GridSelected,
    pub color_and_shape: GridColorAndShape,
}

/// A change that a rule of the field makes to a cell.
#[derive(PartialEq, Eq, Clone, Copy, Debug, Structural)]
pub enum GridChange {
    /// A cell that can be walked on and is not selected takes the colour.
    Hover(GridColor),
    /// A cell that is not selected takes the colour.
    Tint(GridColor),
    /// A cell that can be walked on becomes selected if it was not, and the
    /// other way round.
    Toggle,
    /// A cell that can be walked on becomes selected, or not selected, as
    /// given.
    Select(bool),
}

impl GridChange {
    /// `cell` after the change.
    pub open spec fn spec_applied(self, cell: GridCell) -> GridCell {
        match self {
            GridChange::Hover(color) => if cell.passability.passable
                && !cell.selected.selected {
                GridCell {
                    color_and_shape: GridColorAndShape {
                        shape: cell.color_and_shape.shape,
                        color,
                    },
                    ..cell
                }
            } else {
                cell
            },
            GridChange::Tint(color) => if !cell.selected.selected {
                GridCell {
                    color_and_shape: GridColorAndShape {
                        shape: cell.color_and_shape.shape,
                        color,
                    },
                    ..cell
                }
            } else {
                cell
            },
            GridChange::Toggle => if cell.passability.passable {
                GridCell {
                    selected: GridSelected { selected: !cell.selected.selected },
                    ..cell
                }
            } else {
                cell
            },
            GridChange::Select(selected) => if cell.passability.passable {
                GridCell { selected: GridSelected { selected }, ..cell }
            } else {
                cell
            },
        }
    }

    /// `cell` after the change.
    #[verifier::when_used_as_spec(spec_applied)]
    pub fn applied(self, cell: GridCell) -> (changed: GridCell)
        ensures
            changed == self.spec_applied(cell),
    {
        let mut changed = cell;
        match self {
            GridChange::Hover(color) => {
                if cell.passability.passable && !cell.selected.selected {
                    changed.color_and_shape.color = color;
                }
            },
            GridChange::Tint(color) => {
                if !cell.selected.selected {
                    changed.color_and_shape.color = color;
                }
            },
            GridChange::Toggle => {
                if cell.passability.passable {
                    changed.selected.selected = !cell.selected.selected;
                }
            },
            GridChange::Select(selected) => {
                if cell.passability.passable {
                    changed.selected.selected = selected;
                }
            },
        }
        changed
    }
}

/// `cells` after `change` was made to the cell with handle `grid`; unchanged
/// if there is no such cell.
pub open spec fn changed_at(cells: Map<u64, GridCell>, grid: u64, change: GridChange) -> Map<
    u64,
    GridCell,
> {
    if cells.contains_key(grid) {
        cells.insert(grid, change.spec_applied(cells[grid]))
    } else {
        cells
    }
}

/// `cells` after `change` was made to the cells with the first `n` of the
/// handles `grids`, one after the other.
pub open spec fn changed_each(
    cells: Map<u64, GridCell>,
    grids: Seq<u64>,
    n: nat,
    change: GridChange,
) -> Map<u64, GridCell>
    decreases n,
{
    if n == 0 {
        cells
    } else {
        changed_at(changed_each(cells, grids, (n - 1) as nat, change), grids[n - 1], change)
    }
}

/// The cells as the rules of pointer and selection see them, by the handles
/// of the cells.
pub struct GridCells {
    cells: HashMap<u64, GridCell>,
}

impl View for GridCells {
    type V = Map<u64, GridCell>;

    closed spec fn view(&self) -> Map<u64, GridCell> {
        self.cells@
    }
}

impl GridCells {
    /// No cells.
    pub fn new() -> (cells: Self)
        ensures
            cells@ == Map::<u64, GridCell>::empty(),
    {
        GridCells { cells: HashMap::new() }
    }

    /// Sets what is known of the cell with handle `grid`.
    pub fn insert(&mut self, grid: u64, cell: GridCell)
        ensures
            final(self)@ == old(self)@.insert(grid, cell),
    {
        broadcast use vstd::std_specs::hash::group_hash_axioms;

        self.cells.insert(grid, cell);
    }

    /// What is known of the cell with handle `grid`, if there is such a cell.
    pub fn get(&self, grid: u64) -> (found: Option<GridCell>)
        ensures
            found == if self@.contains_key(grid) {
                Some(self@[grid])
            } else {
                None
            },
    {
        broadcast use vstd::std_specs::hash::group_hash_axioms;

        match self.cells.get(&grid) {
            Some(cell) => Some(*cell),
            None => None,
        }
    }

    /// Makes `change` to the cell with handle `grid`, if there is such a
    /// cell.
    pub fn change(&mut self, grid: u64, change: GridChange)
        ensures
            final(self)@ == changed_at(old(self)@, grid, change),
    {
        match self.get(grid) {
            Some(cell) => {
                self.insert(grid, change.applied(cell));
            },
            None => {},
        }
    }

    /// Makes `change` to the cells with the handles `grids`, one after the
    /// other.
    pub fn change_each(&mut self, grids: &Vec<u64>, change: GridChange)
        ensures
            final(self)@ == changed_each(old(self)@, grids@, grids@.len(), change),
    {
        let mut i: usize = 0;
        while i < grids.len()
            invariant
                i <= grids.len(),
                self@ == changed_each(old(self)@, grids@, i as nat, change),
            decreases grids.len() - i,
        {
            self.change(grids[i], change);
            i += 1;
        }
    }
}

/// No change gives a cell another place or makes it passable or not, a
/// change of colour leaves the selection alone, and a change of selection
/// leaves the colour alone.
pub proof fn law_change_keeps_the_rest(change: GridChange, cell: GridCell)
    ensures
        change.spec_applied(cell).grid_pos == cell.grid_pos,
        change.spec_applied(cell).passability == cell.passability,
        change.spec_applied(cell).color_and_shape.shape == cell.color_and_shape.shape,
        change is Hover || change is Tint ==> change.spec_applied(cell).selected == cell.selected,
        change is Toggle || change is Select ==> change.spec_applied(cell).color_and_shape
            == cell.color_and_shape,
{
}

/// A change of colour or a choice of selection made twice is the change
/// made once, and two toggles undo each other.
pub proof fn law_change_twice(change: GridChange, cell: GridCell)
    ensures
        !(change is Toggle) ==> change.spec_applied(change.spec_applied(cell))
            == change.spec_applied(cell),
        change is Toggle ==> change.spec_applied(change.spec_applied(cell)) == cell,
{
}

/// A change made to some cells makes no cell and loses none, leaves every
/// cell in its place, passable or not as it was, and leaves the cells that
/// are not named as they were.
pub proof fn law_changes_keep_the_cells(
    cells: Map<u64, GridCell>,
    grids: Seq<u64>,
    n: nat,
    change: GridChange,
    grid: u64,
)
    requires
        n <= grids.len(),
    ensures
        changed_each(cells, grids, n, change).contains_key(grid) == cells.contains_key(grid),
        cells.contains_key(grid) ==> changed_each(cells, grids, n, change)[grid].grid_pos
            == cells[grid].grid_pos && changed_each(cells, grids, n, change)[grid].passability
            == cells[grid].passability && changed_each(
            cells,
            grids,
            n,
            change,
        )[grid].color_and_shape.shape == cells[grid].color_and_shape.shape,
        cells.contains_key(grid) && (change is Hover || change is Tint) ==> changed_each(
            cells,
            grids,
            n,
            change,
        )[grid].selected == cells[grid].selected,
        cells.contains_key(grid) && (change is Toggle || change is Select) ==> changed_each(
            cells,
            grids,
            n,
            change,
        )[grid].color_and_shape == cells[grid].color_and_shape,
        cells.contains_key(grid) && (forall|i: int| 0 <= i < n ==> grids[i] != grid)
            ==> changed_each(cells, grids, n, change)[grid] == cells[grid],
    decreases n,
{
    if n > 0 {
        law_changes_keep_the_cells(cells, grids, (n - 1) as nat, change, grid);
    }
}

} // verus!
