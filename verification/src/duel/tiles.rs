//! The tile of a cell: its shape and rotation, read off the mask of its
//! neighbours.

use vstd::prelude::*;

use crate::duel::components::{GridRot, GridShape};

verus! {

/// Whether `mask` says that the cell above is in the same layer.
pub open spec fn has_up(mask: u8) -> bool {
    mask % 2 == 1
}

/// Whether `mask` says that the cell below is in the same layer.
pub open spec fn has_down(mask: u8) -> bool {
    (mask / 2) % 2 == 1
}

/// Whether `mask` says that the cell to the right is in the same layer.
pub open spec fn has_right(mask: u8) -> bool {
    (mask / 4) % 2 == 1
}

/// Whether `mask` says that the cell to the left is in the same layer.
pub open spec fn has_left(mask: u8) -> bool {
    (mask / 8) % 2 == 1
}

/// The mask of a cell: one for a neighbour above, two for one below, four
/// for one to the right, eight for one to the left.
pub open spec fn mask_of(up: bool, down: bool, right: bool, left: bool) -> u8 {
    ((if up { 1int } else { 0 }) + (if down { 2int } else { 0 }) + (if right { 4int } else { 0 })
        + (if left { 8int } else { 0 })) as u8
}

/// The tile of a cell with the given mask: the table the tile textures were
/// drawn for. A mask above fifteen names no set of neighbours and is read as
/// none.
pub open spec fn classify(mask: u8) -> (GridShape, GridRot) {
    if mask == 0b0001 {
        (GridShape::Cup, GridRot::Deg90)
    } else if mask == 0b0010 {
        (GridShape::Cup, GridRot::DegNeg90)
    } else if mask == 0b0100 {
        (GridShape::Cup, GridRot::Deg0)
    } else if mask == 0b1000 {
        (GridShape::Cup, GridRot::Deg180)
    } else if mask == 0b0011 {
        (GridShape::Pipe, GridRot::Deg90)
    } else if mask == 0b1100 {
        (GridShape::Pipe, GridRot::Deg0)
    } else if mask == 0b0101 {
        (GridShape::Corner, GridRot::Deg90)
    } else if mask == 0b1001 {
        (GridShape::Corner, GridRot::Deg180)
    } else if mask == 0b0110 {
        (GridShape::Corner, GridRot::Deg0)
    } else if mask == 0b1010 {
        (GridShape::Corner, GridRot::DegNeg90)
    } else if mask == 0b0111 {
        (GridShape::Side, GridRot::Deg90)
    } else if mask == 0b1011 {
        (GridShape::Side, GridRot::DegNeg90)
    } else if mask == 0b1101 {
        (GridShape::Side, GridRot::Deg180)
    } else if mask == 0b1110 {
        (GridShape::Side, GridRot::Deg0)
    } else if mask == 0b1111 {
        (GridShape::Empty, GridRot::Deg0)
    } else {
        (GridShape::Closed, GridRot::Deg0)
    }
}

/// How many of the four neighbours `mask` names.
pub open spec fn neighbour_count(mask: u8) -> int {
    (if has_up(mask) { 1int } else { 0 }) + (if has_down(mask) { 1int } else { 0 }) + (if has_right(
        mask,
    ) { 1int } else { 0 }) + (if has_left(mask) { 1int } else { 0 })
}

/// The shape of a tile goes by the number of neighbours, and for two of them
/// by whether they face each other.
pub proof fn law_shape_by_neighbours(mask: u8)
    requires
        mask < 16,
    ensures
        neighbour_count(mask) == 0 <==> classify(mask).0 == GridShape::Closed,
        neighbour_count(mask) == 1 <==> classify(mask).0 == GridShape::Cup,
        neighbour_count(mask) == 2 && (has_up(mask) == has_down(mask)) <==> classify(mask).0
            == GridShape::Pipe,
        neighbour_count(mask) == 2 && (has_up(mask) != has_down(mask)) <==> classify(mask).0
            == GridShape::Corner,
        neighbour_count(mask) == 3 <==> classify(mask).0 == GridShape::Side,
        neighbour_count(mask) == 4 <==> classify(mask).0 == GridShape::Empty,
{
}

/// A mask is below sixteen and names the neighbours it was made of, and
/// every mask below sixteen is made of the neighbours it names.
pub proof fn law_mask_names_its_neighbours(up: bool, down: bool, right: bool, left: bool, mask: u8)
    ensures
        mask_of(up, down, right, left) < 16,
        has_up(mask_of(up, down, right, left)) == up,
        has_down(mask_of(up, down, right, left)) == down,
        has_right(mask_of(up, down, right, left)) == right,
        has_left(mask_of(up, down, right, left)) == left,
        mask < 16 ==> mask == mask_of(has_up(mask), has_down(mask), has_right(mask), has_left(mask)),
{
}

/// The tile that stands alone and the tile that shows nothing are not
/// turned.
pub proof fn law_unturned_tiles(mask: u8)
    ensures
        classify(mask).0 == GridShape::Closed || classify(mask).0 == GridShape::Empty
            ==> classify(mask).1 == GridRot::Deg0,
{
}

/// The tile shape and rotation of a cell whose neighbours in the same layer
/// are those that `result` names.
pub fn compute_shape_and_rot(result: u8) -> (tile: (GridShape, GridRot))
    ensures
        tile == classify(result),
{
    match result {
        0b0000 => (GridShape::Closed, GridRot::Deg0),
        0b0001 => (GridShape::Cup, GridRot::Deg90),
        0b0010 => (GridShape::Cup, GridRot::DegNeg90),
        0b0100 => (GridShape::Cup, GridRot::Deg0),
        0b1000 => (GridShape::Cup, GridRot::Deg180),
        0b0011 => (GridShape::Pipe, GridRot::Deg90),
        0b1100 => (GridShape::Pipe, GridRot::Deg0),
        0b0101 => (GridShape::Corner, GridRot::Deg90),
        0b1001 => (GridShape::Corner, GridRot::Deg180),
        0b0110 => (GridShape::Corner, GridRot::Deg0),
        0b1010 => (GridShape::Corner, GridRot::DegNeg90),
        0b0111 => (GridShape::Side, GridRot::Deg90),
        0b1011 => (GridShape::Side, GridRot::DegNeg90),
        0b1101 => (GridShape::Side, GridRot::Deg180),
        0b1110 => (GridShape::Side, GridRot::Deg0),
        0b1111 => (GridShape::Empty, GridRot::Deg0),
        _ => (GridShape::Closed, GridRot::Deg0),
    }
}

/// The cell next to `pos`: above it for `dir` 0, below it for 1, to its right
/// for 2, to its left for 3. There is none where the field ends.
pub open spec fn neighbour(pos: (u8, u8), dir: int) -> Option<(u8, u8)> {
    if dir == 0 {
        if pos.1 < 255 {
            Some((pos.0, (pos.1 + 1) as u8))
        } else {
            None
        }
    } else if dir == 1 {
        if pos.1 > 0 {
            Some((pos.0, (pos.1 - 1) as u8))
        } else {
            None
        }
    } else if dir == 2 {
        if pos.0 < 255 {
            Some(((pos.0 + 1) as u8, pos.1))
        } else {
            None
        }
    } else if dir == 3 {
        if pos.0 > 0 {
            Some(((pos.0 - 1) as u8, pos.1))
        } else {
            None
        }
    } else {
        None
    }
}

/// Whether `a` and `b` lie side by side: in one column or row, one step
/// apart.
pub open spec fn adjacent(a: (u8, u8), b: (u8, u8)) -> bool {
    ||| a.0 == b.0 && (a.1 + 1 == b.1 || b.1 + 1 == a.1)
    ||| a.1 == b.1 && (a.0 + 1 == b.0 || b.0 + 1 == a.0)
}

/// Whether the neighbour of `pos` in direction `dir` is among `cells`.
pub open spec fn joined(cells: Seq<(u8, u8)>, pos: (u8, u8), dir: int) -> bool {
    match neighbour(pos, dir) {
        Some(next) => cells.contains(next),
        None => false,
    }
}

/// The mask of the cell at `pos` in a layer made of `cells`.
pub open spec fn mask_in(cells: Seq<(u8, u8)>, pos: (u8, u8)) -> u8 {
    mask_of(joined(cells, pos, 0), joined(cells, pos, 1), joined(cells, pos, 2), joined(cells, pos, 3))
}

/// Whether `(x, y)` is among `cells`.
pub(crate) fn contains_pos(cells: &Vec<(u8, u8)>, x: u8, y: u8) -> (found: bool)
    ensures
        found == cells@.contains((x, y)),
{
    let mut i: usize = 0;
    while i < cells.len()
        invariant
            i <= cells.len(),
            forall|j: int| 0 <= j < i ==> cells@[j] != (x, y),
        decreases cells.len() - i,
    {
        let cell = cells[i];
        if cell.0 == x && cell.1 == y {
            return true;
        }
        i += 1;
    }
    false
}

/// The cell next to `pos` in direction `dir`, if the field reaches that far.
pub(crate) fn neighbour_of(pos: (u8, u8), dir: u8) -> (next: Option<(u8, u8)>)
    ensures
        next == neighbour(pos, dir as int),
{
    if dir == 0 {
        if pos.1 < 255 {
            Some((pos.0, pos.1 + 1))
        } else {
            None
        }
    } else if dir == 1 {
        if pos.1 > 0 {
            Some((pos.0, pos.1 - 1))
        } else {
            None
        }
    } else if dir == 2 {
        if pos.0 < 255 {
            Some((pos.0 + 1, pos.1))
        } else {
            None
        }
    } else if dir == 3 {
        if pos.0 > 0 {
            Some((pos.0 - 1, pos.1))
        } else {
            None
        }
    } else {
        None
    }
}

/// Whether the neighbour of `pos` in direction `dir` is among `cells`.
pub(crate) fn is_joined(cells: &Vec<(u8, u8)>, pos: (u8, u8), dir: u8) -> (found: bool)
    ensures
        found == joined(cells@, pos, dir as int),
{
    match neighbour_of(pos, dir) {
        Some(next) => contains_pos(cells, next.0, next.1),
        None => false,
    }
}

/// The mask of the cell at `pos` in a layer made of `cells`.
pub(crate) fn mask_among(cells: &Vec<(u8, u8)>, pos: (u8, u8)) -> (mask: u8)
    ensures
        mask == mask_in(cells@, pos),
{
    let mut mask: u8 = 0;
    if is_joined(cells, pos, 0) {
        mask += 1;
    }
    if is_joined(cells, pos, 1) {
        mask += 2;
    }
    if is_joined(cells, pos, 2) {
        mask += 4;
    }
    if is_joined(cells, pos, 3) {
        mask += 8;
    }
    mask
}

} // verus!
