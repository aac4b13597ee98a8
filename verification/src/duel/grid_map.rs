//! The field as it is loaded: which cells there are, and of what kind.

use vstd::prelude::*;

use crate::duel::tables::{
    kind_entries, kind_table_entries, kind_table_get, kind_table_insert, kind_table_new, KindTable,
};

verus! {

/// The kind of a cell of the field.
#[derive(PartialEq, Eq, Clone, Copy, Debug, Structural)]
pub enum GridType {
    Passable,
    Unpassable,
    Breakable,
}

/// What a [`GridMap`] holds.
pub struct GridMapView {
    /// The kind of each cell the field has.
    pub map: Map<(u8, u8), GridType>,
    pub max_x: u8,
    pub max_y: u8,
}

impl GridMapView {
    /// `max_x` and `max_y` are the largest column and row of a cell, and 0
    /// where there is no cell.
    pub open spec fn wf(self) -> bool {
        &&& forall|pos: (u8, u8)| #[trigger]
            self.map.contains_key(pos) ==> pos.0 <= self.max_x && pos.1 <= self.max_y
        &&& self.max_x > 0 ==> exists|pos: (u8, u8)| #[trigger]
            self.map.contains_key(pos) && pos.0 == self.max_x
        &&& self.max_y > 0 ==> exists|pos: (u8, u8)| #[trigger]
            self.map.contains_key(pos) && pos.1 == self.max_y
    }

    /// The field with a cell of kind `grid_type` at `(x, y)`, unless it has a
    /// cell there already.
    pub open spec fn add(self, x: u8, y: u8, grid_type: GridType) -> GridMapView {
        if self.map.contains_key((x, y)) {
            self
        } else {
            GridMapView {
                map: self.map.insert((x, y), grid_type),
                max_x: if x > self.max_x {
                    x
                } else {
                    self.max_x
                },
                max_y: if y > self.max_y {
                    y
                } else {
                    self.max_y
                },
            }
        }
    }
}

/// The kind of cell that a pixel with the given red, green and blue stands
/// for: red marks a cell nothing can pass, green without red a cell that can
/// be broken, blue alone a cell that is free; black is no cell.
pub open spec fn pixel_kind(red: u8, green: u8, blue: u8) -> Option<GridType> {
    if red > 0 {
        Some(GridType::Unpassable)
    } else if green > 0 {
        Some(GridType::Breakable)
    } else if blue > 0 {
        Some(GridType::Passable)
    } else {
        None
    }
}

/// Where the four bytes of the pixel for the cell at `(x, y)` start, in
/// pixel data of length `len` for rows of `width` cells. The data is read
/// from its end: its last pixel is the cell at the right end of row 0.
pub open spec fn pixel_start(width: u8, len: int, x: u8, y: u8) -> int {
    len - 4 * (y * width + (width - x))
}

/// The kind of the cell at `(x, y)` in the pixel data, if the pixel stands
/// for a cell.
pub open spec fn image_kind(width: u8, data: Seq<u8>, x: u8, y: u8) -> Option<GridType> {
    let start = pixel_start(width, data.len() as int, x, y);
    pixel_kind(data[start], data[start + 1], data[start + 2])
}

/// The cells that pixel data of `height` rows of `width` pixels stands for.
pub open spec fn image_map(width: u8, height: u8, data: Seq<u8>) -> Map<(u8, u8), GridType> {
    Map::new(
        |pos: (u8, u8)| pos.0 < width && pos.1 < height && image_kind(width, data, pos.0, pos.1) is Some,
        |pos: (u8, u8)| image_kind(width, data, pos.0, pos.1).unwrap(),
    )
}

/// The cells of [`image_map`] that come before `(x, y)` when the rows are
/// read from row 0 up, each from its right end.
pub open spec fn image_map_before(width: u8, data: Seq<u8>, x: int, y: int) -> Map<
    (u8, u8),
    GridType,
> {
    Map::new(
        |pos: (u8, u8)|
            pos.0 < width && (pos.1 < y || (pos.1 == y && pos.0 >= x)) && image_kind(
                width,
                data,
                pos.0,
                pos.1,
            ) is Some,
        |pos: (u8, u8)| image_kind(width, data, pos.0, pos.1).unwrap(),
    )
}

/// A field as it is loaded: the kind of every cell it has, and the largest
/// column and row among them.
pub struct GridMap {
    map: KindTable,
    max_x: u8,
    max_y: u8,
}

impl View for GridMap {
    type V = GridMapView;

    closed spec fn view(&self) -> GridMapView {
        GridMapView { map: kind_entries(self.map), max_x: self.max_x, max_y: self.max_y }
    }
}

/// The kind that one pixel stands for.
fn kind_of_pixel(red: u8, green: u8, blue: u8) -> (kind: Option<GridType>)
    ensures
        kind == pixel_kind(red, green, blue),
{
    if red > 0 {
        Some(GridType::Unpassable)
    } else if green > 0 {
        Some(GridType::Breakable)
    } else if blue > 0 {
        Some(GridType::Passable)
    } else {
        None
    }
}

impl GridMap {
    /// Whether what the field holds fits together: see [`GridMapView::wf`].
    pub open spec fn wf(&self) -> bool {
        self@.wf()
    }

    /// A field without cells.
    pub fn new() -> (grid_map: Self)
        ensures
            grid_map.wf(),
            grid_map@.map == Map::<(u8, u8), GridType>::empty(),
            grid_map@.max_x == 0,
            grid_map@.max_y == 0,
    {
        let grid_map = GridMap { map: kind_table_new(), max_x: 0, max_y: 0 };
        assert(grid_map@.map =~= Map::empty());
        grid_map
    }

    /// Reads a field from the pixels of an image of `height` rows of `width`
    /// pixels, four bytes each: red, green, blue and one more. The pixels are
    /// taken from the end of `data`, row 0 first and each row from its right
    /// end.
    pub fn create_from_image(width: u8, height: u8, data: &Vec<u8>) -> (grid_map: Self)
        requires
            data@.len() >= 4 * width * height,
        ensures
            grid_map.wf(),
            grid_map@.map == image_map(width, height, data@),
    {
        let mut grid_map = GridMap::new();
        let len = data.len();
        let mut y: u8 = 0;
        assert(grid_map@.map =~= image_map_before(width, data@, width as int, 0));
        while y < height
            invariant
                y <= height,
                len == data@.len(),
                len >= 4 * width * height,
                grid_map.wf(),
                grid_map@.map == image_map_before(width, data@, width as int, y as int),
            decreases height - y,
        {
            let mut x: u8 = width;
            while x > 0
                invariant
                    x <= width,
                    y < height,
                    len == data@.len(),
                    len >= 4 * width * height,
                    grid_map.wf(),
                    grid_map@.map == image_map_before(width, data@, x as int, y as int),
                decreases x,
            {
                x -= 1;
                assert(4 * (y * width + (width - x)) <= 4 * width * height) by (nonlinear_arith)
                    requires
                        y < height,
                        x < width,
                ;
                assert(y * width >= 0) by (nonlinear_arith);
                assert(y * width <= 255 * 255) by (nonlinear_arith)
                    requires
                        y <= 255,
                        width <= 255,
                ;
                let back: usize = 4 * (y as usize * width as usize + (width - x) as usize);
                let start: usize = len - back;
                assert(start == pixel_start(width, data@.len() as int, x, y));
                let ghost before = grid_map@.map;
                match kind_of_pixel(data[start], data[start + 1], data[start + 2]) {
                    Some(kind) => {
                        assert(!before.contains_key((x, y)));
                        grid_map.add(x, y, kind);
                    },
                    None => {},
                }
                assert(grid_map@.map =~= image_map_before(width, data@, x as int, y as int));
            }
            y += 1;
            assert(grid_map@.map =~= image_map_before(width, data@, width as int, y as int));
        }
        assert(grid_map@.map =~= image_map(width, height, data@));
        grid_map
    }

    /// Adds a cell of kind `grid_type` at `(x, y)`, unless there is a cell
    /// already.
    pub fn add(&mut self, x: u8, y: u8, grid_type: GridType)
        requires
            old(self).wf(),
        ensures
            final(self).wf(),
            final(self)@ == old(self)@.add(x, y, grid_type),
    {
        if kind_table_get(&self.map, (x, y)).is_some() {
            return ;
        }
        if x > self.max_x {
            self.max_x = x;
        }
        if y > self.max_y {
            self.max_y = y;
        }
        kind_table_insert(&mut self.map, (x, y), grid_type);
        proof {
            assert(self@.map.contains_key((x, y)));
            assert forall|pos: (u8, u8)| #[trigger] self@.map.contains_key(pos) implies pos.0
                <= self@.max_x && pos.1 <= self@.max_y by {
                if pos != (x, y) {
                    assert(old(self)@.map.contains_key(pos));
                }
            }
            if self@.max_x > 0 {
                if x > old(self)@.max_x {
                    assert(self@.map.contains_key((x, y)) && (x, y).0 == self@.max_x);
                } else {
                    let pos = choose|pos: (u8, u8)| #[trigger]
                        old(self)@.map.contains_key(pos) && pos.0 == old(self)@.max_x;
                    assert(self@.map.contains_key(pos) && pos.0 == self@.max_x);
                }
            }
            if self@.max_y > 0 {
                if y > old(self)@.max_y {
                    assert(self@.map.contains_key((x, y)) && (x, y).1 == self@.max_y);
                } else {
                    let pos = choose|pos: (u8, u8)| #[trigger]
                        old(self)@.map.contains_key(pos) && pos.1 == old(self)@.max_y;
                    assert(self@.map.contains_key(pos) && pos.1 == self@.max_y);
                }
            }
        }
    }

    /// The kind of the cell at `(x, y)`, if there is a cell.
    pub fn get(&self, x: u8, y: u8) -> (found: Option<&GridType>)
        ensures
            match found {
                Some(kind) => self@.map.contains_key((x, y)) && self@.map[(x, y)] == *kind,
                None => !self@.map.contains_key((x, y)),
            },
    {
        kind_table_get(&self.map, (x, y))
    }

    /// All cells with their kinds, each once, in no particular order.
    pub fn get_map(&self) -> (cells: Vec<((u8, u8), GridType)>)
        ensures
            forall|i: int, j: int| 0 <= i < j < cells@.len() ==> cells@[i].0 != cells@[j].0,
            forall|i: int|
                0 <= i < cells@.len() ==> self@.map.contains_key(#[trigger] cells@[i].0)
                    && self@.map[cells@[i].0] == cells@[i].1,
            forall|pos: (u8, u8)|
                self@.map.contains_key(pos) ==> exists|i: int|
                    0 <= i < cells@.len() && #[trigger] cells@[i].0 == pos,
    {
        kind_table_entries(&self.map)
    }

    /// The largest column and the largest row of a cell; 0 and 0 for a field
    /// without cells.
    pub fn get_max(&self) -> (max: (u8, u8))
        ensures
            max == (self@.max_x, self@.max_y),
    {
        (self.max_x, self.max_y)
    }
}

} // verus!
