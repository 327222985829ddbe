//! A simpler screen with dimensions fixed at creation: writes must stay
//! inside the grid, and rendering packs the whole grid into 2x2
//! quadrant-block characters.

use crate::screen::{cell_at, spec_block_char};
use vstd::prelude::*;

verus! {

/// One 2x2 glyph cell: top-left, top-right, bottom-left, bottom-right.
pub type Pixel = (bool, bool, bool, bool);

/// Map a 2x2 cell to its quadrant-block character.
pub fn pixel_to_char(pixel: &Pixel) -> (c: char)
    ensures
        c == spec_block_char(pixel.0, pixel.1, pixel.2, pixel.3),
{
    match *pixel {
        (false, false, false, false) => ' ',
        (true, false, false, false) => '▘',
        (false, true, false, false) => '▝',
        (true, true, false, false) => '▀',
        (false, false, true, false) => '▖',
        (true, false, true, false) => '▌',
        (false, true, true, false) => '▞',
        (true, true, true, false) => '▛',
        (false, false, false, true) => '▗',
        (true, false, false, true) => '▚',
        (false, true, false, true) => '▐',
        (true, true, false, true) => '▜',
        (false, false, true, true) => '▄',
        (true, false, true, true) => '▙',
        (false, true, true, true) => '▟',
        (true, true, true, true) => '█',
    }
}

/// A screen-cell coordinate: origin top-left, `y` growing downward.
pub struct Point {
    pub x: usize,
    pub y: usize,
}

impl Point {
    /// Create a new point.
    pub fn new(x: usize, y: usize) -> (p: Point)
        ensures
            p.x == x,
            p.y == y,
    {
        Point { x, y }
    }
}

/// A boolean pixel buffer whose dimensions are fixed when it is made.
pub struct Screen {
    pub dimensions: Point,
    pub content: Vec<Vec<bool>>,
}

impl Screen {
    /// The pixel grid, as a sequence of rows.
    pub open spec fn grid(&self) -> Seq<Seq<bool>> {
        self.content@.map_values(|r: Vec<bool>| r@)
    }

    /// The grid holds exactly `dimensions.y` rows of `dimensions.x`
    /// cells, and both dimensions fit a terminal's range.
    pub open spec fn wf(&self) -> bool {
        &&& self.grid().len() == self.dimensions.y as int
        &&& forall|y: int|
            0 <= y < self.dimensions.y as int ==> (#[trigger] self.grid()[y]).len()
                == self.dimensions.x as int
        &&& self.dimensions.x <= 0xFFFF
        &&& self.dimensions.y <= 0xFFFF
    }

    /// Create a new screen of the given dimensions, all cells unlit.
    pub fn new(dimensions: Point) -> (s: Screen)
        requires
            dimensions.x <= 0xFFFF,
            dimensions.y <= 0xFFFF,
        ensures
            s.wf(),
            s.dimensions.x == dimensions.x,
            s.dimensions.y == dimensions.y,
            forall|y: int, x: int|
                0 <= y < dimensions.y as int && 0 <= x < dimensions.x as int
                    ==> !(#[trigger] s.grid()[y][x]),
    {
        let mut content: Vec<Vec<bool>> = Vec::new();
        while content.len() < dimensions.y
            invariant
                dimensions.x <= 0xFFFF,
                content.len() <= dimensions.y,
                forall|y: int|
                    0 <= y < content.len() ==> (#[trigger] content@[y])@ =~= Seq::new(
                        dimensions.x as nat,
                        |x: int| false,
                    ),
            decreases dimensions.y - content.len(),
        {
            let mut row: Vec<bool> = Vec::new();
            while row.len() < dimensions.x
                invariant
                    row.len() <= dimensions.x,
                    forall|x: int| 0 <= x < row.len() ==> !(#[trigger] row@[x]),
                decreases dimensions.x - row.len(),
            {
                row.push(false);
            }
            content.push(row);
        }
        let s = Screen { content, dimensions };
        proof {
            assert(forall|y: int|
                0 <= y < s.dimensions.y as int ==> (#[trigger] s.grid()[y])
                    =~= s.content@[y]@);
        }
        s
    }

    /// Write a value to one cell.  The coordinate must lie inside the
    /// grid.
    pub fn write(&mut self, val: bool, point: &Point)
        requires
            old(self).wf(),
            point.x < old(self).dimensions.x,
            point.y < old(self).dimensions.y,
        ensures
            final(self).wf(),
            final(self).dimensions == old(self).dimensions,
            final(self).grid() == old(self).grid().update(
                point.y as int,
                old(self).grid()[point.y as int].update(point.x as int, val),
            ),
    {
        proof {
            assert(self.content@.len() == self.grid().len());
            assert(self.grid()[point.y as int] == self.content@[point.y as int]@);
            assert(self.grid()[point.y as int].len() == self.dimensions.x as int);
        }
        self.content[point.y][point.x] = val;
        proof {
            assert(self.grid() =~~= old(self).grid().update(
                point.y as int,
                old(self).grid()[point.y as int].update(point.x as int, val),
            ));
        }
    }

    /// Reset every cell to unlit, keeping the dimensions.
    pub fn clear(&mut self)
        requires
            old(self).wf(),
        ensures
            final(self).wf(),
            final(self).dimensions == old(self).dimensions,
            forall|y: int, x: int|
                0 <= y < old(self).dimensions.y as int && 0 <= x < old(self).dimensions.x as int
                    ==> !(#[trigger] final(self).grid()[y][x]),
    {
        let fresh = Screen::new(Point::new(self.dimensions.x, self.dimensions.y));
        self.content = fresh.content;
    }

    /// Pack the grid into rows of 2x2 quadrant-block characters, one
    /// character per cell, missing pixels in a partial last row or
    /// column reading as unlit.
    pub fn render(&self) -> (rows: Vec<Vec<char>>)
        requires
            self.wf(),
        ensures
            rows@.len() == (self.dimensions.y + 1) as int / 2,
            forall|r: int| 0 <= r < rows@.len() ==> (#[trigger] rows@[r])@.len()
                == (self.dimensions.x + 1) as int / 2,
            forall|r: int, c: int|
                0 <= r < rows@.len() && 0 <= c < (self.dimensions.x + 1) as int / 2
                    ==> (#[trigger] rows@[r]@[c]) == spec_block_char(
                    cell_at(self.grid(), 2 * c, 2 * r),
                    cell_at(self.grid(), 2 * c + 1, 2 * r),
                    cell_at(self.grid(), 2 * c, 2 * r + 1),
                    cell_at(self.grid(), 2 * c + 1, 2 * r + 1),
                ),
    {
        let row_count = (self.dimensions.y + 1) / 2;
        let col_count = (self.dimensions.x + 1) / 2;
        let mut rows: Vec<Vec<char>> = Vec::new();
        while rows.len() < row_count
            invariant
                self.wf(),
                rows.len() <= row_count,
                row_count == (self.dimensions.y + 1) as int / 2,
                col_count == (self.dimensions.x + 1) as int / 2,
                forall|r: int| 0 <= r < rows@.len() ==> (#[trigger] rows@[r])@.len()
                    == col_count as int,
                forall|r: int, c: int|
                    0 <= r < rows@.len() && 0 <= c < col_count as int
                        ==> (#[trigger] rows@[r]@[c]) == spec_block_char(
                        cell_at(self.grid(), 2 * c, 2 * r),
                        cell_at(self.grid(), 2 * c + 1, 2 * r),
                        cell_at(self.grid(), 2 * c, 2 * r + 1),
                        cell_at(self.grid(), 2 * c + 1, 2 * r + 1),
                    ),
            decreases row_count - rows.len(),
        {
            let r = rows.len();
            let mut row: Vec<char> = Vec::new();
            while row.len() < col_count
                invariant
                    self.wf(),
                    r < row_count,
                    row_count == (self.dimensions.y + 1) as int / 2,
                    col_count == (self.dimensions.x + 1) as int / 2,
                    row.len() <= col_count,
                    forall|c: int|
                        0 <= c < row@.len() ==> #[trigger] row@[c] == spec_block_char(
                            cell_at(self.grid(), 2 * c, 2 * r),
                            cell_at(self.grid(), 2 * c + 1, 2 * r),
                            cell_at(self.grid(), 2 * c, 2 * r + 1),
                            cell_at(self.grid(), 2 * c + 1, 2 * r + 1),
                        ),
                decreases col_count - row.len(),
            {
                let c = row.len();
                let pixel: Pixel = (
                    self.cell(2 * c, 2 * r),
                    self.cell(2 * c + 1, 2 * r),
                    self.cell(2 * c, 2 * r + 1),
                    self.cell(2 * c + 1, 2 * r + 1),
                );
                row.push(pixel_to_char(&pixel));
            }
            rows.push(row);
        }
        rows
    }

    /// Read one cell, with coordinates outside the grid reading as
    /// unlit.
    fn cell(&self, x: usize, y: usize) -> (v: bool)
        requires
            self.wf(),
        ensures
            v == cell_at(self.grid(), x as int, y as int),
    {
        if y < self.dimensions.y && x < self.dimensions.x {
            proof {
                assert(self.content@.len() == self.grid().len());
                assert(self.grid()[y as int] == self.content@[y as int]@);
                assert(self.grid()[y as int].len() == self.dimensions.x as int);
            }
            self.content[y][x]
        } else {
            false
        }
    }
}

} // verus!
