//! The framebuffer: a resizable two-dimensional boolean pixel grid, the
//! Bresenham line rasterizer that draws into it, and the packing of the
//! grid into terminal glyphs (2x2 block characters or 2x4 braille
//! characters).

use vstd::prelude::*;

verus! {

/// A screen-space pixel coordinate.  The origin is the top-left corner;
/// `y` grows downward.
#[derive(Copy, Clone)]
pub struct Point {
    pub x: i32,
    pub y: i32,
}

impl Point {
    /// Create a new point.
    pub fn new(x: i32, y: i32) -> (p: Point)
        ensures
            p.x == x,
            p.y == y,
    {
        Point { x, y }
    }
}

/// The grid `g` cut or grown to `w` columns by `h` rows: cells kept from
/// `g` where both indices stay in range, all-false cells elsewhere.
pub open spec fn resized(g: Seq<Seq<bool>>, w: int, h: int) -> Seq<Seq<bool>> {
    Seq::new(h as nat, |y: int| Seq::new(w as nat, |x: int|
        if y < g.len() && x < g[y].len() {
            g[y][x]
        } else {
            false
        }))
}

/// The grid `g` after one cell write: cell `(x, y)` becomes `val` when it
/// lies inside the grid, and nothing changes when it does not.
pub open spec fn written(g: Seq<Seq<bool>>, x: int, y: int, val: bool) -> Seq<Seq<bool>> {
    if 0 <= y < g.len() && 0 <= x < g[y].len() {
        g.update(y, g[y].update(x, val))
    } else {
        g
    }
}

/// A boolean pixel buffer to render into.
pub struct Screen {
    pub width: u16,
    pub height: u16,
    pub content: Vec<Vec<bool>>,
}

impl Screen {
    /// The pixel grid, as a sequence of `height` rows of `width` cells each.
    pub open spec fn grid(&self) -> Seq<Seq<bool>> {
        self.content@.map_values(|r: Vec<bool>| r@)
    }

    /// The grid always holds exactly `height` rows of exactly `width`
    /// cells; no row is ragged.
    pub open spec fn wf(&self) -> bool {
        &&& self.grid().len() == self.height as int
        &&& forall|y: int|
            0 <= y < self.height as int ==> (#[trigger] self.grid()[y]).len() == self.width as int
    }

    /// Create a new, empty screen.  It is grown to a useful size by
    /// `resize` or one of the terminal-fitting calls.
    pub fn new() -> (s: Screen)
        ensures
            s.wf(),
            s.width == 0,
            s.height == 0,
    {
        Screen { content: Vec::new(), width: 0, height: 0 }
    }

    /// Write a value to one cell.  A coordinate outside the buffer is
    /// silently dropped.
    pub fn write(&mut self, val: bool, point: &Point)
        requires
            old(self).wf(),
        ensures
            final(self).wf(),
            final(self).width == old(self).width,
            final(self).height == old(self).height,
            final(self).grid() == written(old(self).grid(), point.x as int, point.y as int, val),
    {
        let x_in_bounds = 0 <= point.x && point.x < self.width as i32;
        let y_in_bounds = 0 <= point.y && point.y < self.height as i32;
        if x_in_bounds && y_in_bounds {
            let xu = point.x as usize;
            let yu = point.y as usize;
            proof {
                assert(self.content@.len() == self.grid().len());
                assert(self.grid()[yu as int] == self.content@[yu as int]@);
                assert(self.grid()[yu as int].len() == self.width as int);
            }
            self.content[yu][xu] = val;
            proof {
                assert(self.grid() =~~= old(self).grid().update(
                    yu as int,
                    old(self).grid()[yu as int].update(xu as int, val),
                ));
            }
        }
    }

    /// Reallocate the grid to all-false cells at the current dimensions.
    pub fn clear(&mut self)
        requires
            old(self).wf(),
        ensures
            final(self).wf(),
            final(self).width == old(self).width,
            final(self).height == old(self).height,
            final(self).grid() == resized(
                Seq::<Seq<bool>>::empty(),
                old(self).width as int,
                old(self).height as int,
            ),
    {
        let width = self.width;
        let height = self.height;
        let mut content: Vec<Vec<bool>> = Vec::new();
        while content.len() < height as usize
            invariant
                content.len() <= height as usize,
                forall|y: int|
                    0 <= y < content.len() ==> (#[trigger] content@[y])@ =~= Seq::new(
                        width as nat,
                        |x: int| false,
                    ),
            decreases height as usize - content.len(),
        {
            let mut row: Vec<bool> = Vec::new();
            while row.len() < width as usize
                invariant
                    row.len() <= width as usize,
                    forall|x: int| 0 <= x < row.len() ==> !(#[trigger] row@[x]),
                decreases width as usize - row.len(),
            {
                row.push(false);
            }
            content.push(row);
        }
        self.content = content;
        proof {
            assert(self.grid() =~~= resized(
                Seq::<Seq<bool>>::empty(),
                self.width as int,
                self.height as int,
            ));
        }
    }

    /// Resize the grid, independently on each axis: cells at coordinates
    /// kept across the resize are preserved, new cells are false, cells
    /// outside the new bounds are discarded.
    pub fn resize(&mut self, width: u16, height: u16)
        requires
            old(self).wf(),
        ensures
            final(self).wf(),
            final(self).width == width,
            final(self).height == height,
            final(self).grid() == resized(old(self).grid(), width as int, height as int),
    {
        if width == self.width && height == self.height {
            proof {
                lemma_resized_identity(self.grid(), width as int, height as int);
            }
            return ;
        }
        let ghost g0 = self.grid();
        let mut content: Vec<Vec<bool>> = Vec::new();
        while content.len() < height as usize
            invariant
                old(self).wf(),
                g0 == old(self).grid(),
                content.len() <= height as usize,
                self == old(self),
                forall|y: int|
                    0 <= y < content.len() ==> (#[trigger] content@[y])@ =~= resized(
                        g0,
                        width as int,
                        height as int,
                    )[y],
            decreases height as usize - content.len(),
        {
            let y = content.len();
            let mut row: Vec<bool> = Vec::new();
            while row.len() < width as usize
                invariant
                    old(self).wf(),
                    g0 == old(self).grid(),
                    y < height as usize,
                    self == old(self),
                    row.len() <= width as usize,
                    forall|x: int|
                        0 <= x < row.len() ==> #[trigger] row@[x] == resized(
                            g0,
                            width as int,
                            height as int,
                        )[y as int][x],
                decreases width as usize - row.len(),
            {
                let x = row.len();
                let v = if y < self.height as usize && x < self.width as usize {
                    proof {
                        assert(self.content@.len() == self.grid().len());
                        assert(self.grid()[y as int] == self.content@[y as int]@);
                        assert(self.grid()[y as int].len() == self.width as int);
                    }
                    self.content[y][x]
                } else {
                    false
                };
                row.push(v);
            }
            content.push(row);
        }
        self.content = content;
        self.width = width;
        self.height = height;
        proof {
            assert(self.grid() =~~= resized(g0, width as int, height as int));
        }
    }
}

/// Two cells touch under 8-connectivity and are distinct.
pub open spec fn adjacent(a: (int, int), b: (int, int)) -> bool {
    &&& -1 <= b.0 - a.0 <= 1
    &&& -1 <= b.1 - a.1 <= 1
    &&& !(b.0 == a.0 && b.1 == a.1)
}

/// `path` walks from `a` to `b` in steps that touch under 8-connectivity.
pub open spec fn connected_path(path: Seq<(int, int)>, a: (int, int), b: (int, int)) -> bool {
    &&& path.len() >= 1
    &&& path.first() == a
    &&& path.last() == b
    &&& forall|i: int| 0 <= i < path.len() - 1 ==> adjacent(#[trigger] path[i], path[i + 1])
}

/// `g1` is `g0` with exactly the cells of `path` that lie inside the grid
/// set true: every other cell keeps its old value.
pub open spec fn painted(g0: Seq<Seq<bool>>, g1: Seq<Seq<bool>>, path: Seq<(int, int)>) -> bool {
    &&& g1.len() == g0.len()
    &&& forall|y: int| 0 <= y < g0.len() ==> (#[trigger] g1[y]).len() == g0[y].len()
    &&& forall|y: int, x: int|
        0 <= y < g0.len() && 0 <= x < g0[y].len() ==> #[trigger] g1[y][x] == (g0[y][x]
            || path.contains((x, y)))
}

/// Membership in a pushed sequence is membership in the original sequence
/// or equality with the new last element.
proof fn lemma_push_contains(s: Seq<(int, int)>, p: (int, int), q: (int, int))
    ensures
        s.push(p).contains(q) <==> (s.contains(q) || q == p),
{
    if s.push(p).contains(q) {
        let i = choose|i: int| 0 <= i < s.push(p).len() && s.push(p)[i] == q;
        if i < s.len() {
            assert(s[i] == q);
        }
    }
    if s.contains(q) {
        let i = choose|i: int| 0 <= i < s.len() && s[i] == q;
        assert(s.push(p)[i] == q);
    }
    if q == p {
        assert(s.push(p)[s.len() as int] == q);
    }
}

impl Screen {
    /// Draw a straight line with Bresenham's algorithm: the cells it sets,
    /// and no others, form an 8-connected path from `start` to `end`, and
    /// the portions of that path that fall outside the buffer are dropped
    /// cell by cell.
    pub fn line(&mut self, start: &Point, end: &Point)
        requires
            old(self).wf(),
        ensures
            final(self).wf(),
            final(self).width == old(self).width,
            final(self).height == old(self).height,
            exists|path: Seq<(int, int)>|
                #[trigger] connected_path(
                    path,
                    (start.x as int, start.y as int),
                    (end.x as int, end.y as int),
                ) && painted(old(self).grid(), final(self).grid(), path),
    {
        let sx = start.x as i64;
        let sy = start.y as i64;
        let ex = end.x as i64;
        let ey = end.y as i64;
        let delta_x: i64 = if ex >= sx {
            ex - sx
        } else {
            sx - ex
        };
        let step_x: i64 = if start.x < end.x {
            1
        } else {
            -1
        };
        let delta_y: i64 = if ey >= sy {
            -(ey - sy)
        } else {
            -(sy - ey)
        };
        let step_y: i64 = if start.y < end.y {
            1
        } else {
            -1
        };
        let mut err: i64 = delta_x + delta_y;
        let mut x: i64 = sx;
        let mut y: i64 = sy;

        let ghost g0 = self.grid();
        self.write(true, &Point::new(start.x, start.y));
        let ghost mut path: Seq<(int, int)> = seq![(sx as int, sy as int)];
        proof {
            assert(path.last() == (sx as int, sy as int));
            assert forall|yy: int, xx: int|
                0 <= yy < g0.len() && 0 <= xx < g0[yy].len() implies #[trigger] self.grid()[yy][xx]
                == (g0[yy][xx] || path.contains((xx, yy))) by {
                if xx == sx as int && yy == sy as int {
                    assert(path[0] == (xx, yy));
                } else {
                    assert(!path.contains((xx, yy))) by {
                        if path.contains((xx, yy)) {
                            let i = choose|i: int| 0 <= i < path.len() && path[i] == (xx, yy);
                            assert(i == 0);
                        }
                    }
                }
            }
            assert(painted(g0, self.grid(), path));
        }

        while !(x == ex && y == ey)
            invariant
                self.wf(),
                self.width == old(self).width,
                self.height == old(self).height,
                g0 == old(self).grid(),
                g0.len() == self.height as int,
                forall|yy: int| 0 <= yy < g0.len() ==> (#[trigger] g0[yy]).len() == self.width as int,
                i32::MIN <= sx <= i32::MAX,
                i32::MIN <= sy <= i32::MAX,
                i32::MIN <= ex <= i32::MAX,
                i32::MIN <= ey <= i32::MAX,
                step_x == 1 || step_x == -1,
                step_y == 1 || step_y == -1,
                delta_x >= 0,
                delta_y <= 0,
                step_x == 1 ==> ex - sx == delta_x,
                step_x == -1 ==> sx - ex == delta_x,
                step_y == 1 ==> ey - sy == -delta_y,
                step_y == -1 ==> sy - ey == -delta_y,
                0 <= (x - sx) * step_x <= delta_x,
                0 <= (y - sy) * step_y <= delta_y * -1,
                x == sx + (x - sx) * step_x * step_x,
                y == sy + (y - sy) * step_y * step_y,
                err == delta_x + delta_y + (x - sx) * step_x * delta_y + (y - sy) * step_y
                    * delta_x,
                2 * delta_y <= err <= 2 * delta_x,
                path.len() >= 1,
                path.first() == (sx as int, sy as int),
                path.last() == (x as int, y as int),
                forall|i: int| 0 <= i < path.len() - 1 ==> adjacent(#[trigger] path[i], path[i + 1]),
                painted(g0, self.grid(), path),
            decreases (delta_x - (x - sx) * step_x) + (delta_y * -1 - (y - sy) * step_y),
        {
            let ghost ax = (x - sx) * step_x;
            let ghost by = (y - sy) * step_y;
            let curr_err = err;

            proof {
                // The stepping conditions never move a finished axis: once
                // `x` has reached `ex` (and `y` has not reached `ey`), the
                // accumulated error forbids a further x step, and the other
                // way round.
                if x == ex && y != ey {
                    assert(ax == delta_x) by (nonlinear_arith)
                        requires
                            x == ex,
                            ax == (x - sx) * step_x,
                            step_x == 1 ==> ex - sx == delta_x,
                            step_x == -1 ==> sx - ex == delta_x,
                            step_x == 1 || step_x == -1,
                    ;
                    assert(by <= delta_y * -1 - 1) by (nonlinear_arith)
                        requires
                            y != ey,
                            by == (y - sy) * step_y,
                            step_y == 1 ==> ey - sy == -delta_y,
                            step_y == -1 ==> sy - ey == -delta_y,
                            step_y == 1 || step_y == -1,
                            0 <= by <= delta_y * -1,
                    ;
                    assert(2 * err < delta_y) by (nonlinear_arith)
                        requires
                            err == delta_x + delta_y + ax * delta_y + by * delta_x,
                            ax == delta_x,
                            0 <= by <= delta_y * -1 - 1,
                            delta_x >= 0,
                            delta_y <= -1,
                    ;
                }
                if y == ey && x != ex {
                    assert(by == delta_y * -1) by (nonlinear_arith)
                        requires
                            y == ey,
                            by == (y - sy) * step_y,
                            step_y == 1 ==> ey - sy == -delta_y,
                            step_y == -1 ==> sy - ey == -delta_y,
                            step_y == 1 || step_y == -1,
                    ;
                    assert(ax <= delta_x - 1) by (nonlinear_arith)
                        requires
                            x != ex,
                            ax == (x - sx) * step_x,
                            step_x == 1 ==> ex - sx == delta_x,
                            step_x == -1 ==> sx - ex == delta_x,
                            step_x == 1 || step_x == -1,
                            0 <= ax <= delta_x,
                    ;
                    assert(2 * err > delta_x) by (nonlinear_arith)
                        requires
                            err == delta_x + delta_y + ax * delta_y + by * delta_x,
                            by == delta_y * -1,
                            0 <= ax <= delta_x - 1,
                            delta_x >= 1,
                            delta_y <= 0,
                    ;
                }
            }

            if 2 * curr_err >= delta_y {
                proof {
                    assert(x != ex);
                    assert((x + step_x - sx) * step_x == ax + 1) by (nonlinear_arith)
                        requires
                            ax == (x - sx) * step_x,
                            step_x == 1 || step_x == -1,
                    ;
                    assert(ax + 1 <= delta_x) by (nonlinear_arith)
                        requires
                            x != ex,
                            ax == (x - sx) * step_x,
                            step_x == 1 ==> ex - sx == delta_x,
                            step_x == -1 ==> sx - ex == delta_x,
                            step_x == 1 || step_x == -1,
                            0 <= ax <= delta_x,
                    ;
                    assert((ax + 1) * delta_y == ax * delta_y + delta_y) by (nonlinear_arith);
                }
                err = err + delta_y;
                x = x + step_x;
            }
            if 2 * curr_err <= delta_x {
                proof {
                    assert(y != ey);
                    assert((y + step_y - sy) * step_y == by + 1) by (nonlinear_arith)
                        requires
                            by == (y - sy) * step_y,
                            step_y == 1 || step_y == -1,
                    ;
                    assert(by + 1 <= delta_y * -1) by (nonlinear_arith)
                        requires
                            y != ey,
                            by == (y - sy) * step_y,
                            step_y == 1 ==> ey - sy == -delta_y,
                            step_y == -1 ==> sy - ey == -delta_y,
                            step_y == 1 || step_y == -1,
                            0 <= by <= delta_y * -1,
                    ;
                    assert((by + 1) * delta_x == by * delta_x + delta_x) by (nonlinear_arith);
                }
                err = err + delta_x;
                y = y + step_y;
            }

            proof {
                assert(x == sx + (x - sx) * step_x * step_x && y == sy + (y - sy) * step_y
                    * step_y) by (nonlinear_arith)
                    requires
                        step_x == 1 || step_x == -1,
                        step_y == 1 || step_y == -1,
                ;
            }

            proof {
                assert(i32::MIN <= x <= i32::MAX && i32::MIN <= y <= i32::MAX) by (nonlinear_arith)
                    requires
                        0 <= (x - sx) * step_x <= delta_x,
                        0 <= (y - sy) * step_y <= delta_y * -1,
                        step_x == 1 || step_x == -1,
                        step_y == 1 || step_y == -1,
                        step_x == 1 ==> ex - sx == delta_x,
                        step_x == -1 ==> sx - ex == delta_x,
                        step_y == 1 ==> ey - sy == -delta_y,
                        step_y == -1 ==> sy - ey == -delta_y,
                        i32::MIN <= sx <= i32::MAX,
                        i32::MIN <= sy <= i32::MAX,
                        i32::MIN <= ex <= i32::MAX,
                        i32::MIN <= ey <= i32::MAX,
                ;
            }
            let ghost grid_before = self.grid();
            self.write(true, &Point::new(x as i32, y as i32));
            proof {
                let p = (x as int, y as int);
                let ghost prev = path;
                path = path.push(p);
                assert(path.last() == p);
                assert(path.first() == prev.first());
                assert forall|i: int| 0 <= i < path.len() - 1 implies adjacent(
                    #[trigger] path[i],
                    path[i + 1],
                ) by {
                    if i < prev.len() - 1 {
                        assert(prev[i] == path[i] && prev[i + 1] == path[i + 1]);
                    } else {
                        assert(path[i] == prev.last() && path[i + 1] == p);
                    }
                }
                assert forall|yy: int, xx: int|
                    0 <= yy < g0.len() && 0 <= xx < g0[yy].len() implies #[trigger] self.grid(
                )[yy][xx] == (g0[yy][xx] || path.contains((xx, yy))) by {
                    lemma_push_contains(prev, p, (xx, yy));
                    assert(grid_before[yy][xx] == (g0[yy][xx] || prev.contains((xx, yy))));
                }
                assert(painted(g0, self.grid(), path));
            }
        }
        proof {
            assert(connected_path(
                path,
                (start.x as int, start.y as int),
                (end.x as int, end.y as int),
            ));
        }
    }
}

/// A painted connected path sets both of its endpoints, whenever they
/// lie inside the grid.
pub proof fn lemma_painted_path_endpoints(
    g0: Seq<Seq<bool>>,
    g1: Seq<Seq<bool>>,
    path: Seq<(int, int)>,
    a: (int, int),
    b: (int, int),
)
    requires
        connected_path(path, a, b),
        painted(g0, g1, path),
    ensures
        0 <= a.1 < g0.len() && 0 <= a.0 < g0[a.1].len() ==> cell_set(g1, a.0, a.1),
        0 <= b.1 < g0.len() && 0 <= b.0 < g0[b.1].len() ==> cell_set(g1, b.0, b.1),
{
    assert(path.contains(a)) by {
        assert(path[0] == a);
    }
    assert(path.contains(b)) by {
        assert(path[path.len() - 1] == b);
    }
}

/// Cell `(x, y)` lies inside `g` and is set.
pub open spec fn cell_set(g: Seq<Seq<bool>>, x: int, y: int) -> bool {
    0 <= y < g.len() && 0 <= x < g[y].len() && g[y][x]
}

/// `g1` has the shape of `g0` and keeps every set cell of `g0` set.
pub open spec fn grid_monotone(g0: Seq<Seq<bool>>, g1: Seq<Seq<bool>>) -> bool {
    &&& g1.len() == g0.len()
    &&& forall|y: int| 0 <= y < g0.len() ==> (#[trigger] g1[y]).len() == g0[y].len()
    &&& forall|y: int, x: int|
        0 <= y < g0.len() && 0 <= x < g0[y].len() && g0[y][x] ==> #[trigger] g1[y][x]
}

/// Keeping set cells set is transitive.
pub proof fn lemma_grid_monotone_trans(g0: Seq<Seq<bool>>, g1: Seq<Seq<bool>>, g2: Seq<Seq<bool>>)
    requires
        grid_monotone(g0, g1),
        grid_monotone(g1, g2),
    ensures
        grid_monotone(g0, g2),
{
    assert forall|y: int, x: int|
        0 <= y < g0.len() && 0 <= x < g0[y].len() && g0[y][x] implies #[trigger] g2[y][x] by {
        assert(g1[y][x]);
    }
}

/// Writing a true cell only ever adds to the set cells, and sets the
/// written cell whenever it lies inside the grid.
pub proof fn lemma_written_monotone(g: Seq<Seq<bool>>, x: int, y: int)
    ensures
        grid_monotone(g, written(g, x, y, true)),
        0 <= y < g.len() && 0 <= x < g[y].len() ==> cell_set(written(g, x, y, true), x, y),
{
}

/// A painted grid keeps every previously set cell set.
pub proof fn lemma_painted_monotone(g0: Seq<Seq<bool>>, g1: Seq<Seq<bool>>, path: Seq<(int, int)>)
    requires
        painted(g0, g1, path),
    ensures
        grid_monotone(g0, g1),
{
}

/// A set cell stays set across any monotone grid step.
pub proof fn lemma_cell_set_monotone(g0: Seq<Seq<bool>>, g1: Seq<Seq<bool>>, x: int, y: int)
    requires
        cell_set(g0, x, y),
        grid_monotone(g0, g1),
    ensures
        cell_set(g1, x, y),
{
}

/// Dimensions of a fixed-size glyph cell type, read off the nested
/// array that holds its pixels.
pub trait Dim {
    const WIDTH: usize;

    const HEIGHT: usize;
}

impl<T, const WIDTH: usize, const HEIGHT: usize> Dim for [[T; WIDTH]; HEIGHT] {
    const WIDTH: usize = WIDTH;

    const HEIGHT: usize = HEIGHT;
}

/// A block glyph cell: 2x2 pixels, rows top to bottom.
pub type BlockPixel = [[bool; 2]; 2];

/// A braille glyph cell: 2 pixels wide, 4 rows top to bottom.
pub type BrailePixel = [[bool; 2]; 4];

/// The cell of `g` at column `x`, row `y`, with everything outside the
/// grid reading as false.
pub open spec fn cell_at(g: Seq<Seq<bool>>, x: int, y: int) -> bool {
    if 0 <= y < g.len() && 0 <= x < g[y].len() {
        g[y][x]
    } else {
        false
    }
}

/// The quadrant-block character for a 2x2 pattern (top-left, top-right,
/// bottom-left, bottom-right).
pub open spec fn spec_block_char(tl: bool, tr: bool, bl: bool, br: bool) -> char {
    if !tl && !tr && !bl && !br {
        ' '
    } else if tl && !tr && !bl && !br {
        '▘'
    } else if !tl && tr && !bl && !br {
        '▝'
    } else if tl && tr && !bl && !br {
        '▀'
    } else if !tl && !tr && bl && !br {
        '▖'
    } else if tl && !tr && bl && !br {
        '▌'
    } else if !tl && tr && bl && !br {
        '▞'
    } else if tl && tr && bl && !br {
        '▛'
    } else if !tl && !tr && !bl && br {
        '▗'
    } else if tl && !tr && !bl && br {
        '▚'
    } else if !tl && tr && !bl && br {
        '▐'
    } else if tl && tr && !bl && br {
        '▜'
    } else if !tl && !tr && bl && br {
        '▄'
    } else if tl && !tr && bl && br {
        '▙'
    } else if !tl && tr && bl && br {
        '▟'
    } else {
        '█'
    }
}

/// The braille dot mask for a 2x4 pattern: dots 1-6 cover the top three
/// rows, left column then right column; dots 7-8 are the bottom row.
/// `r<i>c<j>` is the pixel at row `i`, column `j` of the cell.
pub open spec fn spec_braille_mask(
    r0c0: bool,
    r0c1: bool,
    r1c0: bool,
    r1c1: bool,
    r2c0: bool,
    r2c1: bool,
    r3c0: bool,
    r3c1: bool,
) -> int {
    (if r0c0 { 1int } else { 0int }) + (if r1c0 { 2int } else { 0int }) + (if r2c0 {
        4int
    } else {
        0int
    }) + (if r0c1 { 8int } else { 0int }) + (if r1c1 { 16int } else { 0int }) + (if r2c1 {
        32int
    } else {
        0int
    }) + (if r3c0 { 64int } else { 0int }) + (if r3c1 { 128int } else { 0int })
}

/// Relies on char::from_u32: for any value below 0xD800 it returns the
/// character with exactly that Unicode scalar value.
#[verifier::external_body]
fn char_from_scalar(v: u32) -> (c: char)
    requires
        v < 0xD800,
    ensures
        c as u32 == v,
{
    char::from_u32(v).unwrap()
}

/// Map a 2x2 block cell to its quadrant-block character.
pub fn block_pixel_to_char(pixel: &BlockPixel) -> (c: char)
    ensures
        c == spec_block_char(pixel[0][0], pixel[0][1], pixel[1][0], pixel[1][1]),
{
    match (pixel[0][0], pixel[0][1], pixel[1][0], pixel[1][1]) {
        (false, false, false, false) => ' ',
        (true, false, false, false) => '▘',
        (false, true, false, false) => '▝',
        (true, true, false, false) => '▀',
        (false, false, true, false) => '▖',
        (true, false, true, false) => '▌',
        (false, true, true, false) => '▞',
        (true, true, true, false) => '▛',
        (false, false, false, true) => '▗',
        (true, false, false, true) => '▚',
        (false, true, false, true) => '▐',
        (true, true, false, true) => '▜',
        (false, false, true, true) => '▄',
        (true, false, true, true) => '▙',
        (false, true, true, true) => '▟',
        (true, true, true, true) => '█',
    }
}

/// Map a 2x4 braille cell to the character `0x2800 + mask`, where `mask`
/// is the fixed dot-bit assignment of the Unicode braille patterns block.
pub fn braile_pixel_to_char(pixel: &BrailePixel) -> (c: char)
    ensures
        c as u32 == 0x2800 + spec_braille_mask(
            pixel[0][0],
            pixel[0][1],
            pixel[1][0],
            pixel[1][1],
            pixel[2][0],
            pixel[2][1],
            pixel[3][0],
            pixel[3][1],
        ),
{
    let mut unicode: u32 = 0;
    if pixel[0][0] {
        unicode = unicode + 1;
    }
    if pixel[1][0] {
        unicode = unicode + 2;
    }
    if pixel[2][0] {
        unicode = unicode + 4;
    }
    if pixel[0][1] {
        unicode = unicode + 8;
    }
    if pixel[1][1] {
        unicode = unicode + 16;
    }
    if pixel[2][1] {
        unicode = unicode + 32;
    }
    if pixel[3][0] {
        unicode = unicode + 64;
    }
    if pixel[3][1] {
        unicode = unicode + 128;
    }
    unicode = unicode + 0x2800;
    char_from_scalar(unicode)
}

/// Two 2x2 patterns with the same block character are the same pattern:
/// the sixteen patterns map one-to-one onto sixteen distinct glyphs.
pub proof fn lemma_block_chars_distinct(
    tl1: bool,
    tr1: bool,
    bl1: bool,
    br1: bool,
    tl2: bool,
    tr2: bool,
    bl2: bool,
    br2: bool,
)
    requires
        spec_block_char(tl1, tr1, bl1, br1) == spec_block_char(tl2, tr2, bl2, br2),
    ensures
        tl1 == tl2 && tr1 == tr2 && bl1 == bl2 && br1 == br2,
{
}

/// Two 2x4 patterns with the same braille mask are the same pattern, and
/// every mask stays below 256.
pub proof fn lemma_braille_masks_distinct(
    a1: bool,
    b1: bool,
    c1: bool,
    d1: bool,
    e1: bool,
    f1: bool,
    g1: bool,
    h1: bool,
    a2: bool,
    b2: bool,
    c2: bool,
    d2: bool,
    e2: bool,
    f2: bool,
    g2: bool,
    h2: bool,
)
    requires
        spec_braille_mask(a1, b1, c1, d1, e1, f1, g1, h1) == spec_braille_mask(
            a2,
            b2,
            c2,
            d2,
            e2,
            f2,
            g2,
            h2,
        ),
    ensures
        a1 == a2 && b1 == b2 && c1 == c2 && d1 == d2 && e1 == e2 && f1 == f2 && g1 == g2 && h1
            == h2,
        spec_braille_mask(a1, b1, c1, d1, e1, f1, g1, h1) < 256,
{
}

impl Screen {
    /// Read one cell, with coordinates outside the buffer reading as
    /// false.
    fn cell(&self, x: usize, y: usize) -> (v: bool)
        requires
            self.wf(),
        ensures
            v == cell_at(self.grid(), x as int, y as int),
    {
        if y < self.height as usize && x < self.width as usize {
            proof {
                assert(self.content@.len() == self.grid().len());
                assert(self.grid()[y as int] == self.content@[y as int]@);
                assert(self.grid()[y as int].len() == self.width as int);
            }
            self.content[y][x]
        } else {
            false
        }
    }

    /// Pack the buffer into rows of 2x2 quadrant-block characters, one
    /// character per cell, missing pixels in a partial last row or column
    /// reading as unlit.
    pub fn render_block(&self) -> (rows: Vec<Vec<char>>)
        requires
            self.wf(),
        ensures
            rows@.len() == (self.height + 1) as int / 2,
            forall|r: int| 0 <= r < rows@.len() ==> (#[trigger] rows@[r])@.len()
                == (self.width + 1) as int / 2,
            forall|r: int, c: int|
                0 <= r < rows@.len() && 0 <= c < (self.width + 1) as int / 2
                    ==> (#[trigger] rows@[r]@[c]) == spec_block_char(
                    cell_at(self.grid(), 2 * c, 2 * r),
                    cell_at(self.grid(), 2 * c + 1, 2 * r),
                    cell_at(self.grid(), 2 * c, 2 * r + 1),
                    cell_at(self.grid(), 2 * c + 1, 2 * r + 1),
                ),
    {
        let row_count = (self.height as usize + 1) / 2;
        let col_count = (self.width as usize + 1) / 2;
        let mut rows: Vec<Vec<char>> = Vec::new();
        while rows.len() < row_count
            invariant
                self.wf(),
                rows.len() <= row_count,
                row_count == (self.height + 1) as int / 2,
                col_count == (self.width + 1) as int / 2,
                forall|r: int| 0 <= r < rows@.len() ==> (#[trigger] rows@[r])@.len()
                    == col_count as int,
                forall|r: int, c: int|
                    0 <= r < rows@.len() && 0 <= c < col_count as int
                        ==> (#[trigger] rows@[r]@[c]) == spec_block_char(
                        cell_at(self.grid(), 2 * c, 2 * r),
                        cell_at(self.grid(), 2 * c + 1, 2 * r),
                        cell_at(self.grid(), 2 * c, 2 * r + 1),
                        cell_at(self.grid(), 2 * c + 1, 2 * r + 1),
                    ),
            decreases row_count - rows.len(),
        {
            let r = rows.len();
            let mut row: Vec<char> = Vec::new();
            while row.len() < col_count
                invariant
                    self.wf(),
                    r < row_count,
                    row_count == (self.height + 1) as int / 2,
                    col_count == (self.width + 1) as int / 2,
                    row.len() <= col_count,
                    forall|c: int|
                        0 <= c < row@.len() ==> #[trigger] row@[c] == spec_block_char(
                            cell_at(self.grid(), 2 * c, 2 * r),
                            cell_at(self.grid(), 2 * c + 1, 2 * r),
                            cell_at(self.grid(), 2 * c, 2 * r + 1),
                            cell_at(self.grid(), 2 * c + 1, 2 * r + 1),
                        ),
                decreases col_count - row.len(),
            {
                let c = row.len();
                let pixel: BlockPixel = [
                    [self.cell(2 * c, 2 * r), self.cell(2 * c + 1, 2 * r)],
                    [self.cell(2 * c, 2 * r + 1), self.cell(2 * c + 1, 2 * r + 1)],
                ];
                row.push(block_pixel_to_char(&pixel));
            }
            rows.push(row);
        }
        rows
    }

    /// Pack the buffer into rows of 2x4 braille characters, one character
    /// per cell, missing pixels in a partial last row or column reading as
    /// unlit.
    pub fn render_braile(&self) -> (rows: Vec<Vec<char>>)
        requires
            self.wf(),
        ensures
            rows@.len() == (self.height + 3) as int / 4,
            forall|r: int| 0 <= r < rows@.len() ==> (#[trigger] rows@[r])@.len()
                == (self.width + 1) as int / 2,
            forall|r: int, c: int|
                0 <= r < rows@.len() && 0 <= c < (self.width + 1) as int / 2
                    ==> (#[trigger] rows@[r]@[c]) as u32 == 0x2800 + spec_braille_mask(
                    cell_at(self.grid(), 2 * c, 4 * r),
                    cell_at(self.grid(), 2 * c + 1, 4 * r),
                    cell_at(self.grid(), 2 * c, 4 * r + 1),
                    cell_at(self.grid(), 2 * c + 1, 4 * r + 1),
                    cell_at(self.grid(), 2 * c, 4 * r + 2),
                    cell_at(self.grid(), 2 * c + 1, 4 * r + 2),
                    cell_at(self.grid(), 2 * c, 4 * r + 3),
                    cell_at(self.grid(), 2 * c + 1, 4 * r + 3),
                ),
    {
        let row_count = (self.height as usize + 3) / 4;
        let col_count = (self.width as usize + 1) / 2;
        let mut rows: Vec<Vec<char>> = Vec::new();
        while rows.len() < row_count
            invariant
                self.wf(),
                rows.len() <= row_count,
                row_count == (self.height + 3) as int / 4,
                col_count == (self.width + 1) as int / 2,
                forall|r: int| 0 <= r < rows@.len() ==> (#[trigger] rows@[r])@.len()
                    == col_count as int,
                forall|r: int, c: int|
                    0 <= r < rows@.len() && 0 <= c < col_count as int
                        ==> (#[trigger] rows@[r]@[c]) as u32 == 0x2800 + spec_braille_mask(
                        cell_at(self.grid(), 2 * c, 4 * r),
                        cell_at(self.grid(), 2 * c + 1, 4 * r),
                        cell_at(self.grid(), 2 * c, 4 * r + 1),
                        cell_at(self.grid(), 2 * c + 1, 4 * r + 1),
                        cell_at(self.grid(), 2 * c, 4 * r + 2),
                        cell_at(self.grid(), 2 * c + 1, 4 * r + 2),
                        cell_at(self.grid(), 2 * c, 4 * r + 3),
                        cell_at(self.grid(), 2 * c + 1, 4 * r + 3),
                    ),
            decreases row_count - rows.len(),
        {
            let r = rows.len();
            let mut row: Vec<char> = Vec::new();
            while row.len() < col_count
                invariant
                    self.wf(),
                    r < row_count,
                    row_count == (self.height + 3) as int / 4,
                    col_count == (self.width + 1) as int / 2,
                    row.len() <= col_count,
                    forall|c: int|
                        0 <= c < row@.len() ==> #[trigger] row@[c] as u32 == 0x2800
                            + spec_braille_mask(
                            cell_at(self.grid(), 2 * c, 4 * r),
                            cell_at(self.grid(), 2 * c + 1, 4 * r),
                            cell_at(self.grid(), 2 * c, 4 * r + 1),
                            cell_at(self.grid(), 2 * c + 1, 4 * r + 1),
                            cell_at(self.grid(), 2 * c, 4 * r + 2),
                            cell_at(self.grid(), 2 * c + 1, 4 * r + 2),
                            cell_at(self.grid(), 2 * c, 4 * r + 3),
                            cell_at(self.grid(), 2 * c + 1, 4 * r + 3),
                        ),
                decreases col_count - row.len(),
            {
                let c = row.len();
                let pixel: BrailePixel = [
                    [self.cell(2 * c, 4 * r), self.cell(2 * c + 1, 4 * r)],
                    [self.cell(2 * c, 4 * r + 1), self.cell(2 * c + 1, 4 * r + 1)],
                    [self.cell(2 * c, 4 * r + 2), self.cell(2 * c + 1, 4 * r + 2)],
                    [self.cell(2 * c, 4 * r + 3), self.cell(2 * c + 1, 4 * r + 3)],
                ];
                row.push(braile_pixel_to_char(&pixel));
            }
            rows.push(row);
        }
        rows
    }

    /// Resize so that a grid of 2x2 block cells fills a terminal of the
    /// given size in character cells, one terminal row kept for a status
    /// line.
    pub fn fit_block_to_terminal(&mut self, terminal_width: u16, terminal_height: u16)
        requires
            old(self).wf(),
            terminal_height >= 1,
            terminal_width * 2 <= u16::MAX,
            (terminal_height - 1) * 2 <= u16::MAX,
        ensures
            final(self).wf(),
            final(self).width == terminal_width * 2,
            final(self).height == (terminal_height - 1) * 2,
            final(self).grid() == resized(
                old(self).grid(),
                terminal_width * 2,
                (terminal_height - 1) * 2,
            ),
    {
        self.resize(terminal_width * 2, (terminal_height - 1) * 2);
    }

    /// Resize so that a grid of 2x4 braille cells fills a terminal of the
    /// given size in character cells, one terminal row kept for a status
    /// line.
    pub fn fit_braile_to_terminal(&mut self, terminal_width: u16, terminal_height: u16)
        requires
            old(self).wf(),
            terminal_height >= 1,
            terminal_width * 2 <= u16::MAX,
            (terminal_height - 1) * 4 <= u16::MAX,
        ensures
            final(self).wf(),
            final(self).width == terminal_width * 2,
            final(self).height == (terminal_height - 1) * 4,
            final(self).grid() == resized(
                old(self).grid(),
                terminal_width * 2,
                (terminal_height - 1) * 4,
            ),
    {
        self.resize(terminal_width * 2, (terminal_height - 1) * 4);
    }
}

/// Resizing a well-formed grid to its own dimensions leaves it unchanged.
pub proof fn lemma_resized_identity(g: Seq<Seq<bool>>, w: int, h: int)
    requires
        0 <= w,
        g.len() == h,
        forall|y: int| 0 <= y < h ==> (#[trigger] g[y]).len() == w,
    ensures
        resized(g, w, h) == g,
{
    assert(resized(g, w, h) =~~= g);
}

/// Growing a well-formed grid and then shrinking it back to its original
/// dimensions restores it exactly.
pub proof fn lemma_resize_round_trip(g: Seq<Seq<bool>>, w0: int, h0: int, w1: int, h1: int)
    requires
        0 <= w0 <= w1,
        0 <= h0 <= h1,
        g.len() == h0,
        forall|y: int| 0 <= y < h0 ==> (#[trigger] g[y]).len() == w0,
    ensures
        resized(resized(g, w1, h1), w0, h0) == g,
{
    assert(resized(resized(g, w1, h1), w0, h0) =~~= g);
}

} // verus!
