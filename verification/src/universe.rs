use vstd::prelude::*;

use crate::cell::Cell;
use crate::cell::Density;
use crate::cell::toggled;
use crate::cell::transition;
use crate::entropy;

verus! {

/// A dense, fixed-size grid of cells. `width` and `height` are positive and
/// immutable after construction; `cells` holds exactly `width * height`
/// entries in row-major order (index `x + y * width`); `circular` selects the
/// neighbor topology (toroidal wrap-around when true, bounded edges when
/// false) and may be changed at any time.
pub struct Universe {
    width: u32,
    height: u32,
    cells: Vec<Cell>,
    circular: bool,
}

/// Resolves one coordinate on one axis under the toroidal topology: a
/// coordinate one step below the range wraps to the far end, one step past
/// the range wraps to zero, and an in-range coordinate is unchanged.
pub open spec fn wrap_coord(c: int, limit: int) -> int {
    if c < 0 {
        limit - 1
    } else if c >= limit {
        0
    } else {
        c
    }
}

impl Universe {
    /// The grid's width, as a mathematical integer.
    pub closed spec fn spec_width(self) -> int {
        self.width as int
    }

    /// The grid's height, as a mathematical integer.
    pub closed spec fn spec_height(self) -> int {
        self.height as int
    }

    /// Whether neighbor counting wraps around the edges.
    pub closed spec fn spec_circular(self) -> bool {
        self.circular
    }

    /// The cell buffer, row-major: the cell at `(x, y)` sits at index
    /// `x + y * width`.
    pub closed spec fn spec_cells(self) -> Seq<Cell> {
        self.cells@
    }

    /// Well-formedness: positive dimensions, a cell count that fits the
    /// index arithmetic, and a buffer of exactly `width * height` cells.
    pub closed spec fn wf(self) -> bool {
        &&& 1 <= self.width
        &&& 1 <= self.height
        &&& self.width * self.height <= u32::MAX
        &&& self.cells@.len() == self.width * self.height
    }

    /// Whether `(x, y)` is a valid coordinate of this grid.
    pub open spec fn in_bounds(self, x: int, y: int) -> bool {
        &&& 0 <= x < self.spec_width()
        &&& 0 <= y < self.spec_height()
    }

    /// The cell stored at coordinate `(x, y)`.
    pub closed spec fn cell_at(self, x: int, y: int) -> Cell {
        self.cells@[x + y * self.spec_width()]
    }

    /// Whether the Moore neighbor of `(x, y)` at offset `(dx, dy)` counts as
    /// live. Under the toroidal topology the neighbor coordinate wraps on
    /// each axis independently; under the bounded topology an out-of-range
    /// neighbor is skipped (it never counts). After resolution the neighbor
    /// counts exactly when its cell is `Alive`; `Dead` and `Empty` never
    /// count.
    pub open spec fn neighbor_counted(self, x: int, y: int, dx: int, dy: int) -> bool {
        let nx = x + dx;
        let ny = y + dy;
        if self.spec_circular() {
            self.cell_at(
                wrap_coord(nx, self.spec_width()),
                wrap_coord(ny, self.spec_height()),
            ) == Cell::Alive
        } else {
            self.in_bounds(nx, ny) && self.cell_at(nx, ny) == Cell::Alive
        }
    }

    /// 1 if the neighbor at offset `(dx, dy)` counts as live, else 0.
    pub open spec fn neighbor_contrib(self, x: int, y: int, dx: int, dy: int) -> nat {
        if self.neighbor_counted(x, y, dx, dy) {
            1nat
        } else {
            0nat
        }
    }

    /// The cell that `(x, y)` holds after one generation step: the fixed
    /// transition rule applied to its current state and its live-neighbor
    /// count. This is a pure function of the current grid, so the step is
    /// deterministic.
    pub open spec fn next_cell(self, x: int, y: int) -> Cell {
        transition(self.cell_at(x, y), self.spec_live_neighbors(x, y))
    }

    /// The number of live cells among the 8 Moore neighbors of `(x, y)`,
    /// resolved under the current topology.
    pub open spec fn spec_live_neighbors(self, x: int, y: int) -> nat {
        self.neighbor_contrib(x, y, -1, -1) + self.neighbor_contrib(x, y, -1, 0)
            + self.neighbor_contrib(x, y, -1, 1) + self.neighbor_contrib(x, y, 0, -1)
            + self.neighbor_contrib(x, y, 0, 1) + self.neighbor_contrib(x, y, 1, -1)
            + self.neighbor_contrib(x, y, 1, 0) + self.neighbor_contrib(x, y, 1, 1)
    }
}

/// The character that renders one cell: a space for `Empty`, a solid glyph
/// for `Alive`, a hollow glyph for `Dead`.
pub open spec fn glyph(c: Cell) -> char {
    match c {
        Cell::Empty => ' ',
        Cell::Alive => '◼',
        Cell::Dead => '◻',
    }
}

/// A valid coordinate maps to a valid row-major buffer index.
proof fn lemma_index_bound(x: int, y: int, w: int, h: int)
    requires
        0 <= x < w,
        0 <= y < h,
    ensures
        0 <= x + y * w,
        x + y * w < w * h,
{
    assert(x + y * w < w * h && 0 <= x + y * w) by (nonlinear_arith)
        requires
            0 <= x < w,
            0 <= y < h,
    ;
}

/// The row-major index map is injective over valid coordinates.
proof fn lemma_index_injective(x1: int, y1: int, x2: int, y2: int, w: int)
    requires
        0 <= x1 < w,
        0 <= x2 < w,
        0 <= y1,
        0 <= y2,
        x1 + y1 * w == x2 + y2 * w,
    ensures
        x1 == x2,
        y1 == y2,
{
    assert(y1 == y2) by (nonlinear_arith)
        requires
            0 <= x1 < w,
            0 <= x2 < w,
            0 <= y1,
            0 <= y2,
            x1 + y1 * w == x2 + y2 * w,
    ;
}

/// A coordinate strictly earlier in row-major order than `(x, y)` has a
/// strictly smaller row-major index.
proof fn lemma_row_major_lt(xx: int, yy: int, stride: int, x: int, y: int)
    requires
        0 <= xx < stride,
        0 <= yy,
        0 <= x,
        yy < y || (yy == y && xx < x),
    ensures
        0 <= xx + yy * stride,
        xx + yy * stride < y * stride + x,
{
    assert(0 <= xx + yy * stride && xx + yy * stride < y * stride + x) by (nonlinear_arith)
        requires
            0 <= xx < stride,
            0 <= yy,
            0 <= x,
            yy < y || (yy == y && xx < x),
    ;
}

impl Universe {
    /// Returns a new grid of the given dimensions with every cell `Empty`
    /// and a toroidal topology.
    pub fn new(width: u32, height: u32) -> (u: Universe)
        requires
            1 <= width,
            1 <= height,
            width * height <= u32::MAX,
        ensures
            u.wf(),
            u.spec_width() == width,
            u.spec_height() == height,
            u.spec_circular(),
            forall|x: int, y: int| u.in_bounds(x, y) ==> u.cell_at(x, y) == Cell::Empty,
    {
        let count: usize = (width * height) as usize;
        let mut cells: Vec<Cell> = Vec::new();
        let mut i: usize = 0;
        while i < count
            invariant
                i <= count,
                cells@.len() == i,
                forall|j: int| 0 <= j < i ==> cells@[j] == Cell::Empty,
            decreases count - i,
        {
            cells.push(Cell::Empty);
            i = i + 1;
        }
        let u = Universe { width, height, cells, circular: true };
        proof {
            assert forall|x: int, y: int| u.in_bounds(x, y) implies u.cell_at(x, y)
                == Cell::Empty by {
                lemma_index_bound(x, y, u.spec_width(), u.spec_height());
            }
        }
        u
    }

    /// Returns the grid's width.
    pub fn width(&self) -> (w: u32)
        ensures
            w == self.spec_width(),
    {
        self.width
    }

    /// Returns the grid's height.
    pub fn height(&self) -> (h: u32)
        ensures
            h == self.spec_height(),
    {
        self.height
    }

    /// Returns whether neighbor counting wraps around the edges.
    pub fn is_circular(&self) -> (c: bool)
        ensures
            c == self.spec_circular(),
    {
        self.circular
    }

    /// Switches between the toroidal and the bounded topology, leaving the
    /// dimensions and every cell unchanged; the change takes effect on the
    /// next generation step.
    pub fn set_circular(&mut self, circular: bool)
        ensures
            final(self).spec_circular() == circular,
            final(self).spec_width() == old(self).spec_width(),
            final(self).spec_height() == old(self).spec_height(),
            final(self).spec_cells() == old(self).spec_cells(),
            final(self).wf() == old(self).wf(),
    {
        self.circular = circular;
    }

    /// The row-major buffer index of a valid coordinate.
    fn index(&self, x: u32, y: u32) -> (i: usize)
        requires
            self.wf(),
            self.in_bounds(x as int, y as int),
        ensures
            i == x + y * self.spec_width(),
            i < self.spec_cells().len(),
    {
        proof {
            lemma_index_bound(x as int, y as int, self.spec_width(), self.spec_height());
        }
        (x + y * self.width) as usize
    }

    /// Returns the cell at `(x, y)`. The coordinate must be in range.
    pub fn get(&self, x: u32, y: u32) -> (c: Cell)
        requires
            self.wf(),
            self.in_bounds(x as int, y as int),
        ensures
            c == self.cell_at(x as int, y as int),
    {
        let i = self.index(x, y);
        self.cells[i]
    }

    /// Overwrites the cell at `(x, y)`, leaving every other cell, the
    /// dimensions and the topology unchanged. The coordinate must be in
    /// range.
    pub fn set(&mut self, x: u32, y: u32, cell: Cell)
        requires
            old(self).wf(),
            old(self).in_bounds(x as int, y as int),
        ensures
            final(self).wf(),
            final(self).spec_width() == old(self).spec_width(),
            final(self).spec_height() == old(self).spec_height(),
            final(self).spec_circular() == old(self).spec_circular(),
            final(self).cell_at(x as int, y as int) == cell,
            forall|i: int, j: int|
                old(self).in_bounds(i, j) && !(i == x && j == y) ==> final(self).cell_at(i, j)
                    == old(self).cell_at(i, j),
    {
        let idx = self.index(x, y);
        self.cells[idx] = cell;
        proof {
            assert forall|i: int, j: int|
                old(self).in_bounds(i, j) && !(i == x && j == y) implies self.cell_at(i, j)
                == old(self).cell_at(i, j) by {
                lemma_index_bound(i, j, self.spec_width(), self.spec_height());
                if i + j * self.spec_width() == x + y * self.spec_width() {
                    lemma_index_injective(i, j, x as int, y as int, self.spec_width());
                }
            }
        }
    }

    /// Toggles the cell at `(x, y)` between `Alive` and `Empty`: `Alive`
    /// becomes `Empty`, and `Empty` or `Dead` becomes `Alive`. Every other
    /// cell, the dimensions and the topology are unchanged.
    pub fn toggle(&mut self, x: u32, y: u32)
        requires
            old(self).wf(),
            old(self).in_bounds(x as int, y as int),
        ensures
            final(self).wf(),
            final(self).spec_width() == old(self).spec_width(),
            final(self).spec_height() == old(self).spec_height(),
            final(self).spec_circular() == old(self).spec_circular(),
            final(self).cell_at(x as int, y as int) == toggled(
                old(self).cell_at(x as int, y as int),
            ),
            forall|i: int, j: int|
                old(self).in_bounds(i, j) && !(i == x && j == y) ==> final(self).cell_at(i, j)
                    == old(self).cell_at(i, j),
    {
        let cell = if self.get(x, y) == Cell::Alive {
            Cell::Empty
        } else {
            Cell::Alive
        };
        self.set(x, y, cell);
    }

    /// Overwrites every cell in the grid with the given value, regardless of
    /// prior state; the dimensions and the topology are unchanged.
    pub fn fill(&mut self, cell: Cell)
        requires
            old(self).wf(),
        ensures
            final(self).wf(),
            final(self).spec_width() == old(self).spec_width(),
            final(self).spec_height() == old(self).spec_height(),
            final(self).spec_circular() == old(self).spec_circular(),
            forall|x: int, y: int|
                final(self).in_bounds(x, y) ==> final(self).cell_at(x, y) == cell,
    {
        let count = self.cells.len();
        let mut i: usize = 0;
        while i < count
            invariant
                i <= count,
                self.cells@.len() == count,
                self.width == old(self).width,
                self.height == old(self).height,
                self.circular == old(self).circular,
                forall|j: int| 0 <= j < i ==> self.cells@[j] == cell,
            decreases count - i,
        {
            self.cells[i] = cell;
            i = i + 1;
        }
        proof {
            assert forall|x: int, y: int| self.in_bounds(x, y) implies self.cell_at(x, y)
                == cell by {
                lemma_index_bound(x, y, self.spec_width(), self.spec_height());
            }
        }
    }

    /// Reseeds the whole grid from the thread-local entropy source: every
    /// cell independently becomes `Alive` with the density's percent chance
    /// and `Empty` otherwise. Afterwards no cell is `Dead`; the dimensions
    /// and the topology are unchanged. The outcome is random: nothing more
    /// is promised of the individual cells.
    pub fn random(&mut self, density: Density)
        requires
            old(self).wf(),
        ensures
            final(self).wf(),
            final(self).spec_width() == old(self).spec_width(),
            final(self).spec_height() == old(self).spec_height(),
            final(self).spec_circular() == old(self).spec_circular(),
            forall|x: int, y: int|
                final(self).in_bounds(x, y) ==> final(self).cell_at(x, y) == Cell::Alive
                    || final(self).cell_at(x, y) == Cell::Empty,
    {
        let mut rng = entropy::fresh_rng();
        let count = self.cells.len();
        let mut i: usize = 0;
        while i < count
            invariant
                i <= count,
                self.cells@.len() == count,
                self.width == old(self).width,
                self.height == old(self).height,
                self.circular == old(self).circular,
                forall|j: int|
                    0 <= j < i ==> self.cells@[j] == Cell::Alive || self.cells@[j] == Cell::Empty,
            decreases count - i,
        {
            let draw = entropy::draw_percent(&mut rng);
            self.cells[i] = density.cell_for_draw(draw);
            i = i + 1;
        }
        proof {
            assert forall|x: int, y: int| self.in_bounds(x, y) implies self.cell_at(x, y)
                == Cell::Alive || self.cell_at(x, y) == Cell::Empty by {
                lemma_index_bound(x, y, self.spec_width(), self.spec_height());
            }
        }
    }

    /// Whether the Moore neighbor of `(x, y)` at offset `(dx, dy)` counts as
    /// live under the current topology.
    fn neighbor_alive(&self, x: u32, y: u32, dx: i64, dy: i64) -> (b: bool)
        requires
            self.wf(),
            self.in_bounds(x as int, y as int),
            -1 <= dx <= 1,
            -1 <= dy <= 1,
        ensures
            b == self.neighbor_counted(x as int, y as int, dx as int, dy as int),
    {
        let w = self.width as i64;
        let h = self.height as i64;
        let mut nx = x as i64 + dx;
        let mut ny = y as i64 + dy;
        if self.circular {
            if nx < 0 {
                nx = w - 1;
            }
            if nx >= w {
                nx = 0;
            }
            if ny < 0 {
                ny = h - 1;
            }
            if ny >= h {
                ny = 0;
            }
        } else {
            if nx < 0 || nx >= w || ny < 0 || ny >= h {
                return false;
            }
        }
        self.get(nx as u32, ny as u32) == Cell::Alive
    }

    /// Counts the live cells among the 8 Moore neighbors of `(x, y)`,
    /// resolving each neighbor coordinate under the current topology: on a
    /// toroidal grid out-of-range coordinates wrap, on a bounded grid they
    /// are skipped. Only `Alive` neighbors count; the result is at most 8.
    pub fn live_neighbor_count(&self, x: u32, y: u32) -> (n: usize)
        requires
            self.wf(),
            self.in_bounds(x as int, y as int),
        ensures
            n == self.spec_live_neighbors(x as int, y as int),
            n <= 8,
    {
        let mut n: usize = 0;
        if self.neighbor_alive(x, y, -1, -1) {
            n = n + 1;
        }
        if self.neighbor_alive(x, y, -1, 0) {
            n = n + 1;
        }
        if self.neighbor_alive(x, y, -1, 1) {
            n = n + 1;
        }
        if self.neighbor_alive(x, y, 0, -1) {
            n = n + 1;
        }
        if self.neighbor_alive(x, y, 0, 1) {
            n = n + 1;
        }
        if self.neighbor_alive(x, y, 1, -1) {
            n = n + 1;
        }
        if self.neighbor_alive(x, y, 1, 0) {
            n = n + 1;
        }
        if self.neighbor_alive(x, y, 1, 1) {
            n = n + 1;
        }
        n
    }

    /// Advances the grid one generation. Every cell's next state is the
    /// fixed transition rule applied to its current state and its
    /// live-neighbor count, all read from a snapshot of the current buffer:
    /// no update observes another cell's new value within the same step. The
    /// dimensions and the topology are unchanged.
    pub fn next(&mut self)
        requires
            old(self).wf(),
        ensures
            final(self).wf(),
            final(self).spec_width() == old(self).spec_width(),
            final(self).spec_height() == old(self).spec_height(),
            final(self).spec_circular() == old(self).spec_circular(),
            forall|x: int, y: int|
                old(self).in_bounds(x, y) ==> final(self).cell_at(x, y) == old(self).next_cell(
                    x,
                    y,
                ),
    {
        let w = self.width;
        let h = self.height;
        let mut buffer: Vec<Cell> = Vec::new();
        let mut y: u32 = 0;
        while y < h
            invariant
                *self == *old(self),
                self.wf(),
                w == self.spec_width(),
                h == self.spec_height(),
                y <= h,
                buffer@.len() == y * w,
                forall|xx: int, yy: int|
                    0 <= xx < w && 0 <= yy < y ==> buffer@[xx + yy * w] == self.next_cell(xx, yy),
            decreases h - y,
        {
            let mut x: u32 = 0;
            while x < w
                invariant
                    *self == *old(self),
                    self.wf(),
                    w == self.spec_width(),
                    h == self.spec_height(),
                    y < h,
                    x <= w,
                    buffer@.len() == y * w + x,
                    forall|xx: int, yy: int|
                        0 <= xx < w && (0 <= yy < y || (yy == y && 0 <= xx < x)) ==> buffer@[xx + yy
                            * w] == self.next_cell(xx, yy),
                decreases w - x,
            {
                let cell = self.get(x, y);
                let count = self.live_neighbor_count(x, y);
                let next = match cell {
                    Cell::Alive => if count == 2 || count == 3 {
                        Cell::Alive
                    } else {
                        Cell::Dead
                    },
                    _ => if count == 3 {
                        Cell::Alive
                    } else {
                        cell
                    },
                };
                buffer.push(next);
                proof {
                    assert forall|xx: int, yy: int|
                        0 <= xx < w && (0 <= yy < y || (yy == y && 0 <= xx < x + 1)) implies buffer@[
                        xx + yy * w] == self.next_cell(xx, yy) by {
                        lemma_row_major_lt(xx, yy, w as int, x + 1, y as int);
                        if yy < y || xx < x {
                            lemma_row_major_lt(xx, yy, w as int, x as int, y as int);
                        } else {
                            lemma_index_injective(xx, yy, x as int, y as int, w as int);
                        }
                    }
                }
                x = x + 1;
            }
            proof {
                assert((y + 1) * w == y * w + w) by (nonlinear_arith);
            }
            y = y + 1;
        }
        self.cells = buffer;
        proof {
            assert(self.cells@.len() == self.spec_width() * self.spec_height())
                by (nonlinear_arith)
                requires
                    self.cells@.len() == self.spec_height() * self.spec_width(),
            ;
            assert forall|x: int, y: int| old(self).in_bounds(x, y) implies self.cell_at(x, y)
                == old(self).next_cell(x, y) by {
                lemma_index_bound(x, y, self.spec_width(), self.spec_height());
            }
        }
    }

    /// Renders the grid as text, row-major: one glyph per cell and a line
    /// break after each row, so the result holds `height * (width + 1)`
    /// characters and the glyph of `(x, y)` sits at `y * (width + 1) + x`.
    pub fn render(&self) -> (s: String)
        requires
            self.wf(),
        ensures
            s@.len() == self.spec_height() * (self.spec_width() + 1),
            forall|x: int, y: int|
                self.in_bounds(x, y) ==> s@[y * (self.spec_width() + 1) + x] == glyph(
                    self.cell_at(x, y),
                ),
            forall|y: int|
                0 <= y < self.spec_height() ==> #[trigger] s@[y * (self.spec_width() + 1)
                    + self.spec_width()] == '\n',
    {
        let w = self.width;
        let h = self.height;
        let mut s = String::new();
        let mut y: u32 = 0;
        while y < h
            invariant
                self.wf(),
                w == self.spec_width(),
                h == self.spec_height(),
                y <= h,
                s@.len() == y * (w + 1),
                forall|xx: int, yy: int|
                    0 <= xx < w && 0 <= yy < y ==> s@[yy * (w + 1) + xx] == glyph(
                        self.cell_at(xx, yy),
                    ),
                forall|yy: int| 0 <= yy < y ==> #[trigger] s@[yy * (w + 1) + w] == '\n',
            decreases h - y,
        {
            let mut x: u32 = 0;
            while x < w
                invariant
                    self.wf(),
                    w == self.spec_width(),
                    h == self.spec_height(),
                    y < h,
                    x <= w,
                    s@.len() == y * (w + 1) + x,
                    forall|xx: int, yy: int|
                        0 <= xx < w && (0 <= yy < y || (yy == y && 0 <= xx < x)) ==> s@[yy * (w + 1)
                            + xx] == glyph(self.cell_at(xx, yy)),
                    forall|yy: int| 0 <= yy < y ==> #[trigger] s@[yy * (w + 1) + w] == '\n',
                decreases w - x,
            {
                let g = glyph_str(self.get(x, y));
                s.append(g);
                proof {
                    assert forall|xx: int, yy: int|
                        0 <= xx < w && (0 <= yy < y || (yy == y && 0 <= xx < x + 1)) implies s@[yy
                        * (w + 1) + xx] == glyph(self.cell_at(xx, yy)) by {
                        lemma_row_major_lt(xx, yy, w + 1, x + 1, y as int);
                        if yy < y || xx < x {
                            lemma_row_major_lt(xx, yy, w + 1, x as int, y as int);
                        }
                    }
                    assert forall|yy: int| 0 <= yy < y implies #[trigger] s@[yy * (w + 1) + w]
                        == '\n' by {
                        lemma_row_major_lt(w as int, yy, w + 1, x as int, y as int);
                    }
                }
                x = x + 1;
            }
            s.append("\n");
            proof {
                reveal_strlit("\n");
                assert((y + 1) * (w + 1) == y * (w + 1) + w + 1) by (nonlinear_arith);
                assert forall|xx: int, yy: int|
                    0 <= xx < w && 0 <= yy < y + 1 implies s@[yy * (w + 1) + xx] == glyph(
                    self.cell_at(xx, yy),
                ) by {
                    lemma_row_major_lt(xx, yy, w + 1, w as int, y as int);
                }
                assert forall|yy: int| 0 <= yy < y + 1 implies #[trigger] s@[yy * (w + 1) + w]
                    == '\n' by {
                    if yy < y {
                        lemma_row_major_lt(w as int, yy, w + 1, w as int, y as int);
                    }
                }
            }
            y = y + 1;
        }
        s
    }
}

/// Dimension invariant: a well-formed grid has positive dimensions and a
/// buffer of exactly `width * height` cells. Every constructor and mutator
/// of `Universe` establishes or preserves `wf`, so this holds at every point
/// of a grid's lifetime.
pub proof fn lemma_dimension_invariant(u: Universe)
    requires
        u.wf(),
    ensures
        u.spec_cells().len() == u.spec_width() * u.spec_height(),
        1 <= u.spec_width(),
        1 <= u.spec_height(),
{
}

/// The live-neighbor count is never outside `[0, 8]`.
pub proof fn lemma_neighbor_count_range(u: Universe, x: int, y: int)
    ensures
        u.spec_live_neighbors(x, y) <= 8,
{
}

/// On a bounded grid a corner cell has at most 3 checked neighbors, so its
/// live-neighbor count is at most 3.
pub proof fn lemma_bounded_corner_count(u: Universe, x: int, y: int)
    requires
        u.wf(),
        !u.spec_circular(),
        u.in_bounds(x, y),
        x == 0 || x == u.spec_width() - 1,
        y == 0 || y == u.spec_height() - 1,
    ensures
        u.spec_live_neighbors(x, y) <= 3,
{
}

/// On a bounded grid an edge cell that is not a corner has at most 5
/// checked neighbors, so its live-neighbor count is at most 5.
pub proof fn lemma_bounded_edge_count(u: Universe, x: int, y: int)
    requires
        u.wf(),
        !u.spec_circular(),
        u.in_bounds(x, y),
        ((x == 0 || x == u.spec_width() - 1) && 0 < y < u.spec_height() - 1) || ((y == 0 || y
            == u.spec_height() - 1) && 0 < x < u.spec_width() - 1),
    ensures
        u.spec_live_neighbors(x, y) <= 5,
{
}

/// Toroidal wrap on the x axis: for every row, a live cell in the first
/// column is counted as a neighbor of the cell in the last column, and vice
/// versa.
pub proof fn lemma_toroidal_wrap_x(u: Universe, y: int)
    requires
        u.wf(),
        u.spec_circular(),
        0 <= y < u.spec_height(),
    ensures
        u.neighbor_counted(u.spec_width() - 1, y, 1, 0) == (u.cell_at(0, y) == Cell::Alive),
        u.neighbor_counted(0, y, -1, 0) == (u.cell_at(u.spec_width() - 1, y) == Cell::Alive),
        u.cell_at(0, y) == Cell::Alive ==> u.spec_live_neighbors(u.spec_width() - 1, y) >= 1,
        u.cell_at(u.spec_width() - 1, y) == Cell::Alive ==> u.spec_live_neighbors(0, y) >= 1,
{
}

/// Toroidal wrap on the y axis: for every column, a live cell in the first
/// row is counted as a neighbor of the cell in the last row, and vice versa.
pub proof fn lemma_toroidal_wrap_y(u: Universe, x: int)
    requires
        u.wf(),
        u.spec_circular(),
        0 <= x < u.spec_width(),
    ensures
        u.neighbor_counted(x, u.spec_height() - 1, 0, 1) == (u.cell_at(x, 0) == Cell::Alive),
        u.neighbor_counted(x, 0, 0, -1) == (u.cell_at(x, u.spec_height() - 1) == Cell::Alive),
        u.cell_at(x, 0) == Cell::Alive ==> u.spec_live_neighbors(x, u.spec_height() - 1) >= 1,
        u.cell_at(x, u.spec_height() - 1) == Cell::Alive ==> u.spec_live_neighbors(x, 0) >= 1,
{
}

/// Advancing is deterministic: two grids with the same dimensions, the same
/// topology flag and the same cell contents agree on the next state of every
/// cell, so repeated generation steps from equal starting states always
/// produce the same sequence of generations.
pub proof fn lemma_step_deterministic(a: Universe, b: Universe)
    requires
        a.wf(),
        b.wf(),
        a.spec_width() == b.spec_width(),
        a.spec_height() == b.spec_height(),
        a.spec_circular() == b.spec_circular(),
        a.spec_cells() == b.spec_cells(),
    ensures
        forall|x: int, y: int| #[trigger] a.next_cell(x, y) == b.next_cell(x, y),
{
    assert forall|x: int, y: int| #[trigger] a.next_cell(x, y) == b.next_cell(x, y) by {
        assert(forall|i: int, j: int| #[trigger] a.cell_at(i, j) == b.cell_at(i, j));
        assert(forall|dx: int, dy: int| #[trigger]
            a.neighbor_contrib(x, y, dx, dy) == b.neighbor_contrib(x, y, dx, dy));
    }
}

/// The one-character string that renders one cell.
fn glyph_str(c: Cell) -> (g: &'static str)
    ensures
        g@.len() == 1,
        g@[0] == glyph(c),
{
    match c {
        Cell::Empty => {
            proof {
                reveal_strlit(" ");
            }
            " "
        },
        Cell::Alive => {
            proof {
                reveal_strlit("◼");
            }
            "◼"
        },
        Cell::Dead => {
            proof {
                reveal_strlit("◻");
            }
            "◻"
        },
    }
}

} // verus!
