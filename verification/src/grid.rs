//! The grid store: a dense row-major array of cells addressed on a torus.
//!
//! Coordinates are reduced modulo the grid's height and width inside the
//! accessors, so every `(row, column)` pair names a cell and no out-of-range
//! access is possible.

use vstd::prelude::*;

verus! {

use vstd::arithmetic::div_mod::{
    lemma_fundamental_div_mod_converse_mod,
    lemma_mod_division_less_than_divisor,
    lemma_mod_multiples_vanish,
    lemma_mod_self_0,
    lemma_small_mod,
};

/// State of one cell of the automaton.
#[derive(Clone, Copy, PartialEq, Eq, Structural, Debug)]
pub enum Cell {
    Dead,
    Live,
}

pub open spec fn is_live(c: Cell) -> bool {
    c is Live
}

/// A grid position: `y` is the row, `x` is the column.
#[derive(Clone, Copy, PartialEq, Eq, Structural, Debug)]
pub struct Coord {
    pub y: usize,
    pub x: usize,
}

/// Row-major index of position `(y, x)` on a `w` by `h` torus, after both
/// components are wrapped.
pub open spec fn index_of(w: nat, h: nat, y: int, x: int) -> int
    recommends
        0 < w,
        0 < h,
{
    (y % (h as int)) * (w as int) + x % (w as int)
}

/// The cell stored at wrapped position `(y, x)`.
pub open spec fn cell_of(s: Seq<Cell>, w: nat, h: nat, y: int, x: int) -> Cell
    recommends
        0 < w,
        0 < h,
        s.len() == w * h,
{
    s[index_of(w, h, y, x)]
}

/// An all-dead cell sequence of length `n`.
pub open spec fn dead_cells(n: nat) -> Seq<Cell> {
    Seq::new(n, |i: int| Cell::Dead)
}

/// Row offset of the `k`-th of the eight neighbors of a cell, enumerated
/// clockwise from the top-left:
/// `(-1,-1), (-1,0), (-1,1), (0,-1), (0,1), (1,-1), (1,0), (1,1)`.
pub open spec fn row_offset(k: int) -> int {
    if k < 3 {
        -1
    } else if k < 5 {
        0
    } else {
        1
    }
}

/// Column offset of the `k`-th of the eight neighbors, in the same order.
pub open spec fn col_offset(k: int) -> int {
    if k == 0 || k == 3 || k == 5 {
        -1
    } else if k == 1 || k == 6 {
        0
    } else {
        1
    }
}

/// Wrapped row of the `k`-th neighbor of a cell in row `y`.
pub open spec fn neighbor_row(h: nat, y: int, k: int) -> int
    recommends
        0 < h,
{
    (y + row_offset(k)) % (h as int)
}

/// Wrapped column of the `k`-th neighbor of a cell in column `x`.
pub open spec fn neighbor_col(w: nat, x: int, k: int) -> int
    recommends
        0 < w,
{
    (x + col_offset(k)) % (w as int)
}

/// 1 if the `k`-th neighbor of `(y, x)` is live, else 0.
pub open spec fn neighbor_live(s: Seq<Cell>, w: nat, h: nat, y: int, x: int, k: int) -> int {
    if is_live(cell_of(s, w, h, neighbor_row(h, y, k), neighbor_col(w, x, k))) {
        1
    } else {
        0
    }
}

/// Number of live cells among the first `k` of the eight neighbors of `(y, x)`.
pub open spec fn live_among(s: Seq<Cell>, w: nat, h: nat, y: int, x: int, k: int) -> int
    decreases k,
{
    if k <= 0 {
        0
    } else {
        live_among(s, w, h, y, x, k - 1) + neighbor_live(s, w, h, y, x, k - 1)
    }
}

/// Number of live cells among the first `k` cells of `s`.
pub open spec fn live_cells_upto(s: Seq<Cell>, k: int) -> int
    decreases k,
{
    if k <= 0 {
        0
    } else {
        live_cells_upto(s, k - 1) + if is_live(s[k - 1]) {
            1int
        } else {
            0int
        }
    }
}

/// Number of live cells in the whole of `s`.
pub open spec fn live_cells(s: Seq<Cell>) -> int {
    live_cells_upto(s, s.len() as int)
}

/// Number of live cells among the eight toroidal neighbors of `(y, x)`.
pub open spec fn live_neighbor_count(s: Seq<Cell>, w: nat, h: nat, y: int, x: int) -> int {
    live_among(s, w, h, y, x, 8)
}

impl Coord {
    /// The eight toroidal neighbors of `self` on a `width` by `height` torus,
    /// in clockwise order from the top-left; each component independently
    /// wrapped. A fresh sequence per call, with no shared state.
    pub fn neighbors(&self, width: usize, height: usize) -> (ns: Vec<Coord>)
        requires
            0 < width,
            0 < height,
            self.y < height,
            self.x < width,
            2 * width <= usize::MAX,
            2 * height <= usize::MAX,
        ensures
            ns@.len() == 8,
            forall|k: int|
                0 <= k < 8 ==> (#[trigger] ns@[k]).y == neighbor_row(
                    height as nat,
                    self.y as int,
                    k,
                ),
            forall|k: int|
                0 <= k < 8 ==> (#[trigger] ns@[k]).x == neighbor_col(
                    width as nat,
                    self.x as int,
                    k,
                ),
    {
        let up = (self.y + height - 1) % height;
        let down = (self.y + 1) % height;
        let left = (self.x + width - 1) % width;
        let right = (self.x + 1) % width;
        proof {
            lemma_mod_multiples_vanish(1, self.y as int - 1, height as int);
            lemma_mod_multiples_vanish(1, self.x as int - 1, width as int);
            lemma_small_mod(self.y as nat, height as nat);
            lemma_small_mod(self.x as nat, width as nat);
        }
        let mut ns: Vec<Coord> = Vec::new();
        ns.push(Coord { y: up, x: left });
        ns.push(Coord { y: up, x: self.x });
        ns.push(Coord { y: up, x: right });
        ns.push(Coord { y: self.y, x: left });
        ns.push(Coord { y: self.y, x: right });
        ns.push(Coord { y: down, x: left });
        ns.push(Coord { y: down, x: self.x });
        ns.push(Coord { y: down, x: right });
        ns
    }
}

/// Dense row-major store of the cells of a `width` by `height` torus.
pub struct Grid {
    width: usize,
    height: usize,
    content: Vec<Cell>,
}

impl Grid {
    pub closed spec fn spec_width(self) -> nat {
        self.width as nat
    }

    pub closed spec fn spec_height(self) -> nat {
        self.height as nat
    }

    pub closed spec fn cells(self) -> Seq<Cell> {
        self.content@
    }

    /// Well-formedness: positive dimensions, a dense cell array of exactly
    /// `width * height` cells, and room in `usize` for the 4-byte-per-cell
    /// pixel projection.
    pub open spec fn wf(self) -> bool {
        &&& 0 < self.spec_width()
        &&& 0 < self.spec_height()
        &&& self.cells().len() == self.spec_width() * self.spec_height()
        &&& self.spec_width() * self.spec_height() * 4 <= usize::MAX
    }

    /// A fresh all-dead grid of the given positive dimensions.
    pub fn new(width: usize, height: usize) -> (g: Grid)
        requires
            0 < width,
            0 < height,
            width * height * 4 <= usize::MAX,
        ensures
            g.wf(),
            g.spec_width() == width,
            g.spec_height() == height,
            g.cells() == dead_cells((width * height) as nat),
    {
        proof {
            assert(width * height <= width * height * 4) by (nonlinear_arith)
                requires
                    0 < width,
                    0 < height,
            ;
        }
        let n = width * height;
        let content: Vec<Cell> = vec![Cell::Dead; n];
        let g = Grid { width, height, content };
        proof {
            assert(g.cells() =~= dead_cells((width * height) as nat));
        }
        g
    }

    /// The grid's width.
    pub fn get_width(&self) -> (w: usize)
        ensures
            w == self.spec_width(),
    {
        self.width
    }

    /// The grid's height.
    pub fn get_height(&self) -> (h: usize)
        ensures
            h == self.spec_height(),
    {
        self.height
    }

    /// The number of cells, `width * height`.
    pub fn cell_count(&self) -> (n: usize)
        ensures
            n == self.cells().len(),
    {
        self.content.len()
    }

    /// Read the cell at row-major index `i`.
    pub fn get_at(&self, i: usize) -> (r: Cell)
        requires
            i < self.cells().len(),
        ensures
            r == self.cells()[i as int],
    {
        self.content[i]
    }

    /// Count the live cells of the whole grid.
    pub fn live_count(&self) -> (n: usize)
        requires
            self.wf(),
        ensures
            n == live_cells(self.cells()),
    {
        let mut n: usize = 0;
        let mut i: usize = 0;
        let len = self.content.len();
        while i < len
            invariant
                len == self.cells().len(),
                i <= len,
                n <= i,
                n == live_cells_upto(self.cells(), i as int),
            decreases len - i,
        {
            let c = self.content[i];
            if c == Cell::Live {
                n = n + 1;
            }
            i = i + 1;
        }
        n
    }

    /// The wrapped row-major index of `c`, as executable code.
    fn index(&self, c: Coord) -> (i: usize)
        requires
            self.wf(),
        ensures
            i == index_of(self.spec_width(), self.spec_height(), c.y as int, c.x as int),
            i < self.cells().len(),
    {
        let row = c.y % self.height;
        let col = c.x % self.width;
        proof {
            assert(row * self.width + col < self.height * self.width) by (nonlinear_arith)
                requires
                    row < self.height,
                    col < self.width,
                    0 < self.width,
            ;
            assert(self.height * self.width == self.width * self.height) by (nonlinear_arith);
        }
        row * self.width + col
    }

    /// Read the cell at `c`, both components wrapped.
    pub fn get(&self, c: Coord) -> (r: Cell)
        requires
            self.wf(),
        ensures
            r == cell_of(self.cells(), self.spec_width(), self.spec_height(), c.y as int, c.x as int),
    {
        let i = self.index(c);
        self.content[i]
    }

    /// Write `v` to the cell at `c`, both components wrapped; every other
    /// cell and the dimensions are unchanged.
    pub fn set(&mut self, c: Coord, v: Cell)
        requires
            old(self).wf(),
        ensures
            final(self).wf(),
            final(self).spec_width() == old(self).spec_width(),
            final(self).spec_height() == old(self).spec_height(),
            final(self).cells() == old(self).cells().update(
                index_of(old(self).spec_width(), old(self).spec_height(), c.y as int, c.x as int),
                v,
            ),
            cell_of(final(self).cells(), final(self).spec_width(), final(self).spec_height(), c.y as int, c.x as int) == v,
    {
        let i = self.index(c);
        self.content[i] = v;
    }

    /// Count the live cells among the eight toroidal neighbors of `c`.
    pub fn live_neighbors(&self, c: Coord) -> (n: u8)
        requires
            self.wf(),
            c.y < self.spec_height(),
            c.x < self.spec_width(),
        ensures
            n == live_neighbor_count(
                self.cells(),
                self.spec_width(),
                self.spec_height(),
                c.y as int,
                c.x as int,
            ),
            n <= 8,
    {
        proof {
            assert(2 * self.width <= self.width * self.height * 4) by (nonlinear_arith)
                requires
                    0 < self.width,
                    0 < self.height,
            ;
            assert(2 * self.height <= self.width * self.height * 4) by (nonlinear_arith)
                requires
                    0 < self.width,
                    0 < self.height,
            ;
        }
        let ns = c.neighbors(self.width, self.height);
        let mut n: u8 = 0;
        let mut k: usize = 0;
        while k < 8
            invariant
                self.wf(),
                c.y < self.spec_height(),
                c.x < self.spec_width(),
                k <= 8,
                n <= k,
                ns@.len() == 8,
                forall|j: int|
                    0 <= j < 8 ==> (#[trigger] ns@[j]).y == neighbor_row(
                        self.spec_height(),
                        c.y as int,
                        j,
                    ),
                forall|j: int|
                    0 <= j < 8 ==> (#[trigger] ns@[j]).x == neighbor_col(
                        self.spec_width(),
                        c.x as int,
                        j,
                    ),
                n == live_among(
                    self.cells(),
                    self.spec_width(),
                    self.spec_height(),
                    c.y as int,
                    c.x as int,
                    k as int,
                ),
            decreases 8 - k,
        {
            let cc = ns[k];
            let cell = self.get(cc);
            if cell == Cell::Live {
                n = n + 1;
            }
            k = k + 1;
        }
        n
    }

    /// Replace the whole cell array by a successor generation of the same size.
    pub fn replace_cells(&mut self, next: Vec<Cell>)
        requires
            old(self).wf(),
            next@.len() == old(self).cells().len(),
        ensures
            final(self).wf(),
            final(self).spec_width() == old(self).spec_width(),
            final(self).spec_height() == old(self).spec_height(),
            final(self).cells() == next@,
    {
        self.content = next;
    }
}

proof fn lemma_live_among_nonneg(s: Seq<Cell>, w: nat, h: nat, y: int, x: int, k: int)
    ensures
        0 <= live_among(s, w, h, y, x, k),
    decreases k,
{
    if k > 0 {
        lemma_live_among_nonneg(s, w, h, y, x, k - 1);
    }
}

proof fn lemma_live_among_ge_term(s: Seq<Cell>, w: nat, h: nat, y: int, x: int, k: int, j: int)
    requires
        0 <= j < k,
    ensures
        live_among(s, w, h, y, x, k) >= neighbor_live(s, w, h, y, x, j),
    decreases k,
{
    if j == k - 1 {
        lemma_live_among_nonneg(s, w, h, y, x, k - 1);
    } else {
        lemma_live_among_ge_term(s, w, h, y, x, k - 1, j);
    }
}

/// Toroidal wrap, general form: the grid has no edges, so for any of the
/// eight offsets a live cell at the wrapped position `(y + dy, x + dx)` is
/// counted among the neighbors of `(y, x)` — also where the offset crosses
/// row 0, row `h - 1`, column 0 or column `w - 1`.
pub proof fn lemma_toroidal_neighbor_counted(s: Seq<Cell>, w: nat, h: nat, y: int, x: int, k: int)
    requires
        0 < w,
        0 < h,
        s.len() == w * h,
        0 <= y < h,
        0 <= x < w,
        0 <= k < 8,
        is_live(cell_of(s, w, h, y + row_offset(k), x + col_offset(k))),
    ensures
        live_neighbor_count(s, w, h, y, x) >= 1,
{
    let ny = (y + row_offset(k)) % (h as int);
    let nx = (x + col_offset(k)) % (w as int);
    lemma_mod_division_less_than_divisor(y + row_offset(k), h as int);
    lemma_mod_division_less_than_divisor(x + col_offset(k), w as int);
    lemma_small_mod(ny as nat, h as nat);
    lemma_small_mod(nx as nat, w as nat);
    assert(cell_of(s, w, h, ny, nx) == cell_of(s, w, h, y + row_offset(k), x + col_offset(k)));
    assert(neighbor_live(s, w, h, y, x, k) == 1);
    lemma_live_among_ge_term(s, w, h, y, x, 8, k);
}

/// Toroidal wrap: a live cell on one edge of the grid is a counted neighbor
/// of the cell directly across on the opposite edge, in the same row or the
/// same column.
pub proof fn lemma_toroidal_wrap(s: Seq<Cell>, w: nat, h: nat, y: int, x: int)
    requires
        0 < w,
        0 < h,
        s.len() == w * h,
        0 <= y < h,
        0 <= x < w,
    ensures
        x == w - 1 && is_live(cell_of(s, w, h, y, 0)) ==> live_neighbor_count(s, w, h, y, x) >= 1,
        x == 0 && is_live(cell_of(s, w, h, y, w - 1)) ==> live_neighbor_count(s, w, h, y, x) >= 1,
        y == h - 1 && is_live(cell_of(s, w, h, 0, x)) ==> live_neighbor_count(s, w, h, y, x) >= 1,
        y == 0 && is_live(cell_of(s, w, h, h - 1, x)) ==> live_neighbor_count(s, w, h, y, x) >= 1,
{
    lemma_small_mod(y as nat, h as nat);
    lemma_small_mod(x as nat, w as nat);
    lemma_mod_self_0(w as int);
    lemma_mod_self_0(h as int);
    lemma_fundamental_div_mod_converse_mod(-1, w as int, -1, w as int - 1);
    lemma_fundamental_div_mod_converse_mod(-1, h as int, -1, h as int - 1);
    if x == w - 1 && is_live(cell_of(s, w, h, y, 0)) {
        // the neighbor to the right (offset (0, +1)) wraps to column 0
        assert(neighbor_col(w, x, 4) == 0);
        assert(neighbor_live(s, w, h, y, x, 4) == 1);
        lemma_live_among_ge_term(s, w, h, y, x, 8, 4);
    }
    if x == 0 && is_live(cell_of(s, w, h, y, w - 1)) {
        // the neighbor to the left (offset (0, -1)) wraps to column w - 1
        assert(neighbor_col(w, x, 3) == w - 1);
        assert(neighbor_live(s, w, h, y, x, 3) == 1);
        lemma_live_among_ge_term(s, w, h, y, x, 8, 3);
    }
    if y == h - 1 && is_live(cell_of(s, w, h, 0, x)) {
        // the neighbor below (offset (+1, 0)) wraps to row 0
        assert(neighbor_row(h, y, 6) == 0);
        assert(neighbor_live(s, w, h, y, x, 6) == 1);
        lemma_live_among_ge_term(s, w, h, y, x, 8, 6);
    }
    if y == 0 && is_live(cell_of(s, w, h, h - 1, x)) {
        // the neighbor above (offset (-1, 0)) wraps to row h - 1
        assert(neighbor_row(h, y, 1) == h - 1);
        assert(neighbor_live(s, w, h, y, x, 1) == 1);
        lemma_live_among_ge_term(s, w, h, y, x, 8, 1);
    }
}

} // verus!
