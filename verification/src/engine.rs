//! The automaton engine: one exclusively owned grid store, advanced a whole
//! generation at a time, with seeding and two side-effect-free render
//! projections.

use vstd::prelude::*;

verus! {

use crate::grid::{
    cell_of,
    dead_cells,
    is_live,
    live_cells,
    live_neighbor_count,
    Cell,
    Coord,
    Grid,
};
use vstd::string::StringExecFns;
use vstd::arithmetic::div_mod::{
    lemma_div_is_ordered,
    lemma_div_plus_one,
    lemma_fundamental_div_mod,
    lemma_fundamental_div_mod_converse,
    lemma_mod_division_less_than_divisor,
    lemma_small_mod,
};

/// Next state of a cell under the rule table, given its current state and
/// the number of live cells among its eight neighbors: a live cell survives
/// exactly with two or three live neighbors (fewer is isolation, more is
/// overcrowding), and a dead cell is born exactly with three.
pub open spec fn next_cell(c: Cell, n: int) -> Cell {
    match c {
        Cell::Live => if 2 <= n && n <= 3 {
            Cell::Live
        } else {
            Cell::Dead
        },
        Cell::Dead => if n == 3 {
            Cell::Live
        } else {
            Cell::Dead
        },
    }
}

/// The successor of a whole generation: every cell's next state is computed
/// from the same current grid `s`.
pub open spec fn next_gen(s: Seq<Cell>, w: nat, h: nat) -> Seq<Cell>
    recommends
        0 < w,
        0 < h,
        s.len() == w * h,
{
    Seq::new(
        (w * h) as nat,
        |i: int|
            next_cell(s[i], live_neighbor_count(s, w, h, i / (w as int), i % (w as int))),
    )
}

/// The byte stream that the seeded pseudo-random generator yields: a pure
/// function of the seed and of the requested length.
pub uninterp spec fn seeded_bytes(seed: u64, len: nat) -> Seq<u8>;

/// Relies on rand's `SmallRng::seed_from_u64` followed by `RngCore::fill_bytes`:
/// the generator's state is derived from `seed` alone, and `fill_bytes` fills
/// the whole buffer from it, so the bytes are a deterministic function of
/// `seed` and `len`.
#[verifier::external_body]
fn fill_seeded_bytes(seed: u64, len: usize) -> (bytes: Vec<u8>)
    ensures
        bytes@ == seeded_bytes(seed, len as nat),
        bytes@.len() == len,
{
    let mut rng = <rand::rngs::SmallRng as rand::SeedableRng>::seed_from_u64(seed);
    let mut bytes = vec![0u8; len];
    rand::RngCore::fill_bytes(&mut rng, &mut bytes);
    bytes
}

/// Number of bytes needed to supply one bit for each of `n` cells.
pub open spec fn bytes_for(n: nat) -> nat {
    (n + 7) / 8
}

/// Bit `i` of a packed bit sequence: bit `i % 8` of byte `i / 8`.
pub open spec fn bit_of(bytes: Seq<u8>, i: int) -> bool
    recommends
        0 <= i,
        i / 8 < bytes.len(),
{
    bytes[i / 8] & (1u8 << ((i % 8) as usize)) != 0
}

/// The generation that seeding a `w` by `h` grid with `seed` produces: cell
/// `i` is live exactly when bit `i` of the seeded byte stream is set, one
/// independent bit per cell.
pub open spec fn randomized(w: nat, h: nat, seed: u64) -> Seq<Cell> {
    Seq::new(
        (w * h) as nat,
        |i: int|
            if bit_of(seeded_bytes(seed, bytes_for((w * h) as nat)), i) {
                Cell::Live
            } else {
                Cell::Dead
            },
    )
}

/// Glyph of one cell in the text projection.
pub open spec fn glyph(c: Cell) -> char {
    if is_live(c) {
        '+'
    } else {
        ' '
    }
}

/// The text projection of a generation: `h` lines of `w` glyphs in row-major
/// order, each line terminated by a newline.
pub open spec fn text_of(s: Seq<Cell>, w: nat, h: nat) -> Seq<char>
    recommends
        0 < w,
        0 < h,
        s.len() == w * h,
{
    Seq::new(
        (h * (w + 1)) as nat,
        |j: int|
            if j % ((w + 1) as int) == w as int {
                '\n'
            } else {
                glyph(s[(j / ((w + 1) as int)) * (w as int) + j % ((w + 1) as int)])
            },
    )
}

/// Byte `k` (of 4) of the fixed color of cell `c` in the pixel projection:
/// opaque red for a live cell, opaque black for a dead one.
pub open spec fn pixel_byte(c: Cell, k: int) -> u8 {
    if k == 3 {
        255
    } else if k == 0 && is_live(c) {
        255
    } else {
        0
    }
}

/// The pixel projection of a generation: four bytes per cell, row-major.
pub open spec fn pixels_of(s: Seq<Cell>) -> Seq<u8> {
    Seq::new(s.len() * 4, |j: int| pixel_byte(s[j / 4], j % 4))
}

/// The automaton engine.
pub struct Universe {
    grid: Grid,
}

impl Universe {
    pub closed spec fn spec_width(self) -> nat {
        self.grid.spec_width()
    }

    pub closed spec fn spec_height(self) -> nat {
        self.grid.spec_height()
    }

    /// The current generation, row-major.
    pub closed spec fn cells(self) -> Seq<Cell> {
        self.grid.cells()
    }

    /// Well-formedness: positive dimensions, a dense row-major cell array of
    /// exactly `width * height` cells, and room in `usize` for the
    /// 4-byte-per-cell pixel projection.
    pub open spec fn wf(self) -> bool {
        &&& 0 < self.spec_width()
        &&& 0 < self.spec_height()
        &&& self.cells().len() == self.spec_width() * self.spec_height()
        &&& self.spec_width() * self.spec_height() * 4 <= usize::MAX
    }

    /// A fresh engine of the given positive dimensions, with every cell dead.
    pub fn new(width: usize, height: usize) -> (u: Universe)
        requires
            0 < width,
            0 < height,
            width * height * 4 <= usize::MAX,
        ensures
            u.wf(),
            u.spec_width() == width,
            u.spec_height() == height,
            u.cells() == dead_cells((width * height) as nat),
    {
        Universe { grid: Grid::new(width, height) }
    }

    pub fn get_width(&self) -> (w: usize)
        ensures
            w == self.spec_width(),
    {
        self.grid.get_width()
    }

    pub fn get_height(&self) -> (h: usize)
        ensures
            h == self.spec_height(),
    {
        self.grid.get_height()
    }

    /// Read the cell at `c`, both coordinate components wrapped.
    pub fn get(&self, c: Coord) -> (r: Cell)
        requires
            self.wf(),
        ensures
            r == cell_of(
                self.cells(),
                self.spec_width(),
                self.spec_height(),
                c.y as int,
                c.x as int,
            ),
    {
        self.grid.get(c)
    }

    /// Write `v` to the cell at `c`, both coordinate components wrapped;
    /// every other cell and the dimensions are unchanged.
    pub fn set(&mut self, c: Coord, v: Cell)
        requires
            old(self).wf(),
        ensures
            final(self).wf(),
            final(self).spec_width() == old(self).spec_width(),
            final(self).spec_height() == old(self).spec_height(),
            final(self).cells() == old(self).cells().update(
                crate::grid::index_of(
                    old(self).spec_width(),
                    old(self).spec_height(),
                    c.y as int,
                    c.x as int,
                ),
                v,
            ),
            cell_of(
                final(self).cells(),
                final(self).spec_width(),
                final(self).spec_height(),
                c.y as int,
                c.x as int,
            ) == v,
    {
        self.grid.set(c, v);
    }

    /// The number of live cells in the current generation: the observable
    /// count the engine reports after seeding or stepping.
    pub fn live_count(&self) -> (n: usize)
        requires
            self.wf(),
        ensures
            n == live_cells(self.cells()),
    {
        self.grid.live_count()
    }

    /// Refill the grid from a pseudo-random source keyed solely by `seed`,
    /// one independent bit per cell, so that the same seed on a grid of the
    /// same dimensions always yields the identical generation.
    pub fn randomize(&mut self, seed: u64)
        requires
            old(self).wf(),
        ensures
            final(self).wf(),
            final(self).spec_width() == old(self).spec_width(),
            final(self).spec_height() == old(self).spec_height(),
            final(self).cells() == randomized(
                old(self).spec_width(),
                old(self).spec_height(),
                seed,
            ),
    {
        let width = self.grid.get_width();
        let height = self.grid.get_height();
        let ghost w = self.grid.spec_width();
        let ghost h = self.grid.spec_height();
        proof {
            assert(width * height <= width * height * 4) by (nonlinear_arith)
                requires
                    0 < width,
                    0 < height,
            ;
        }
        let n: usize = width * height;
        let nbytes: usize = (n + 7) / 8;
        let bits = fill_seeded_bytes(seed, nbytes);
        let mut content: Vec<Cell> = Vec::new();
        let mut i: usize = 0;
        while i < n
            invariant
                i <= n,
                n == w * h,
                0 < w,
                0 < h,
                nbytes == bytes_for((w * h) as nat),
                bits@ == seeded_bytes(seed, bytes_for((w * h) as nat)),
                bits@.len() == nbytes,
                content@.len() == i,
                forall|j: int| 0 <= j < i ==> content@[j] == randomized(w, h, seed)[j],
            decreases n - i,
        {
            proof {
                lemma_div_is_ordered(i as int, n as int - 1, 8);
                lemma_div_plus_one(n as int - 1, 8);
            }
            let byte: u8 = bits[i / 8];
            let mask: u8 = 1u8 << (i % 8);
            let cell = if byte & mask != 0 {
                Cell::Live
            } else {
                Cell::Dead
            };
            proof {
                assert(cell == randomized(w, h, seed)[i as int]);
            }
            content.push(cell);
            i = i + 1;
        }
        proof {
            assert(content@ =~= randomized(w, h, seed));
        }
        self.grid.replace_cells(content);
    }

    /// The successor generation as a fresh cell array, computed wholly from
    /// the current grid.
    fn next_generation(&self) -> (next: Vec<Cell>)
        requires
            self.wf(),
        ensures
            next@ == next_gen(self.cells(), self.spec_width(), self.spec_height()),
    {
        let width = self.grid.get_width();
        let height = self.grid.get_height();
        let ghost s = self.grid.cells();
        let ghost w = self.grid.spec_width();
        let ghost h = self.grid.spec_height();
        let mut next: Vec<Cell> = Vec::new();
        let mut y: usize = 0;
        while y < height
            invariant
                self.grid.wf(),
                width == w,
                height == h,
                w == self.grid.spec_width(),
                h == self.grid.spec_height(),
                s == self.grid.cells(),
                y <= height,
                next@.len() == y * width,
                forall|i: int|
                    0 <= i < next@.len() ==> next@[i] == next_gen(s, w, h)[i],
            decreases height - y,
        {
            let mut x: usize = 0;
            while x < width
                invariant
                    self.grid.wf(),
                    width == w,
                    height == h,
                    w == self.grid.spec_width(),
                    h == self.grid.spec_height(),
                    s == self.grid.cells(),
                    y < height,
                    x <= width,
                    next@.len() == y * width + x,
                    forall|i: int|
                        0 <= i < next@.len() ==> next@[i] == next_gen(s, w, h)[i],
                decreases width - x,
            {
                let here = Coord { y, x };
                let n = self.grid.live_neighbors(here);
                let cur = self.grid.get(here);
                let cell = if cur == Cell::Live {
                    if n < 2 {
                        Cell::Dead
                    } else if n > 3 {
                        Cell::Dead
                    } else {
                        Cell::Live
                    }
                } else {
                    if n == 3 {
                        Cell::Live
                    } else {
                        Cell::Dead
                    }
                };
                proof {
                    let idx = y * (w as int) + x;
                    lemma_fundamental_div_mod_converse(idx, w as int, y as int, x as int);
                    lemma_small_mod(y as nat, h as nat);
                    lemma_small_mod(x as nat, w as nat);
                    assert(idx < w * h) by (nonlinear_arith)
                        requires
                            idx == y * (w as int) + x,
                            0 <= y < h,
                            0 <= x < w,
                    ;
                    assert(cell == next_gen(s, w, h)[idx]);
                }
                next.push(cell);
                x = x + 1;
            }
            y = y + 1;
            proof {
                assert((y - 1) * width + width == y * width) by (nonlinear_arith);
            }
        }
        proof {
            assert(height * width == w * h) by (nonlinear_arith)
                requires
                    width == w,
                    height == h,
            ;
            assert(next@ =~= next_gen(s, w, h));
        }
        next
    }

    /// The text snapshot: one line per row, `'+'` for a live cell and a
    /// blank for a dead one, each row terminated by a newline. Read-only.
    pub fn render(&self) -> (r: String)
        requires
            self.wf(),
        ensures
            r@ == text_of(self.cells(), self.spec_width(), self.spec_height()),
    {
        let width = self.grid.get_width();
        let height = self.grid.get_height();
        let ghost s = self.grid.cells();
        let ghost w = self.grid.spec_width();
        let ghost h = self.grid.spec_height();
        let ghost t = text_of(s, w, h);
        let mut out = String::new();
        let mut y: usize = 0;
        while y < height
            invariant
                self.grid.wf(),
                width == w,
                height == h,
                w == self.grid.spec_width(),
                h == self.grid.spec_height(),
                s == self.grid.cells(),
                t == text_of(s, w, h),
                y <= height,
                out@.len() == y * (w + 1),
                out@ == t.take((y * (w + 1)) as int),
            decreases height - y,
        {
            let mut x: usize = 0;
            while x < width
                invariant
                    self.grid.wf(),
                    width == w,
                    height == h,
                    w == self.grid.spec_width(),
                    h == self.grid.spec_height(),
                    s == self.grid.cells(),
                    t == text_of(s, w, h),
                    y < height,
                    x <= width,
                    out@.len() == y * (w + 1) + x,
                    out@ == t.take((y * (w + 1) + x) as int),
                decreases width - x,
            {
                let c = self.grid.get(Coord { y, x });
                proof {
                    let l = (y * (w + 1) + x) as int;
                    lemma_fundamental_div_mod_converse(l, w as int + 1, y as int, x as int);
                    lemma_small_mod(y as nat, h as nat);
                    lemma_small_mod(x as nat, w as nat);
                    assert(l < h * (w as int + 1)) by (nonlinear_arith)
                        requires
                            l == y * (w as int + 1) + x,
                            0 <= y < h,
                            0 <= x < w,
                    ;
                    assert(y * (w as int + 1) + x + (w as int) * (h as int) >= 0
                        && y * (w as int) + x < (w as int) * (h as int)) by (nonlinear_arith)
                        requires
                            0 <= y < h,
                            0 <= x < w,
                    ;
                    assert(t[l] == glyph(s[y * (w as int) + x]));
                    assert(c == s[y * (w as int) + x]);
                }
                if c == Cell::Live {
                    out.append("+");
                    proof {
                        reveal_strlit("+");
                        assert(out@ =~= t.take((y * (w + 1) + x + 1) as int));
                    }
                } else {
                    out.append(" ");
                    proof {
                        reveal_strlit(" ");
                        assert(out@ =~= t.take((y * (w + 1) + x + 1) as int));
                    }
                }
                x = x + 1;
            }
            out.append("\n");
            proof {
                reveal_strlit("\n");
                let l = (y * (w + 1) + w) as int;
                lemma_fundamental_div_mod_converse(l, w as int + 1, y as int, w as int);
                assert(l < h * (w as int + 1)) by (nonlinear_arith)
                    requires
                        l == y * (w as int + 1) + w,
                        0 <= y < h,
                        0 < w,
                ;
                assert(t[l] == '\n');
                assert(out@ =~= t.take(l + 1));
                assert((y + 1) * (w + 1) == y * (w + 1) + w + 1) by (nonlinear_arith);
            }
            y = y + 1;
        }
        proof {
            assert(out@ =~= t);
        }
        out
    }

    /// The pixel snapshot: exactly `width * height * 4` bytes, four bytes
    /// per cell in row-major order — opaque red for a live cell, opaque
    /// black for a dead one. Read-only; the buffer is meant to be handed
    /// opaquely to whatever display surface the caller uses.
    pub fn render_pixels(&self) -> (r: Vec<u8>)
        requires
            self.wf(),
        ensures
            r@ == pixels_of(self.cells()),
            r@.len() == self.spec_width() * self.spec_height() * 4,
    {
        let n = self.grid.cell_count();
        let ghost s = self.grid.cells();
        let mut out: Vec<u8> = Vec::new();
        let mut i: usize = 0;
        while i < n
            invariant
                self.grid.wf(),
                s == self.grid.cells(),
                n == s.len(),
                i <= n,
                out@.len() == 4 * i,
                forall|j: int| 0 <= j < out@.len() ==> out@[j] == pixels_of(s)[j],
            decreases n - i,
        {
            let c = self.grid.get_at(i);
            if c == Cell::Live {
                out.push(255);
                out.push(0);
                out.push(0);
                out.push(255);
            } else {
                out.push(0);
                out.push(0);
                out.push(0);
                out.push(255);
            }
            proof {
                lemma_fundamental_div_mod_converse(4 * i as int, 4, i as int, 0);
                lemma_fundamental_div_mod_converse(4 * i as int + 1, 4, i as int, 1);
                lemma_fundamental_div_mod_converse(4 * i as int + 2, 4, i as int, 2);
                lemma_fundamental_div_mod_converse(4 * i as int + 3, 4, i as int, 3);
            }
            i = i + 1;
        }
        proof {
            assert(out@ =~= pixels_of(s));
        }
        out
    }

    /// Advance the automaton exactly one generation. The new grid is built
    /// in full from the current one before it replaces it, so within one
    /// step every cell's rule is evaluated against the old generation only.
    pub fn tick(&mut self)
        requires
            old(self).wf(),
        ensures
            final(self).wf(),
            final(self).spec_width() == old(self).spec_width(),
            final(self).spec_height() == old(self).spec_height(),
            final(self).cells() == next_gen(
                old(self).cells(),
                old(self).spec_width(),
                old(self).spec_height(),
            ),
    {
        let next = self.next_generation();
        proof {
            assert(self.grid.spec_height() * self.grid.spec_width() == self.grid.spec_width()
                * self.grid.spec_height()) by (nonlinear_arith);
        }
        self.grid.replace_cells(next);
    }
}

/// A freshly constructed engine's text snapshot consists of `h` lines, each
/// of exactly `w` blank glyphs followed by a newline.
pub proof fn lemma_fresh_text_blank(w: nat, h: nat)
    requires
        0 < w,
        0 < h,
    ensures
        text_of(dead_cells((w * h) as nat), w, h).len() == h * (w + 1),
        forall|j: int|
            0 <= j < h * (w + 1) && j % ((w + 1) as int) == w as int ==> (#[trigger] text_of(
                dead_cells((w * h) as nat),
                w,
                h,
            )[j]) == '\n',
        forall|j: int|
            0 <= j < h * (w + 1) && j % ((w + 1) as int) != w as int ==> (#[trigger] text_of(
                dead_cells((w * h) as nat),
                w,
                h,
            )[j]) == ' ',
{
    assert forall|j: int|
        0 <= j < h * (w + 1) && j % ((w + 1) as int) != w as int implies (#[trigger] text_of(
        dead_cells((w * h) as nat),
        w,
        h,
    )[j]) == ' ' by {
        let d = (w + 1) as int;
        let q = j / d;
        let r = j % d;
        lemma_fundamental_div_mod(j, d);
        lemma_mod_division_less_than_divisor(j, d);
        assert(0 <= q && q < h) by (nonlinear_arith)
            requires
                j == d * q + r,
                0 <= r < d,
                0 <= j < h * d,
        ;
        assert(0 <= q * (w as int) + r && q * (w as int) + r < w * h) by (nonlinear_arith)
            requires
                0 <= q < h,
                0 <= r < w,
        ;
    }
}

/// Rule correctness, read cell by cell: in the successor generation the
/// cell at `(y, x)` is exactly the rule table applied to that cell's old
/// state and its old live-neighbor count.
pub proof fn lemma_next_gen_cell(s: Seq<Cell>, w: nat, h: nat, y: int, x: int)
    requires
        0 < w,
        0 < h,
        s.len() == w * h,
        0 <= y < h,
        0 <= x < w,
    ensures
        cell_of(next_gen(s, w, h), w, h, y, x) == next_cell(
            cell_of(s, w, h, y, x),
            live_neighbor_count(s, w, h, y, x),
        ),
{
    let idx = y * (w as int) + x;
    lemma_small_mod(y as nat, h as nat);
    lemma_small_mod(x as nat, w as nat);
    lemma_fundamental_div_mod_converse(idx, w as int, y, x);
    assert(0 <= idx && idx < w * h) by (nonlinear_arith)
        requires
            idx == y * (w as int) + x,
            0 <= y < h,
            0 <= x < w,
    ;
}

/// Determinism of seeding: two engines of the same dimensions, both seeded
/// with the same value, hold identical generations.
pub proof fn lemma_randomize_deterministic(a: Universe, b: Universe, seed: u64)
    requires
        a.spec_width() == b.spec_width(),
        a.spec_height() == b.spec_height(),
        a.cells() == randomized(a.spec_width(), a.spec_height(), seed),
        b.cells() == randomized(b.spec_width(), b.spec_height(), seed),
    ensures
        a.cells() == b.cells(),
{
}

/// Rendering is read-only and a pure function of the current generation: two
/// snapshots taken with no step between them are identical.
pub proof fn lemma_render_idempotent(
    u: Universe,
    t1: Seq<char>,
    t2: Seq<char>,
    p1: Seq<u8>,
    p2: Seq<u8>,
)
    requires
        t1 == text_of(u.cells(), u.spec_width(), u.spec_height()),
        t2 == text_of(u.cells(), u.spec_width(), u.spec_height()),
        p1 == pixels_of(u.cells()),
        p2 == pixels_of(u.cells()),
    ensures
        t1 == t2,
        p1 == p2,
{
}

/// The pixel snapshot of any generation holds exactly four bytes per cell.
pub proof fn lemma_pixels_len(s: Seq<Cell>)
    ensures
        pixels_of(s).len() == s.len() * 4,
{
}


} // verus!
