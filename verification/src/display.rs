//! The 64x32 monochrome framebuffer: XOR pixel toggling with coordinate
//! wraparound, whole-screen clear, sprite compositing, and a read-only
//! export for presentation.

use vstd::prelude::*;
use vstd::arithmetic::div_mod::lemma_add_mod_noop;
use vstd::arithmetic::div_mod::lemma_fundamental_div_mod;
use vstd::arithmetic::div_mod::lemma_fundamental_div_mod_converse;
use vstd::arithmetic::div_mod::lemma_mod_add_multiples_vanish;
use vstd::arithmetic::div_mod::lemma_small_mod;
use vstd::arithmetic::div_mod::lemma_multiply_divide_lt;

verus! {

/// Width of the pixel grid.
pub const COLS: usize = 64;

/// Height of the pixel grid.
pub const ROWS: usize = 32;

/// Total number of cells in the grid.
pub const PIXEL_COUNT: usize = 2048;

/// Color written for an ON pixel when the grid is expanded for presentation.
pub const ON_COLOR: u32 = 0x00FF00;

/// Index into the framebuffer of the cell that (x, y) lands on after
/// modular wraparound on both axes.
pub open spec fn pix_index(x: int, y: int) -> int {
    (y % 32) * 64 + (x % 64)
}

/// The framebuffer after one XOR toggle at wrapped coordinate (x, y).
pub open spec fn toggle_spec(fb: Seq<bool>, x: int, y: int) -> Seq<bool> {
    fb.update(pix_index(x, y), !fb[pix_index(x, y)])
}

/// True when a toggle at (x, y) turns an ON pixel OFF (a collision).
pub open spec fn toggle_collision(fb: Seq<bool>, x: int, y: int) -> bool {
    fb[pix_index(x, y)]
}

/// The all-OFF framebuffer.
pub open spec fn blank_fb() -> Seq<bool> {
    Seq::new(2048, |i: int| false)
}

/// Bit `col` of a sprite row byte, counting from the most significant bit,
/// so that bit 0 is the leftmost drawn pixel.
pub open spec fn sprite_bit(b: u8, col: int) -> bool {
    ((b >> ((7 - col) as u8)) & 1) == 1
}

/// Whether the 8-wide, `n`-tall sprite read from `mem[base..base + n)` and
/// drawn at origin (x0, y0) with per-pixel wraparound covers the framebuffer
/// cell with index `p` with a set bit.
pub open spec fn sprite_covers(mem: Seq<u8>, base: int, n: int, x0: int, y0: int, p: int) -> bool {
    let col = (p % 64 - x0 % 64) % 64;
    let row = (p / 64 - y0 % 32) % 32;
    row < n && col < 8 && sprite_bit(mem[base + row], col)
}

/// The framebuffer after XOR-compositing the sprite: exactly the cells the
/// sprite covers with a set bit are flipped.
pub open spec fn draw_fb(fb: Seq<bool>, mem: Seq<u8>, base: int, n: int, x0: int, y0: int) -> Seq<bool> {
    Seq::new(fb.len(), |p: int| fb[p] != sprite_covers(mem, base, n, x0, y0, p))
}

/// Whether the draw turns at least one ON pixel OFF.
pub open spec fn draw_collision(fb: Seq<bool>, mem: Seq<u8>, base: int, n: int, x0: int, y0: int) -> bool {
    exists|p: int| 0 <= p < fb.len() && fb[p] && #[trigger] sprite_covers(mem, base, n, x0, y0, p)
}

/// The part of the sprite drawn so far: all of rows before `r`, and the
/// first `c` columns of row `r`.
spec fn covers_partial(
    mem: Seq<u8>, base: int, n: int, x0: int, y0: int, p: int, r: int, c: int,
) -> bool {
    let col = (p % 64 - x0 % 64) % 64;
    let row = (p / 64 - y0 % 32) % 32;
    row < n && col < 8 && (row < r || (row == r && col < c)) && sprite_bit(mem[base + row], col)
}

/// The remainder of `base + off` modulo `m`, measured from `base`, is `off`.
proof fn lemma_mod_offset(base: int, off: int, m: int)
    requires
        m > 0,
        0 <= base < m,
        0 <= off < m,
    ensures
        ((base + off) % m - base) % m == off,
{
    if base + off < m {
        lemma_small_mod((base + off) as nat, m as nat);
        lemma_small_mod(off as nat, m as nat);
    } else {
        lemma_mod_add_multiples_vanish(base + off - m, m);
        lemma_small_mod((base + off - m) as nat, m as nat);
        lemma_mod_add_multiples_vanish(off - m, m);
        lemma_small_mod(off as nat, m as nat);
    }
}

/// Converse of `lemma_mod_offset`: a residue `q` at offset `off` from `base`
/// must be `(base + off) % m`.
proof fn lemma_mod_offset_converse(base: int, q: int, off: int, m: int)
    requires
        m > 0,
        0 <= base < m,
        0 <= q < m,
        0 <= off < m,
        (q - base) % m == off,
    ensures
        q == (base + off) % m,
{
    let d = q - base;
    if d >= 0 {
        lemma_small_mod(d as nat, m as nat);
        lemma_small_mod(q as nat, m as nat);
    } else {
        lemma_mod_add_multiples_vanish(d, m);
        lemma_small_mod((d + m) as nat, m as nat);
        lemma_mod_add_multiples_vanish(q, m);
        lemma_small_mod(q as nat, m as nat);
    }
}

/// Two prefixes of a draw that cover the same cells give the same collision
/// verdict.
proof fn lemma_collision_carry(
    fb0: Seq<bool>, gmem: Seq<u8>, bi: int, ni: int, xi: int, yi: int,
    r1: int, c1: int, r2: int, c2: int,
)
    requires
        fb0.len() == 2048,
        forall|p: int| 0 <= p < 2048 ==> covers_partial(gmem, bi, ni, xi, yi, p, r1, c1)
            == #[trigger] covers_partial(gmem, bi, ni, xi, yi, p, r2, c2),
    ensures
        (exists|p: int| 0 <= p < 2048 && fb0[p]
            && #[trigger] covers_partial(gmem, bi, ni, xi, yi, p, r1, c1))
        == (exists|p: int| 0 <= p < 2048 && fb0[p]
            && #[trigger] covers_partial(gmem, bi, ni, xi, yi, p, r2, c2)),
{
    if exists|p: int| 0 <= p < 2048 && fb0[p]
        && #[trigger] covers_partial(gmem, bi, ni, xi, yi, p, r1, c1) {
        let pw = choose|p: int| 0 <= p < 2048 && fb0[p]
            && #[trigger] covers_partial(gmem, bi, ni, xi, yi, p, r1, c1);
        assert(covers_partial(gmem, bi, ni, xi, yi, pw, r2, c2));
    }
    if exists|p: int| 0 <= p < 2048 && fb0[p]
        && #[trigger] covers_partial(gmem, bi, ni, xi, yi, p, r2, c2) {
        let pw = choose|p: int| 0 <= p < 2048 && fb0[p]
            && #[trigger] covers_partial(gmem, bi, ni, xi, yi, p, r2, c2);
        assert(covers_partial(gmem, bi, ni, xi, yi, pw, r1, c1));
    }
}

/// The cell a sprite pixel (row `r`, column `c`) lands on: its residues
/// relative to the origin recover (r, c), and it is the only cell that does.
proof fn lemma_target_pixel(x0: int, y0: int, r: int, c: int)
    requires
        0 <= x0,
        0 <= y0,
        0 <= r < 32,
        0 <= c < 8,
    ensures
        0 <= pix_index(x0 + c, y0 + r) < 2048,
        (pix_index(x0 + c, y0 + r) % 64 - x0 % 64) % 64 == c,
        (pix_index(x0 + c, y0 + r) / 64 - y0 % 32) % 32 == r,
        forall|q: int|
            0 <= q < 2048 && ((#[trigger] (q % 64)) - x0 % 64) % 64 == c
                && (q / 64 - y0 % 32) % 32 == r ==> q == pix_index(x0 + c, y0 + r),
{
    let xm = x0 % 64;
    let ym = y0 % 32;
    lemma_add_mod_noop(x0, c, 64);
    lemma_small_mod(c as nat, 64nat);
    lemma_add_mod_noop(y0, r, 32);
    lemma_small_mod(r as nat, 32nat);
    let px = (x0 + c) % 64;
    let py = (y0 + r) % 32;
    assert(px == (xm + c) % 64);
    assert(py == (ym + r) % 32);
    let p = pix_index(x0 + c, y0 + r);
    assert(p == py * 64 + px);
    lemma_fundamental_div_mod_converse(p, 64, py, px);
    lemma_mod_offset(xm, c, 64);
    lemma_mod_offset(ym, r, 32);
    assert forall|q: int|
        0 <= q < 2048 && ((#[trigger] (q % 64)) - xm) % 64 == c && (q / 64 - ym) % 32 == r
            implies q == p by {
        let qx = q % 64;
        let qy = q / 64;
        assert(0 <= qx < 64);
        assert(0 <= qy < 32);
        lemma_mod_offset_converse(xm, qx, c, 64);
        lemma_mod_offset_converse(ym, qy, r, 32);
        lemma_fundamental_div_mod(q, 64);
    }
}

pub struct Display {
    buffer: Vec<bool>,
}

impl View for Display {
    type V = Seq<bool>;

    closed spec fn view(&self) -> Seq<bool> {
        self.buffer@
    }
}

impl Display {
    /// The grid always holds exactly 64 * 32 cells.
    pub open spec fn wf(&self) -> bool {
        self@.len() == 2048
    }

    /// A display with every pixel OFF.
    pub fn new() -> (d: Display)
        ensures
            d.wf(),
            d@ == blank_fb(),
    {
        let d = Display { buffer: off_cells() };
        proof {
            assert(d@ =~= blank_fb());
        }
        d
    }

    /// XOR-toggles the cell that (x, y) wraps onto and reports whether the
    /// toggle turned an ON pixel OFF.
    pub fn set_pixel(&mut self, x: usize, y: usize) -> (collision: bool)
        requires
            old(self).wf(),
        ensures
            final(self).wf(),
            final(self)@ == toggle_spec(old(self)@, x as int, y as int),
            collision == toggle_collision(old(self)@, x as int, y as int),
    {
        let xi = x % COLS;
        let yi = y % ROWS;
        let idx = yi * COLS + xi;
        let was = self.buffer[idx];
        self.buffer[idx] = !was;
        proof {
            assert(final(self)@ =~= toggle_spec(old(self)@, x as int, y as int));
        }
        was
    }

    /// Sets every cell OFF.
    pub fn clear(&mut self)
        ensures
            final(self).wf(),
            final(self)@ == blank_fb(),
    {
        self.buffer = off_cells();
        proof {
            assert(final(self)@ =~= blank_fb());
        }
    }

    /// XOR-composites an 8-wide, `n`-tall sprite read from
    /// `mem[base..base + n)` at origin (x0, y0), wrapping every pixel on both
    /// axes, and reports whether any ON pixel was turned OFF.
    pub fn draw_sprite(&mut self, mem: &Vec<u8>, base: usize, n: usize, x0: usize, y0: usize)
        -> (collision: bool)
        requires
            old(self).wf(),
            base + n <= mem@.len(),
            n <= 32,
            x0 + 8 <= usize::MAX,
            y0 + 32 <= usize::MAX,
        ensures
            final(self).wf(),
            final(self)@ == draw_fb(old(self)@, mem@, base as int, n as int, x0 as int, y0 as int),
            collision == draw_collision(
                old(self)@, mem@, base as int, n as int, x0 as int, y0 as int,
            ),
    {
        let mem_len = mem.len();
        proof {
            assert(mem@.len() == mem_len && mem@.len() <= usize::MAX);
        }
        let ghost fb0 = self@;
        let ghost gmem = mem@;
        let ghost bi = base as int;
        let ghost ni = n as int;
        let ghost xi = x0 as int;
        let ghost yi = y0 as int;
        let mut collision = false;
        let mut r: usize = 0;
        while r < n
            invariant
                r <= n,
                n <= 32,
                base + n <= mem@.len(),
                mem@.len() <= usize::MAX,
                x0 + 8 <= usize::MAX,
                y0 + 32 <= usize::MAX,
                self.wf(),
                fb0.len() == 2048,
                gmem == mem@,
                bi == base as int && ni == n as int && xi == x0 as int && yi == y0 as int,
                forall|p: int| 0 <= p < 2048 ==> #[trigger] self@[p]
                    == (fb0[p] != covers_partial(gmem, bi, ni, xi, yi, p, r as int, 0)),
                collision == exists|p: int| 0 <= p < 2048 && fb0[p]
                    && #[trigger] covers_partial(gmem, bi, ni, xi, yi, p, r as int, 0),
            decreases n - r,
        {
            let byte = mem[base + r];
            let mut c: usize = 0;
            while c < 8
                invariant
                    c <= 8,
                    r < n,
                    n <= 32,
                    base + n <= mem@.len(),
                    mem@.len() <= usize::MAX,
                    x0 + 8 <= usize::MAX,
                    y0 + 32 <= usize::MAX,
                    self.wf(),
                    fb0.len() == 2048,
                    gmem == mem@,
                    bi == base as int && ni == n as int && xi == x0 as int && yi == y0 as int,
                    byte == gmem[bi + r],
                    forall|p: int| 0 <= p < 2048 ==> #[trigger] self@[p]
                        == (fb0[p] != covers_partial(gmem, bi, ni, xi, yi, p, r as int, c as int)),
                    collision == exists|p: int| 0 <= p < 2048 && fb0[p]
                        && #[trigger] covers_partial(gmem, bi, ni, xi, yi, p, r as int, c as int),
                decreases 8 - c,
            {
                let ghost gr = r as int;
                let ghost gc = c as int;
                proof {
                    lemma_target_pixel(xi, yi, gr, gc);
                }
                let ghost pstar = pix_index(xi + gc, yi + gr);
                let ghost prev_coll = collision;
                if (byte >> ((7 - c) as u8)) & 1 == 1 {
                    let ghost prev = self@;
                    let was = self.set_pixel(x0 + c, y0 + r);
                    if was {
                        collision = true;
                    }
                    proof {
                        assert(sprite_bit(gmem[bi + gr], gc));
                        assert(!covers_partial(gmem, bi, ni, xi, yi, pstar, gr, gc));
                        assert(covers_partial(gmem, bi, ni, xi, yi, pstar, gr, gc + 1));
                        assert(prev[pstar] == fb0[pstar]);
                        assert(was == fb0[pstar]);
                        assert forall|p: int| 0 <= p < 2048 implies #[trigger] self@[p]
                            == (fb0[p] != covers_partial(gmem, bi, ni, xi, yi, p, gr, gc + 1)) by {
                            if p == pstar {
                                assert(self@[p] == !prev[pstar]);
                            } else {
                                assert(self@[p] == prev[p]);
                                assert(covers_partial(gmem, bi, ni, xi, yi, p, gr, gc + 1)
                                    == covers_partial(gmem, bi, ni, xi, yi, p, gr, gc));
                            }
                        }
                        if collision {
                            if prev_coll {
                                let pw = choose|p: int| 0 <= p < 2048 && fb0[p]
                                    && #[trigger] covers_partial(gmem, bi, ni, xi, yi, p, gr, gc);
                                assert(covers_partial(gmem, bi, ni, xi, yi, pw, gr, gc + 1));
                                assert(0 <= pw < 2048 && fb0[pw]
                                    && covers_partial(gmem, bi, ni, xi, yi, pw, gr, gc + 1));
                            } else {
                                assert(fb0[pstar]);
                                assert(0 <= pstar < 2048 && fb0[pstar]
                                    && covers_partial(gmem, bi, ni, xi, yi, pstar, gr, gc + 1));
                            }
                        } else {
                            assert(!prev_coll && !fb0[pstar]);
                            assert forall|p: int| 0 <= p < 2048 && fb0[p] implies
                                !covers_partial(gmem, bi, ni, xi, yi, p, gr, gc + 1) by {
                                if covers_partial(gmem, bi, ni, xi, yi, p, gr, gc + 1) {
                                    if p != pstar {
                                        assert(covers_partial(gmem, bi, ni, xi, yi, p, gr, gc));
                                        assert(false);
                                    }
                                }
                            }
                        }
                    }
                } else {
                    proof {
                        assert(!sprite_bit(gmem[bi + gr], gc));
                        assert forall|p: int| 0 <= p < 2048 implies
                            covers_partial(gmem, bi, ni, xi, yi, p, gr, gc)
                                == #[trigger] covers_partial(gmem, bi, ni, xi, yi, p, gr, gc + 1)
                            by {
                            let col = (p % 64 - xi % 64) % 64;
                            let row = (p / 64 - yi % 32) % 32;
                            if row == gr && col == gc {
                                assert(!covers_partial(gmem, bi, ni, xi, yi, p, gr, gc + 1));
                                assert(!covers_partial(gmem, bi, ni, xi, yi, p, gr, gc));
                            }
                        }
                        lemma_collision_carry(fb0, gmem, bi, ni, xi, yi, gr, gc, gr, gc + 1);
                    }
                }
                c = c + 1;
            }
            proof {
                assert forall|p: int| 0 <= p < 2048 implies
                    covers_partial(gmem, bi, ni, xi, yi, p, r as int, 8)
                        == #[trigger] covers_partial(gmem, bi, ni, xi, yi, p, r as int + 1, 0)
                    by {}
                lemma_collision_carry(fb0, gmem, bi, ni, xi, yi, r as int, 8, r as int + 1, 0);
            }
            r = r + 1;
        }
        proof {
            assert forall|p: int| 0 <= p < 2048 implies
                covers_partial(gmem, bi, ni, xi, yi, p, ni, 0)
                    == sprite_covers(gmem, bi, ni, xi, yi, p) by {}
            assert(self@ =~= draw_fb(fb0, gmem, bi, ni, xi, yi));
            if collision {
                let pw = choose|p: int| 0 <= p < 2048 && fb0[p]
                    && #[trigger] covers_partial(gmem, bi, ni, xi, yi, p, ni, 0);
                assert(0 <= pw < 2048 && fb0[pw] && sprite_covers(gmem, bi, ni, xi, yi, pw));
            } else {
                assert forall|p: int| 0 <= p < fb0.len() && fb0[p] implies
                    !sprite_covers(gmem, bi, ni, xi, yi, p) by {
                    if sprite_covers(gmem, bi, ni, xi, yi, p) {
                        assert(covers_partial(gmem, bi, ni, xi, yi, p, ni, 0));
                        assert(false);
                    }
                }
            }
        }
        collision
    }

    /// Read-only export of the pixel grid for presentation; ON is `true`.
    pub fn snapshot(&self) -> (grid: Vec<bool>)
        requires
            self.wf(),
        ensures
            grid@ == self@,
    {
        let mut grid: Vec<bool> = Vec::new();
        let mut i: usize = 0;
        while i < PIXEL_COUNT
            invariant
                i <= 2048,
                self.wf(),
                grid@ == self@.take(i as int),
            decreases 2048 - i,
        {
            grid.push(self.buffer[i]);
            proof {
                assert(grid@ =~= self@.take(i + 1));
            }
            i = i + 1;
        }
        proof {
            assert(grid@ =~= self@);
        }
        grid
    }
}

/// The framebuffer cell that entry `idx` of a color buffer scaled by
/// `scale` shows: each cell is replicated into a scale-by-scale block of a
/// grid 64 * scale wide.
pub open spec fn scaled_source(scale: int, idx: int) -> int {
    ((idx / (64 * scale)) / scale) * 64 + (idx % (64 * scale)) / scale
}

impl Display {
    /// Expands the grid into a display-ready color buffer, 64 * scale wide
    /// and 32 * scale tall: every ON cell becomes a scale-by-scale block of
    /// `ON_COLOR`, every OFF cell a block of 0. Read-only.
    pub fn render(&self, scale: usize) -> (buf: Vec<u32>)
        requires
            self.wf(),
            1 <= scale <= 1024,
        ensures
            buf@.len() == (64 * scale) * (32 * scale),
            forall|idx: int| 0 <= idx < buf@.len() ==> buf@[idx] == (
                if self@[scaled_source(scale as int, idx)] { ON_COLOR } else { 0u32 }
            ),
    {
        proof {
            assert((64 * scale) * (32 * scale) <= 0x8000_0000) by (nonlinear_arith)
                requires 1 <= scale <= 1024;
        }
        let width = COLS * scale;
        let height = ROWS * scale;
        let total = width * height;
        let mut buf: Vec<u32> = Vec::new();
        let mut idx: usize = 0;
        while idx < total
            invariant
                idx <= total,
                1 <= scale <= 1024,
                width == 64 * scale,
                height == 32 * scale,
                total == width * height,
                self.wf(),
                buf@.len() == idx,
                forall|j: int| 0 <= j < idx ==> buf@[j] == (
                    if self@[scaled_source(scale as int, j)] { ON_COLOR } else { 0u32 }
                ),
            decreases total - idx,
        {
            let rem = idx % width;
            let x = rem / scale;
            let y = (idx / width) / scale;
            proof {
                lemma_multiply_divide_lt(idx as int, width as int, height as int);
                lemma_multiply_divide_lt((idx / width) as int, scale as int, 32);
                assert(rem < width);
                assert(width == scale * 64) by (nonlinear_arith)
                    requires width == 64 * scale;
                lemma_multiply_divide_lt(rem as int, scale as int, 64);
                assert(y < 32);
                assert(x < 64);
                assert(y * 64 + x == scaled_source(scale as int, idx as int));
            }
            let p = y * 64 + x;
            if self.buffer[p] {
                buf.push(ON_COLOR);
            } else {
                buf.push(0);
            }
            idx = idx + 1;
        }
        buf
    }
}

/// A vector of 2048 OFF cells.
fn off_cells() -> (v: Vec<bool>)
    ensures
        v@.len() == 2048,
        forall|i: int| 0 <= i < 2048 ==> !v@[i],
{
    let mut v: Vec<bool> = Vec::new();
    let mut i: usize = 0;
    while i < PIXEL_COUNT
        invariant
            i <= 2048,
            v@.len() == i,
            forall|j: int| 0 <= j < i ==> !v@[j],
        decreases 2048 - i,
    {
        v.push(false);
        i = i + 1;
    }
    v
}

} // verus!
