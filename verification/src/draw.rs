//! The sprite-draw instruction `DXYN`.
//!
//! A sprite is 8 pixels wide and `N` rows tall, one byte per row, read from
//! `memory[I..I+N]`. It is drawn at `(VX mod 64, VY mod 32)` by XOR against
//! the framebuffer; rows and columns falling off the screen are clipped, and
//! `VF` reports whether any lit pixel was forced off by the XOR.

use vstd::arithmetic::div_mod::lemma_fundamental_div_mod;
use vstd::math::min;
use vstd::prelude::*;

use crate::state::{Chip8Error, Chip8View, CPU};

verus! {

/// Bit `k` (counted from the left, `0..8`) of one sprite row.
pub open spec fn sprite_bit(row: u8, k: int) -> u8 {
    (row >> ((7 - k) as u8)) & 1
}

/// Whether screen position `(px, py)` lies under the clipped sprite.
pub open spec fn draw_covers(x0: int, y0: int, rows: int, cols: int, px: int, py: int) -> bool {
    x0 <= px < x0 + cols && y0 <= py < y0 + rows
}

/// The sprite bit that falls on screen position `(px, py)`.
pub open spec fn pixel_bit(mem: Seq<u8>, i: int, x0: int, y0: int, px: int, py: int) -> u8 {
    sprite_bit(mem[i + (py - y0)], px - x0)
}

/// The framebuffer after the draw: every covered pixel is XORed with its
/// sprite bit, every other pixel keeps its value.
pub open spec fn draw_gfx(
    gfx: Seq<u8>,
    mem: Seq<u8>,
    i: int,
    x0: int,
    y0: int,
    rows: int,
    cols: int,
) -> Seq<u8> {
    Seq::new(
        2048,
        |p: int|
            {
                let py = p / 64;
                let px = p % 64;
                if draw_covers(x0, y0, rows, cols, px, py) {
                    gfx[p] ^ pixel_bit(mem, i, x0, y0, px, py)
                } else {
                    gfx[p]
                }
            },
    )
}

/// A collision at `p`: the sprite forces the lit pixel `p` from 1 to 0.
pub open spec fn hit(
    gfx: Seq<u8>,
    mem: Seq<u8>,
    i: int,
    x0: int,
    y0: int,
    rows: int,
    cols: int,
    p: int,
) -> bool {
    &&& draw_covers(x0, y0, rows, cols, p % 64, p / 64)
    &&& gfx[p] == 1
    &&& pixel_bit(mem, i, x0, y0, p % 64, p / 64) == 1
}

/// Whether the draw forces any lit pixel off; this is what `VF` reports.
pub open spec fn draw_collision(
    gfx: Seq<u8>,
    mem: Seq<u8>,
    i: int,
    x0: int,
    y0: int,
    rows: int,
    cols: int,
) -> bool {
    exists|p: int| 0 <= p < 2048 && #[trigger] hit(gfx, mem, i, x0, y0, rows, cols, p)
}

/// The machine after drawing an `n`-row sprite at `(vx mod 64, vy mod 32)`:
/// the framebuffer is XOR-combined and marked dirty and `VF` is the collision
/// flag — unless a sprite row would be read from past the end of memory,
/// which is fatal and leaves the machine unchanged.
pub open spec fn spec_draw(m: Chip8View, vx: u8, vy: u8, n: u8) -> Result<Chip8View, Chip8Error> {
    let x0 = (vx % 64) as int;
    let y0 = (vy % 32) as int;
    let rows = min(n as int, 32 - y0);
    let cols = min(8, 64 - x0);
    if rows > 0 && m.i + rows > 4096 {
        Err(Chip8Error::MemoryOutOfBounds)
    } else {
        let flag: u8 = if draw_collision(m.gfx, m.mem, m.i as int, x0, y0, rows, cols) {
            1
        } else {
            0
        };
        Ok(
            Chip8View {
                gfx: draw_gfx(m.gfx, m.mem, m.i as int, x0, y0, rows, cols),
                v: m.v.update(15, flag),
                draw_flag: true,
                ..m
            },
        )
    }
}

/// Whether `(px, py)` was already processed when the row loop stands at row
/// `iy` and the column loop at column `ix` of that row.
pub open spec fn covered_before(
    x0: int,
    y0: int,
    cols: int,
    px: int,
    py: int,
    iy: int,
    ix: int,
) -> bool {
    &&& x0 <= px < x0 + cols
    &&& y0 <= py
    &&& (py < y0 + iy || (py == y0 + iy && px < x0 + ix))
}

/// The value of pixel `p` after the rows before `iy`, and the first `ix`
/// columns of row `iy`, have been drawn.
pub open spec fn pre_pixel(
    gfx: Seq<u8>,
    mem: Seq<u8>,
    i: int,
    x0: int,
    y0: int,
    cols: int,
    iy: int,
    ix: int,
    p: int,
) -> u8 {
    let py = p / 64;
    let px = p % 64;
    if covered_before(x0, y0, cols, px, py, iy, ix) {
        gfx[p] ^ pixel_bit(mem, i, x0, y0, px, py)
    } else {
        gfx[p]
    }
}

/// A collision among the pixels processed before row `iy`, column `ix`.
pub open spec fn pre_hit(
    gfx: Seq<u8>,
    mem: Seq<u8>,
    i: int,
    x0: int,
    y0: int,
    cols: int,
    iy: int,
    ix: int,
    p: int,
) -> bool {
    &&& covered_before(x0, y0, cols, p % 64, p / 64, iy, ix)
    &&& gfx[p] == 1
    &&& pixel_bit(mem, i, x0, y0, p % 64, p / 64) == 1
}

proof fn lemma_rowcol(q: int, s: int)
    by (nonlinear_arith)
    requires
        0 <= s < 64,
        0 <= q,
    ensures
        (q * 64 + s) / 64 == q,
        (q * 64 + s) % 64 == s,
{
}

proof fn lemma_bits(row: u8, k: u8, b: u8)
    by (bit_vector)
    requires
        k < 8,
        b <= 1,
    ensures
        ((row >> k) & 1) <= 1,
        (b ^ ((row >> k) & 1)) <= 1,
        ((b ^ ((row >> k) & 1)) == 0) == (b == ((row >> k) & 1)),
{
}

impl CPU {
    /// Draws an 8-wide, `height`-tall sprite read from `memory[I..]` at
    /// screen position `(x mod 64, y mod 32)`, XOR-combined with the
    /// existing pixels and clipped at the screen edges; `VF` is set to 1
    /// exactly when some lit pixel was forced off, and the framebuffer is
    /// marked dirty. Reading a sprite row from past the end of memory is
    /// fatal and leaves the machine unchanged.
    #[verifier::loop_isolation(false)]
    pub fn draw(&mut self, x: u8, y: u8, height: u8) -> (r: Result<(), Chip8Error>)
        requires
            old(self).wf(),
        ensures
            final(self).wf(),
            (match spec_draw(old(self)@, x, y, height) {
                Ok(m) => r is Ok && final(self)@ == m,
                Err(e) => r == Err::<(), Chip8Error>(e) && final(self)@ == old(self)@,
            }),
    {
        let x0: usize = (x % 64) as usize;
        let y0: usize = (y % 32) as usize;
        let rows: usize = if (height as usize) <= 32 - y0 {
            height as usize
        } else {
            32 - y0
        };
        let cols: usize = if x0 <= 56 {
            8
        } else {
            64 - x0
        };
        if rows > 0 && (self.i as usize) + rows > 4096 {
            return Err(Chip8Error::MemoryOutOfBounds);
        }
        let ghost g0 = self@.gfx;
        let ghost mem0 = self@.mem;
        let ghost gi = self@.i as int;
        let mut collision: bool = false;
        let mut iy: usize = 0;
        while iy < rows
            invariant
                iy <= rows,
                self@ == (Chip8View { gfx: self.gfx@, ..old(self)@ }),
                self.gfx@.len() == 2048,
                forall|p: int| 0 <= p < 2048 ==> #[trigger] self.gfx@[p] <= 1,
                forall|p: int|
                    0 <= p < 2048 ==> #[trigger] self.gfx@[p] == pre_pixel(
                        g0,
                        mem0,
                        gi,
                        x0 as int,
                        y0 as int,
                        cols as int,
                        iy as int,
                        0,
                        p,
                    ),
                collision == exists|p: int|
                    0 <= p < 2048 && #[trigger] pre_hit(
                        g0,
                        mem0,
                        gi,
                        x0 as int,
                        y0 as int,
                        cols as int,
                        iy as int,
                        0,
                        p,
                    ),
            decreases rows - iy,
        {
            let row: u8 = self.memory[(self.i as usize) + iy];
            let mut ix: usize = 0;
            while ix < cols
                invariant
                    ix <= cols,
                    iy < rows,
                    row == mem0[gi + iy],
                    self@ == (Chip8View { gfx: self.gfx@, ..old(self)@ }),
                    self.gfx@.len() == 2048,
                    forall|p: int| 0 <= p < 2048 ==> #[trigger] self.gfx@[p] <= 1,
                    forall|p: int|
                        0 <= p < 2048 ==> #[trigger] self.gfx@[p] == pre_pixel(
                            g0,
                            mem0,
                            gi,
                            x0 as int,
                            y0 as int,
                            cols as int,
                            iy as int,
                            ix as int,
                            p,
                        ),
                    collision == exists|p: int|
                        0 <= p < 2048 && #[trigger] pre_hit(
                            g0,
                            mem0,
                            gi,
                            x0 as int,
                            y0 as int,
                            cols as int,
                            iy as int,
                            ix as int,
                            p,
                        ),
                decreases cols - ix,
            {
                let idx: usize = (y0 + iy) * 64 + (x0 + ix);
                proof {
                    lemma_rowcol(y0 + iy as int, x0 + ix as int);
                }
                let sbit: u8 = (row >> ((7 - ix) as u8)) & 1;
                let screen: u8 = self.gfx[idx];
                proof {
                    lemma_bits(row, (7 - ix) as u8, screen);
                }
                let newv: u8 = screen ^ sbit;
                let was_hit: bool = screen == 1 && newv == 0;
                if was_hit {
                    collision = true;
                }
                self.gfx.set(idx, newv);
                proof {
                    let px = x0 as int + ix;
                    let py = y0 as int + iy;
                    assert(idx == py * 64 + px);
                    assert(idx as int % 64 == px && idx as int / 64 == py);
                    assert(pixel_bit(mem0, gi, x0 as int, y0 as int, px, py) == sbit);
                    assert(screen == g0[idx as int]);
                    assert forall|p: int| 0 <= p < 2048 implies #[trigger] self.gfx@[p]
                        == pre_pixel(
                        g0,
                        mem0,
                        gi,
                        x0 as int,
                        y0 as int,
                        cols as int,
                        iy as int,
                        ix as int + 1,
                        p,
                    ) by {
                        if p != idx {
                            lemma_fundamental_div_mod(p, 64);
                        }
                    }
                    let ghost hit_now = pre_hit(
                        g0,
                        mem0,
                        gi,
                        x0 as int,
                        y0 as int,
                        cols as int,
                        iy as int,
                        ix as int + 1,
                        idx as int,
                    );
                    assert(was_hit == hit_now);
                    if collision {
                        if was_hit {
                            assert(hit_now);
                        } else {
                            let p0 = choose|p: int|
                                0 <= p < 2048 && #[trigger] pre_hit(
                                    g0,
                                    mem0,
                                    gi,
                                    x0 as int,
                                    y0 as int,
                                    cols as int,
                                    iy as int,
                                    ix as int,
                                    p,
                                );
                            assert(pre_hit(
                                g0,
                                mem0,
                                gi,
                                x0 as int,
                                y0 as int,
                                cols as int,
                                iy as int,
                                ix as int + 1,
                                p0,
                            ));
                        }
                    } else {
                        assert forall|p: int|
                            0 <= p < 2048 implies !#[trigger] pre_hit(
                            g0,
                            mem0,
                            gi,
                            x0 as int,
                            y0 as int,
                            cols as int,
                            iy as int,
                            ix as int + 1,
                            p,
                        ) by {
                            lemma_fundamental_div_mod(p, 64);
                            assert(!pre_hit(
                                g0,
                                mem0,
                                gi,
                                x0 as int,
                                y0 as int,
                                cols as int,
                                iy as int,
                                ix as int,
                                p,
                            ));
                            assert(!hit_now);
                        }
                    }
                }
                ix = ix + 1;
            }
            proof {
                assert forall|p: int| 0 <= p < 2048 implies #[trigger] self.gfx@[p] == pre_pixel(
                    g0,
                    mem0,
                    gi,
                    x0 as int,
                    y0 as int,
                    cols as int,
                    iy as int + 1,
                    0,
                    p,
                ) by {
                    lemma_fundamental_div_mod(p, 64);
                }
                if collision {
                    let p0 = choose|p: int|
                        0 <= p < 2048 && #[trigger] pre_hit(
                            g0,
                            mem0,
                            gi,
                            x0 as int,
                            y0 as int,
                            cols as int,
                            iy as int,
                            cols as int,
                            p,
                        );
                    assert(pre_hit(
                        g0,
                        mem0,
                        gi,
                        x0 as int,
                        y0 as int,
                        cols as int,
                        iy as int + 1,
                        0,
                        p0,
                    ));
                } else {
                    assert forall|p: int|
                        0 <= p < 2048 implies !#[trigger] pre_hit(
                        g0,
                        mem0,
                        gi,
                        x0 as int,
                        y0 as int,
                        cols as int,
                        iy as int + 1,
                        0,
                        p,
                    ) by {
                        lemma_fundamental_div_mod(p, 64);
                        assert(!pre_hit(
                            g0,
                            mem0,
                            gi,
                            x0 as int,
                            y0 as int,
                            cols as int,
                            iy as int,
                            cols as int,
                            p,
                        ));
                    }
                }
            }
            iy = iy + 1;
        }
        let flag: u8 = if collision {
            1
        } else {
            0
        };
        self.v.set(15, flag);
        self.draw_flag = true;
        proof {
            let x0i = x0 as int;
            let y0i = y0 as int;
            let rowsi = min(height as int, 32 - y0i);
            let colsi = min(8, 64 - x0i);
            assert(rows as int == rowsi && cols as int == colsi);
            assert forall|p: int| 0 <= p < 2048 implies (#[trigger] pre_hit(
                g0,
                mem0,
                gi,
                x0i,
                y0i,
                colsi,
                rowsi,
                0,
                p,
            ) == hit(g0, mem0, gi, x0i, y0i, rowsi, colsi, p)) by {
                lemma_fundamental_div_mod(p, 64);
            }
            if collision {
                let p0 = choose|p: int|
                    0 <= p < 2048 && #[trigger] pre_hit(g0, mem0, gi, x0i, y0i, colsi, rowsi, 0, p);
                assert(hit(g0, mem0, gi, x0i, y0i, rowsi, colsi, p0));
            } else {
                assert forall|p: int|
                    0 <= p < 2048 implies !#[trigger] hit(
                    g0,
                    mem0,
                    gi,
                    x0i,
                    y0i,
                    rowsi,
                    colsi,
                    p,
                ) by {
                    lemma_fundamental_div_mod(p, 64);
                    assert(!pre_hit(g0, mem0, gi, x0i, y0i, colsi, rowsi, 0, p));
                }
            }
            assert(collision == draw_collision(g0, mem0, gi, x0i, y0i, rowsi, colsi));
            assert(self.gfx@ =~= draw_gfx(g0, mem0, gi, x0i, y0i, rowsi, colsi));
            assert(self@ =~= (Chip8View {
                gfx: draw_gfx(g0, mem0, gi, x0i, y0i, rowsi, colsi),
                v: old(self)@.v.update(15, flag),
                draw_flag: true,
                ..old(self)@
            }));
        }
        Ok(())
    }
}

} // verus!
