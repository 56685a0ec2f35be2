//! The sprite-draw instruction: XOR-compositing an 8-wide sprite onto the
//! framebuffer with collision reporting, and the law that drawing the same
//! sprite twice restores the framebuffer.

use vstd::prelude::*;

use vstd::arithmetic::div_mod::{
    lemma_fundamental_div_mod, lemma_fundamental_div_mod_converse, lemma_mod_division_less_than_divisor,
};

use crate::decode::{lemma_opcode_fields, nib2, nib3, nib4};
use crate::state::{Chip8, Chip8Error, Chip8View};

verus! {

/// Whether bit `c` (counted from the most significant, `c < 8`) of sprite
/// row byte `b` is on.
pub open spec fn row_bit(b: u8, c: u8) -> bool {
    b & (0x80u8 >> c) != 0
}

/// Whether the sprite of `n` rows read from `mem[index..]`, drawn with its
/// origin at `(xp, yp)`, flips framebuffer cell `(cx, cy)`.  Coordinates are
/// not wrapped: a cell outside the 64-by-32 grid is simply never part of the
/// framebuffer.
pub open spec fn draw_flips(mem: Seq<u8>, index: int, xp: int, yp: int, n: int, cx: int, cy: int) -> bool {
    &&& xp <= cx < xp + 8
    &&& yp <= cy < yp + n
    &&& row_bit(mem[index + (cy - yp)], (cx - xp) as u8)
}

/// [`draw_flips`] restricted to the sprite cells already processed when the
/// draw has finished the first `r` rows and, within row `r`, the first `c`
/// columns.
pub open spec fn draw_flips_upto(
    mem: Seq<u8>,
    index: int,
    xp: int,
    yp: int,
    n: int,
    r: int,
    c: int,
    cx: int,
    cy: int,
) -> bool {
    &&& draw_flips(mem, index, xp, yp, n, cx, cy)
    &&& (cy - yp < r || (cy - yp == r && cx - xp < c))
}

/// The framebuffer after the draw: every flipped cell is XORed, every other
/// cell keeps its value.  Pixel `(cx, cy)` lives at position `cx * 32 + cy`.
pub open spec fn draw_video(v: Seq<u8>, mem: Seq<u8>, index: int, xp: int, yp: int, n: int) -> Seq<u8> {
    Seq::new(v.len(), |p: int| if draw_flips(mem, index, xp, yp, n, p / 32, p % 32) { v[p] ^ 1 } else { v[p] })
}

/// Whether the draw touches a cell that is already lit: the collision that
/// the draw reports in `VF`.
pub open spec fn draw_collision(v: Seq<u8>, mem: Seq<u8>, index: int, xp: int, yp: int, n: int) -> bool {
    exists|cx: int, cy: int|
        0 <= cx < 64 && 0 <= cy < 32 && draw_flips(mem, index, xp, yp, n, cx, cy) && v[cx * 32 + cy] == 1
}

/// [`draw_collision`] restricted to the cells already processed.
pub open spec fn draw_collision_upto(
    v: Seq<u8>,
    mem: Seq<u8>,
    index: int,
    xp: int,
    yp: int,
    n: int,
    r: int,
    c: int,
) -> bool {
    exists|cx: int, cy: int|
        0 <= cx < 64 && 0 <= cy < 32 && draw_flips_upto(mem, index, xp, yp, n, r, c, cx, cy) && v[cx * 32 + cy] == 1
}

/// Dxyn: draw the 8-by-`n` sprite at `memory[index..index + n]` with origin
/// `(Vx mod 64, Vy mod 32)`, XOR-compositing onto the framebuffer, with `VF`
/// reporting whether any drawn pixel collided with a lit one; an out-of-range
/// fault when a sprite row would be read from beyond memory.
pub open spec fn spec_op_dxyn(s: Chip8View, x: int, y: int, n: int) -> Result<Chip8View, Chip8Error> {
    let xp = (s.registers[x] as int) % 64;
    let yp = (s.registers[y] as int) % 32;
    if n > 0 && s.index + n > 4096 {
        Err(Chip8Error::OutOfRange { opcode: s.opcode, addr: s.index as u16 })
    } else {
        Ok(
            Chip8View {
                video: draw_video(s.video, s.memory, s.index, xp, yp, n),
                registers: s.registers.update(
                    15,
                    if draw_collision(s.video, s.memory, s.index, xp, yp, n) { 1u8 } else { 0u8 },
                ),
                ..s
            },
        )
    }
}

/// XOR with 1 flips between 0 and 1 and is its own inverse.
pub proof fn lemma_xor1(b: u8)
    by (bit_vector)
    ensures
        (b ^ 1) ^ 1 == b,
        b == 0 ==> (b ^ 1) == 1,
        b == 1 ==> (b ^ 1) == 0,
        (b == 0 || b == 1) ==> ((b ^ 1) == 0 || (b ^ 1) == 1),
{
}

/// A framebuffer position determines its cell: `p` splits as
/// `32 * (p / 32) + p % 32` with the quotient a column below 64 and the
/// remainder a row below 32.
proof fn lemma_cell_coords(p: int)
    requires
        0 <= p < 2048,
    ensures
        32 * (p / 32) + (p % 32) == p,
        0 <= p / 32 < 64,
        0 <= p % 32 < 32,
{
    lemma_fundamental_div_mod(p, 32);
    lemma_mod_division_less_than_divisor(p, 32);
}

/// A cell determines its framebuffer position: `(cx, cy)` lives at
/// `cx * 32 + cy`, which splits back into exactly that cell.
proof fn lemma_cell_index(cx: int, cy: int)
    requires
        0 <= cx < 64,
        0 <= cy < 32,
    ensures
        (cx * 32 + cy) / 32 == cx,
        (cx * 32 + cy) % 32 == cy,
        0 <= cx * 32 + cy < 2048,
    // The position is in range because the column and row are.
{
    lemma_fundamental_div_mod_converse(cx * 32 + cy, 32, cx, cy);
}

impl Chip8 {
    /// Dxyn: draw a sprite onto the framebuffer, XOR-compositing and
    /// reporting collisions in `VF`, or report an out-of-range sprite read
    /// and leave the machine unchanged.  Cells falling outside the grid are
    /// clipped.
    pub fn op_dxyn(&mut self) -> (r: Result<(), Chip8Error>)
        requires
            old(self)@.wf(),
        ensures
            final(self)@.wf(),
            (match r {
                Ok(_) => spec_op_dxyn(
                    old(self)@,
                    nib2(old(self)@.opcode) as int,
                    nib3(old(self)@.opcode) as int,
                    nib4(old(self)@.opcode) as int,
                ) == Ok::<Chip8View, Chip8Error>(final(self)@),
                Err(e) => spec_op_dxyn(
                    old(self)@,
                    nib2(old(self)@.opcode) as int,
                    nib3(old(self)@.opcode) as int,
                    nib4(old(self)@.opcode) as int,
                ) == Err::<Chip8View, Chip8Error>(e) && final(self)@ == old(self)@,
            }),
    {
        proof {
            lemma_opcode_fields(self.opcode);
        }
        let x: usize = ((self.opcode & 0x0f00) >> 8) as usize;
        let y: usize = ((self.opcode & 0x00f0) >> 4) as usize;
        let n: usize = (self.opcode & 0x000f) as usize;
        let xp: u8 = self.registers[x] % 64;
        let yp: u8 = self.registers[y] % 32;
        if n > 0 && self.index as usize + n > 4096 {
            return Err(Chip8Error::OutOfRange { opcode: self.opcode, addr: self.index });
        }
        let ghost s0 = self@;
        let ghost xpi = xp as int;
        let ghost ypi = yp as int;
        let ghost ni = n as int;
        self.registers.set(15, 0);
        proof {
            assert(self@.registers =~= s0.registers.update(15, 0u8));
        }
        let mut row: usize = 0;
        while row < n
            invariant
                s0.wf(),
                row <= n,
                n < 16,
                xpi == xp as int,
                ypi == yp as int,
                ni == n as int,
                xp < 64,
                yp < 32,
                n > 0 ==> s0.index + n <= 4096,
                self@ == (Chip8View { registers: self@.registers, video: self@.video, ..s0 }),
                self@.video.len() == 2048,
                self@.registers.len() == 16,
                forall|p: int|
                    0 <= p < 2048 ==> self@.video[p] == (if draw_flips_upto(
                        s0.memory,
                        s0.index,
                        xpi,
                        ypi,
                        ni,
                        row as int,
                        0,
                        p / 32,
                        p % 32,
                    ) {
                        s0.video[p] ^ 1
                    } else {
                        s0.video[p]
                    }),
                self@.registers == s0.registers.update(
                    15,
                    if draw_collision_upto(s0.video, s0.memory, s0.index, xpi, ypi, ni, row as int, 0) {
                        1u8
                    } else {
                        0u8
                    },
                ),
            decreases n - row,
        {
            let byte: u8 = self.memory[self.index as usize + row];
            let mut col: usize = 0;
            while col < 8
                invariant
                    s0.wf(),
                    row < n,
                    col <= 8,
                    n < 16,
                    xpi == xp as int,
                    ypi == yp as int,
                    ni == n as int,
                    xp < 64,
                    yp < 32,
                    s0.index + n <= 4096,
                    byte == s0.memory[s0.index + row],
                    self@ == (Chip8View { registers: self@.registers, video: self@.video, ..s0 }),
                    self@.video.len() == 2048,
                    self@.registers.len() == 16,
                    forall|p: int|
                        0 <= p < 2048 ==> self@.video[p] == (if draw_flips_upto(
                            s0.memory,
                            s0.index,
                            xpi,
                            ypi,
                            ni,
                            row as int,
                            col as int,
                            p / 32,
                            p % 32,
                        ) {
                            s0.video[p] ^ 1
                        } else {
                            s0.video[p]
                        }),
                    self@.registers == s0.registers.update(
                        15,
                        if draw_collision_upto(
                            s0.video,
                            s0.memory,
                            s0.index,
                            xpi,
                            ypi,
                            ni,
                            row as int,
                            col as int,
                        ) {
                            1u8
                        } else {
                            0u8
                        },
                    ),
                decreases 8 - col,
            {
                let ghost regs_before = self@.registers;
                let ghost cxs = xpi + col as int;
                let ghost cys = ypi + row as int;
                let sprite_pixel: u8 = byte & (0x80u8 >> (col as u8));
                let px: usize = xp as usize + col;
                let py: usize = yp as usize + row;
                proof {
                    // The sprite bit of this iteration's cell, as the spec names it.
                    assert(row_bit(s0.memory[s0.index + (cys - ypi)], ((cxs - xpi)) as u8) == (sprite_pixel != 0));
                }
                if sprite_pixel != 0 && px < 64 && py < 32 {
                    let p: usize = px * 32 + py;
                    proof {
                        lemma_cell_index(cxs, cys);
                        assert(p as int == cxs * 32 + cys);
                        // The cell has not been processed before this iteration.
                        assert(!draw_flips_upto(s0.memory, s0.index, xpi, ypi, ni, row as int, col as int, cxs, cys));
                        assert(self@.video[p as int] == s0.video[p as int]);
                    }
                    let cur: u8 = self.video[p];
                    if cur == 1 {
                        self.registers.set(15, 1);
                        proof {
                            assert(self@.registers =~= s0.registers.update(15, 1u8));
                            // This lit cell witnesses the collision from now on.
                            assert(draw_flips_upto(
                                s0.memory,
                                s0.index,
                                xpi,
                                ypi,
                                ni,
                                row as int,
                                col as int + 1,
                                cxs,
                                cys,
                            ));
                            assert(s0.video[cxs * 32 + cys] == 1);
                            assert(draw_collision_upto(
                                s0.video,
                                s0.memory,
                                s0.index,
                                xpi,
                                ypi,
                                ni,
                                row as int,
                                col as int + 1,
                            ));
                        }
                    }
                    self.video.set(p, cur ^ 1);
                }
                proof {
                    let ri = row as int;
                    let ci = col as int;
                    let drawn = sprite_pixel != 0 && 0 <= cxs < 64 && 0 <= cys < 32;
                    assert forall|p: int| 0 <= p < 2048 implies self@.video[p] == (if draw_flips_upto(
                        s0.memory,
                        s0.index,
                        xpi,
                        ypi,
                        ni,
                        ri,
                        ci + 1,
                        p / 32,
                        p % 32,
                    ) {
                        s0.video[p] ^ 1
                    } else {
                        s0.video[p]
                    }) by {
                        lemma_cell_coords(p);
                        if p / 32 == cxs && p % 32 == cys {
                            assert(p == cxs * 32 + cys);
                        } else {
                            assert(draw_flips_upto(s0.memory, s0.index, xpi, ypi, ni, ri, ci + 1, p / 32, p % 32)
                                == draw_flips_upto(s0.memory, s0.index, xpi, ypi, ni, ri, ci, p / 32, p % 32));
                        }
                    }
                    // The collision flag after this iteration.
                    if draw_collision_upto(s0.video, s0.memory, s0.index, xpi, ypi, ni, ri, ci) {
                        let (cx0, cy0) = choose|cx0: int, cy0: int|
                            0 <= cx0 < 64 && 0 <= cy0 < 32 && #[trigger] draw_flips_upto(
                                s0.memory,
                                s0.index,
                                xpi,
                                ypi,
                                ni,
                                ri,
                                ci,
                                cx0,
                                cy0,
                            ) && s0.video[cx0 * 32 + cy0] == 1;
                        assert(draw_flips_upto(s0.memory, s0.index, xpi, ypi, ni, ri, ci + 1, cx0, cy0));
                        assert(draw_collision_upto(s0.video, s0.memory, s0.index, xpi, ypi, ni, ri, ci + 1));
                    } else if !(drawn && s0.video[cxs * 32 + cys] == 1) {
                        assert forall|cx0: int, cy0: int|
                            0 <= cx0 < 64 && 0 <= cy0 < 32 && #[trigger] draw_flips_upto(
                                s0.memory,
                                s0.index,
                                xpi,
                                ypi,
                                ni,
                                ri,
                                ci + 1,
                                cx0,
                                cy0,
                            ) implies s0.video[cx0 * 32 + cy0] != 1 by {
                            if !draw_flips_upto(s0.memory, s0.index, xpi, ypi, ni, ri, ci, cx0, cy0) {
                                assert(cx0 == cxs && cy0 == cys);
                            }
                        }
                        assert(!draw_collision_upto(s0.video, s0.memory, s0.index, xpi, ypi, ni, ri, ci + 1));
                    }
                }
                col = col + 1;
            }
            proof {
                let ri = row as int;
                // Finishing the row's eight columns is the same as starting the
                // next row.
                assert forall|cx0: int, cy0: int|
                    draw_flips_upto(s0.memory, s0.index, xpi, ypi, ni, ri, 8, cx0, cy0) == draw_flips_upto(
                        s0.memory,
                        s0.index,
                        xpi,
                        ypi,
                        ni,
                        ri + 1,
                        0,
                        cx0,
                        cy0,
                    ) by {}
                if draw_collision_upto(s0.video, s0.memory, s0.index, xpi, ypi, ni, ri, 8) {
                    let (cx0, cy0) = choose|cx0: int, cy0: int|
                        0 <= cx0 < 64 && 0 <= cy0 < 32 && #[trigger] draw_flips_upto(
                            s0.memory,
                            s0.index,
                            xpi,
                            ypi,
                            ni,
                            ri,
                            8,
                            cx0,
                            cy0,
                        ) && s0.video[cx0 * 32 + cy0] == 1;
                    assert(draw_flips_upto(s0.memory, s0.index, xpi, ypi, ni, ri + 1, 0, cx0, cy0));
                    assert(draw_collision_upto(s0.video, s0.memory, s0.index, xpi, ypi, ni, ri + 1, 0));
                }
                if draw_collision_upto(s0.video, s0.memory, s0.index, xpi, ypi, ni, ri + 1, 0) {
                    let (cx0, cy0) = choose|cx0: int, cy0: int|
                        0 <= cx0 < 64 && 0 <= cy0 < 32 && #[trigger] draw_flips_upto(
                            s0.memory,
                            s0.index,
                            xpi,
                            ypi,
                            ni,
                            ri + 1,
                            0,
                            cx0,
                            cy0,
                        ) && s0.video[cx0 * 32 + cy0] == 1;
                    assert(draw_flips_upto(s0.memory, s0.index, xpi, ypi, ni, ri, 8, cx0, cy0));
                    assert(draw_collision_upto(s0.video, s0.memory, s0.index, xpi, ypi, ni, ri, 8));
                }
                assert(draw_collision_upto(s0.video, s0.memory, s0.index, xpi, ypi, ni, ri, 8)
                    == draw_collision_upto(s0.video, s0.memory, s0.index, xpi, ypi, ni, ri + 1, 0));
            }
            row = row + 1;
        }
        proof {
            // A fully processed draw is the draw itself.
            assert forall|cx0: int, cy0: int|
                draw_flips_upto(s0.memory, s0.index, xpi, ypi, ni, ni, 0, cx0, cy0) == draw_flips(
                    s0.memory,
                    s0.index,
                    xpi,
                    ypi,
                    ni,
                    cx0,
                    cy0,
                ) by {}
            if draw_collision_upto(s0.video, s0.memory, s0.index, xpi, ypi, ni, ni, 0) {
                let (cx0, cy0) = choose|cx0: int, cy0: int|
                    0 <= cx0 < 64 && 0 <= cy0 < 32 && #[trigger] draw_flips_upto(
                        s0.memory,
                        s0.index,
                        xpi,
                        ypi,
                        ni,
                        ni,
                        0,
                        cx0,
                        cy0,
                    ) && s0.video[cx0 * 32 + cy0] == 1;
                assert(draw_flips(s0.memory, s0.index, xpi, ypi, ni, cx0, cy0));
                assert(draw_collision(s0.video, s0.memory, s0.index, xpi, ypi, ni));
            }
            if draw_collision(s0.video, s0.memory, s0.index, xpi, ypi, ni) {
                let (cx0, cy0) = choose|cx0: int, cy0: int|
                    0 <= cx0 < 64 && 0 <= cy0 < 32 && #[trigger] draw_flips(s0.memory, s0.index, xpi, ypi, ni, cx0, cy0)
                        && s0.video[cx0 * 32 + cy0] == 1;
                assert(draw_flips_upto(s0.memory, s0.index, xpi, ypi, ni, ni, 0, cx0, cy0));
                assert(draw_collision_upto(s0.video, s0.memory, s0.index, xpi, ypi, ni, ni, 0));
            }
            assert(draw_collision_upto(s0.video, s0.memory, s0.index, xpi, ypi, ni, ni, 0) == draw_collision(
                s0.video,
                s0.memory,
                s0.index,
                xpi,
                ypi,
                ni,
            ));
            assert(self@.video =~= draw_video(s0.video, s0.memory, s0.index, xpi, ypi, ni));
            assert forall|p: int| 0 <= p < 2048 implies self@.video[p] == 0 || self@.video[p] == 1 by {
                lemma_xor1(s0.video[p]);
            }
            assert(self@ =~= spec_op_dxyn(
                old(self)@,
                nib2(old(self)@.opcode) as int,
                nib3(old(self)@.opcode) as int,
                nib4(old(self)@.opcode) as int,
            )->Ok_0);
        }
        Ok(())
    }
}

/// Drawing the same sprite at the same origin twice in succession restores
/// the framebuffer, because XOR is its own inverse; and when the first draw
/// lit some previously dark cell of the sprite, the second draw reports a
/// collision.
pub proof fn lemma_draw_twice(v: Seq<u8>, mem: Seq<u8>, index: int, xp: int, yp: int, n: int)
    requires
        v.len() == 2048,
    ensures
        draw_video(draw_video(v, mem, index, xp, yp, n), mem, index, xp, yp, n) == v,
        (exists|cx: int, cy: int|
            0 <= cx < 64 && 0 <= cy < 32 && draw_flips(mem, index, xp, yp, n, cx, cy) && v[cx * 32 + cy] == 0)
            ==> draw_collision(draw_video(v, mem, index, xp, yp, n), mem, index, xp, yp, n),
{
    let v1 = draw_video(v, mem, index, xp, yp, n);
    assert forall|p: int| 0 <= p < 2048 implies draw_video(v1, mem, index, xp, yp, n)[p] == v[p] by {
        lemma_xor1(v[p]);
    }
    assert(draw_video(v1, mem, index, xp, yp, n) =~= v);
    if exists|cx: int, cy: int|
        0 <= cx < 64 && 0 <= cy < 32 && draw_flips(mem, index, xp, yp, n, cx, cy) && v[cx * 32 + cy] == 0 {
        let (cx, cy) = choose|cx: int, cy: int|
            0 <= cx < 64 && 0 <= cy < 32 && draw_flips(mem, index, xp, yp, n, cx, cy) && v[cx * 32 + cy] == 0;
        lemma_cell_index(cx, cy);
        lemma_xor1(v[cx * 32 + cy]);
        assert(v1[cx * 32 + cy] == 1);
        assert(draw_collision(v1, mem, index, xp, yp, n));
    }
}

} // verus!
