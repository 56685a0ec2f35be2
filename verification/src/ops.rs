//! The per-opcode semantics: one spec transition function per instruction and
//! one executable handler per instruction, each proved to apply exactly its
//! transition to the machine state.

use vstd::prelude::*;

use crate::decode::{lemma_opcode_fields, low12, low8, nib2, nib3, nib4};
use crate::state::{overwrite, zero_bytes, Chip8, Chip8Error, Chip8View, FONT_BASE};

verus! {

/// 8-bit addition with wraparound.
pub open spec fn wrap_add8(a: u8, b: u8) -> u8 {
    if a + b < 256 {
        (a + b) as u8
    } else {
        (a + b - 256) as u8
    }
}

/// 8-bit subtraction with wraparound.
pub open spec fn wrap_sub8(a: u8, b: u8) -> u8 {
    if a >= b {
        (a - b) as u8
    } else {
        (a + 256 - b) as u8
    }
}

/// 00E0: the framebuffer cleared to all-zero; everything else unchanged.
pub open spec fn spec_op_00e0(s: Chip8View) -> Chip8View {
    Chip8View { video: Seq::new(2048, |p: int| 0u8), ..s }
}

/// 00EE: pop the return address into `pc`, or a stack underflow when no
/// address is saved.
pub open spec fn spec_op_00ee(s: Chip8View) -> Result<Chip8View, Chip8Error> {
    if s.sp < 1 {
        Err(Chip8Error::StackUnderflow { opcode: s.opcode, addr: s.pc as u16 })
    } else {
        Ok(Chip8View { sp: s.sp - 1, pc: s.stack[s.sp - 1] as int, ..s })
    }
}

/// 1nnn: unconditional jump.
pub open spec fn spec_op_1nnn(s: Chip8View, nnn: int) -> Chip8View {
    Chip8View { pc: nnn, ..s }
}

/// 2nnn: push the current `pc` and jump, or a stack overflow when all sixteen
/// slots are in use.
pub open spec fn spec_op_2nnn(s: Chip8View, nnn: int) -> Result<Chip8View, Chip8Error> {
    if s.sp >= 16 {
        Err(Chip8Error::StackOverflow { opcode: s.opcode, addr: s.pc as u16 })
    } else {
        Ok(Chip8View { stack: s.stack.update(s.sp, s.pc as u16), sp: s.sp + 1, pc: nnn, ..s })
    }
}

/// 3xkk: skip the next instruction when `Vx == kk`.
pub open spec fn spec_op_3xkk(s: Chip8View, x: int, kk: u8) -> Chip8View {
    Chip8View { pc: if s.registers[x] == kk { s.pc + 2 } else { s.pc }, ..s }
}

/// 4xkk: skip the next instruction when `Vx != kk`.
pub open spec fn spec_op_4xkk(s: Chip8View, x: int, kk: u8) -> Chip8View {
    Chip8View { pc: if s.registers[x] != kk { s.pc + 2 } else { s.pc }, ..s }
}

/// 5xy0: skip the next instruction when `Vx == Vy`.
pub open spec fn spec_op_5xy0(s: Chip8View, x: int, y: int) -> Chip8View {
    Chip8View { pc: if s.registers[x] == s.registers[y] { s.pc + 2 } else { s.pc }, ..s }
}

/// 6xkk: `Vx = kk`.
pub open spec fn spec_op_6xkk(s: Chip8View, x: int, kk: u8) -> Chip8View {
    Chip8View { registers: s.registers.update(x, kk), ..s }
}

/// 7xkk: `Vx = Vx + kk`, wrapping, carry flag untouched.
pub open spec fn spec_op_7xkk(s: Chip8View, x: int, kk: u8) -> Chip8View {
    Chip8View { registers: s.registers.update(x, wrap_add8(s.registers[x], kk)), ..s }
}

/// 8xy0: `Vx = Vy`.
pub open spec fn spec_op_8xy0(s: Chip8View, x: int, y: int) -> Chip8View {
    Chip8View { registers: s.registers.update(x, s.registers[y]), ..s }
}

/// 8xy1: `Vx = Vx | Vy`.
pub open spec fn spec_op_8xy1(s: Chip8View, x: int, y: int) -> Chip8View {
    Chip8View { registers: s.registers.update(x, s.registers[x] | s.registers[y]), ..s }
}

/// 8xy2: `Vx = Vx & Vy`.
pub open spec fn spec_op_8xy2(s: Chip8View, x: int, y: int) -> Chip8View {
    Chip8View { registers: s.registers.update(x, s.registers[x] & s.registers[y]), ..s }
}

/// 8xy3: `Vx = Vx ^ Vy`.
pub open spec fn spec_op_8xy3(s: Chip8View, x: int, y: int) -> Chip8View {
    Chip8View { registers: s.registers.update(x, s.registers[x] ^ s.registers[y]), ..s }
}

/// 8xy4: `Vx = Vx + Vy` with the low eight bits kept and `VF` holding the
/// carry out of the 9-bit sum.
pub open spec fn spec_op_8xy4(s: Chip8View, x: int, y: int) -> Chip8View {
    let sum = s.registers[x] + s.registers[y];
    Chip8View {
        registers: s.registers.update(15, if sum > 255 { 1u8 } else { 0u8 }).update(
            x,
            wrap_add8(s.registers[x], s.registers[y]),
        ),
        ..s
    }
}

/// 8xy5: `Vx = Vx - Vy`, wrapping, with `VF = 1` exactly when there is no
/// borrow (`Vx >= Vy`).
pub open spec fn spec_op_8xy5(s: Chip8View, x: int, y: int) -> Chip8View {
    Chip8View {
        registers: s.registers.update(15, if s.registers[x] >= s.registers[y] { 1u8 } else { 0u8 }).update(
            x,
            wrap_sub8(s.registers[x], s.registers[y]),
        ),
        ..s
    }
}

/// 8xy6: `VF` takes the shifted-out low bit and `Vx` is shifted right by one.
pub open spec fn spec_op_8xy6(s: Chip8View, x: int) -> Chip8View {
    Chip8View {
        registers: s.registers.update(15, s.registers[x] & 0x1).update(x, s.registers[x] >> 1u8),
        ..s
    }
}

/// 8xy7: `Vx = Vy - Vx`, wrapping, with `VF = 1` exactly when there is no
/// borrow (`Vy >= Vx`).
pub open spec fn spec_op_8xy7(s: Chip8View, x: int, y: int) -> Chip8View {
    Chip8View {
        registers: s.registers.update(15, if s.registers[y] >= s.registers[x] { 1u8 } else { 0u8 }).update(
            x,
            wrap_sub8(s.registers[y], s.registers[x]),
        ),
        ..s
    }
}

/// 8xyE: `VF` takes the shifted-out high bit and `Vx` is shifted left by one,
/// truncated to eight bits.
pub open spec fn spec_op_8xye(s: Chip8View, x: int) -> Chip8View {
    Chip8View {
        registers: s.registers.update(15, (s.registers[x] & 0x80) >> 7u8).update(
            x,
            wrap_add8(s.registers[x], s.registers[x]),
        ),
        ..s
    }
}

/// 9xy0: skip the next instruction when `Vx != Vy`.
pub open spec fn spec_op_9xy0(s: Chip8View, x: int, y: int) -> Chip8View {
    Chip8View { pc: if s.registers[x] != s.registers[y] { s.pc + 2 } else { s.pc }, ..s }
}

/// Annn: `index = nnn`.
pub open spec fn spec_op_annn(s: Chip8View, nnn: int) -> Chip8View {
    Chip8View { index: nnn, ..s }
}

/// Bnnn: jump to `V0 + nnn`.
pub open spec fn spec_op_bnnn(s: Chip8View, nnn: int) -> Chip8View {
    Chip8View { pc: s.registers[0] + nnn, ..s }
}

/// Cxkk: `Vx = rb & kk` for the drawn byte `rb`.
pub open spec fn spec_op_cxkk(s: Chip8View, x: int, kk: u8, rb: u8) -> Chip8View {
    Chip8View { registers: s.registers.update(x, rb & kk), ..s }
}

/// Ex9E: skip the next instruction when key `Vx` is pressed; a register value
/// outside the sixteen keys is an out-of-range access.
pub open spec fn spec_op_ex9e(s: Chip8View, x: int) -> Result<Chip8View, Chip8Error> {
    if s.registers[x] >= 16 {
        Err(Chip8Error::OutOfRange { opcode: s.opcode, addr: s.registers[x] as u16 })
    } else {
        Ok(Chip8View { pc: if s.keypad[s.registers[x] as int] != 0 { s.pc + 2 } else { s.pc }, ..s })
    }
}

/// Fx07: `Vx = delay_timer`.
pub open spec fn spec_op_fx07(s: Chip8View, x: int) -> Chip8View {
    Chip8View { registers: s.registers.update(x, s.delay_timer), ..s }
}

/// The lowest pressed key at or above latch `i`, if any.
pub open spec fn first_pressed_from(kp: Seq<u8>, i: int) -> Option<int>
    decreases 16 - i,
{
    if i < 0 || i >= 16 {
        None
    } else if kp[i] != 0 {
        Some(i)
    } else {
        first_pressed_from(kp, i + 1)
    }
}

/// Fx0A: when some key is pressed, `Vx` takes the lowest pressed key;
/// otherwise `pc` rewinds one fetch-step so the next cycle re-executes the
/// same instruction.
pub open spec fn spec_op_fx0a(s: Chip8View, x: int) -> Chip8View {
    match first_pressed_from(s.keypad, 0) {
        Some(k) => Chip8View { registers: s.registers.update(x, k as u8), ..s },
        None => Chip8View { pc: s.pc - 2, ..s },
    }
}

/// Fx15: `delay_timer = Vx`.
pub open spec fn spec_op_fx15(s: Chip8View, x: int) -> Chip8View {
    Chip8View { delay_timer: s.registers[x], ..s }
}

/// Fx18: `sound_timer = Vx`.
pub open spec fn spec_op_fx18(s: Chip8View, x: int) -> Chip8View {
    Chip8View { sound_timer: s.registers[x], ..s }
}

/// Fx1E: `index = index + Vx`, or an out-of-range fault when the sum leaves
/// the 16-bit register.
pub open spec fn spec_op_fx1e(s: Chip8View, x: int) -> Result<Chip8View, Chip8Error> {
    if s.index + s.registers[x] > 0xffff {
        Err(Chip8Error::OutOfRange { opcode: s.opcode, addr: s.index as u16 })
    } else {
        Ok(Chip8View { index: s.index + s.registers[x], ..s })
    }
}

/// Fx29: `index` points at the five-byte glyph of digit `Vx` in the font
/// region.
pub open spec fn spec_op_fx29(s: Chip8View, x: int) -> Chip8View {
    Chip8View { index: FONT_BASE + 5 * s.registers[x], ..s }
}

/// Fx33: the decimal digits of `Vx` (hundreds, tens, units) stored at
/// `index`, `index + 1`, `index + 2`; an out-of-range fault when the last of
/// the three bytes falls outside memory.
pub open spec fn spec_op_fx33(s: Chip8View, x: int) -> Result<Chip8View, Chip8Error> {
    if s.index > 4093 {
        Err(Chip8Error::OutOfRange { opcode: s.opcode, addr: s.index as u16 })
    } else {
        let v = s.registers[x] as int;
        Ok(Chip8View {
            memory: s.memory.update(s.index, (v / 100) as u8).update(s.index + 1, ((v / 10) % 10) as u8).update(
                s.index + 2,
                (v % 10) as u8,
            ),
            ..s
        })
    }
}

/// Fx55: `V0..=Vx` stored at `index..`, or an out-of-range fault when the
/// last byte falls outside memory.
pub open spec fn spec_op_fx55(s: Chip8View, x: int) -> Result<Chip8View, Chip8Error> {
    if s.index + x > 4095 {
        Err(Chip8Error::OutOfRange { opcode: s.opcode, addr: s.index as u16 })
    } else {
        Ok(Chip8View { memory: overwrite(s.memory, s.index, s.registers.subrange(0, x + 1)), ..s })
    }
}

/// Fx65: `V0..=Vx` loaded from `index..`, or an out-of-range fault when the
/// last byte falls outside memory.
pub open spec fn spec_op_fx65(s: Chip8View, x: int) -> Result<Chip8View, Chip8Error> {
    if s.index + x > 4095 {
        Err(Chip8Error::OutOfRange { opcode: s.opcode, addr: s.index as u16 })
    } else {
        Ok(Chip8View {
            registers: Seq::new(16, |i: int| if 0 <= i <= x { s.memory[s.index + i] } else { s.registers[i] }),
            ..s
        })
    }
}

/// The lowest pressed key is the same whether the search starts at latch 0 or
/// at latch `i`, provided every latch below `i` is released.
proof fn lemma_first_pressed_skip(kp: Seq<u8>, i: int)
    requires
        kp.len() == 16,
        0 <= i <= 16,
        forall|j: int| 0 <= j < i ==> kp[j] == 0,
    ensures
        first_pressed_from(kp, 0) == first_pressed_from(kp, i),
    decreases i,
{
    if i > 0 {
        lemma_first_pressed_skip(kp, i - 1);
    }
}

/// Relies on rand::random: an unconstrained 16-bit value; nothing is promised
/// of it.
#[verifier::external_body]
fn random_u16() -> (r: u16) {
    rand::random::<u16>()
}

impl Chip8 {
    /// 00E0: clear the framebuffer; no other component changes.
    pub fn op_00e0(&mut self)
        requires
            old(self)@.wf(),
        ensures
            final(self)@.wf(),
            final(self)@ == spec_op_00e0(old(self)@),
            forall|p: int| 0 <= p < 2048 ==> final(self)@.video[p] == 0,
    {
        self.video = zero_bytes(2048);
        proof {
            assert(self@.video =~= Seq::new(2048, |p: int| 0u8));
            assert(self@ =~= spec_op_00e0(old(self)@));
        }
    }

    /// 00EE: return from a subroutine, or report a stack underflow and leave
    /// the machine unchanged.
    pub fn op_00ee(&mut self) -> (r: Result<(), Chip8Error>)
        requires
            old(self)@.wf(),
        ensures
            final(self)@.wf(),
            (match r {
                Ok(_) => spec_op_00ee(old(self)@) == Ok::<Chip8View, Chip8Error>(final(self)@),
                Err(e) => spec_op_00ee(old(self)@) == Err::<Chip8View, Chip8Error>(e) && final(self)@ == old(self)@,
            }),
    {
        if self.sp < 1 {
            return Err(Chip8Error::StackUnderflow { opcode: self.opcode, addr: self.pc });
        }
        self.sp = self.sp - 1;
        self.pc = self.stack[self.sp];
        proof {
            assert(self@ =~= spec_op_00ee(old(self)@)->Ok_0);
        }
        Ok(())
    }

    /// 1nnn: jump to `nnn`.
    pub fn op_1nnn(&mut self)
        requires
            old(self)@.wf(),
        ensures
            final(self)@.wf(),
            final(self)@ == spec_op_1nnn(old(self)@, low12(old(self)@.opcode) as int),
    {
        proof {
            lemma_opcode_fields(self.opcode);
        }
        self.pc = self.opcode & 0x0fff;
        proof {
            assert(self@ =~= spec_op_1nnn(old(self)@, low12(old(self)@.opcode) as int));
        }
    }

    /// 2nnn: push the current `pc` and jump to `nnn`, or report a stack
    /// overflow and leave the machine unchanged.
    pub fn op_2nnn(&mut self) -> (r: Result<(), Chip8Error>)
        requires
            old(self)@.wf(),
        ensures
            final(self)@.wf(),
            (match r {
                Ok(_) => spec_op_2nnn(old(self)@, low12(old(self)@.opcode) as int) == Ok::<Chip8View, Chip8Error>(
                    final(self)@,
                ),
                Err(e) => spec_op_2nnn(old(self)@, low12(old(self)@.opcode) as int) == Err::<Chip8View, Chip8Error>(e)
                    && final(self)@ == old(self)@,
            }),
    {
        proof {
            lemma_opcode_fields(self.opcode);
        }
        if self.sp >= 16 {
            return Err(Chip8Error::StackOverflow { opcode: self.opcode, addr: self.pc });
        }
        self.stack.set(self.sp, self.pc);
        self.sp = self.sp + 1;
        self.pc = self.opcode & 0x0fff;
        proof {
            assert(self@ =~= spec_op_2nnn(old(self)@, low12(old(self)@.opcode) as int)->Ok_0);
        }
        Ok(())
    }

    /// 3xkk: skip the next instruction when `Vx == kk`.
    pub fn op_3xkk(&mut self)
        requires
            old(self)@.wf(),
            old(self)@.pc + 2 <= 0xffff,
        ensures
            final(self)@.wf(),
            final(self)@ == spec_op_3xkk(old(self)@, nib2(old(self)@.opcode) as int, low8(old(self)@.opcode)),
    {
        proof {
            lemma_opcode_fields(self.opcode);
        }
        let x: usize = ((self.opcode & 0x0f00) >> 8) as usize;
        let kk: u8 = (self.opcode & 0x00ff) as u8;
        if self.registers[x] == kk {
            self.pc = self.pc + 2;
        }
        proof {
            assert(self@ =~= spec_op_3xkk(old(self)@, nib2(old(self)@.opcode) as int, low8(old(self)@.opcode)));
        }
    }

    /// 4xkk: skip the next instruction when `Vx != kk`.
    pub fn op_4xkk(&mut self)
        requires
            old(self)@.wf(),
            old(self)@.pc + 2 <= 0xffff,
        ensures
            final(self)@.wf(),
            final(self)@ == spec_op_4xkk(old(self)@, nib2(old(self)@.opcode) as int, low8(old(self)@.opcode)),
    {
        proof {
            lemma_opcode_fields(self.opcode);
        }
        let x: usize = ((self.opcode & 0x0f00) >> 8) as usize;
        let kk: u8 = (self.opcode & 0x00ff) as u8;
        if self.registers[x] != kk {
            self.pc = self.pc + 2;
        }
        proof {
            assert(self@ =~= spec_op_4xkk(old(self)@, nib2(old(self)@.opcode) as int, low8(old(self)@.opcode)));
        }
    }

    /// 5xy0: skip the next instruction when `Vx == Vy`.
    pub fn op_5xy0(&mut self)
        requires
            old(self)@.wf(),
            old(self)@.pc + 2 <= 0xffff,
        ensures
            final(self)@.wf(),
            final(self)@ == spec_op_5xy0(old(self)@, nib2(old(self)@.opcode) as int, nib3(old(self)@.opcode) as int),
    {
        proof {
            lemma_opcode_fields(self.opcode);
        }
        let x: usize = ((self.opcode & 0x0f00) >> 8) as usize;
        let y: usize = ((self.opcode & 0x00f0) >> 4) as usize;
        if self.registers[x] == self.registers[y] {
            self.pc = self.pc + 2;
        }
        proof {
            assert(self@ =~= spec_op_5xy0(old(self)@, nib2(old(self)@.opcode) as int, nib3(old(self)@.opcode) as int));
        }
    }

    /// 6xkk: load the immediate into `Vx`.
    pub fn op_6xkk(&mut self)
        requires
            old(self)@.wf(),
        ensures
            final(self)@.wf(),
            final(self)@ == spec_op_6xkk(old(self)@, nib2(old(self)@.opcode) as int, low8(old(self)@.opcode)),
    {
        proof {
            lemma_opcode_fields(self.opcode);
        }
        let x: usize = ((self.opcode & 0x0f00) >> 8) as usize;
        let kk: u8 = (self.opcode & 0x00ff) as u8;
        self.registers.set(x, kk);
        proof {
            assert(self@ =~= spec_op_6xkk(old(self)@, nib2(old(self)@.opcode) as int, low8(old(self)@.opcode)));
        }
    }

    /// 7xkk: add the immediate to `Vx` with 8-bit wraparound and no flag.
    pub fn op_7xkk(&mut self)
        requires
            old(self)@.wf(),
        ensures
            final(self)@.wf(),
            final(self)@ == spec_op_7xkk(old(self)@, nib2(old(self)@.opcode) as int, low8(old(self)@.opcode)),
    {
        proof {
            lemma_opcode_fields(self.opcode);
        }
        let x: usize = ((self.opcode & 0x0f00) >> 8) as usize;
        let kk: u8 = (self.opcode & 0x00ff) as u8;
        let sum: u16 = self.registers[x] as u16 + kk as u16;
        let v: u8 = if sum < 256 {
            sum as u8
        } else {
            (sum - 256) as u8
        };
        self.registers.set(x, v);
        proof {
            assert(self@ =~= spec_op_7xkk(old(self)@, nib2(old(self)@.opcode) as int, low8(old(self)@.opcode)));
        }
    }

    /// 8xy0: copy `Vy` into `Vx`.
    pub fn op_8xy0(&mut self)
        requires
            old(self)@.wf(),
        ensures
            final(self)@.wf(),
            final(self)@ == spec_op_8xy0(old(self)@, nib2(old(self)@.opcode) as int, nib3(old(self)@.opcode) as int),
    {
        proof {
            lemma_opcode_fields(self.opcode);
        }
        let x: usize = ((self.opcode & 0x0f00) >> 8) as usize;
        let y: usize = ((self.opcode & 0x00f0) >> 4) as usize;
        let v: u8 = self.registers[y];
        self.registers.set(x, v);
        proof {
            assert(self@ =~= spec_op_8xy0(old(self)@, nib2(old(self)@.opcode) as int, nib3(old(self)@.opcode) as int));
        }
    }

    /// 8xy1: bitwise OR of `Vy` into `Vx`.
    pub fn op_8xy1(&mut self)
        requires
            old(self)@.wf(),
        ensures
            final(self)@.wf(),
            final(self)@ == spec_op_8xy1(old(self)@, nib2(old(self)@.opcode) as int, nib3(old(self)@.opcode) as int),
    {
        proof {
            lemma_opcode_fields(self.opcode);
        }
        let x: usize = ((self.opcode & 0x0f00) >> 8) as usize;
        let y: usize = ((self.opcode & 0x00f0) >> 4) as usize;
        let v: u8 = self.registers[x] | self.registers[y];
        self.registers.set(x, v);
        proof {
            assert(self@ =~= spec_op_8xy1(old(self)@, nib2(old(self)@.opcode) as int, nib3(old(self)@.opcode) as int));
        }
    }

    /// 8xy2: bitwise AND of `Vy` into `Vx`.
    pub fn op_8xy2(&mut self)
        requires
            old(self)@.wf(),
        ensures
            final(self)@.wf(),
            final(self)@ == spec_op_8xy2(old(self)@, nib2(old(self)@.opcode) as int, nib3(old(self)@.opcode) as int),
    {
        proof {
            lemma_opcode_fields(self.opcode);
        }
        let x: usize = ((self.opcode & 0x0f00) >> 8) as usize;
        let y: usize = ((self.opcode & 0x00f0) >> 4) as usize;
        let v: u8 = self.registers[x] & self.registers[y];
        self.registers.set(x, v);
        proof {
            assert(self@ =~= spec_op_8xy2(old(self)@, nib2(old(self)@.opcode) as int, nib3(old(self)@.opcode) as int));
        }
    }

    /// 8xy3: bitwise XOR of `Vy` into `Vx`.
    pub fn op_8xy3(&mut self)
        requires
            old(self)@.wf(),
        ensures
            final(self)@.wf(),
            final(self)@ == spec_op_8xy3(old(self)@, nib2(old(self)@.opcode) as int, nib3(old(self)@.opcode) as int),
    {
        proof {
            lemma_opcode_fields(self.opcode);
        }
        let x: usize = ((self.opcode & 0x0f00) >> 8) as usize;
        let y: usize = ((self.opcode & 0x00f0) >> 4) as usize;
        let v: u8 = self.registers[x] ^ self.registers[y];
        self.registers.set(x, v);
        proof {
            assert(self@ =~= spec_op_8xy3(old(self)@, nib2(old(self)@.opcode) as int, nib3(old(self)@.opcode) as int));
        }
    }

    /// 8xy4: add `Vy` into `Vx`; `VF` reports the carry and `Vx` keeps the
    /// low eight bits.
    pub fn op_8xy4(&mut self)
        requires
            old(self)@.wf(),
        ensures
            final(self)@.wf(),
            final(self)@ == spec_op_8xy4(old(self)@, nib2(old(self)@.opcode) as int, nib3(old(self)@.opcode) as int),
    {
        proof {
            lemma_opcode_fields(self.opcode);
        }
        let x: usize = ((self.opcode & 0x0f00) >> 8) as usize;
        let y: usize = ((self.opcode & 0x00f0) >> 4) as usize;
        let a: u8 = self.registers[x];
        let b: u8 = self.registers[y];
        let sum: u16 = a as u16 + b as u16;
        if sum > 255 {
            self.registers.set(15, 1);
        } else {
            self.registers.set(15, 0);
        }
        let v: u8 = if sum < 256 {
            sum as u8
        } else {
            (sum - 256) as u8
        };
        self.registers.set(x, v);
        proof {
            assert(self@ =~= spec_op_8xy4(old(self)@, nib2(old(self)@.opcode) as int, nib3(old(self)@.opcode) as int));
        }
    }

    /// 8xy5: subtract `Vy` from `Vx` with wraparound; `VF` is 1 exactly when
    /// no borrow occurs.
    pub fn op_8xy5(&mut self)
        requires
            old(self)@.wf(),
        ensures
            final(self)@.wf(),
            final(self)@ == spec_op_8xy5(old(self)@, nib2(old(self)@.opcode) as int, nib3(old(self)@.opcode) as int),
    {
        proof {
            lemma_opcode_fields(self.opcode);
        }
        let x: usize = ((self.opcode & 0x0f00) >> 8) as usize;
        let y: usize = ((self.opcode & 0x00f0) >> 4) as usize;
        let a: u8 = self.registers[x];
        let b: u8 = self.registers[y];
        if a >= b {
            self.registers.set(15, 1);
        } else {
            self.registers.set(15, 0);
        }
        let v: u8 = if a >= b {
            a - b
        } else {
            ((a as u16 + 256) - b as u16) as u8
        };
        self.registers.set(x, v);
        proof {
            assert(self@ =~= spec_op_8xy5(old(self)@, nib2(old(self)@.opcode) as int, nib3(old(self)@.opcode) as int));
        }
    }

    /// 8xy6: shift `Vx` right by one; `VF` takes the shifted-out bit.
    pub fn op_8xy6(&mut self)
        requires
            old(self)@.wf(),
        ensures
            final(self)@.wf(),
            final(self)@ == spec_op_8xy6(old(self)@, nib2(old(self)@.opcode) as int),
    {
        proof {
            lemma_opcode_fields(self.opcode);
        }
        let x: usize = ((self.opcode & 0x0f00) >> 8) as usize;
        let a: u8 = self.registers[x];
        self.registers.set(15, a & 0x1);
        self.registers.set(x, a >> 1u8);
        proof {
            assert(self@ =~= spec_op_8xy6(old(self)@, nib2(old(self)@.opcode) as int));
        }
    }

    /// 8xy7: set `Vx = Vy - Vx` with wraparound; `VF` is 1 exactly when no
    /// borrow occurs.
    pub fn op_8xy7(&mut self)
        requires
            old(self)@.wf(),
        ensures
            final(self)@.wf(),
            final(self)@ == spec_op_8xy7(old(self)@, nib2(old(self)@.opcode) as int, nib3(old(self)@.opcode) as int),
    {
        proof {
            lemma_opcode_fields(self.opcode);
        }
        let x: usize = ((self.opcode & 0x0f00) >> 8) as usize;
        let y: usize = ((self.opcode & 0x00f0) >> 4) as usize;
        let a: u8 = self.registers[x];
        let b: u8 = self.registers[y];
        if b >= a {
            self.registers.set(15, 1);
        } else {
            self.registers.set(15, 0);
        }
        let v: u8 = if b >= a {
            b - a
        } else {
            ((b as u16 + 256) - a as u16) as u8
        };
        self.registers.set(x, v);
        proof {
            assert(self@ =~= spec_op_8xy7(old(self)@, nib2(old(self)@.opcode) as int, nib3(old(self)@.opcode) as int));
        }
    }

    /// 8xyE: shift `Vx` left by one, truncated to eight bits; `VF` takes the
    /// shifted-out bit.
    pub fn op_8xye(&mut self)
        requires
            old(self)@.wf(),
        ensures
            final(self)@.wf(),
            final(self)@ == spec_op_8xye(old(self)@, nib2(old(self)@.opcode) as int),
    {
        proof {
            lemma_opcode_fields(self.opcode);
        }
        let x: usize = ((self.opcode & 0x0f00) >> 8) as usize;
        let a: u8 = self.registers[x];
        self.registers.set(15, (a & 0x80) >> 7u8);
        let d: u16 = a as u16 + a as u16;
        let v: u8 = if d < 256 {
            d as u8
        } else {
            (d - 256) as u8
        };
        self.registers.set(x, v);
        proof {
            assert(self@ =~= spec_op_8xye(old(self)@, nib2(old(self)@.opcode) as int));
        }
    }

    /// 9xy0: skip the next instruction when `Vx != Vy`.
    pub fn op_9xy0(&mut self)
        requires
            old(self)@.wf(),
            old(self)@.pc + 2 <= 0xffff,
        ensures
            final(self)@.wf(),
            final(self)@ == spec_op_9xy0(old(self)@, nib2(old(self)@.opcode) as int, nib3(old(self)@.opcode) as int),
    {
        proof {
            lemma_opcode_fields(self.opcode);
        }
        let x: usize = ((self.opcode & 0x0f00) >> 8) as usize;
        let y: usize = ((self.opcode & 0x00f0) >> 4) as usize;
        if self.registers[x] != self.registers[y] {
            self.pc = self.pc + 2;
        }
        proof {
            assert(self@ =~= spec_op_9xy0(old(self)@, nib2(old(self)@.opcode) as int, nib3(old(self)@.opcode) as int));
        }
    }

    /// Annn: load `nnn` into the index register.
    pub fn op_annn(&mut self)
        requires
            old(self)@.wf(),
        ensures
            final(self)@.wf(),
            final(self)@ == spec_op_annn(old(self)@, low12(old(self)@.opcode) as int),
    {
        proof {
            lemma_opcode_fields(self.opcode);
        }
        self.index = self.opcode & 0x0fff;
        proof {
            assert(self@ =~= spec_op_annn(old(self)@, low12(old(self)@.opcode) as int));
        }
    }

    /// Bnnn: jump to `V0 + nnn`.
    pub fn op_bnnn(&mut self)
        requires
            old(self)@.wf(),
        ensures
            final(self)@.wf(),
            final(self)@ == spec_op_bnnn(old(self)@, low12(old(self)@.opcode) as int),
    {
        proof {
            lemma_opcode_fields(self.opcode);
        }
        let nnn: u16 = self.opcode & 0x0fff;
        self.pc = self.registers[0] as u16 + nnn;
        proof {
            assert(self@ =~= spec_op_bnnn(old(self)@, low12(old(self)@.opcode) as int));
        }
    }

    /// Cxkk: load `rb & kk` into `Vx` for a caller-supplied byte `rb`; the
    /// random variant below draws the byte and delegates here.
    pub fn op_cxkk_with(&mut self, rb: u8)
        requires
            old(self)@.wf(),
        ensures
            final(self)@.wf(),
            final(self)@ == spec_op_cxkk(old(self)@, nib2(old(self)@.opcode) as int, low8(old(self)@.opcode), rb),
    {
        proof {
            lemma_opcode_fields(self.opcode);
        }
        let x: usize = ((self.opcode & 0x0f00) >> 8) as usize;
        let kk: u8 = (self.opcode & 0x00ff) as u8;
        self.registers.set(x, rb & kk);
        proof {
            assert(self@ =~= spec_op_cxkk(old(self)@, nib2(old(self)@.opcode) as int, low8(old(self)@.opcode), rb));
        }
    }

    /// Cxkk: load a random byte masked with `kk` into `Vx`.  The byte comes
    /// from the host's random source, so only its masked shape is promised.
    pub fn op_cxkk(&mut self)
        requires
            old(self)@.wf(),
        ensures
            final(self)@.wf(),
            exists|rb: u8|
                final(self)@ == spec_op_cxkk(
                    old(self)@,
                    nib2(old(self)@.opcode) as int,
                    low8(old(self)@.opcode),
                    rb,
                ),
    {
        let r: u16 = random_u16();
        let rb: u8 = (r & 0x00ff) as u8;
        self.op_cxkk_with(rb);
        proof {
            assert(self@ == spec_op_cxkk(old(self)@, nib2(old(self)@.opcode) as int, low8(old(self)@.opcode), rb));
        }
    }

    /// Ex9E: skip the next instruction when the key named by `Vx` is pressed,
    /// or report an out-of-range key and leave the machine unchanged.
    pub fn op_ex9e(&mut self) -> (r: Result<(), Chip8Error>)
        requires
            old(self)@.wf(),
            old(self)@.pc + 2 <= 0xffff,
        ensures
            final(self)@.wf(),
            (match r {
                Ok(_) => spec_op_ex9e(old(self)@, nib2(old(self)@.opcode) as int) == Ok::<Chip8View, Chip8Error>(
                    final(self)@,
                ),
                Err(e) => spec_op_ex9e(old(self)@, nib2(old(self)@.opcode) as int) == Err::<Chip8View, Chip8Error>(e)
                    && final(self)@ == old(self)@,
            }),
    {
        proof {
            lemma_opcode_fields(self.opcode);
        }
        let x: usize = ((self.opcode & 0x0f00) >> 8) as usize;
        let key: u8 = self.registers[x];
        if key >= 16 {
            return Err(Chip8Error::OutOfRange { opcode: self.opcode, addr: key as u16 });
        }
        if self.keypad[key as usize] != 0 {
            self.pc = self.pc + 2;
        }
        proof {
            assert(self@ =~= spec_op_ex9e(old(self)@, nib2(old(self)@.opcode) as int)->Ok_0);
        }
        Ok(())
    }

    /// ExA1: the second key-test pattern.  Like Ex9E it skips when the key
    /// named by `Vx` is pressed — the two key tests behave identically in
    /// this instruction table — or reports an out-of-range key and leaves
    /// the machine unchanged.
    pub fn op_exa1(&mut self) -> (r: Result<(), Chip8Error>)
        requires
            old(self)@.wf(),
            old(self)@.pc + 2 <= 0xffff,
        ensures
            final(self)@.wf(),
            (match r {
                Ok(_) => spec_op_ex9e(old(self)@, nib2(old(self)@.opcode) as int) == Ok::<Chip8View, Chip8Error>(
                    final(self)@,
                ),
                Err(e) => spec_op_ex9e(old(self)@, nib2(old(self)@.opcode) as int) == Err::<Chip8View, Chip8Error>(e)
                    && final(self)@ == old(self)@,
            }),
    {
        proof {
            lemma_opcode_fields(self.opcode);
        }
        let x: usize = ((self.opcode & 0x0f00) >> 8) as usize;
        let key: u8 = self.registers[x];
        if key >= 16 {
            return Err(Chip8Error::OutOfRange { opcode: self.opcode, addr: key as u16 });
        }
        if self.keypad[key as usize] != 0 {
            self.pc = self.pc + 2;
        }
        proof {
            assert(self@ =~= spec_op_ex9e(old(self)@, nib2(old(self)@.opcode) as int)->Ok_0);
        }
        Ok(())
    }

    /// Fx07: copy the delay timer into `Vx`.
    pub fn op_fx07(&mut self)
        requires
            old(self)@.wf(),
        ensures
            final(self)@.wf(),
            final(self)@ == spec_op_fx07(old(self)@, nib2(old(self)@.opcode) as int),
    {
        proof {
            lemma_opcode_fields(self.opcode);
        }
        let x: usize = ((self.opcode & 0x0f00) >> 8) as usize;
        let v: u8 = self.delay_timer;
        self.registers.set(x, v);
        proof {
            assert(self@ =~= spec_op_fx07(old(self)@, nib2(old(self)@.opcode) as int));
        }
    }

    /// Fx0A: when some key is pressed, load the lowest pressed key into `Vx`;
    /// otherwise rewind `pc` one fetch-step so the next cycle retries.
    pub fn op_fx0a(&mut self)
        requires
            old(self)@.wf(),
            old(self)@.pc >= 2,
        ensures
            final(self)@.wf(),
            final(self)@ == spec_op_fx0a(old(self)@, nib2(old(self)@.opcode) as int),
    {
        proof {
            lemma_opcode_fields(self.opcode);
        }
        let x: usize = ((self.opcode & 0x0f00) >> 8) as usize;
        let mut i: usize = 0;
        while i < 16 && self.keypad[i] == 0
            invariant
                old(self)@.wf(),
                self == old(self),
                i <= 16,
                forall|j: int| 0 <= j < i ==> old(self)@.keypad[j] == 0,
            decreases 16 - i,
        {
            i = i + 1;
        }
        proof {
            lemma_first_pressed_skip(self@.keypad, i as int);
        }
        if i < 16 {
            self.registers.set(x, i as u8);
        } else {
            self.pc = self.pc - 2;
        }
        proof {
            assert(self@ =~= spec_op_fx0a(old(self)@, nib2(old(self)@.opcode) as int));
        }
    }

    /// Fx15: load `Vx` into the delay timer.
    pub fn op_fx15(&mut self)
        requires
            old(self)@.wf(),
        ensures
            final(self)@.wf(),
            final(self)@ == spec_op_fx15(old(self)@, nib2(old(self)@.opcode) as int),
    {
        proof {
            lemma_opcode_fields(self.opcode);
        }
        let x: usize = ((self.opcode & 0x0f00) >> 8) as usize;
        self.delay_timer = self.registers[x];
        proof {
            assert(self@ =~= spec_op_fx15(old(self)@, nib2(old(self)@.opcode) as int));
        }
    }

    /// Fx18: load `Vx` into the sound timer.
    pub fn op_fx18(&mut self)
        requires
            old(self)@.wf(),
        ensures
            final(self)@.wf(),
            final(self)@ == spec_op_fx18(old(self)@, nib2(old(self)@.opcode) as int),
    {
        proof {
            lemma_opcode_fields(self.opcode);
        }
        let x: usize = ((self.opcode & 0x0f00) >> 8) as usize;
        self.sound_timer = self.registers[x];
        proof {
            assert(self@ =~= spec_op_fx18(old(self)@, nib2(old(self)@.opcode) as int));
        }
    }

    /// Fx1E: add `Vx` into the index register, or report the sum leaving the
    /// 16-bit register and leave the machine unchanged.
    pub fn op_fx1e(&mut self) -> (r: Result<(), Chip8Error>)
        requires
            old(self)@.wf(),
        ensures
            final(self)@.wf(),
            (match r {
                Ok(_) => spec_op_fx1e(old(self)@, nib2(old(self)@.opcode) as int) == Ok::<Chip8View, Chip8Error>(
                    final(self)@,
                ),
                Err(e) => spec_op_fx1e(old(self)@, nib2(old(self)@.opcode) as int) == Err::<Chip8View, Chip8Error>(e)
                    && final(self)@ == old(self)@,
            }),
    {
        proof {
            lemma_opcode_fields(self.opcode);
        }
        let x: usize = ((self.opcode & 0x0f00) >> 8) as usize;
        let v: u8 = self.registers[x];
        if 0xffffu16 - (v as u16) < self.index {
            return Err(Chip8Error::OutOfRange { opcode: self.opcode, addr: self.index });
        }
        self.index = self.index + v as u16;
        proof {
            assert(self@ =~= spec_op_fx1e(old(self)@, nib2(old(self)@.opcode) as int)->Ok_0);
        }
        Ok(())
    }

    /// Fx29: point the index register at the glyph of digit `Vx`, five bytes
    /// per digit from the font base.
    pub fn op_fx29(&mut self)
        requires
            old(self)@.wf(),
        ensures
            final(self)@.wf(),
            final(self)@ == spec_op_fx29(old(self)@, nib2(old(self)@.opcode) as int),
    {
        proof {
            lemma_opcode_fields(self.opcode);
        }
        let x: usize = ((self.opcode & 0x0f00) >> 8) as usize;
        let v: u8 = self.registers[x];
        self.index = FONT_BASE + 5u16 * (v as u16);
        proof {
            assert(self@ =~= spec_op_fx29(old(self)@, nib2(old(self)@.opcode) as int));
        }
    }

    /// Fx33: store the decimal decomposition of `Vx` at `index..index + 3`,
    /// or report the window leaving memory and leave the machine unchanged.
    pub fn op_fx33(&mut self) -> (r: Result<(), Chip8Error>)
        requires
            old(self)@.wf(),
        ensures
            final(self)@.wf(),
            (match r {
                Ok(_) => spec_op_fx33(old(self)@, nib2(old(self)@.opcode) as int) == Ok::<Chip8View, Chip8Error>(
                    final(self)@,
                ),
                Err(e) => spec_op_fx33(old(self)@, nib2(old(self)@.opcode) as int) == Err::<Chip8View, Chip8Error>(e)
                    && final(self)@ == old(self)@,
            }),
    {
        proof {
            lemma_opcode_fields(self.opcode);
        }
        let x: usize = ((self.opcode & 0x0f00) >> 8) as usize;
        if self.index > 4093 {
            return Err(Chip8Error::OutOfRange { opcode: self.opcode, addr: self.index });
        }
        let idx: usize = self.index as usize;
        let v: u8 = self.registers[x];
        self.memory.set(idx, v / 100);
        self.memory.set(idx + 1, (v / 10) % 10);
        self.memory.set(idx + 2, v % 10);
        proof {
            assert(self@ =~= spec_op_fx33(old(self)@, nib2(old(self)@.opcode) as int)->Ok_0);
        }
        Ok(())
    }

    /// Fx55: store `V0..=Vx` into memory at the index register, or report the
    /// window leaving memory and leave the machine unchanged.
    pub fn op_fx55(&mut self) -> (r: Result<(), Chip8Error>)
        requires
            old(self)@.wf(),
        ensures
            final(self)@.wf(),
            (match r {
                Ok(_) => spec_op_fx55(old(self)@, nib2(old(self)@.opcode) as int) == Ok::<Chip8View, Chip8Error>(
                    final(self)@,
                ),
                Err(e) => spec_op_fx55(old(self)@, nib2(old(self)@.opcode) as int) == Err::<Chip8View, Chip8Error>(e)
                    && final(self)@ == old(self)@,
            }),
    {
        proof {
            lemma_opcode_fields(self.opcode);
        }
        let x: usize = ((self.opcode & 0x0f00) >> 8) as usize;
        if self.index as usize + x > 4095 {
            return Err(Chip8Error::OutOfRange { opcode: self.opcode, addr: self.index });
        }
        let idx: usize = self.index as usize;
        let ghost s0 = self@;
        let mut i: usize = 0;
        while i < x + 1
            invariant
                s0.wf(),
                i <= x + 1,
                x < 16,
                idx == s0.index,
                idx + x <= 4095,
                self@ == (Chip8View { memory: self@.memory, ..s0 }),
                self@.memory.len() == 4096,
                forall|j: int| 0 <= j < 4096 && !(idx <= j < idx + i) ==> self@.memory[j] == s0.memory[j],
                forall|j: int| idx <= j < idx + i ==> self@.memory[j] == s0.registers[j - idx],
            decreases x + 1 - i,
        {
            let v: u8 = self.registers[i];
            self.memory.set(idx + i, v);
            i = i + 1;
        }
        proof {
            assert(self@.memory =~= overwrite(s0.memory, s0.index, s0.registers.subrange(0, x + 1)));
            assert(self@ =~= spec_op_fx55(old(self)@, nib2(old(self)@.opcode) as int)->Ok_0);
        }
        Ok(())
    }

    /// Fx65: load `V0..=Vx` from memory at the index register, or report the
    /// window leaving memory and leave the machine unchanged.
    pub fn op_fx65(&mut self) -> (r: Result<(), Chip8Error>)
        requires
            old(self)@.wf(),
        ensures
            final(self)@.wf(),
            (match r {
                Ok(_) => spec_op_fx65(old(self)@, nib2(old(self)@.opcode) as int) == Ok::<Chip8View, Chip8Error>(
                    final(self)@,
                ),
                Err(e) => spec_op_fx65(old(self)@, nib2(old(self)@.opcode) as int) == Err::<Chip8View, Chip8Error>(e)
                    && final(self)@ == old(self)@,
            }),
    {
        proof {
            lemma_opcode_fields(self.opcode);
        }
        let x: usize = ((self.opcode & 0x0f00) >> 8) as usize;
        if self.index as usize + x > 4095 {
            return Err(Chip8Error::OutOfRange { opcode: self.opcode, addr: self.index });
        }
        let idx: usize = self.index as usize;
        let ghost s0 = self@;
        let mut i: usize = 0;
        while i < x + 1
            invariant
                s0.wf(),
                i <= x + 1,
                x < 16,
                idx == s0.index,
                idx + x <= 4095,
                self@ == (Chip8View { registers: self@.registers, ..s0 }),
                self@.registers.len() == 16,
                forall|j: int| 0 <= j < 16 && !(0 <= j < i) ==> self@.registers[j] == s0.registers[j],
                forall|j: int| 0 <= j < i ==> self@.registers[j] == s0.memory[idx + j],
            decreases x + 1 - i,
        {
            let v: u8 = self.memory[idx + i];
            self.registers.set(i, v);
            i = i + 1;
        }
        proof {
            assert(self@.registers =~= Seq::new(
                16,
                |i: int| if 0 <= i <= x { s0.memory[s0.index + i] } else { s0.registers[i] },
            ));
            assert(self@ =~= spec_op_fx65(old(self)@, nib2(old(self)@.opcode) as int)->Ok_0);
        }
        Ok(())
    }
}

} // verus!
