//! The instruction decoder: splits a fetched 16-bit opcode into its nibble
//! fields and maps the nibble pattern to one of the 35 instructions.

use vstd::prelude::*;

verus! {

/// The most significant nibble of an opcode.
pub open spec fn nib1(op: u16) -> u16 {
    (op & 0xf000) >> 12
}

/// The second nibble of an opcode: the `x` register field.
pub open spec fn nib2(op: u16) -> u16 {
    (op & 0x0f00) >> 8
}

/// The third nibble of an opcode: the `y` register field.
pub open spec fn nib3(op: u16) -> u16 {
    (op & 0x00f0) >> 4
}

/// The least significant nibble of an opcode: the `n` count field.
pub open spec fn nib4(op: u16) -> u16 {
    op & 0x000f
}

/// The low byte of an opcode: the `kk` immediate field.
pub open spec fn low8(op: u16) -> u8 {
    (op & 0x00ff) as u8
}

/// The low twelve bits of an opcode: the `nnn` address field.
pub open spec fn low12(op: u16) -> u16 {
    op & 0x0fff
}

/// Ranges of the opcode fields: each nibble is below 16 and the address field
/// below 4096.
pub proof fn lemma_opcode_fields(op: u16)
    by (bit_vector)
    ensures
        nib1(op) < 16,
        nib2(op) < 16,
        nib3(op) < 16,
        nib4(op) < 16,
        low12(op) < 4096,
{
}

/// One decoded instruction: the tag names the nibble pattern and the fields
/// carry the decoded operands (`x`, `y` register indices, `kk` immediate,
/// `nnn` address, `n` sprite height).
#[derive(Clone, Copy, Debug, PartialEq, Eq, Structural)]
pub enum Instr {
    /// 00E0: clear the framebuffer.
    Cls,
    /// 00EE: return from a subroutine.
    Ret,
    /// 1nnn: jump to `nnn`.
    Jp { nnn: u16 },
    /// 2nnn: call the subroutine at `nnn`.
    Call { nnn: u16 },
    /// 3xkk: skip the next instruction if `Vx == kk`.
    SkipEqImm { x: u8, kk: u8 },
    /// 4xkk: skip the next instruction if `Vx != kk`.
    SkipNeImm { x: u8, kk: u8 },
    /// 5xy0: skip the next instruction if `Vx == Vy`.
    SkipEqReg { x: u8, y: u8 },
    /// 6xkk: `Vx = kk`.
    LdImm { x: u8, kk: u8 },
    /// 7xkk: `Vx = Vx + kk`, wrapping, no flag.
    AddImm { x: u8, kk: u8 },
    /// 8xy0: `Vx = Vy`.
    LdReg { x: u8, y: u8 },
    /// 8xy1: `Vx |= Vy`.
    OrReg { x: u8, y: u8 },
    /// 8xy2: `Vx &= Vy`.
    AndReg { x: u8, y: u8 },
    /// 8xy3: `Vx ^= Vy`.
    XorReg { x: u8, y: u8 },
    /// 8xy4: `Vx += Vy` with carry into `VF`.
    AddReg { x: u8, y: u8 },
    /// 8xy5: `Vx -= Vy` with no-borrow flag in `VF`.
    SubReg { x: u8, y: u8 },
    /// 8xy6: shift `Vx` right one, shifted-out bit into `VF`.
    Shr { x: u8 },
    /// 8xy7: `Vx = Vy - Vx` with no-borrow flag in `VF`.
    SubnReg { x: u8, y: u8 },
    /// 8xyE: shift `Vx` left one, shifted-out bit into `VF`.
    Shl { x: u8 },
    /// 9xy0: skip the next instruction if `Vx != Vy`.
    SkipNeReg { x: u8, y: u8 },
    /// Annn: `index = nnn`.
    LdIndex { nnn: u16 },
    /// Bnnn: jump to `V0 + nnn`.
    JpV0 { nnn: u16 },
    /// Cxkk: `Vx = random byte AND kk`.
    Rnd { x: u8, kk: u8 },
    /// Dxyn: draw an 8-by-`n` sprite at `(Vx, Vy)`.
    Drw { x: u8, y: u8, n: u8 },
    /// Ex9E: skip the next instruction on key `Vx`.
    Skp { x: u8 },
    /// ExA1: skip the next instruction on key `Vx`.
    Sknp { x: u8 },
    /// Fx07: `Vx = delay_timer`.
    LdDelay { x: u8 },
    /// Fx0A: wait for a key press, then `Vx = that key`.
    WaitKey { x: u8 },
    /// Fx15: `delay_timer = Vx`.
    SetDelay { x: u8 },
    /// Fx18: `sound_timer = Vx`.
    SetSound { x: u8 },
    /// Fx1E: `index += Vx`.
    AddIndex { x: u8 },
    /// Fx29: `index` = glyph address of digit `Vx`.
    LdFont { x: u8 },
    /// Fx33: store the decimal digits of `Vx` at `index`.
    Bcd { x: u8 },
    /// Fx55: store `V0..=Vx` at `index`.
    StoreRegs { x: u8 },
    /// Fx65: load `V0..=Vx` from `index`.
    LoadRegs { x: u8 },
}

/// Maps an opcode to its instruction, or to `None` when the nibble pattern
/// matches no table entry (a decode failure).
pub open spec fn spec_decode(op: u16) -> Option<Instr> {
    let n1 = nib1(op);
    let n3 = nib3(op);
    let n4 = nib4(op);
    let x = nib2(op) as u8;
    let y = nib3(op) as u8;
    let n = nib4(op) as u8;
    let kk = low8(op);
    let nnn = low12(op);
    if op == 0x00E0 {
        Some(Instr::Cls)
    } else if op == 0x00EE {
        Some(Instr::Ret)
    } else if n1 == 0x1 {
        Some(Instr::Jp { nnn })
    } else if n1 == 0x2 {
        Some(Instr::Call { nnn })
    } else if n1 == 0x3 {
        Some(Instr::SkipEqImm { x, kk })
    } else if n1 == 0x4 {
        Some(Instr::SkipNeImm { x, kk })
    } else if n1 == 0x5 && n4 == 0x0 {
        Some(Instr::SkipEqReg { x, y })
    } else if n1 == 0x6 {
        Some(Instr::LdImm { x, kk })
    } else if n1 == 0x7 {
        Some(Instr::AddImm { x, kk })
    } else if n1 == 0x8 && n4 == 0x0 {
        Some(Instr::LdReg { x, y })
    } else if n1 == 0x8 && n4 == 0x1 {
        Some(Instr::OrReg { x, y })
    } else if n1 == 0x8 && n4 == 0x2 {
        Some(Instr::AndReg { x, y })
    } else if n1 == 0x8 && n4 == 0x3 {
        Some(Instr::XorReg { x, y })
    } else if n1 == 0x8 && n4 == 0x4 {
        Some(Instr::AddReg { x, y })
    } else if n1 == 0x8 && n4 == 0x5 {
        Some(Instr::SubReg { x, y })
    } else if n1 == 0x8 && n4 == 0x6 {
        Some(Instr::Shr { x })
    } else if n1 == 0x8 && n4 == 0x7 {
        Some(Instr::SubnReg { x, y })
    } else if n1 == 0x8 && n4 == 0xE {
        Some(Instr::Shl { x })
    } else if n1 == 0x9 && n4 == 0x0 {
        Some(Instr::SkipNeReg { x, y })
    } else if n1 == 0xA {
        Some(Instr::LdIndex { nnn })
    } else if n1 == 0xB {
        Some(Instr::JpV0 { nnn })
    } else if n1 == 0xC {
        Some(Instr::Rnd { x, kk })
    } else if n1 == 0xD {
        Some(Instr::Drw { x, y, n })
    } else if n1 == 0xE && n3 == 0x9 && n4 == 0xE {
        Some(Instr::Skp { x })
    } else if n1 == 0xE && n3 == 0xA && n4 == 0x1 {
        Some(Instr::Sknp { x })
    } else if n1 == 0xF && n3 == 0x0 && n4 == 0x7 {
        Some(Instr::LdDelay { x })
    } else if n1 == 0xF && n3 == 0x0 && n4 == 0xA {
        Some(Instr::WaitKey { x })
    } else if n1 == 0xF && n3 == 0x1 && n4 == 0x5 {
        Some(Instr::SetDelay { x })
    } else if n1 == 0xF && n3 == 0x1 && n4 == 0x8 {
        Some(Instr::SetSound { x })
    } else if n1 == 0xF && n3 == 0x1 && n4 == 0xE {
        Some(Instr::AddIndex { x })
    } else if n1 == 0xF && n3 == 0x2 && n4 == 0x9 {
        Some(Instr::LdFont { x })
    } else if n1 == 0xF && n3 == 0x3 && n4 == 0x3 {
        Some(Instr::Bcd { x })
    } else if n1 == 0xF && n3 == 0x5 && n4 == 0x5 {
        Some(Instr::StoreRegs { x })
    } else if n1 == 0xF && n3 == 0x6 && n4 == 0x5 {
        Some(Instr::LoadRegs { x })
    } else {
        None
    }
}

/// Whatever instruction an opcode decodes to, its operand fields are exactly
/// the opcode's own nibble fields.
pub proof fn lemma_decode_operands(op: u16)
    ensures
        (match spec_decode(op) {
            Some(instr) => match instr {
                Instr::Cls => true,
                Instr::Ret => true,
                Instr::Jp { nnn } => nnn == low12(op),
                Instr::Call { nnn } => nnn == low12(op),
                Instr::SkipEqImm { x, kk } => x == nib2(op) as u8 && kk == low8(op),
                Instr::SkipNeImm { x, kk } => x == nib2(op) as u8 && kk == low8(op),
                Instr::SkipEqReg { x, y } => x == nib2(op) as u8 && y == nib3(op) as u8,
                Instr::LdImm { x, kk } => x == nib2(op) as u8 && kk == low8(op),
                Instr::AddImm { x, kk } => x == nib2(op) as u8 && kk == low8(op),
                Instr::LdReg { x, y } => x == nib2(op) as u8 && y == nib3(op) as u8,
                Instr::OrReg { x, y } => x == nib2(op) as u8 && y == nib3(op) as u8,
                Instr::AndReg { x, y } => x == nib2(op) as u8 && y == nib3(op) as u8,
                Instr::XorReg { x, y } => x == nib2(op) as u8 && y == nib3(op) as u8,
                Instr::AddReg { x, y } => x == nib2(op) as u8 && y == nib3(op) as u8,
                Instr::SubReg { x, y } => x == nib2(op) as u8 && y == nib3(op) as u8,
                Instr::Shr { x } => x == nib2(op) as u8,
                Instr::SubnReg { x, y } => x == nib2(op) as u8 && y == nib3(op) as u8,
                Instr::Shl { x } => x == nib2(op) as u8,
                Instr::SkipNeReg { x, y } => x == nib2(op) as u8 && y == nib3(op) as u8,
                Instr::LdIndex { nnn } => nnn == low12(op),
                Instr::JpV0 { nnn } => nnn == low12(op),
                Instr::Rnd { x, kk } => x == nib2(op) as u8 && kk == low8(op),
                Instr::Drw { x, y, n } => x == nib2(op) as u8 && y == nib3(op) as u8 && n == nib4(op) as u8,
                Instr::Skp { x } => x == nib2(op) as u8,
                Instr::Sknp { x } => x == nib2(op) as u8,
                Instr::LdDelay { x } => x == nib2(op) as u8,
                Instr::WaitKey { x } => x == nib2(op) as u8,
                Instr::SetDelay { x } => x == nib2(op) as u8,
                Instr::SetSound { x } => x == nib2(op) as u8,
                Instr::AddIndex { x } => x == nib2(op) as u8,
                Instr::LdFont { x } => x == nib2(op) as u8,
                Instr::Bcd { x } => x == nib2(op) as u8,
                Instr::StoreRegs { x } => x == nib2(op) as u8,
                Instr::LoadRegs { x } => x == nib2(op) as u8,
            },
            None => true,
        }),
{
    lemma_opcode_fields(op);
}

/// The executable decoder: selects exactly the instruction that
/// [`spec_decode`] gives for `op`.
pub fn decode(op: u16) -> (r: Option<Instr>)
    ensures
        r == spec_decode(op),
{
    let n1: u16 = (op & 0xf000) >> 12;
    let n3: u16 = (op & 0x00f0) >> 4;
    let n4: u16 = op & 0x000f;
    let x: u8 = ((op & 0x0f00) >> 8) as u8;
    let y: u8 = ((op & 0x00f0) >> 4) as u8;
    let n: u8 = (op & 0x000f) as u8;
    let kk: u8 = (op & 0x00ff) as u8;
    let nnn: u16 = op & 0x0fff;
    if op == 0x00E0 {
        Some(Instr::Cls)
    } else if op == 0x00EE {
        Some(Instr::Ret)
    } else if n1 == 0x1 {
        Some(Instr::Jp { nnn })
    } else if n1 == 0x2 {
        Some(Instr::Call { nnn })
    } else if n1 == 0x3 {
        Some(Instr::SkipEqImm { x, kk })
    } else if n1 == 0x4 {
        Some(Instr::SkipNeImm { x, kk })
    } else if n1 == 0x5 && n4 == 0x0 {
        Some(Instr::SkipEqReg { x, y })
    } else if n1 == 0x6 {
        Some(Instr::LdImm { x, kk })
    } else if n1 == 0x7 {
        Some(Instr::AddImm { x, kk })
    } else if n1 == 0x8 && n4 == 0x0 {
        Some(Instr::LdReg { x, y })
    } else if n1 == 0x8 && n4 == 0x1 {
        Some(Instr::OrReg { x, y })
    } else if n1 == 0x8 && n4 == 0x2 {
        Some(Instr::AndReg { x, y })
    } else if n1 == 0x8 && n4 == 0x3 {
        Some(Instr::XorReg { x, y })
    } else if n1 == 0x8 && n4 == 0x4 {
        Some(Instr::AddReg { x, y })
    } else if n1 == 0x8 && n4 == 0x5 {
        Some(Instr::SubReg { x, y })
    } else if n1 == 0x8 && n4 == 0x6 {
        Some(Instr::Shr { x })
    } else if n1 == 0x8 && n4 == 0x7 {
        Some(Instr::SubnReg { x, y })
    } else if n1 == 0x8 && n4 == 0xE {
        Some(Instr::Shl { x })
    } else if n1 == 0x9 && n4 == 0x0 {
        Some(Instr::SkipNeReg { x, y })
    } else if n1 == 0xA {
        Some(Instr::LdIndex { nnn })
    } else if n1 == 0xB {
        Some(Instr::JpV0 { nnn })
    } else if n1 == 0xC {
        Some(Instr::Rnd { x, kk })
    } else if n1 == 0xD {
        Some(Instr::Drw { x, y, n })
    } else if n1 == 0xE && n3 == 0x9 && n4 == 0xE {
        Some(Instr::Skp { x })
    } else if n1 == 0xE && n3 == 0xA && n4 == 0x1 {
        Some(Instr::Sknp { x })
    } else if n1 == 0xF && n3 == 0x0 && n4 == 0x7 {
        Some(Instr::LdDelay { x })
    } else if n1 == 0xF && n3 == 0x0 && n4 == 0xA {
        Some(Instr::WaitKey { x })
    } else if n1 == 0xF && n3 == 0x1 && n4 == 0x5 {
        Some(Instr::SetDelay { x })
    } else if n1 == 0xF && n3 == 0x1 && n4 == 0x8 {
        Some(Instr::SetSound { x })
    } else if n1 == 0xF && n3 == 0x1 && n4 == 0xE {
        Some(Instr::AddIndex { x })
    } else if n1 == 0xF && n3 == 0x2 && n4 == 0x9 {
        Some(Instr::LdFont { x })
    } else if n1 == 0xF && n3 == 0x3 && n4 == 0x3 {
        Some(Instr::Bcd { x })
    } else if n1 == 0xF && n3 == 0x5 && n4 == 0x5 {
        Some(Instr::StoreRegs { x })
    } else if n1 == 0xF && n3 == 0x6 && n4 == 0x5 {
        Some(Instr::LoadRegs { x })
    } else {
        None
    }
}

} // verus!
