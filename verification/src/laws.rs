//! Laws of the interpreter that relate several instructions or a whole
//! cycle, stated over the spec transitions and proved once for all inputs.

use vstd::prelude::*;

use crate::cycle::{spec_cycle, spec_cycle_fail_state, spec_fetch, spec_fetched};
use crate::decode::{spec_decode, Instr};
use crate::ops::{spec_op_6xkk, spec_op_7xkk};
use crate::state::{Chip8Error, Chip8View};

verus! {

/// Law: loading an immediate into a register and then adding zero to it
/// leaves exactly that immediate in the register — the load is exact and
/// add-zero is the identity.
pub proof fn lemma_load_then_add_zero(s: Chip8View, x: int, kk: u8)
    requires
        s.registers.len() == 16,
        0 <= x < 16,
    ensures
        spec_op_7xkk(spec_op_6xkk(s, x, kk), x, 0).registers[x] == kk,
{
}

/// Law: a cycle whose fetched instruction is `3xkk` advances `pc` by four in
/// total (two for the fetch step, two for the skip) when `Vx == kk`, and by
/// two when the register does not match.
pub proof fn lemma_skip_semantics(s: Chip8View, rb: u8, x: u8, kk: u8)
    requires
        s.wf(),
        s.pc <= 4092,
        spec_decode(spec_fetch(s)) == Some(Instr::SkipEqImm { x, kk }),
    ensures
        spec_cycle(s, rb) is Ok,
        spec_cycle(s, rb)->Ok_0.pc == s.pc + (if s.registers[x as int] == kk {
            4int
        } else {
            2int
        }),
{
}

/// Law: an opcode matching no table entry makes the cycle report a decode
/// failure carrying that opcode and its address.  Together with the cycle
/// driver's contract — a failed cycle leaves [`spec_cycle_fail_state`], here
/// the fetch-only state — the failed decode mutates no machine state.
pub proof fn lemma_decode_failure(s: Chip8View, rb: u8)
    requires
        s.wf(),
        s.pc <= 4092,
        spec_decode(spec_fetch(s)) is None,
    ensures
        spec_cycle(s, rb) == Err::<Chip8View, Chip8Error>(
            Chip8Error::DecodeFailure { opcode: spec_fetch(s), addr: (s.pc + 2) as u16 },
        ),
        spec_cycle_fail_state(s) == spec_fetched(s),
{
}

} // verus!
