//! The cycle driver: one invocation advances the program counter, fetches and
//! decodes the instruction there, dispatches it to its handler, and steps the
//! two countdown timers.  Fatal conditions surface as [`Chip8Error`] values.

use vstd::prelude::*;

use crate::decode::{decode, lemma_decode_operands, lemma_opcode_fields, low8, nib2, spec_decode, Instr};
use crate::draw::spec_op_dxyn;
use crate::ops::{
    spec_op_00e0, spec_op_00ee, spec_op_1nnn, spec_op_2nnn, spec_op_3xkk, spec_op_4xkk, spec_op_5xy0, spec_op_6xkk,
    spec_op_7xkk, spec_op_8xy0, spec_op_8xy1, spec_op_8xy2, spec_op_8xy3, spec_op_8xy4, spec_op_8xy5, spec_op_8xy6,
    spec_op_8xy7, spec_op_8xye, spec_op_9xy0, spec_op_annn, spec_op_bnnn, spec_op_cxkk, spec_op_ex9e, spec_op_fx07,
    spec_op_fx0a, spec_op_fx15, spec_op_fx18, spec_op_fx1e, spec_op_fx29, spec_op_fx33, spec_op_fx55, spec_op_fx65,
};
use crate::state::{Chip8, Chip8Error, Chip8View};

verus! {

/// The instruction word fetched for the coming cycle: the two bytes at
/// `pc + 2` and `pc + 3`, concatenated big-endian.
pub open spec fn spec_fetch(s: Chip8View) -> u16 {
    ((s.memory[s.pc + 2] as u16) << 8u16) | (s.memory[s.pc + 3] as u16)
}

/// The machine after the fetch step of a cycle: `pc` advanced one fetch-step
/// and the fetched word latched in `opcode`.
pub open spec fn spec_fetched(s: Chip8View) -> Chip8View {
    Chip8View { pc: s.pc + 2, opcode: spec_fetch(s), ..s }
}

/// The timer step at the end of a successful cycle: the delay timer counts
/// down to a floor of zero; the sound timer counts down only while above one,
/// so it never silently stops mid-tone at exactly one.
pub open spec fn spec_tick_timers(s: Chip8View) -> Chip8View {
    Chip8View {
        delay_timer: if s.delay_timer > 0 {
            (s.delay_timer - 1) as u8
        } else {
            0u8
        },
        sound_timer: if s.sound_timer > 1 {
            (s.sound_timer - 1) as u8
        } else {
            s.sound_timer
        },
        ..s
    }
}

/// The effect of one decoded instruction on the machine: the transition of
/// its handler, or the fault it reports.  `rb` is the byte the random source
/// hands a Cxkk instruction; every other instruction ignores it.
pub open spec fn spec_exec(s: Chip8View, instr: Instr, rb: u8) -> Result<Chip8View, Chip8Error> {
    match instr {
        Instr::Cls => Ok(spec_op_00e0(s)),
        Instr::Ret => spec_op_00ee(s),
        Instr::Jp { nnn } => Ok(spec_op_1nnn(s, nnn as int)),
        Instr::Call { nnn } => spec_op_2nnn(s, nnn as int),
        Instr::SkipEqImm { x, kk } => Ok(spec_op_3xkk(s, x as int, kk)),
        Instr::SkipNeImm { x, kk } => Ok(spec_op_4xkk(s, x as int, kk)),
        Instr::SkipEqReg { x, y } => Ok(spec_op_5xy0(s, x as int, y as int)),
        Instr::LdImm { x, kk } => Ok(spec_op_6xkk(s, x as int, kk)),
        Instr::AddImm { x, kk } => Ok(spec_op_7xkk(s, x as int, kk)),
        Instr::LdReg { x, y } => Ok(spec_op_8xy0(s, x as int, y as int)),
        Instr::OrReg { x, y } => Ok(spec_op_8xy1(s, x as int, y as int)),
        Instr::AndReg { x, y } => Ok(spec_op_8xy2(s, x as int, y as int)),
        Instr::XorReg { x, y } => Ok(spec_op_8xy3(s, x as int, y as int)),
        Instr::AddReg { x, y } => Ok(spec_op_8xy4(s, x as int, y as int)),
        Instr::SubReg { x, y } => Ok(spec_op_8xy5(s, x as int, y as int)),
        Instr::Shr { x } => Ok(spec_op_8xy6(s, x as int)),
        Instr::SubnReg { x, y } => Ok(spec_op_8xy7(s, x as int, y as int)),
        Instr::Shl { x } => Ok(spec_op_8xye(s, x as int)),
        Instr::SkipNeReg { x, y } => Ok(spec_op_9xy0(s, x as int, y as int)),
        Instr::LdIndex { nnn } => Ok(spec_op_annn(s, nnn as int)),
        Instr::JpV0 { nnn } => Ok(spec_op_bnnn(s, nnn as int)),
        Instr::Rnd { x, kk } => Ok(spec_op_cxkk(s, x as int, kk, rb)),
        Instr::Drw { x, y, n } => spec_op_dxyn(s, x as int, y as int, n as int),
        Instr::Skp { x } => spec_op_ex9e(s, x as int),
        Instr::Sknp { x } => spec_op_ex9e(s, x as int),
        Instr::LdDelay { x } => Ok(spec_op_fx07(s, x as int)),
        Instr::WaitKey { x } => Ok(spec_op_fx0a(s, x as int)),
        Instr::SetDelay { x } => Ok(spec_op_fx15(s, x as int)),
        Instr::SetSound { x } => Ok(spec_op_fx18(s, x as int)),
        Instr::AddIndex { x } => spec_op_fx1e(s, x as int),
        Instr::LdFont { x } => Ok(spec_op_fx29(s, x as int)),
        Instr::Bcd { x } => spec_op_fx33(s, x as int),
        Instr::StoreRegs { x } => spec_op_fx55(s, x as int),
        Instr::LoadRegs { x } => spec_op_fx65(s, x as int),
    }
}

/// One whole cycle as a transition: fail when the fetch would leave memory;
/// otherwise fetch, decode (an unknown pattern is a decode failure), execute,
/// and on success step the timers.
pub open spec fn spec_cycle(s: Chip8View, rb: u8) -> Result<Chip8View, Chip8Error> {
    if s.pc > 4092 {
        Err(Chip8Error::OutOfRange { opcode: 0, addr: s.pc as u16 })
    } else {
        let s1 = spec_fetched(s);
        match spec_decode(s1.opcode) {
            None => Err(Chip8Error::DecodeFailure { opcode: s1.opcode, addr: s1.pc as u16 }),
            Some(instr) => match spec_exec(s1, instr, rb) {
                Ok(s2) => Ok(spec_tick_timers(s2)),
                Err(e) => Err(e),
            },
        }
    }
}

/// The machine a failed cycle leaves behind: untouched when the fetch itself
/// was out of range, and otherwise exactly the fetched state — a failing
/// instruction mutates nothing else.
pub open spec fn spec_cycle_fail_state(s: Chip8View) -> Chip8View {
    if s.pc > 4092 {
        s
    } else {
        spec_fetched(s)
    }
}

impl Chip8 {
    /// The opcode dispatcher: runs the handler of `instr`, the instruction
    /// decoded from the latched opcode, applying exactly [`spec_exec`] to the
    /// machine; a failing handler reports its fault and mutates nothing.
    pub fn execute(&mut self, instr: Instr) -> (r: Result<(), Chip8Error>)
        requires
            old(self)@.wf(),
            old(self)@.pc + 2 <= 0xffff,
            old(self)@.pc >= 2,
            spec_decode(old(self)@.opcode) == Some(instr),
        ensures
            final(self)@.wf(),
            (match r {
                Ok(_) => exists|rb: u8| spec_exec(old(self)@, instr, rb) == Ok::<Chip8View, Chip8Error>(final(self)@),
                Err(e) => (forall|rb: u8| spec_exec(old(self)@, instr, rb) == Err::<Chip8View, Chip8Error>(e))
                    && final(self)@ == old(self)@,
            }),
    {
        let ghost s0 = self@;
        proof {
            lemma_opcode_fields(s0.opcode);
            lemma_decode_operands(s0.opcode);
        }
        match instr {
            Instr::Cls => {
                self.op_00e0();
                proof {
                    assert(spec_exec(s0, instr, 0u8) == Ok::<Chip8View, Chip8Error>(self@));
                }
                Ok(())
            }
            Instr::Ret => {
                let r0 = self.op_00ee();
                proof {
                    match r0 {
                        Ok(_) => assert(spec_exec(s0, instr, 0u8) == Ok::<Chip8View, Chip8Error>(self@)),
                        Err(e) => assert(forall|rb: u8|
                            spec_exec(s0, instr, rb) == Err::<Chip8View, Chip8Error>(e)),
                    }
                }
                r0
            }
            Instr::Jp { .. } => {
                self.op_1nnn();
                proof {
                    assert(spec_exec(s0, instr, 0u8) == Ok::<Chip8View, Chip8Error>(self@));
                }
                Ok(())
            }
            Instr::Call { .. } => {
                let r0 = self.op_2nnn();
                proof {
                    match r0 {
                        Ok(_) => assert(spec_exec(s0, instr, 0u8) == Ok::<Chip8View, Chip8Error>(self@)),
                        Err(e) => assert(forall|rb: u8|
                            spec_exec(s0, instr, rb) == Err::<Chip8View, Chip8Error>(e)),
                    }
                }
                r0
            }
            Instr::SkipEqImm { .. } => {
                self.op_3xkk();
                proof {
                    assert(spec_exec(s0, instr, 0u8) == Ok::<Chip8View, Chip8Error>(self@));
                }
                Ok(())
            }
            Instr::SkipNeImm { .. } => {
                self.op_4xkk();
                proof {
                    assert(spec_exec(s0, instr, 0u8) == Ok::<Chip8View, Chip8Error>(self@));
                }
                Ok(())
            }
            Instr::SkipEqReg { .. } => {
                self.op_5xy0();
                proof {
                    assert(spec_exec(s0, instr, 0u8) == Ok::<Chip8View, Chip8Error>(self@));
                }
                Ok(())
            }
            Instr::LdImm { .. } => {
                self.op_6xkk();
                proof {
                    assert(spec_exec(s0, instr, 0u8) == Ok::<Chip8View, Chip8Error>(self@));
                }
                Ok(())
            }
            Instr::AddImm { .. } => {
                self.op_7xkk();
                proof {
                    assert(spec_exec(s0, instr, 0u8) == Ok::<Chip8View, Chip8Error>(self@));
                }
                Ok(())
            }
            Instr::LdReg { .. } => {
                self.op_8xy0();
                proof {
                    assert(spec_exec(s0, instr, 0u8) == Ok::<Chip8View, Chip8Error>(self@));
                }
                Ok(())
            }
            Instr::OrReg { .. } => {
                self.op_8xy1();
                proof {
                    assert(spec_exec(s0, instr, 0u8) == Ok::<Chip8View, Chip8Error>(self@));
                }
                Ok(())
            }
            Instr::AndReg { .. } => {
                self.op_8xy2();
                proof {
                    assert(spec_exec(s0, instr, 0u8) == Ok::<Chip8View, Chip8Error>(self@));
                }
                Ok(())
            }
            Instr::XorReg { .. } => {
                self.op_8xy3();
                proof {
                    assert(spec_exec(s0, instr, 0u8) == Ok::<Chip8View, Chip8Error>(self@));
                }
                Ok(())
            }
            Instr::AddReg { .. } => {
                self.op_8xy4();
                proof {
                    assert(spec_exec(s0, instr, 0u8) == Ok::<Chip8View, Chip8Error>(self@));
                }
                Ok(())
            }
            Instr::SubReg { .. } => {
                self.op_8xy5();
                proof {
                    assert(spec_exec(s0, instr, 0u8) == Ok::<Chip8View, Chip8Error>(self@));
                }
                Ok(())
            }
            Instr::Shr { .. } => {
                self.op_8xy6();
                proof {
                    assert(spec_exec(s0, instr, 0u8) == Ok::<Chip8View, Chip8Error>(self@));
                }
                Ok(())
            }
            Instr::SubnReg { .. } => {
                self.op_8xy7();
                proof {
                    assert(spec_exec(s0, instr, 0u8) == Ok::<Chip8View, Chip8Error>(self@));
                }
                Ok(())
            }
            Instr::Shl { .. } => {
                self.op_8xye();
                proof {
                    assert(spec_exec(s0, instr, 0u8) == Ok::<Chip8View, Chip8Error>(self@));
                }
                Ok(())
            }
            Instr::SkipNeReg { .. } => {
                self.op_9xy0();
                proof {
                    assert(spec_exec(s0, instr, 0u8) == Ok::<Chip8View, Chip8Error>(self@));
                }
                Ok(())
            }
            Instr::LdIndex { .. } => {
                self.op_annn();
                proof {
                    assert(spec_exec(s0, instr, 0u8) == Ok::<Chip8View, Chip8Error>(self@));
                }
                Ok(())
            }
            Instr::JpV0 { .. } => {
                self.op_bnnn();
                proof {
                    assert(spec_exec(s0, instr, 0u8) == Ok::<Chip8View, Chip8Error>(self@));
                }
                Ok(())
            }
            Instr::Rnd { .. } => {
                self.op_cxkk();
                proof {
                    let rbw = choose|rb: u8|
                        self@ == spec_op_cxkk(s0, nib2(s0.opcode) as int, low8(s0.opcode), rb);
                    assert(spec_exec(s0, instr, rbw) == Ok::<Chip8View, Chip8Error>(self@));
                }
                Ok(())
            }
            Instr::Drw { .. } => {
                let r0 = self.op_dxyn();
                proof {
                    match r0 {
                        Ok(_) => assert(spec_exec(s0, instr, 0u8) == Ok::<Chip8View, Chip8Error>(self@)),
                        Err(e) => assert(forall|rb: u8|
                            spec_exec(s0, instr, rb) == Err::<Chip8View, Chip8Error>(e)),
                    }
                }
                r0
            }
            Instr::Skp { .. } => {
                let r0 = self.op_ex9e();
                proof {
                    match r0 {
                        Ok(_) => assert(spec_exec(s0, instr, 0u8) == Ok::<Chip8View, Chip8Error>(self@)),
                        Err(e) => assert(forall|rb: u8|
                            spec_exec(s0, instr, rb) == Err::<Chip8View, Chip8Error>(e)),
                    }
                }
                r0
            }
            Instr::Sknp { .. } => {
                let r0 = self.op_exa1();
                proof {
                    match r0 {
                        Ok(_) => assert(spec_exec(s0, instr, 0u8) == Ok::<Chip8View, Chip8Error>(self@)),
                        Err(e) => assert(forall|rb: u8|
                            spec_exec(s0, instr, rb) == Err::<Chip8View, Chip8Error>(e)),
                    }
                }
                r0
            }
            Instr::LdDelay { .. } => {
                self.op_fx07();
                proof {
                    assert(spec_exec(s0, instr, 0u8) == Ok::<Chip8View, Chip8Error>(self@));
                }
                Ok(())
            }
            Instr::WaitKey { .. } => {
                self.op_fx0a();
                proof {
                    assert(spec_exec(s0, instr, 0u8) == Ok::<Chip8View, Chip8Error>(self@));
                }
                Ok(())
            }
            Instr::SetDelay { .. } => {
                self.op_fx15();
                proof {
                    assert(spec_exec(s0, instr, 0u8) == Ok::<Chip8View, Chip8Error>(self@));
                }
                Ok(())
            }
            Instr::SetSound { .. } => {
                self.op_fx18();
                proof {
                    assert(spec_exec(s0, instr, 0u8) == Ok::<Chip8View, Chip8Error>(self@));
                }
                Ok(())
            }
            Instr::AddIndex { .. } => {
                let r0 = self.op_fx1e();
                proof {
                    match r0 {
                        Ok(_) => assert(spec_exec(s0, instr, 0u8) == Ok::<Chip8View, Chip8Error>(self@)),
                        Err(e) => assert(forall|rb: u8|
                            spec_exec(s0, instr, rb) == Err::<Chip8View, Chip8Error>(e)),
                    }
                }
                r0
            }
            Instr::LdFont { .. } => {
                self.op_fx29();
                proof {
                    assert(spec_exec(s0, instr, 0u8) == Ok::<Chip8View, Chip8Error>(self@));
                }
                Ok(())
            }
            Instr::Bcd { .. } => {
                let r0 = self.op_fx33();
                proof {
                    match r0 {
                        Ok(_) => assert(spec_exec(s0, instr, 0u8) == Ok::<Chip8View, Chip8Error>(self@)),
                        Err(e) => assert(forall|rb: u8|
                            spec_exec(s0, instr, rb) == Err::<Chip8View, Chip8Error>(e)),
                    }
                }
                r0
            }
            Instr::StoreRegs { .. } => {
                let r0 = self.op_fx55();
                proof {
                    match r0 {
                        Ok(_) => assert(spec_exec(s0, instr, 0u8) == Ok::<Chip8View, Chip8Error>(self@)),
                        Err(e) => assert(forall|rb: u8|
                            spec_exec(s0, instr, rb) == Err::<Chip8View, Chip8Error>(e)),
                    }
                }
                r0
            }
            Instr::LoadRegs { .. } => {
                let r0 = self.op_fx65();
                proof {
                    match r0 {
                        Ok(_) => assert(spec_exec(s0, instr, 0u8) == Ok::<Chip8View, Chip8Error>(self@)),
                        Err(e) => assert(forall|rb: u8|
                            spec_exec(s0, instr, rb) == Err::<Chip8View, Chip8Error>(e)),
                    }
                }
                r0
            }
        }
    }

    /// One cycle: advance `pc` one fetch-step, fetch and decode the opcode
    /// there, run its handler, then step the timers.  Exactly [`spec_cycle`]
    /// happens on success; on failure the reported fault is exactly the one
    /// [`spec_cycle`] gives — whatever the random source returns — and the
    /// machine is left in [`spec_cycle_fail_state`], so a failing instruction
    /// mutates nothing beyond the fetch step itself.
    pub fn cycle(&mut self) -> (r: Result<(), Chip8Error>)
        requires
            old(self)@.wf(),
        ensures
            final(self)@.wf(),
            (match r {
                Ok(_) => exists|rb: u8| spec_cycle(old(self)@, rb) == Ok::<Chip8View, Chip8Error>(final(self)@),
                Err(e) => (forall|rb: u8| spec_cycle(old(self)@, rb) == Err::<Chip8View, Chip8Error>(e))
                    && final(self)@ == spec_cycle_fail_state(old(self)@),
            }),
    {
        let ghost s0 = self@;
        if self.pc > 4092 {
            return Err(Chip8Error::OutOfRange { opcode: 0, addr: self.pc });
        }
        self.pc = self.pc + 2;
        let hi: u16 = (self.memory[self.pc as usize] as u16) << 8u16;
        let lo: u16 = self.memory[self.pc as usize + 1] as u16;
        self.opcode = hi | lo;
        let ghost s1 = self@;
        proof {
            assert(s1 =~= spec_fetched(s0));
        }
        let instr: Instr = match decode(self.opcode) {
            None => {
                return Err(Chip8Error::DecodeFailure { opcode: self.opcode, addr: self.pc });
            }
            Some(i) => i,
        };
        match self.execute(instr) {
            Err(e) => {
                return Err(e);
            }
            Ok(_) => {}
        }
        let ghost s2 = self@;
        if self.delay_timer > 0 {
            self.delay_timer = self.delay_timer - 1;
        }
        if self.sound_timer > 1 {
            self.sound_timer = self.sound_timer - 1;
        }
        proof {
            assert(self@ =~= spec_tick_timers(s2));
            let rbw = choose|rb: u8| spec_exec(s1, instr, rb) == Ok::<Chip8View, Chip8Error>(s2);
            assert(spec_cycle(s0, rbw) == Ok::<Chip8View, Chip8Error>(self@));
        }
        Ok(())
    }
}

} // verus!
