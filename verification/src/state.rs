//! The machine state: register file, memory, call stack, timers, keypad
//! latches and framebuffer, together with its ghost view and construction.

use vstd::prelude::*;

verus! {

/// Base address of the built-in hexadecimal glyph font.
pub const FONT_BASE: u16 = 0x50;

/// A fatal condition met while executing one instruction.  Each variant
/// carries the opcode involved and the address relevant to the failure, so a
/// host can report the fault and stop cleanly.
#[derive(Clone, Copy, Debug, PartialEq, Eq, Structural)]
pub enum Chip8Error {
    /// The fetched word matches no instruction pattern; `addr` is the address
    /// the word was fetched from.
    DecodeFailure { opcode: u16, addr: u16 },
    /// A call arrived with all sixteen stack slots in use; `addr` is the
    /// address of the call instruction.
    StackOverflow { opcode: u16, addr: u16 },
    /// A return arrived with no saved address on the stack; `addr` is the
    /// address of the return instruction.
    StackUnderflow { opcode: u16, addr: u16 },
    /// A memory, keypad or index-register access fell outside its addressable
    /// range; `addr` is the base address or key that was out of range.
    OutOfRange { opcode: u16, addr: u16 },
}

/// The mathematical view of a machine: the same fields as [`Chip8`], with
/// vectors abstracted to sequences and address-sized scalars widened to `int`.
#[verifier::ext_equal]
pub ghost struct Chip8View {
    pub registers: Seq<u8>,
    pub memory: Seq<u8>,
    pub index: int,
    pub pc: int,
    pub stack: Seq<u16>,
    pub sp: int,
    pub delay_timer: u8,
    pub sound_timer: u8,
    pub keypad: Seq<u8>,
    pub video: Seq<u8>,
    pub opcode: u16,
}

impl Chip8View {
    /// Well-formedness: the fixed sizes of every component, the 1-bit pixel
    /// values of the framebuffer, and the ranges of the address registers and
    /// stack pointer.
    pub open spec fn wf(self) -> bool {
        &&& self.registers.len() == 16
        &&& self.memory.len() == 4096
        &&& self.stack.len() == 16
        &&& self.keypad.len() == 16
        &&& self.video.len() == 2048
        &&& forall|p: int| 0 <= p < 2048 ==> self.video[p] == 0 || self.video[p] == 1
        &&& 0 <= self.pc <= 0xffff
        &&& 0 <= self.index <= 0xffff
        &&& 0 <= self.sp <= 16
    }
}

/// One emulated CHIP-8 machine.  All fields are public so that a host (or a
/// test) can seed programs, press keys and read the framebuffer between
/// cycles; the methods keep the well-formedness of [`Chip8View::wf`].
///
/// The framebuffer is stored column-major: pixel `(x, y)` with `x < 64` and
/// `y < 32` lives at `video[x * 32 + y]`, holding `0` or `1`.
pub struct Chip8 {
    pub registers: Vec<u8>,
    pub memory: Vec<u8>,
    pub index: u16,
    pub pc: u16,
    pub stack: Vec<u16>,
    pub sp: usize,
    pub delay_timer: u8,
    pub sound_timer: u8,
    pub keypad: Vec<u8>,
    pub video: Vec<u8>,
    pub opcode: u16,
}

impl View for Chip8 {
    type V = Chip8View;

    open spec fn view(&self) -> Chip8View {
        Chip8View {
            registers: self.registers@,
            memory: self.memory@,
            index: self.index as int,
            pc: self.pc as int,
            stack: self.stack@,
            sp: self.sp as int,
            delay_timer: self.delay_timer,
            sound_timer: self.sound_timer,
            keypad: self.keypad@,
            video: self.video@,
            opcode: self.opcode,
        }
    }
}

/// The 80-byte hexadecimal glyph font: five rows of pixels for each of the
/// sixteen digits, seeded at [`FONT_BASE`] when a machine is created.
pub open spec fn spec_fontset() -> Seq<u8> {
    seq![
        0xF0u8, 0x90, 0x90, 0x90, 0xF0, // 0
        0x20, 0x60, 0x20, 0x20, 0x70, // 1
        0xF0, 0x10, 0xF0, 0x80, 0xF0, // 2
        0xF0, 0x10, 0xF0, 0x10, 0xF0, // 3
        0x90, 0x90, 0xF0, 0x10, 0x10, // 4
        0xF0, 0x80, 0xF0, 0x10, 0xF0, // 5
        0xF0, 0x80, 0xF0, 0x90, 0xF0, // 6
        0xF0, 0x10, 0x20, 0x40, 0x40, // 7
        0xF0, 0x90, 0xF0, 0x90, 0xF0, // 8
        0xF0, 0x90, 0xF0, 0x10, 0xF0, // 9
        0xF0, 0x90, 0xF0, 0x90, 0x90, // A
        0xE0, 0x90, 0xE0, 0x90, 0xE0, // B
        0xF0, 0x80, 0x80, 0x80, 0xF0, // C
        0xE0, 0x90, 0x90, 0x90, 0xE0, // D
        0xF0, 0x80, 0xF0, 0x80, 0xF0, // E
        0xF0, 0x80, 0xF0, 0x80, 0x80, // F
    ]
}

/// The result of copying `data` over `mem` starting at `address`: inside the
/// copied window the bytes come from `data`, everywhere else from `mem`.
pub open spec fn overwrite(mem: Seq<u8>, address: int, data: Seq<u8>) -> Seq<u8> {
    Seq::new(mem.len(), |i: int| if address <= i < address + data.len() { data[i - address] } else { mem[i] })
}

/// A vector of `n` zero bytes.
pub(crate) fn zero_bytes(n: usize) -> (v: Vec<u8>)
    ensures
        v@.len() == n,
        forall|i: int| 0 <= i < n ==> v@[i] == 0,
{
    let mut v: Vec<u8> = Vec::new();
    let mut i: usize = 0;
    while i < n
        invariant
            i <= n,
            v@.len() == i,
            forall|j: int| 0 <= j < i ==> v@[j] == 0,
        decreases n - i,
    {
        v.push(0);
        i = i + 1;
    }
    v
}

impl Chip8 {
    /// A fresh machine: registers, memory, stack, keypad, framebuffer and
    /// timers all zero, the glyph font seeded at [`FONT_BASE`], and the
    /// program counter one fetch-step before the 0x200 entry point, so the
    /// first cycle fetches there.
    pub fn new() -> (c: Chip8)
        ensures
            c@.wf(),
            forall|i: int| 0 <= i < 16 ==> c@.registers[i] == 0,
            c@.memory =~= overwrite(Seq::new(4096, |i: int| 0u8), FONT_BASE as int, spec_fontset()),
            c@.memory.subrange(FONT_BASE as int, FONT_BASE + 80) =~= spec_fontset(),
            forall|a: int| 0 <= a < 4096 && !(FONT_BASE <= a < FONT_BASE + 80) ==> c@.memory[a] == 0,
            c@.index == 0,
            c@.pc == 0x200 - 2,
            forall|i: int| 0 <= i < 16 ==> c@.stack[i] == 0,
            c@.sp == 0,
            c@.delay_timer == 0,
            c@.sound_timer == 0,
            forall|i: int| 0 <= i < 16 ==> c@.keypad[i] == 0,
            forall|p: int| 0 <= p < 2048 ==> c@.video[p] == 0,
            c@.opcode == 0,
    {
        let fontset: Vec<u8> = vec![
            0xF0, 0x90, 0x90, 0x90, 0xF0, // 0
            0x20, 0x60, 0x20, 0x20, 0x70, // 1
            0xF0, 0x10, 0xF0, 0x80, 0xF0, // 2
            0xF0, 0x10, 0xF0, 0x10, 0xF0, // 3
            0x90, 0x90, 0xF0, 0x10, 0x10, // 4
            0xF0, 0x80, 0xF0, 0x10, 0xF0, // 5
            0xF0, 0x80, 0xF0, 0x90, 0xF0, // 6
            0xF0, 0x10, 0x20, 0x40, 0x40, // 7
            0xF0, 0x90, 0xF0, 0x90, 0xF0, // 8
            0xF0, 0x90, 0xF0, 0x10, 0xF0, // 9
            0xF0, 0x90, 0xF0, 0x90, 0x90, // A
            0xE0, 0x90, 0xE0, 0x90, 0xE0, // B
            0xF0, 0x80, 0x80, 0x80, 0xF0, // C
            0xE0, 0x90, 0x90, 0x90, 0xE0, // D
            0xF0, 0x80, 0xF0, 0x80, 0xF0, // E
            0xF0, 0x80, 0xF0, 0x80, 0x80, // F
        ];
        proof {
            assert(fontset@ =~= spec_fontset());
        }

        let mut stack: Vec<u16> = Vec::new();
        let mut i: usize = 0;
        while i < 16
            invariant
                i <= 16,
                stack@.len() == i,
                forall|j: int| 0 <= j < i ==> stack@[j] == 0,
            decreases 16 - i,
        {
            stack.push(0);
            i = i + 1;
        }

        let mut chip8 = Chip8 {
            registers: zero_bytes(16),
            memory: zero_bytes(4096),
            index: 0,
            pc: 0x200 - 2,
            stack,
            sp: 0,
            delay_timer: 0,
            sound_timer: 0,
            keypad: zero_bytes(16),
            video: zero_bytes(2048),
            opcode: 0,
        };

        chip8.memset(0x50, &fontset);

        chip8
    }

    /// Copies `buffer` into memory starting at `address`, leaving every other
    /// byte and every other component of the machine unchanged.  The program
    /// loader uses this to place a program image at the 0x200 entry point.
    pub fn memset(&mut self, address: usize, buffer: &Vec<u8>)
        requires
            old(self)@.wf(),
            address + buffer@.len() <= 4096,
        ensures
            final(self)@.wf(),
            final(self)@ == (Chip8View { memory: overwrite(old(self)@.memory, address as int, buffer@), ..old(self)@ }),
    {
        let ghost s0 = self@;
        let mut i: usize = 0;
        while i < buffer.len()
            invariant
                s0.wf(),
                i <= buffer@.len(),
                address + buffer@.len() <= 4096,
                self@ == (Chip8View { memory: self@.memory, ..s0 }),
                self@.memory.len() == 4096,
                forall|j: int| 0 <= j < 4096 && !(address <= j < address + i) ==> self@.memory[j] == s0.memory[j],
                forall|j: int| address <= j < address + i ==> self@.memory[j] == buffer@[j - address],
            decreases buffer@.len() - i,
        {
            self.memory.set(address + i, buffer[i]);
            i = i + 1;
        }
        proof {
            assert(self@.memory =~= overwrite(s0.memory, address as int, buffer@));
            assert(self@ =~= (Chip8View { memory: overwrite(s0.memory, address as int, buffer@), ..s0 }));
        }
    }
}

} // verus!
