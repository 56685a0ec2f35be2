//! Tests of the interpreter: the per-opcode handlers, the cycle driver, the
//! error conditions, and concrete instances of the interpreter's laws.

use chip8::decode::decode;
use chip8::decode::Instr;
use chip8::Chip8;
use chip8::Chip8Error;

#[test]
fn test_00e0() {
    let mut chip8 = Chip8::new();
    chip8.video = vec![1u8; 2048];
    chip8.op_00e0();
    for row in 0..64 {
        for col in 0..32 {
            assert_eq!(chip8.video[row * 32 + col], 0);
        }
    }
}

#[test]
fn test_00ee() {
    let mut chip8 = Chip8::new();
    chip8.sp = 0x1;
    chip8.stack[chip8.sp - 1] = 0xf;
    chip8.op_00ee().unwrap();
    assert_eq!(chip8.pc, 0xf);
    assert_eq!(chip8.sp, 0x0);
}

#[test]
fn test_1nnn() {
    let mut chip8 = Chip8::new();
    chip8.opcode = 0x1300;
    chip8.op_1nnn();
    assert_eq!(chip8.pc, 0x300)
}

#[test]
fn test_2nnn() {
    let mut chip8 = Chip8::new();
    chip8.opcode = 0x2300;
    chip8.pc = 0x200;
    chip8.op_2nnn().unwrap();

    assert_eq!(chip8.pc, 0x300);
    assert_eq!(chip8.stack[chip8.sp - 1], 0x200);
}

#[test]
fn test_3xkk() {
    let mut chip8 = Chip8::new();
    chip8.pc = 0x200;
    chip8.opcode = 0x30ff;
    chip8.registers[0] = 0xff;
    chip8.op_3xkk();
    assert_eq!(chip8.pc, 0x202);

    chip8.pc = 0x200;
    chip8.opcode = 0x30ff;
    chip8.registers[0] = 0x00;
    chip8.op_3xkk();
    assert_eq!(chip8.pc, 0x200);
}

#[test]
fn test_4xkk() {
    let mut chip8 = Chip8::new();
    chip8.pc = 0x200;
    chip8.opcode = 0x30ff;
    chip8.registers[0] = 0x0;
    chip8.op_4xkk();
    assert_eq!(chip8.pc, 0x202);

    chip8.pc = 0x200;
    chip8.opcode = 0x30ff;
    chip8.registers[0] = 0xff;
    chip8.op_4xkk();
    assert_eq!(chip8.pc, 0x200);
}

#[test]
fn test_5xy0() {
    let mut chip8 = Chip8::new();
    chip8.pc = 0x200;
    chip8.opcode = 0x5010;
    chip8.op_5xy0();
    assert_eq!(chip8.pc, 0x202);

    chip8.pc = 0x200;
    chip8.registers[1] = 0xff;
    chip8.op_5xy0();
    assert_eq!(chip8.pc, 0x200);
}

#[test]
fn test_6xkk() {
    let mut chip8 = Chip8::new();
    chip8.registers[0] = 0xff;
    chip8.opcode = 0x6000;
    chip8.op_6xkk();

    assert_eq!(chip8.registers[0], 0);
}

#[test]
fn test_7xkk() {
    let mut chip8 = Chip8::new();
    chip8.registers[0] = 0xf;
    chip8.opcode = 0x70f0;

    chip8.op_7xkk();
    assert_eq!(chip8.registers[0], 0xff);
}

#[test]
fn test_8xy0() {
    let mut chip8 = Chip8::new();
    chip8.registers[1] = 0xff;
    chip8.opcode = 0x8010;
    chip8.op_8xy0();

    assert_eq!(chip8.registers[0], 0xff);
}

#[test]
fn test_8xy1() {

}

#[test]
fn test_or_and_xor() {
    let mut chip8 = Chip8::new();
    chip8.registers[0] = 0x0f;
    chip8.registers[1] = 0xf0;
    chip8.opcode = 0x8011;
    chip8.op_8xy1();
    assert_eq!(chip8.registers[0], 0xff);

    chip8.registers[0] = 0x0f;
    chip8.registers[1] = 0x03;
    chip8.opcode = 0x8012;
    chip8.op_8xy2();
    assert_eq!(chip8.registers[0], 0x03);

    chip8.registers[0] = 0x0f;
    chip8.registers[1] = 0xff;
    chip8.opcode = 0x8013;
    chip8.op_8xy3();
    assert_eq!(chip8.registers[0], 0xf0);
}

#[test]
fn test_load_then_add_zero() {
    let mut chip8 = Chip8::new();
    chip8.opcode = 0x6a42;
    chip8.op_6xkk();
    chip8.opcode = 0x7a00;
    chip8.op_7xkk();
    assert_eq!(chip8.registers[0xa], 0x42);
}

#[test]
fn test_8xy4_overflow() {
    let mut chip8 = Chip8::new();
    chip8.registers[0] = 0xff;
    chip8.registers[1] = 0x02;
    chip8.opcode = 0x8014;
    chip8.op_8xy4();
    assert_eq!(chip8.registers[0], 0x01);
    assert_eq!(chip8.registers[0xf], 1);

    chip8.registers[2] = 0x01;
    chip8.registers[3] = 0x02;
    chip8.opcode = 0x8234;
    chip8.op_8xy4();
    assert_eq!(chip8.registers[2], 0x03);
    assert_eq!(chip8.registers[0xf], 0);
}

#[test]
fn test_8xy5_borrow() {
    let mut chip8 = Chip8::new();
    chip8.registers[0] = 0x01;
    chip8.registers[1] = 0x02;
    chip8.opcode = 0x8015;
    chip8.op_8xy5();
    assert_eq!(chip8.registers[0xf], 0);
    assert_eq!(chip8.registers[0], 0xff);

    chip8.registers[2] = 0x05;
    chip8.registers[3] = 0x03;
    chip8.opcode = 0x8235;
    chip8.op_8xy5();
    assert_eq!(chip8.registers[0xf], 1);
    assert_eq!(chip8.registers[2], 0x02);
}

#[test]
fn test_8xy6_shift() {
    let mut chip8 = Chip8::new();
    chip8.registers[0] = 0x81;
    chip8.opcode = 0x8006;
    chip8.op_8xy6();
    assert_eq!(chip8.registers[0xf], 1);
    assert_eq!(chip8.registers[0], 0x40);
}

#[test]
fn test_8xy7_subn() {
    let mut chip8 = Chip8::new();
    chip8.registers[0] = 0x01;
    chip8.registers[1] = 0x03;
    chip8.opcode = 0x8017;
    chip8.op_8xy7();
    assert_eq!(chip8.registers[0], 0x02);
    assert_eq!(chip8.registers[0xf], 1);

    chip8.registers[2] = 0x03;
    chip8.registers[3] = 0x01;
    chip8.opcode = 0x8237;
    chip8.op_8xy7();
    assert_eq!(chip8.registers[2], 0xfe);
    assert_eq!(chip8.registers[0xf], 0);
}

#[test]
fn test_8xye_shift_left() {
    let mut chip8 = Chip8::new();
    chip8.registers[0] = 0x81;
    chip8.opcode = 0x800e;
    chip8.op_8xye();
    assert_eq!(chip8.registers[0xf], 1);
    assert_eq!(chip8.registers[0], 0x02);
}

#[test]
fn test_9xy0() {
    let mut chip8 = Chip8::new();
    chip8.pc = 0x200;
    chip8.registers[0] = 1;
    chip8.registers[1] = 2;
    chip8.opcode = 0x9010;
    chip8.op_9xy0();
    assert_eq!(chip8.pc, 0x202);

    chip8.pc = 0x200;
    chip8.registers[1] = 1;
    chip8.op_9xy0();
    assert_eq!(chip8.pc, 0x200);
}

#[test]
fn test_annn_bnnn() {
    let mut chip8 = Chip8::new();
    chip8.opcode = 0xa123;
    chip8.op_annn();
    assert_eq!(chip8.index, 0x123);

    chip8.registers[0] = 0x10;
    chip8.opcode = 0xb300;
    chip8.op_bnnn();
    assert_eq!(chip8.pc, 0x310);
}

#[test]
fn test_cxkk_masked() {
    let mut chip8 = Chip8::new();
    chip8.opcode = 0xc00f;
    chip8.op_cxkk();
    assert_eq!(chip8.registers[0] & 0xf0, 0);
}

#[test]
fn test_cxkk_with() {
    let mut chip8 = Chip8::new();
    chip8.opcode = 0xc53c;
    chip8.op_cxkk_with(0xff);
    assert_eq!(chip8.registers[5], 0x3c);
    chip8.op_cxkk_with(0x29);
    assert_eq!(chip8.registers[5], 0x28);
}

#[test]
fn test_call_return_roundtrip() {
    let mut chip8 = Chip8::new();
    chip8.pc = 0x200;
    chip8.memory[0x202] = 0x23;
    chip8.memory[0x203] = 0x00;
    chip8.memory[0x302] = 0x00;
    chip8.memory[0x303] = 0xee;
    chip8.cycle().unwrap();
    assert_eq!(chip8.pc, 0x300);
    assert_eq!(chip8.sp, 1);
    chip8.cycle().unwrap();
    assert_eq!(chip8.pc, 0x202);
    assert_eq!(chip8.sp, 0);
}

#[test]
fn test_skip_advance() {
    let mut chip8 = Chip8::new();
    chip8.pc = 0x200;
    chip8.memory[0x202] = 0x30;
    chip8.memory[0x203] = 0x42;
    chip8.registers[0] = 0x42;
    chip8.cycle().unwrap();
    assert_eq!(chip8.pc, 0x204);

    chip8.pc = 0x200;
    chip8.registers[0] = 0x00;
    chip8.cycle().unwrap();
    assert_eq!(chip8.pc, 0x202);
}

#[test]
fn test_draw_then_clear() {
    let mut chip8 = Chip8::new();
    chip8.index = 0x50;
    chip8.registers[0] = 3;
    chip8.registers[1] = 4;
    chip8.opcode = 0xd015;
    chip8.op_dxyn().unwrap();
    assert!(chip8.video.iter().any(|&p| p == 1));
    chip8.op_00e0();
    for p in 0..2048 {
        assert_eq!(chip8.video[p], 0);
    }
}

#[test]
fn test_sprite_collision() {
    let mut chip8 = Chip8::new();
    chip8.index = 0x50;
    chip8.registers[0] = 10;
    chip8.registers[1] = 5;
    chip8.opcode = 0xd015;
    chip8.op_dxyn().unwrap();
    assert_eq!(chip8.registers[0xf], 0);
    chip8.op_dxyn().unwrap();
    assert_eq!(chip8.registers[0xf], 1);
    for p in 0..2048 {
        assert_eq!(chip8.video[p], 0);
    }
}

#[test]
fn test_draw_pixels() {
    let mut chip8 = Chip8::new();
    chip8.memory[0x400] = 0x80;
    chip8.index = 0x400;
    chip8.registers[2] = 7;
    chip8.registers[3] = 9;
    chip8.opcode = 0xd231;
    chip8.op_dxyn().unwrap();
    assert_eq!(chip8.video[7 * 32 + 9], 1);
    assert_eq!(chip8.registers[0xf], 0);
}

#[test]
fn test_draw_out_of_range() {
    let mut chip8 = Chip8::new();
    chip8.index = 0xfff;
    chip8.opcode = 0xd012;
    let e = chip8.op_dxyn().unwrap_err();
    assert!(matches!(e, Chip8Error::OutOfRange { .. }));
}

#[test]
fn test_keypad_skip() {
    let mut chip8 = Chip8::new();
    chip8.pc = 0x200;
    chip8.registers[0] = 4;
    chip8.keypad[4] = 1;
    chip8.opcode = 0xe09e;
    chip8.op_ex9e().unwrap();
    assert_eq!(chip8.pc, 0x202);

    chip8.pc = 0x200;
    chip8.keypad[4] = 0;
    chip8.op_ex9e().unwrap();
    assert_eq!(chip8.pc, 0x200);
}

#[test]
fn test_exa1_skips_when_pressed() {
    let mut chip8 = Chip8::new();
    chip8.pc = 0x200;
    chip8.registers[0] = 4;
    chip8.keypad[4] = 1;
    chip8.opcode = 0xe0a1;
    chip8.op_exa1().unwrap();
    assert_eq!(chip8.pc, 0x202);

    chip8.pc = 0x200;
    chip8.keypad[4] = 0;
    chip8.op_exa1().unwrap();
    assert_eq!(chip8.pc, 0x200);
}

#[test]
fn test_key_out_of_range() {
    let mut chip8 = Chip8::new();
    chip8.registers[0] = 20;
    chip8.opcode = 0xe09e;
    let e = chip8.op_ex9e().unwrap_err();
    assert_eq!(e, Chip8Error::OutOfRange { opcode: 0xe09e, addr: 20 });
}

#[test]
fn test_fx07_fx15_fx18() {
    let mut chip8 = Chip8::new();
    chip8.delay_timer = 0x42;
    chip8.opcode = 0xf307;
    chip8.op_fx07();
    assert_eq!(chip8.registers[3], 0x42);

    chip8.registers[4] = 0x17;
    chip8.opcode = 0xf415;
    chip8.op_fx15();
    assert_eq!(chip8.delay_timer, 0x17);

    chip8.opcode = 0xf418;
    chip8.op_fx18();
    assert_eq!(chip8.sound_timer, 0x17);
}

#[test]
fn test_fx0a_waits() {
    let mut chip8 = Chip8::new();
    chip8.pc = 0x202;
    chip8.opcode = 0xf50a;
    chip8.op_fx0a();
    assert_eq!(chip8.pc, 0x200);

    chip8.pc = 0x202;
    chip8.keypad[7] = 1;
    chip8.op_fx0a();
    assert_eq!(chip8.pc, 0x202);
    assert_eq!(chip8.registers[5], 7);
}

#[test]
fn test_fx1e() {
    let mut chip8 = Chip8::new();
    chip8.index = 10;
    chip8.registers[0] = 5;
    chip8.opcode = 0xf01e;
    chip8.op_fx1e().unwrap();
    assert_eq!(chip8.index, 15);

    chip8.index = 0xffff;
    chip8.registers[0] = 1;
    let e = chip8.op_fx1e().unwrap_err();
    assert!(matches!(e, Chip8Error::OutOfRange { .. }));
    assert_eq!(chip8.index, 0xffff);
}

#[test]
fn test_fx29() {
    let mut chip8 = Chip8::new();
    chip8.registers[0] = 0xa;
    chip8.opcode = 0xf029;
    chip8.op_fx29();
    assert_eq!(chip8.index, 0x50 + 5 * 0xa);
}

#[test]
fn test_bcd() {
    let mut chip8 = Chip8::new();
    chip8.registers[0] = 123;
    chip8.index = 0x300;
    chip8.opcode = 0xf033;
    chip8.op_fx33().unwrap();
    assert_eq!(chip8.memory[0x300], 1);
    assert_eq!(chip8.memory[0x301], 2);
    assert_eq!(chip8.memory[0x302], 3);
}

#[test]
fn test_bcd_out_of_range() {
    let mut chip8 = Chip8::new();
    chip8.index = 4094;
    chip8.opcode = 0xf033;
    let e = chip8.op_fx33().unwrap_err();
    assert_eq!(e, Chip8Error::OutOfRange { opcode: 0xf033, addr: 4094 });
}

#[test]
fn test_store_load_regs() {
    let mut chip8 = Chip8::new();
    chip8.registers[0] = 1;
    chip8.registers[1] = 2;
    chip8.registers[2] = 3;
    chip8.registers[3] = 4;
    chip8.index = 0x400;
    chip8.opcode = 0xf355;
    chip8.op_fx55().unwrap();
    assert_eq!(&chip8.memory[0x400..0x404], &[1, 2, 3, 4]);
    assert_eq!(chip8.memory[0x404], 0);

    for i in 0..4 {
        chip8.registers[i] = 0;
    }
    chip8.opcode = 0xf365;
    chip8.op_fx65().unwrap();
    assert_eq!(&chip8.registers[0..4], &[1, 2, 3, 4]);
}

#[test]
fn test_fx55_out_of_range() {
    let mut chip8 = Chip8::new();
    chip8.index = 0xffe;
    chip8.opcode = 0xf255;
    let e = chip8.op_fx55().unwrap_err();
    assert!(matches!(e, Chip8Error::OutOfRange { .. }));
    let e = chip8.op_fx65().unwrap_err();
    assert!(matches!(e, Chip8Error::OutOfRange { .. }));
}

#[test]
fn test_stack_underflow() {
    let mut chip8 = Chip8::new();
    chip8.pc = 0x200;
    chip8.opcode = 0x00ee;
    let e = chip8.op_00ee().unwrap_err();
    assert_eq!(e, Chip8Error::StackUnderflow { opcode: 0x00ee, addr: 0x200 });
}

#[test]
fn test_stack_overflow() {
    let mut chip8 = Chip8::new();
    chip8.pc = 0x200;
    chip8.sp = 16;
    chip8.opcode = 0x2300;
    let e = chip8.op_2nnn().unwrap_err();
    assert_eq!(e, Chip8Error::StackOverflow { opcode: 0x2300, addr: 0x200 });
    assert_eq!(chip8.sp, 16);
    assert_eq!(chip8.pc, 0x200);
}

#[test]
fn test_decode_failure() {
    let mut chip8 = Chip8::new();
    chip8.pc = 0x200;
    chip8.memory[0x202] = 0xe0;
    chip8.memory[0x203] = 0x00;
    chip8.registers[3] = 0x33;
    chip8.sp = 0;
    let e = chip8.cycle().unwrap_err();
    assert_eq!(e, Chip8Error::DecodeFailure { opcode: 0xe000, addr: 0x202 });
    // Beyond the fetch step itself, nothing was mutated.
    assert_eq!(chip8.pc, 0x202);
    assert_eq!(chip8.opcode, 0xe000);
    assert_eq!(chip8.registers[3], 0x33);
    assert_eq!(chip8.sp, 0);
    assert!(chip8.video.iter().all(|&p| p == 0));
    assert!(decode(0xe000).is_none());
    assert!(decode(0x5011).is_none());
    assert!(decode(0xf0ff).is_none());
}

#[test]
fn test_fetch_out_of_range() {
    let mut chip8 = Chip8::new();
    chip8.pc = 4093;
    let e = chip8.cycle().unwrap_err();
    assert_eq!(e, Chip8Error::OutOfRange { opcode: 0, addr: 4093 });
    assert_eq!(chip8.pc, 4093);
}

#[test]
fn test_timers() {
    let mut chip8 = Chip8::new();
    chip8.pc = 0x200;
    chip8.memory[0x202] = 0x60;
    chip8.memory[0x203] = 0x01;
    chip8.delay_timer = 5;
    chip8.sound_timer = 5;
    chip8.cycle().unwrap();
    assert_eq!(chip8.delay_timer, 4);
    assert_eq!(chip8.sound_timer, 4);

    chip8.pc = 0x200;
    chip8.delay_timer = 0;
    chip8.sound_timer = 1;
    chip8.cycle().unwrap();
    assert_eq!(chip8.delay_timer, 0);
    assert_eq!(chip8.sound_timer, 1);
}

#[test]
fn test_new_machine() {
    let chip8 = Chip8::new();
    assert_eq!(chip8.pc, 0x200 - 2);
    assert_eq!(chip8.sp, 0);
    assert_eq!(chip8.index, 0);
    assert_eq!(chip8.opcode, 0);
    assert_eq!(chip8.memory[0x50], 0xf0);
    assert_eq!(chip8.memory[0x9f], 0x80);
    assert_eq!(chip8.memory[0x4f], 0);
    assert_eq!(chip8.memory[0xa0], 0);
    assert_eq!(chip8.memory[0x200], 0);
    assert!(chip8.registers.iter().all(|&r| r == 0));
    assert!(chip8.keypad.iter().all(|&k| k == 0));
    assert!(chip8.video.iter().all(|&p| p == 0));
}

#[test]
fn test_memset() {
    let mut chip8 = Chip8::new();
    let program = vec![0xde, 0xad, 0xbe];
    chip8.memset(0x200, &program);
    assert_eq!(&chip8.memory[0x200..0x203], &[0xde, 0xad, 0xbe]);
    assert_eq!(chip8.memory[0x203], 0);
    assert_eq!(chip8.memory[0x1ff], 0);
}

#[test]
fn test_decode_table() {
    assert_eq!(decode(0x00e0), Some(Instr::Cls));
    assert_eq!(decode(0x00ee), Some(Instr::Ret));
    assert_eq!(decode(0x1abc), Some(Instr::Jp { nnn: 0xabc }));
    assert_eq!(decode(0x2abc), Some(Instr::Call { nnn: 0xabc }));
    assert_eq!(decode(0x3a42), Some(Instr::SkipEqImm { x: 0xa, kk: 0x42 }));
    assert_eq!(decode(0x8127), Some(Instr::SubnReg { x: 1, y: 2 }));
    assert_eq!(decode(0xd123), Some(Instr::Drw { x: 1, y: 2, n: 3 }));
    assert_eq!(decode(0xf10a), Some(Instr::WaitKey { x: 1 }));
    assert_eq!(decode(0xf165), Some(Instr::LoadRegs { x: 1 }));
}
