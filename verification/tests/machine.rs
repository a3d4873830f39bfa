use chip8_core::cpu::Cpu;
use chip8_core::error::Chip8Error;

#[test]
fn test_load_rom_max_size() {
    let mut cpu = Cpu::new();
    let mut rom = vec![0xaa_u8; 3584];
    rom[0] = 0x12;
    rom[3583] = 0x34;
    cpu.load_rom(rom).unwrap();
    assert_eq!(cpu.ram[0x200], 0x12);
    assert_eq!(cpu.ram[0x201], 0xaa);
    assert_eq!(cpu.ram[4095], 0x34);
}

#[test]
fn test_load_rom_oversized() {
    let mut cpu = Cpu::new();
    let rom = vec![0xaa_u8; 3585];
    assert_eq!(cpu.load_rom(rom), Err(Chip8Error::OversizedProgram));
    // The machine is untouched: nothing was copied, not even a prefix.
    assert_eq!(cpu.pc, 0x200);
    assert_eq!(cpu.ram[0x200], 0x00);
}

#[test]
fn test_load_rom_empty() {
    let mut cpu = Cpu::new();
    cpu.load_rom(Vec::new()).unwrap();
    assert_eq!(cpu.pc, 0x200);
    assert_eq!(cpu.ram[0x200], 0x00);
}

#[test]
fn test_load_rom_preserves_font() {
    let mut cpu = Cpu::new();
    cpu.load_rom(vec![0x00, 0xe0]).unwrap();
    // First bytes of the glyphs for 0 and 1 sit in the reserved region.
    assert_eq!(cpu.ram[100], 0xf0);
    assert_eq!(cpu.ram[105], 0x20);
}

#[test]
fn test_illegal_opcode() {
    let mut cpu = Cpu::new();
    // Memory is zeroed: the word 0x0000 matches no encoding.
    assert_eq!(
        cpu.step(),
        Err(Chip8Error::IllegalOpcode { word: 0x0000, pc: 0x200 })
    );
    assert_eq!(cpu.pc, 0x200);
}

#[test]
fn test_illegal_opcode_carries_word_and_pc() {
    let mut cpu = Cpu::new();
    cpu.load_rom(vec![0x12, 0x04, 0x00, 0x00, 0x8a, 0xbf]).unwrap();
    cpu.step().unwrap();
    assert_eq!(cpu.pc, 0x204);
    // 8xyF is not a recognized row of the 8-family.
    assert_eq!(
        cpu.step(),
        Err(Chip8Error::IllegalOpcode { word: 0x8abf, pc: 0x204 })
    );
    assert_eq!(cpu.pc, 0x204);
}

#[test]
fn test_stack_underflow() {
    let mut cpu = Cpu::new();
    cpu.load_rom(vec![0x00, 0xee]).unwrap();
    assert_eq!(cpu.step(), Err(Chip8Error::StackUnderflow));
    assert_eq!(cpu.pc, 0x200);
    assert_eq!(cpu.sp, 0);
}

#[test]
fn test_stack_overflow() {
    let mut cpu = Cpu::new();
    // A call that targets itself: every step pushes one more frame.
    cpu.load_rom(vec![0x22, 0x00]).unwrap();
    for depth in 1..=15 {
        cpu.step().unwrap();
        assert_eq!(cpu.sp, depth);
        assert_eq!(cpu.pc, 0x200);
    }
    assert_eq!(cpu.step(), Err(Chip8Error::StackOverflow));
    // The failed step is atomic: no push, no advance.
    assert_eq!(cpu.sp, 15);
    assert_eq!(cpu.pc, 0x200);
}

#[test]
fn test_invalid_key_index() {
    let mut cpu = Cpu::new();
    cpu.load_rom(vec![0xe1, 0x9e]).unwrap();
    cpu.reg[1] = 16;
    assert_eq!(cpu.step(), Err(Chip8Error::InvalidKeyIndex { key: 16 }));
    assert_eq!(cpu.pc, 0x200);

    let mut cpu = Cpu::new();
    cpu.load_rom(vec![0xe1, 0xa1]).unwrap();
    cpu.reg[1] = 0xff;
    assert_eq!(cpu.step(), Err(Chip8Error::InvalidKeyIndex { key: 0xff }));
    assert_eq!(cpu.pc, 0x200);
}

#[test]
fn test_skip_if_key_pressed() {
    let mut cpu = Cpu::new();
    cpu.load_rom(vec![0xe1, 0x9e, 0x00, 0x00, 0x00, 0x00]).unwrap();
    cpu.reg[1] = 5;
    cpu.keypad[5] = true;
    cpu.step().unwrap();
    assert_eq!(cpu.pc, 0x204);

    let mut cpu = Cpu::new();
    cpu.load_rom(vec![0xe1, 0x9e, 0x00, 0x00, 0x00, 0x00]).unwrap();
    cpu.reg[1] = 5;
    cpu.step().unwrap();
    assert_eq!(cpu.pc, 0x202);
}

#[test]
fn test_skip_if_key_not_pressed() {
    let mut cpu = Cpu::new();
    cpu.load_rom(vec![0xe1, 0xa1, 0x00, 0x00, 0x00, 0x00]).unwrap();
    cpu.reg[1] = 5;
    cpu.step().unwrap();
    assert_eq!(cpu.pc, 0x204);

    let mut cpu = Cpu::new();
    cpu.load_rom(vec![0xe1, 0xa1, 0x00, 0x00, 0x00, 0x00]).unwrap();
    cpu.reg[1] = 5;
    cpu.keypad[5] = true;
    cpu.step().unwrap();
    assert_eq!(cpu.pc, 0x202);
}

#[test]
fn test_wait_key_spins_until_pressed() {
    let mut cpu = Cpu::new();
    cpu.load_rom(vec![0xf1, 0x0a]).unwrap();
    // No key held: the same instruction re-executes step after step.
    cpu.step().unwrap();
    assert_eq!(cpu.pc, 0x200);
    cpu.step().unwrap();
    assert_eq!(cpu.pc, 0x200);
    // Two keys held: the lowest-indexed one wins.
    cpu.keypad[7] = true;
    cpu.keypad[3] = true;
    cpu.step().unwrap();
    assert_eq!(cpu.pc, 0x202);
    assert_eq!(cpu.reg[1], 3);
}

#[test]
fn test_wait_key_level_triggered() {
    let mut cpu = Cpu::new();
    cpu.load_rom(vec![0xf1, 0x0a]).unwrap();
    // A key held since before the instruction satisfies it immediately.
    cpu.keypad[0xb] = true;
    cpu.step().unwrap();
    assert_eq!(cpu.pc, 0x202);
    assert_eq!(cpu.reg[1], 0xb);
}

#[test]
fn test_rnd_masked() {
    let mut cpu = Cpu::new();
    cpu.load_rom(vec![0xc1, 0x00, 0xc2, 0x0f]).unwrap();
    cpu.reg[1] = 0xaa;
    cpu.step().unwrap();
    // Whatever byte was drawn, the zero mask clears every bit.
    assert_eq!(cpu.reg[1], 0x00);
    cpu.step().unwrap();
    assert!(cpu.reg[2] <= 0x0f);
}

#[test]
fn test_font_addr() {
    let mut cpu = Cpu::new();
    cpu.load_rom(vec![0xf1, 0x29]).unwrap();
    cpu.reg[1] = 0xa;
    cpu.step().unwrap();
    assert_eq!(cpu.i, 100 + 5 * 0xa);
    // The glyph for hexadecimal A starts with its top row pattern.
    assert_eq!(cpu.ram[cpu.i as usize], 0xf0);
}

#[test]
fn test_bcd_decomposition() {
    let mut cpu = Cpu::new();
    cpu.load_rom(vec![0xf1, 0x33]).unwrap();
    cpu.reg[1] = 156;
    cpu.i = 0x300;
    cpu.step().unwrap();
    assert_eq!(cpu.ram[0x300], 1);
    assert_eq!(cpu.ram[0x301], 5);
    assert_eq!(cpu.ram[0x302], 6);
}

#[test]
fn test_store_read_round_trip() {
    let mut cpu = Cpu::new();
    cpu.load_rom(vec![0xf5, 0x55, 0xf5, 0x65]).unwrap();
    for k in 0..=5 {
        cpu.reg[k] = (10 + k) as u8;
    }
    cpu.i = 0x250;
    cpu.step().unwrap();
    // Clobber the register file; the read must restore V0..V5 inclusive.
    for k in 0..=5 {
        cpu.reg[k] = 0;
    }
    cpu.step().unwrap();
    assert_eq!(cpu.i, 0x250);
    for k in 0..=5 {
        assert_eq!(cpu.reg[k], (10 + k) as u8);
    }
}

#[test]
fn test_store_registers_inclusive_bound() {
    let mut cpu = Cpu::new();
    cpu.load_rom(vec![0xf2, 0x55]).unwrap();
    cpu.reg[0] = 7;
    cpu.reg[1] = 8;
    cpu.reg[2] = 9;
    cpu.reg[3] = 10;
    cpu.i = 0x300;
    cpu.step().unwrap();
    // V0..V2 inclusive are stored; V3 is not.
    assert_eq!(cpu.ram[0x300], 7);
    assert_eq!(cpu.ram[0x301], 8);
    assert_eq!(cpu.ram[0x302], 9);
    assert_eq!(cpu.ram[0x303], 0);
}

#[test]
fn test_draw_zero_sprite_never_sets_vf() {
    let mut cpu = Cpu::new();
    cpu.load_rom(vec![0xd0, 0x15]).unwrap();
    cpu.reg[0] = 10;
    cpu.reg[1] = 5;
    cpu.reg[0xf] = 1;
    cpu.i = 0x400;
    cpu.step().unwrap();
    // All sprite rows are zero: VF is rewritten to 0, nothing lights up.
    assert_eq!(cpu.reg[0xf], 0);
    for k in 0..64 * 32 {
        assert_eq!(cpu.vram[k], 0);
    }
}

#[test]
fn test_draw_twice_self_collision() {
    let mut cpu = Cpu::new();
    cpu.load_rom(vec![0xd0, 0x11, 0xd0, 0x11]).unwrap();
    cpu.ram[0x400] = 0xff;
    cpu.i = 0x400;
    cpu.reg[0] = 3;
    cpu.reg[1] = 4;
    cpu.step().unwrap();
    assert_eq!(cpu.reg[0xf], 0);
    for c in 0..8 {
        assert_eq!(cpu.vram[(3 + c) * 32 + 4], 1);
    }
    cpu.step().unwrap();
    // The same sprite at the same spot: every cell toggles off, VF reports
    // the self-collision.
    assert_eq!(cpu.reg[0xf], 1);
    for k in 0..64 * 32 {
        assert_eq!(cpu.vram[k], 0);
    }
}

#[test]
fn test_draw_wraps_horizontally() {
    let mut cpu = Cpu::new();
    cpu.load_rom(vec![0xd0, 0x11]).unwrap();
    // Two high bits: columns 0 and 1 of the sprite.
    cpu.ram[0x400] = 0xc0;
    cpu.i = 0x400;
    cpu.reg[0] = 63;
    cpu.reg[1] = 0;
    cpu.step().unwrap();
    // Base column 63: the second column wraps to column 0.
    assert_eq!(cpu.vram[63 * 32 + 0], 1);
    assert_eq!(cpu.vram[0 * 32 + 0], 1);
    assert_eq!(cpu.reg[0xf], 0);
}

#[test]
fn test_draw_wraps_vertically() {
    let mut cpu = Cpu::new();
    cpu.load_rom(vec![0xd0, 0x12]).unwrap();
    // One high bit in each of two rows.
    cpu.ram[0x400] = 0x80;
    cpu.ram[0x401] = 0x80;
    cpu.i = 0x400;
    cpu.reg[0] = 0;
    cpu.reg[1] = 31;
    cpu.step().unwrap();
    // Base row 31: the second row wraps to row 0.
    assert_eq!(cpu.vram[0 * 32 + 31], 1);
    assert_eq!(cpu.vram[0 * 32 + 0], 1);
}

#[test]
fn test_clear_screen_scenario() {
    let mut cpu = Cpu::new();
    cpu.load_rom(vec![0x00, 0xe0]).unwrap();
    for k in 0..64 * 32 {
        cpu.vram[k] = 1;
    }
    cpu.step().unwrap();
    assert_eq!(cpu.pc, 0x202);
    for k in 0..64 * 32 {
        assert_eq!(cpu.vram[k], 0);
    }
}

#[test]
fn test_add_immediate_wrap_scenario() {
    let mut cpu = Cpu::new();
    // Load 2 into register A, then add 255: 257 mod 256 = 1, no flag.
    cpu.load_rom(vec![0x6a, 0x02, 0x7a, 0xff]).unwrap();
    cpu.step().unwrap();
    assert_eq!(cpu.reg[0xa], 2);
    cpu.step().unwrap();
    assert_eq!(cpu.reg[0xa], 1);
    assert_eq!(cpu.reg[0xf], 0);
}

#[test]
fn test_step_advances_pc_by_two() {
    let mut cpu = Cpu::new();
    cpu.load_rom(vec![0xa1, 0x11, 0x61, 0x01]).unwrap();
    cpu.step().unwrap();
    assert_eq!(cpu.pc, 0x202);
    cpu.step().unwrap();
    assert_eq!(cpu.pc, 0x204);
}

#[test]
fn test_error_descriptions() {
    assert_eq!(
        Chip8Error::IllegalOpcode { word: 1, pc: 2 }.describe(),
        "illegal opcode"
    );
    assert_eq!(Chip8Error::OversizedProgram.describe(), "program image too large");
    assert_eq!(Chip8Error::StackOverflow.describe(), "call stack overflow");
    assert_eq!(Chip8Error::StackUnderflow.describe(), "call stack underflow");
    assert_eq!(
        Chip8Error::InvalidKeyIndex { key: 16 }.describe(),
        "key index out of range"
    );
}

#[test]
fn test_tick_timers_floor_at_zero() {
    let mut cpu = Cpu::new();
    cpu.dt = 2;
    cpu.st = 1;
    cpu.tick_timers();
    assert_eq!(cpu.dt, 1);
    assert_eq!(cpu.st, 0);
    cpu.tick_timers();
    assert_eq!(cpu.dt, 0);
    assert_eq!(cpu.st, 0);
    cpu.tick_timers();
    assert_eq!(cpu.dt, 0);
    assert_eq!(cpu.st, 0);
}
