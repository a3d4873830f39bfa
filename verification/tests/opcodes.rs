use chip8_core::cpu::Cpu;

#[test]
fn test_op_00e0() {
    let mut cpu = Cpu::new();
    for i in 0..64 {
        for j in 0..32 {
            cpu.vram[i * 32 + j] = 0x1;
        }
    }
    for i in 0..64 {
        for j in 0..32 {
            assert_eq!(cpu.vram[i * 32 + j], 0x1);
        }
    }
    cpu.op_00e0(0x00e0);
    for i in 0..64 {
        for j in 0..32 {
            assert_eq!(cpu.vram[i * 32 + j], 0x0);
        }
    }
}

#[test]
fn test_op_1nnn() {
    let mut cpu = Cpu::new();
    let rom: Vec<u8> = [0x12, 0x00, 0x00, 0xe0].to_vec();
    cpu.load_rom(rom).unwrap();
    assert_eq!(cpu.pc, 0x200);
    cpu.step().unwrap();
    assert_eq!(cpu.pc, 0x200);
}

#[test]
fn test_op_2nnn_and_00ee() {
    let mut cpu = Cpu::new();
    let rom: Vec<u8> = [
        0x22, 0x04, // call subroutine at address 0x204
        0x00, 0xe0, // fill for address 0x202 and 0x203
        0x00, 0xee, // instruction to return
    ]
    .to_vec();
    cpu.load_rom(rom).unwrap();
    cpu.step().unwrap();
    assert_eq!(cpu.pc, 0x204);
    assert_eq!(cpu.sp, 1);
    assert_eq!(cpu.stack[cpu.sp as usize], 0x202);
    cpu.step().unwrap();
    assert_eq!(cpu.pc, 0x202);
}

#[test]
fn test_op_3xkk() {
    let mut cpu = Cpu::new();
    let rom: Vec<u8> = [
        // address 0x200
        // skp if equal instruction
        0x31, 0x11, // instruction to skip,, filler instruction
        0x00, 0x00, // 0x204
        // instruction to execute next
        0x00, 0x00,
    ]
    .to_vec();
    cpu.load_rom(rom).unwrap();
    cpu.reg[1] = 0x11;
    assert_eq!(cpu.pc, 0x200);
    cpu.step().unwrap();
    assert_eq!(cpu.pc, 0x204);
}

#[test]
fn test_op_4xkk() {
    let mut cpu = Cpu::new();
    let rom: Vec<u8> = [
        // addres 0x200
        // ship if not equal instriction
        0x41, 0x11, // address 0x202
        // instruction skipped
        0x00, 0x00,
        // address 0x204
        // instruction ran if equal
    ]
    .to_vec();
    cpu.load_rom(rom).unwrap();
    cpu.reg[1] = 0x12;
    assert_eq!(cpu.pc, 0x200);
    cpu.step().unwrap();
    assert_eq!(cpu.pc, 0x204);
}

#[test]
fn test_op_5xy0() {
    let mut cpu = Cpu::new();
    let rom: Vec<u8> = [
        // address 0x200
        // check values in register 1 and 2
        0x51, 0x20, // address 0x202
        // instruction skipped
        0x00, 0x00, // address 0x204
        // instruction to be executed next
        0x12, 00,
    ]
    .to_vec();
    cpu.load_rom(rom).unwrap();
    cpu.reg[1] = 1;
    cpu.reg[2] = 1;
    assert_eq!(cpu.pc, 0x200);
    cpu.step().unwrap();
    assert_eq!(cpu.pc, 0x204);
}

#[test]
fn test_op_6xkk() {
    let mut cpu = Cpu::new();
    let rom: Vec<u8> = [
        // address 0x200
        // load value into register 1
        0x61, 0xff, // address 0x202
        // filler
        0x12, 0x00,
    ]
    .to_vec();
    cpu.load_rom(rom).unwrap();
    assert_eq!(cpu.pc, 0x200);
    assert_eq!(cpu.reg[1], 0x00);
    cpu.step().unwrap();
    assert_eq!(cpu.pc, 0x202);
    assert_eq!(cpu.reg[1], 0xff);
}

#[test]
fn test_op_7xkk() {
    let mut cpu = Cpu::new();
    let rom: Vec<u8> = [
        // address 0x200
        // load value 1 into register 1
        0x61, 0x01, // address 0x202
        // vx = vx + kk
        0x71, 0x01,
    ]
    .to_vec();
    cpu.load_rom(rom).unwrap();
    assert_eq!(cpu.pc, 0x200);
    assert_eq!(cpu.reg[1], 0x00);
    cpu.step().unwrap();
    assert_eq!(cpu.pc, 0x202);
    assert_eq!(cpu.reg[1], 0x01);
    cpu.step().unwrap();
    assert_eq!(cpu.pc, 0x204);
    assert_eq!(cpu.reg[1], 0x02);
}

#[test]
fn test_op_7xkk_overflow() {
    let mut cpu = Cpu::new();
    let rom: Vec<u8> = [
        // address 0x200
        // load value 1 into register 1
        0x61, 0x02, // address 0x202
        // vx = vx + kk
        0x71, 0xff,
    ]
    .to_vec();
    cpu.load_rom(rom).unwrap();
    assert_eq!(cpu.pc, 0x200);
    assert_eq!(cpu.reg[1], 0x00);
    cpu.step().unwrap();
    assert_eq!(cpu.pc, 0x202);
    assert_eq!(cpu.reg[1], 0x02);
    cpu.step().unwrap();
    assert_eq!(cpu.pc, 0x204);
    assert_eq!(cpu.reg[1], 0x01);
}

#[test]
fn test_op_8xy0() {
    let mut cpu = Cpu::new();
    let rom: Vec<u8> = [
        // address 0x200
        // load value 0xff into register 2
        0x62, 0xff, // address 0x202
        // load value in register 2 to register 1
        0x81, 0x20,
    ]
    .to_vec();
    cpu.load_rom(rom).unwrap();
    assert_eq!(cpu.pc, 0x200);
    assert_eq!(cpu.reg[2], 0x00);
    assert_eq!(cpu.reg[1], 0x00);
    cpu.step().unwrap();
    assert_eq!(cpu.pc, 0x202);
    assert_eq!(cpu.reg[2], 0xff);
    assert_eq!(cpu.reg[1], 0x00);
    cpu.step().unwrap();
    assert_eq!(cpu.pc, 0x204);
    assert_eq!(cpu.reg[2], 0xff);
    assert_eq!(cpu.reg[1], 0xff);
}

#[test]
fn test_op_8xy1() {
    let mut cpu = Cpu::new();
    let rom: Vec<u8> = [
        // address 0x200
        // load 0x01 into register 1
        0x61, 0x01, // address 0x202
        // load 0x02 into register 2
        0x62, 0x02, // address 204
        // reg[x] ^ reg[y] = reg[x]
        0x81, 0x21,
    ]
    .to_vec();
    cpu.load_rom(rom).unwrap();
    assert_eq!(cpu.pc, 0x200);
    assert_eq!(cpu.reg[1], 0x00);
    assert_eq!(cpu.reg[2], 0x00);
    cpu.step().unwrap();
    assert_eq!(cpu.pc, 0x202);
    assert_eq!(cpu.reg[1], 0x01);
    assert_eq!(cpu.reg[2], 0x00);
    cpu.step().unwrap();
    assert_eq!(cpu.pc, 0x204);
    assert_eq!(cpu.reg[1], 0x01);
    assert_eq!(cpu.reg[2], 0x02);
    cpu.step().unwrap();
    assert_eq!(cpu.pc, 0x206);
    assert_eq!(cpu.reg[1], (0x01 | 0x02));
    assert_eq!(cpu.reg[2], 0x02);
}

#[test]
fn test_op_8xy2() {
    let mut cpu = Cpu::new();
    let rom: Vec<u8> = [
        // address 0x200
        // load value 0x01 into register 1
        0x61, 0x01, // address 0x202
        // load value 0x01 into register 2
        0x62, 0x01, // address 0x204
        // vx & vy = vx
        0x81, 0x22,
    ]
    .to_vec();
    cpu.load_rom(rom).unwrap();
    assert_eq!(cpu.pc, 0x200);
    assert_eq!(cpu.reg[1], 0x00);
    assert_eq!(cpu.reg[2], 0x00);
    cpu.step().unwrap();
    assert_eq!(cpu.pc, 0x202);
    assert_eq!(cpu.reg[1], 0x01);
    assert_eq!(cpu.reg[2], 0x00);
    cpu.step().unwrap();
    assert_eq!(cpu.pc, 0x204);
    assert_eq!(cpu.reg[1], 0x01);
    assert_eq!(cpu.reg[2], 0x01);
    cpu.step().unwrap();
    assert_eq!(cpu.pc, 0x206);
    assert_eq!(cpu.reg[1], (0x01 & 0x01));
    assert_eq!(cpu.reg[2], 0x01);
}

#[test]
fn test_op_8xy3() {
    let mut cpu = Cpu::new();
    let rom: Vec<u8> = [
        // address 0x200
        // load value 0x01 into register 1
        0x61, 0x01, // address 0x202
        // load value 0x01 into register 2
        0x62, 0x01, // address 0x204
        // vx ^ vy = vx
        0x81, 0x23,
    ]
    .to_vec();
    cpu.load_rom(rom).unwrap();
    assert_eq!(cpu.pc, 0x200);
    assert_eq!(cpu.reg[1], 0x00);
    assert_eq!(cpu.reg[2], 0x00);
    cpu.step().unwrap();
    assert_eq!(cpu.pc, 0x202);
    assert_eq!(cpu.reg[1], 0x01);
    assert_eq!(cpu.reg[2], 0x00);
    cpu.step().unwrap();
    assert_eq!(cpu.pc, 0x204);
    assert_eq!(cpu.reg[1], 0x01);
    assert_eq!(cpu.reg[2], 0x01);
    cpu.step().unwrap();
    assert_eq!(cpu.pc, 0x206);
    assert_eq!(cpu.reg[1], (0x01 ^ 0x01));
    assert_eq!(cpu.reg[2], 0x01);
}

#[test]
fn test_op_8xy4_carry_flag() {
    let mut cpu = Cpu::new();
    let rom: Vec<u8> = [
        // address 0x200
        // load 0x01 into register 1
        0x61, 0x01, // address 0x202
        // load 0xff into register 2
        0x62, 0xff,
        // address 0x204
        // perform instruction 8xy4 on registers 1 and 2
        0x81, 0x24,
    ]
    .to_vec();
    cpu.load_rom(rom).unwrap();
    assert_eq!(cpu.pc, 0x200);
    assert_eq!(cpu.reg[1], 0x00);
    assert_eq!(cpu.reg[2], 0x00);
    cpu.step().unwrap();
    assert_eq!(cpu.pc, 0x202);
    assert_eq!(cpu.reg[1], 0x01);
    cpu.step().unwrap();
    assert_eq!(cpu.pc, 0x204);
    assert_eq!(cpu.reg[2], 0xff);
    cpu.step().unwrap();
    assert_eq!(cpu.reg[1], 0x00);
    assert_eq!(cpu.reg[0xf], 0x01);
}

#[test]
fn test_op_8xy4_no_carry_flag() {
    let mut cpu = Cpu::new();
    let rom: Vec<u8> = [
        // address 0x200
        // load 0x01 into register 1
        0x61, 0x01, // address 0x202
        // load 0xff into register 2
        0x62, 0x08,
        // address 0x204
        // perform instruction 8xy4 on registers 1 and 2
        0x81, 0x24,
    ]
    .to_vec();
    cpu.load_rom(rom).unwrap();
    assert_eq!(cpu.pc, 0x200);
    assert_eq!(cpu.reg[1], 0x00);
    assert_eq!(cpu.reg[2], 0x00);
    cpu.step().unwrap();
    assert_eq!(cpu.pc, 0x202);
    assert_eq!(cpu.reg[1], 0x01);
    cpu.step().unwrap();
    assert_eq!(cpu.pc, 0x204);
    assert_eq!(cpu.reg[2], 0x08);
    cpu.step().unwrap();
    assert_eq!(cpu.reg[1], 0x09);
    assert_eq!(cpu.reg[0xf], 0x00);
}

#[test]
fn test_op_8xy5_carry_flag() {
    let mut cpu = Cpu::new();
    let rom: Vec<u8> = [
        // address 0x200
        // load 0x02 into register 1
        0x61, 0x02, // address 0x202
        // load 0x01 into register 2
        0x62, 0x01, // address 0x204
        // perform 8xy5 on registers 1 and 2
        0x81, 0x25,
    ]
    .to_vec();
    cpu.load_rom(rom).unwrap();
    assert_eq!(cpu.pc, 0x200);
    assert_eq!(cpu.reg[1], 0x00);
    assert_eq!(cpu.reg[2], 0x00);
    cpu.step().unwrap();
    assert_eq!(cpu.pc, 0x202);
    assert_eq!(cpu.reg[1], 0x02);
    cpu.step().unwrap();
    assert_eq!(cpu.pc, 0x204);
    assert_eq!(cpu.reg[2], 0x01);
    assert_eq!(cpu.reg[0xf], 0x00);
    cpu.step().unwrap();
    assert_eq!(cpu.reg[1], 0x01);
    assert_eq!(cpu.reg[0xf], 0x01);
}

#[test]
fn test_op_8xy5_no_carry_flag() {
    let mut cpu = Cpu::new();
    let rom: Vec<u8> = [
        // address 0x200
        // load 0x02 into register 1
        0x61, 0x02, // address 0x202
        // load 0x01 into register 2
        0x62, 0x03, // address 0x204
        // perform 8xy5 on registers 1 and 2
        0x81, 0x25,
    ]
    .to_vec();
    cpu.load_rom(rom).unwrap();
    assert_eq!(cpu.pc, 0x200);
    assert_eq!(cpu.reg[1], 0x00);
    assert_eq!(cpu.reg[2], 0x00);
    cpu.step().unwrap();
    assert_eq!(cpu.pc, 0x202);
    assert_eq!(cpu.reg[1], 0x02);
    cpu.step().unwrap();
    assert_eq!(cpu.pc, 0x204);
    assert_eq!(cpu.reg[2], 0x03);
    assert_eq!(cpu.reg[0xf], 0x00);
    cpu.step().unwrap();
    assert_eq!(cpu.reg[1], 0xff);
    assert_eq!(cpu.reg[0xf], 0x00);
}

#[test]
fn test_op_8xy6_no_set_vf() {
    let mut cpu = Cpu::new();
    let rom: Vec<u8> = [
        // address 0x200
        // load value 0x04 into register 1
        0x61, 0x04, // address 0x202
        // perform shr 8xy6 operation
        0x81, 0x06,
    ]
    .to_vec();
    cpu.load_rom(rom).unwrap();
    assert_eq!(cpu.pc, 0x200);
    cpu.step().unwrap();
    assert_eq!(cpu.pc, 0x202);
    assert_eq!(cpu.reg[1], 0x04);
    cpu.step().unwrap();
    assert_eq!(cpu.pc, 0x204);
    assert_eq!(cpu.reg[1], 0x02);
    assert_eq!(cpu.reg[0xf], 0x00);
}

#[test]
fn test_op_8xy6_set_vf() {
    let mut cpu = Cpu::new();
    let rom: Vec<u8> = [
        // address 0x200
        // load value 0x03 into register 1
        0x61, 0x03, // address 0x202
        // perform shr 8xy6 operation
        0x81, 0x06,
    ]
    .to_vec();
    cpu.load_rom(rom).unwrap();
    assert_eq!(cpu.pc, 0x200);
    cpu.step().unwrap();
    assert_eq!(cpu.pc, 0x202);
    assert_eq!(cpu.reg[1], 0x03);
    cpu.step().unwrap();
    assert_eq!(cpu.pc, 0x204);
    assert_eq!(cpu.reg[1], 0x01);
    assert_eq!(cpu.reg[0xf], 0x01);
}

#[test]
fn test_op_8xy7_no_borrow() {
    let mut cpu = Cpu::new();
    let rom: Vec<u8> = [
        // address 0x200
        // load value 0x01 into register 1
        0x61, 0x01, // address 0x202
        // load value 0x05 into register 2
        0x62, 0x05, // address 0x204
        // perform 8xy7 on registers 1 and 2
        0x81, 0x27,
    ]
    .to_vec();
    cpu.load_rom(rom).unwrap();
    assert_eq!(cpu.pc, 0x200);
    assert_eq!(cpu.reg[1], 0x00);
    assert_eq!(cpu.reg[2], 0x00);
    assert_eq!(cpu.reg[0xf], 0x00);
    cpu.step().unwrap();
    assert_eq!(cpu.pc, 0x202);
    assert_eq!(cpu.reg[1], 0x01);
    cpu.step().unwrap();
    assert_eq!(cpu.pc, 0x204);
    assert_eq!(cpu.reg[2], 0x05);
    cpu.step().unwrap();
    assert_eq!(cpu.pc, 0x206);
    assert_eq!(cpu.reg[1], 0x04);
    assert_eq!(cpu.reg[0xf], 0x01);
}

#[test]
fn test_op_8xy7_borrow() {
    let mut cpu = Cpu::new();
    let rom: Vec<u8> = [
        // address 0x200
        // load value 0x06 into register 1
        0x61, 0x06, // address 0x202
        // load value 0x05 into register 2
        0x62, 0x05, // address 0x204
        // perform 8xy7 on registers 1 and 2
        0x81, 0x27,
    ]
    .to_vec();
    cpu.load_rom(rom).unwrap();
    assert_eq!(cpu.pc, 0x200);
    assert_eq!(cpu.reg[1], 0x00);
    assert_eq!(cpu.reg[2], 0x00);
    assert_eq!(cpu.reg[0xf], 0x00);
    cpu.step().unwrap();
    assert_eq!(cpu.pc, 0x202);
    assert_eq!(cpu.reg[1], 0x06);
    cpu.step().unwrap();
    assert_eq!(cpu.pc, 0x204);
    assert_eq!(cpu.reg[2], 0x05);
    cpu.step().unwrap();
    assert_eq!(cpu.pc, 0x206);
    assert_eq!(cpu.reg[1], 0xff);
    assert_eq!(cpu.reg[0xf], 0x00);
}

#[test]
fn test_op_8xye_no_set_vf() {
    let mut cpu = Cpu::new();
    let rom: Vec<u8> = [
        // address 0x200
        // load value 0x4 into register 1
        0x61, 0x04, // address 0x202
        // shift left register 1
        0x81, 0x0e,
    ]
    .to_vec();
    cpu.load_rom(rom).unwrap();
    assert_eq!(cpu.pc, 0x200);
    assert_eq!(cpu.reg[1], 0x00);
    assert_eq!(cpu.reg[0xf], 0x00);
    cpu.step().unwrap();
    assert_eq!(cpu.pc, 0x202);
    assert_eq!(cpu.reg[1], 0x04);
    cpu.step().unwrap();
    assert_eq!(cpu.pc, 0x204);
    assert_eq!(cpu.reg[1], 0x08);
    assert_eq!(cpu.reg[0xf], 0x00);
}

#[test]
fn test_op_8xye_set_vf() {
    let mut cpu = Cpu::new();
    let rom: Vec<u8> = [
        // address 0x200
        // load value 0x81 into register 1
        0x61, 0x81, // address 0x202
        // shift left register 1
        0x81, 0x0e,
    ]
    .to_vec();
    cpu.load_rom(rom).unwrap();
    assert_eq!(cpu.pc, 0x200);
    assert_eq!(cpu.reg[1], 0x00);
    assert_eq!(cpu.reg[0xf], 0x00);
    cpu.step().unwrap();
    assert_eq!(cpu.pc, 0x202);
    assert_eq!(cpu.reg[1], 0x81);
    cpu.step().unwrap();
    assert_eq!(cpu.pc, 0x204);
    assert_eq!(cpu.reg[1], 0x02);
    assert_eq!(cpu.reg[0xf], 0x01);
}

#[test]
fn test_op_9xy0_skip_instruction() {
    let mut cpu = Cpu::new();
    let rom: Vec<u8> = [
        // address 0x200
        // load 0x01 into register 1
        0x61, 0x01, // address 0x202
        // load 0x02 into register 2
        0x62, 0x02,
        // address 0x204
        // perform equality check on register 1 and 2
        0x91, 0x20, // address 0x206
        // instruction to skip
        0x61, 0x04, // address 0x208
        // load 0x02 into register 1
        0x61, 0x02,
    ]
    .to_vec();
    cpu.load_rom(rom).unwrap();
    assert_eq!(cpu.pc, 0x200);
    assert_eq!(cpu.reg[1], 0x00);
    assert_eq!(cpu.reg[2], 0x00);
    cpu.step().unwrap();
    assert_eq!(cpu.pc, 0x202);
    assert_eq!(cpu.reg[1], 0x01);
    cpu.step().unwrap();
    assert_eq!(cpu.pc, 0x204);
    assert_eq!(cpu.reg[2], 0x02);
    cpu.step().unwrap();
    assert_eq!(cpu.pc, 0x208);
    assert_eq!(cpu.reg[1], 0x01);
    cpu.step().unwrap();
    assert_eq!(cpu.pc, 0x20a);
    assert_eq!(cpu.reg[1], 0x02);
}

#[test]
fn test_op_9xy0_no_skip_instruction() {
    let mut cpu = Cpu::new();
    let rom: Vec<u8> = [
        // address 0x200
        // load 0x01 into register 1
        0x61, 0x01, // address 0x202
        // load 0x01 into register 2
        0x62, 0x01,
        // address 0x204
        // perform equality check on register 1 and 2
        0x91, 0x20, // address 0x206
        // instruction to skip
        0x61, 0x04, // address 0x208
        // load 0x02 into register 1
        0x61, 0x02,
    ]
    .to_vec();
    cpu.load_rom(rom).unwrap();
    assert_eq!(cpu.pc, 0x200);
    assert_eq!(cpu.reg[1], 0x00);
    assert_eq!(cpu.reg[2], 0x00);
    cpu.step().unwrap();
    assert_eq!(cpu.pc, 0x202);
    assert_eq!(cpu.reg[1], 0x01);
    cpu.step().unwrap();
    assert_eq!(cpu.pc, 0x204);
    assert_eq!(cpu.reg[2], 0x01);
    cpu.step().unwrap();
    assert_eq!(cpu.pc, 0x206);
    assert_eq!(cpu.reg[1], 0x01);
    cpu.step().unwrap();
    assert_eq!(cpu.pc, 0x208);
    assert_eq!(cpu.reg[1], 0x04);
}

#[test]
fn test_op_annn() {
    let mut cpu = Cpu::new();
    let rom: Vec<u8> = [
        // addres 0x200
        // perform op annn
        0xa1, 0x11,
    ]
    .to_vec();
    cpu.load_rom(rom).unwrap();
    assert_eq!(cpu.i, 0x0000);
    cpu.step().unwrap();
    assert_eq!(cpu.i, 0x0111);
}

#[test]
fn test_op_bnnn() {
    let mut cpu = Cpu::new();
    let rom: Vec<u8> = [
        // address 0x200
        // load 0x02 into register 0
        0x60, 0x02, // address 0x202
        // jump to v0 + nnn,
        0xb2, 0x04,
        // address 0x204
        // load register 1 with 0x2, should be jumped overtime
        0x61, 0x02,
        // address 0x206
        // load register 1 with 0x4, should be jumped to
        0x61, 0x04,
    ]
    .to_vec();
    cpu.load_rom(rom).unwrap();
    assert_eq!(cpu.pc, 0x200);
    assert_eq!(cpu.reg[0], 0x00);
    assert_eq!(cpu.reg[1], 0x00);
    cpu.step().unwrap();
    assert_eq!(cpu.pc, 0x202);
    assert_eq!(cpu.reg[0], 0x02);
    cpu.step().unwrap();
    assert_eq!(cpu.pc, 0x206);
    cpu.step().unwrap();
    assert_eq!(cpu.pc, 0x208);
    assert_eq!(cpu.reg[1], 0x04);
}

#[test]
fn test_op_fx07() {
    let mut cpu = Cpu::new();
    let rom: Vec<u8> = [
        // address 0x200
        // set vx to dt
        0xf1, 0x07,
    ]
    .to_vec();
    cpu.load_rom(rom).unwrap();
    cpu.dt = 0x01;
    assert_eq!(cpu.pc, 0x200);
    assert_eq!(cpu.reg[1], 0x00);
    cpu.step().unwrap();
    assert_eq!(cpu.pc, 0x202);
    assert_eq!(cpu.reg[1], 0x01);
}

#[test]
fn test_op_fx15() {
    let mut cpu = Cpu::new();
    let rom: Vec<u8> = [
        // address 0x200
        // set vx to dt
        0xf1, 0x15,
    ]
    .to_vec();
    cpu.load_rom(rom).unwrap();
    cpu.reg[1] = 0x01;
    assert_eq!(cpu.pc, 0x200);
    assert_eq!(cpu.dt, 0x00);
    cpu.step().unwrap();
    assert_eq!(cpu.pc, 0x202);
    assert_eq!(cpu.dt, 0x01);
}

#[test]
fn test_op_fx18() {
    let mut cpu = Cpu::new();
    let rom: Vec<u8> = [
        // address 0x200
        // set vx to dt
        0xf1, 0x18,
    ]
    .to_vec();
    cpu.load_rom(rom).unwrap();
    cpu.reg[1] = 0x01;
    assert_eq!(cpu.pc, 0x200);
    assert_eq!(cpu.st, 0x00);
    cpu.step().unwrap();
    assert_eq!(cpu.pc, 0x202);
    assert_eq!(cpu.st, 0x01);
}

#[test]
fn test_op_fx1e() {
    let mut cpu = Cpu::new();
    let rom: Vec<u8> = [
        // address 0x200
        // add contents of vx to index register
        0xf1, 0x1e,
    ]
    .to_vec();
    cpu.load_rom(rom).unwrap();
    cpu.i = 0x01;
    cpu.reg[1] = 0x01;
    assert_eq!(cpu.pc, 0x200);
    cpu.step().unwrap();
    assert_eq!(cpu.pc, 0x202);
    assert_eq!(cpu.i, 0x02);
}

#[test]
fn test_op_fx55() {
    let mut cpu = Cpu::new();
    let rom: Vec<u8> = [
        // address 0x200
        // load contents of all register into ram
        0xff, 0x55,
    ]
    .to_vec();
    cpu.reg[0] = 1;
    cpu.reg[1] = 1;
    cpu.reg[2] = 1;
    cpu.reg[3] = 1;
    cpu.reg[4] = 1;
    cpu.reg[5] = 1;
    cpu.reg[6] = 1;
    cpu.reg[7] = 1;
    cpu.reg[8] = 1;
    cpu.reg[9] = 1;
    cpu.reg[0xa] = 1;
    cpu.reg[0xb] = 1;
    cpu.reg[0xc] = 1;
    cpu.reg[0xd] = 1;
    cpu.reg[0xe] = 1;
    cpu.reg[0xf] = 1;
    cpu.i = 0x000;
    cpu.load_rom(rom).unwrap();
    assert_eq!(cpu.pc, 0x200);
    assert_eq!(cpu.ram[cpu.i as usize], 0x00);
    cpu.step().unwrap();
    assert_eq!(cpu.pc, 0x202);
    for i in 0..15 {
        assert_eq!(cpu.ram[cpu.i as usize + i], 0x01);
    }
}

#[test]
fn test_op_fx65() {
    let mut cpu = Cpu::new();
    let rom: Vec<u8> = [
        // address 0x200
        // load contents from memory to registers
        0xff, 0x65,
    ]
    .to_vec();
    cpu.ram[0] = 1;
    cpu.ram[1] = 1;
    cpu.ram[2] = 1;
    cpu.ram[3] = 1;
    cpu.ram[4] = 1;
    cpu.ram[5] = 1;
    cpu.ram[6] = 1;
    cpu.ram[7] = 1;
    cpu.ram[8] = 1;
    cpu.ram[9] = 1;
    cpu.ram[0xa] = 1;
    cpu.ram[0xb] = 1;
    cpu.ram[0xc] = 1;
    cpu.ram[0xd] = 1;
    cpu.ram[0xe] = 1;
    cpu.ram[0xf] = 1;
    cpu.load_rom(rom).unwrap();
    assert_eq!(cpu.pc, 0x200);
    assert_eq!(cpu.i, 0x000);
    for i in 0..15 {
        assert_eq!(cpu.reg[i], 0x00);
    }
    cpu.step().unwrap();
    assert_eq!(cpu.pc, 0x202);
    for i in 0..15 {
        assert_eq!(cpu.reg[i], 0x01);
    }
}
