//! Instruction decoding: from a 16-bit word to a tagged operation.
//!
//! Decoding goes by the top nibble first and then, for the families that
//! share a top nibble, by the bottom nibble or bottom byte.  Every encoding
//! that matches no row of the table is illegal, and `step` reports it
//! through a single fallthrough rather than scattered failure points.

use vstd::prelude::*;

use crate::error::Chip8Error;
use crate::state::{
    adv, op_add_imm, op_add_index, op_add_reg, op_and, op_bcd, op_call, op_cls, op_draw,
    op_font_addr, op_get_delay, op_jump, op_jump_v0, op_load_imm, op_move, op_or, op_read_regs,
    op_ret, op_rnd, op_set_delay, op_set_index, op_set_sound, op_shl, op_shr, op_skip_eq_imm,
    op_skip_eq_reg, op_skip_key, op_skip_ne_imm, op_skip_ne_reg, op_skip_no_key, op_store_regs,
    op_sub_reg, op_subn_reg, op_wait_key, op_xor, CpuState,
};

verus! {

/// One decoded operation, with its operand fields.
///
/// `x` and `y` are register indices (always below 16), `kk` an immediate
/// byte, `nnn` a 12-bit address, `n` a nibble row count.
#[derive(Clone, Copy, Debug, PartialEq, Eq, Structural)]
pub enum Op {
    /// 00E0: clear the framebuffer.
    Cls,
    /// 00EE: return from a subroutine.
    Ret,
    /// 1nnn: jump.
    Jump { nnn: u16 },
    /// 2nnn: call a subroutine.
    Call { nnn: u16 },
    /// 3xkk: skip next instruction if `Vx == kk`.
    SkipEqImm { x: u8, kk: u8 },
    /// 4xkk: skip next instruction if `Vx != kk`.
    SkipNeImm { x: u8, kk: u8 },
    /// 5xy?: skip next instruction if `Vx == Vy`.
    SkipEqReg { x: u8, y: u8 },
    /// 6xkk: `Vx = kk`.
    LoadImm { x: u8, kk: u8 },
    /// 7xkk: `Vx += kk`, wrapping, no flag.
    AddImm { x: u8, kk: u8 },
    /// 8xy0: `Vx = Vy`.
    Move { x: u8, y: u8 },
    /// 8xy1: `Vx |= Vy`.
    Or { x: u8, y: u8 },
    /// 8xy2: `Vx &= Vy`.
    And { x: u8, y: u8 },
    /// 8xy3: `Vx ^= Vy`.
    Xor { x: u8, y: u8 },
    /// 8xy4: `Vx += Vy`, VF takes the carry.
    AddReg { x: u8, y: u8 },
    /// 8xy5: `Vx -= Vy`, VF takes "no borrow".
    SubReg { x: u8, y: u8 },
    /// 8xy6: `Vx >>= 1`, VF takes the pre-shift low bit.
    Shr { x: u8 },
    /// 8xy7: `Vx = Vy - Vx`, VF takes "no borrow".
    SubnReg { x: u8, y: u8 },
    /// 8xyE: `Vx <<= 1`, VF takes the pre-shift high bit.
    Shl { x: u8 },
    /// 9xy?: skip next instruction if `Vx != Vy`.
    SkipNeReg { x: u8, y: u8 },
    /// Annn: `I = nnn`.
    SetIndex { nnn: u16 },
    /// Bnnn: jump to `V0 + nnn`.
    JumpV0 { nnn: u16 },
    /// Cxkk: `Vx = random byte & kk`.
    Rnd { x: u8, kk: u8 },
    /// Dxyn: draw an `n`-row sprite at `(Vx, Vy)`.
    Draw { x: u8, y: u8, n: u8 },
    /// Ex9E: skip next instruction if key `Vx` is held.
    SkipKey { x: u8 },
    /// ExA1: skip next instruction if key `Vx` is up.
    SkipNoKey { x: u8 },
    /// Fx07: `Vx = DT`.
    GetDelay { x: u8 },
    /// Fx0A: wait for a key, store its index in `Vx`.
    WaitKey { x: u8 },
    /// Fx15: `DT = Vx`.
    SetDelay { x: u8 },
    /// Fx18: `ST = Vx`.
    SetSound { x: u8 },
    /// Fx1E: `I += Vx`.
    AddIndex { x: u8 },
    /// Fx29: `I = ` font glyph address of digit `Vx`.
    FontAddr { x: u8 },
    /// Fx33: store the decimal digits of `Vx` at `I`, `I+1`, `I+2`.
    Bcd { x: u8 },
    /// Fx55: store `V0..Vx` inclusive to memory at `I`.
    StoreRegs { x: u8 },
    /// Fx65: read `V0..Vx` inclusive from memory at `I`.
    ReadRegs { x: u8 },
}

/// The `x` register index field of a word: bits 8..12.
pub open spec fn field_x(w: u16) -> u8 {
    ((w >> 8) & 0xf) as u8
}

/// The `y` register index field of a word: bits 4..8.
pub open spec fn field_y(w: u16) -> u8 {
    ((w >> 4) & 0xf) as u8
}

/// The immediate byte field of a word: bits 0..8.
pub open spec fn field_kk(w: u16) -> u8 {
    (w & 0xff) as u8
}

/// The 12-bit address field of a word: bits 0..12.
pub open spec fn field_nnn(w: u16) -> u16 {
    w & 0xfff
}

/// The low nibble of a word: bits 0..4.
pub open spec fn field_n(w: u16) -> u8 {
    (w & 0xf) as u8
}

/// Bounds of the operand fields, for indexing registers and memory.
pub proof fn lemma_field_bounds(w: u16)
    by (bit_vector)
    ensures
        (w >> 8) & 0xf < 16,
        (w >> 4) & 0xf < 16,
        w & 0xff < 256,
        w & 0xfff < 4096,
        w & 0xf < 16,
{
}

/// The decode table: `Some` operation for every recognized encoding,
/// `None` for every other word.
pub open spec fn decode(w: u16) -> Option<Op> {
    let x = field_x(w);
    let y = field_y(w);
    let kk = field_kk(w);
    let nnn = field_nnn(w);
    let n = field_n(w);
    if w & 0xf000 == 0x0000 {
        if w & 0xff == 0xe0 {
            Some(Op::Cls)
        } else if w & 0xff == 0xee {
            Some(Op::Ret)
        } else {
            None
        }
    } else if w & 0xf000 == 0x1000 {
        Some(Op::Jump { nnn })
    } else if w & 0xf000 == 0x2000 {
        Some(Op::Call { nnn })
    } else if w & 0xf000 == 0x3000 {
        Some(Op::SkipEqImm { x, kk })
    } else if w & 0xf000 == 0x4000 {
        Some(Op::SkipNeImm { x, kk })
    } else if w & 0xf000 == 0x5000 {
        Some(Op::SkipEqReg { x, y })
    } else if w & 0xf000 == 0x6000 {
        Some(Op::LoadImm { x, kk })
    } else if w & 0xf000 == 0x7000 {
        Some(Op::AddImm { x, kk })
    } else if w & 0xf000 == 0x8000 {
        if w & 0xf == 0x0 {
            Some(Op::Move { x, y })
        } else if w & 0xf == 0x1 {
            Some(Op::Or { x, y })
        } else if w & 0xf == 0x2 {
            Some(Op::And { x, y })
        } else if w & 0xf == 0x3 {
            Some(Op::Xor { x, y })
        } else if w & 0xf == 0x4 {
            Some(Op::AddReg { x, y })
        } else if w & 0xf == 0x5 {
            Some(Op::SubReg { x, y })
        } else if w & 0xf == 0x6 {
            Some(Op::Shr { x })
        } else if w & 0xf == 0x7 {
            Some(Op::SubnReg { x, y })
        } else if w & 0xf == 0xe {
            Some(Op::Shl { x })
        } else {
            None
        }
    } else if w & 0xf000 == 0x9000 {
        Some(Op::SkipNeReg { x, y })
    } else if w & 0xf000 == 0xa000 {
        Some(Op::SetIndex { nnn })
    } else if w & 0xf000 == 0xb000 {
        Some(Op::JumpV0 { nnn })
    } else if w & 0xf000 == 0xc000 {
        Some(Op::Rnd { x, kk })
    } else if w & 0xf000 == 0xd000 {
        Some(Op::Draw { x, y, n })
    } else if w & 0xf000 == 0xe000 {
        if w & 0xff == 0x9e {
            Some(Op::SkipKey { x })
        } else if w & 0xff == 0xa1 {
            Some(Op::SkipNoKey { x })
        } else {
            None
        }
    } else {
        if w & 0xff == 0x07 {
            Some(Op::GetDelay { x })
        } else if w & 0xff == 0x0a {
            Some(Op::WaitKey { x })
        } else if w & 0xff == 0x15 {
            Some(Op::SetDelay { x })
        } else if w & 0xff == 0x18 {
            Some(Op::SetSound { x })
        } else if w & 0xff == 0x1e {
            Some(Op::AddIndex { x })
        } else if w & 0xff == 0x29 {
            Some(Op::FontAddr { x })
        } else if w & 0xff == 0x33 {
            Some(Op::Bcd { x })
        } else if w & 0xff == 0x55 {
            Some(Op::StoreRegs { x })
        } else if w & 0xff == 0x65 {
            Some(Op::ReadRegs { x })
        } else {
            None
        }
    }
}

/// Decode one instruction word.
pub fn decode_word(w: u16) -> (r: Option<Op>)
    ensures
        r == decode(w),
{
    proof {
        lemma_field_bounds(w);
    }
    let x = ((w >> 8) & 0xf) as u8;
    let y = ((w >> 4) & 0xf) as u8;
    let kk = (w & 0xff) as u8;
    let nnn = w & 0xfff;
    let n = (w & 0xf) as u8;
    if w & 0xf000 == 0x0000 {
        if w & 0xff == 0xe0 {
            Some(Op::Cls)
        } else if w & 0xff == 0xee {
            Some(Op::Ret)
        } else {
            None
        }
    } else if w & 0xf000 == 0x1000 {
        Some(Op::Jump { nnn })
    } else if w & 0xf000 == 0x2000 {
        Some(Op::Call { nnn })
    } else if w & 0xf000 == 0x3000 {
        Some(Op::SkipEqImm { x, kk })
    } else if w & 0xf000 == 0x4000 {
        Some(Op::SkipNeImm { x, kk })
    } else if w & 0xf000 == 0x5000 {
        Some(Op::SkipEqReg { x, y })
    } else if w & 0xf000 == 0x6000 {
        Some(Op::LoadImm { x, kk })
    } else if w & 0xf000 == 0x7000 {
        Some(Op::AddImm { x, kk })
    } else if w & 0xf000 == 0x8000 {
        if w & 0xf == 0x0 {
            Some(Op::Move { x, y })
        } else if w & 0xf == 0x1 {
            Some(Op::Or { x, y })
        } else if w & 0xf == 0x2 {
            Some(Op::And { x, y })
        } else if w & 0xf == 0x3 {
            Some(Op::Xor { x, y })
        } else if w & 0xf == 0x4 {
            Some(Op::AddReg { x, y })
        } else if w & 0xf == 0x5 {
            Some(Op::SubReg { x, y })
        } else if w & 0xf == 0x6 {
            Some(Op::Shr { x })
        } else if w & 0xf == 0x7 {
            Some(Op::SubnReg { x, y })
        } else if w & 0xf == 0xe {
            Some(Op::Shl { x })
        } else {
            None
        }
    } else if w & 0xf000 == 0x9000 {
        Some(Op::SkipNeReg { x, y })
    } else if w & 0xf000 == 0xa000 {
        Some(Op::SetIndex { nnn })
    } else if w & 0xf000 == 0xb000 {
        Some(Op::JumpV0 { nnn })
    } else if w & 0xf000 == 0xc000 {
        Some(Op::Rnd { x, kk })
    } else if w & 0xf000 == 0xd000 {
        Some(Op::Draw { x, y, n })
    } else if w & 0xf000 == 0xe000 {
        if w & 0xff == 0x9e {
            Some(Op::SkipKey { x })
        } else if w & 0xff == 0xa1 {
            Some(Op::SkipNoKey { x })
        } else {
            None
        }
    } else {
        if w & 0xff == 0x07 {
            Some(Op::GetDelay { x })
        } else if w & 0xff == 0x0a {
            Some(Op::WaitKey { x })
        } else if w & 0xff == 0x15 {
            Some(Op::SetDelay { x })
        } else if w & 0xff == 0x18 {
            Some(Op::SetSound { x })
        } else if w & 0xff == 0x1e {
            Some(Op::AddIndex { x })
        } else if w & 0xff == 0x29 {
            Some(Op::FontAddr { x })
        } else if w & 0xff == 0x33 {
            Some(Op::Bcd { x })
        } else if w & 0xff == 0x55 {
            Some(Op::StoreRegs { x })
        } else if w & 0xff == 0x65 {
            Some(Op::ReadRegs { x })
        } else {
            None
        }
    }
}

/// The instruction word fetched big-endian at the program counter, with
/// the second byte's address reduced modulo the memory size.
pub open spec fn word_at(s: CpuState) -> u16 {
    ((s.ram[s.pc as int] as u16) << 8) | (s.ram[(s.pc + 1) as int % 4096] as u16)
}

/// The effect of one decoded operation on the already-advanced state `t`,
/// with `r` the byte a `random` opcode would draw.  Only for operations
/// that cannot fail; `spec_step` screens the fallible ones first.
pub open spec fn apply_op(op: Op, t: CpuState, r: u8) -> CpuState {
    match op {
        Op::Cls => op_cls(t),
        Op::Ret => op_ret(t),
        Op::Jump { nnn } => op_jump(t, nnn),
        Op::Call { nnn } => op_call(t, nnn),
        Op::SkipEqImm { x, kk } => op_skip_eq_imm(t, x, kk),
        Op::SkipNeImm { x, kk } => op_skip_ne_imm(t, x, kk),
        Op::SkipEqReg { x, y } => op_skip_eq_reg(t, x, y),
        Op::LoadImm { x, kk } => op_load_imm(t, x, kk),
        Op::AddImm { x, kk } => op_add_imm(t, x, kk),
        Op::Move { x, y } => op_move(t, x, y),
        Op::Or { x, y } => op_or(t, x, y),
        Op::And { x, y } => op_and(t, x, y),
        Op::Xor { x, y } => op_xor(t, x, y),
        Op::AddReg { x, y } => op_add_reg(t, x, y),
        Op::SubReg { x, y } => op_sub_reg(t, x, y),
        Op::Shr { x } => op_shr(t, x),
        Op::SubnReg { x, y } => op_subn_reg(t, x, y),
        Op::Shl { x } => op_shl(t, x),
        Op::SkipNeReg { x, y } => op_skip_ne_reg(t, x, y),
        Op::SetIndex { nnn } => op_set_index(t, nnn),
        Op::JumpV0 { nnn } => op_jump_v0(t, nnn),
        Op::Rnd { x, kk } => op_rnd(t, x, kk, r),
        Op::Draw { x, y, n } => op_draw(t, x, y, n),
        Op::SkipKey { x } => op_skip_key(t, x),
        Op::SkipNoKey { x } => op_skip_no_key(t, x),
        Op::GetDelay { x } => op_get_delay(t, x),
        Op::WaitKey { x } => op_wait_key(t, x),
        Op::SetDelay { x } => op_set_delay(t, x),
        Op::SetSound { x } => op_set_sound(t, x),
        Op::AddIndex { x } => op_add_index(t, x),
        Op::FontAddr { x } => op_font_addr(t, x),
        Op::Bcd { x } => op_bcd(t, x),
        Op::StoreRegs { x } => op_store_regs(t, x),
        Op::ReadRegs { x } => op_read_regs(t, x),
    }
}

/// One whole fetch-decode-execute step of the abstract machine, with `r`
/// the byte a `random` opcode would draw.  A step is atomic: on any error
/// the state is unchanged, which the `Err` arm encodes by not carrying a
/// state at all.
pub open spec fn spec_step(s: CpuState, r: u8) -> Result<CpuState, Chip8Error> {
    let w = word_at(s);
    match decode(w) {
        None => Err(Chip8Error::IllegalOpcode { word: w, pc: s.pc }),
        Some(op) => {
            let t = CpuState { pc: adv(s.pc), ..s };
            match op {
                Op::Ret => {
                    if s.sp == 0 {
                        Err(Chip8Error::StackUnderflow)
                    } else {
                        Ok(op_ret(t))
                    }
                },
                Op::Call { nnn } => {
                    if s.sp >= 15 {
                        Err(Chip8Error::StackOverflow)
                    } else {
                        Ok(op_call(t, nnn))
                    }
                },
                Op::SkipKey { x } => {
                    if s.reg[x as int] >= 16 {
                        Err(Chip8Error::InvalidKeyIndex { key: s.reg[x as int] })
                    } else {
                        Ok(op_skip_key(t, x))
                    }
                },
                Op::SkipNoKey { x } => {
                    if s.reg[x as int] >= 16 {
                        Err(Chip8Error::InvalidKeyIndex { key: s.reg[x as int] })
                    } else {
                        Ok(op_skip_no_key(t, x))
                    }
                },
                _ => Ok(apply_op(op, t, r)),
            }
        },
    }
}

/// How one executable step relates the machine before and after: for the
/// drawn byte `rb`, either the abstract step succeeds and the machine
/// reaches exactly that state, or it fails and the machine is untouched
/// and the same error is reported.
pub open spec fn step_rel(
    pre: CpuState,
    rb: u8,
    post: CpuState,
    r: Result<(), Chip8Error>,
) -> bool {
    match spec_step(pre, rb) {
        Ok(t) => r == Ok::<(), Chip8Error>(()) && post == t,
        Err(e) => r == Err::<(), Chip8Error>(e) && post == pre,
    }
}

} // verus!
