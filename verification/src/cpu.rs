//! The executable interpreter.
//!
//! [`Cpu`] owns the whole machine state as plain data.  Its fields are
//! public so a host can seed registers or inspect memory directly, but the
//! contracts of every method speak of the abstract [`CpuState`] model, and
//! each method is proved to realize the corresponding spec transition from
//! [`crate::state`].

use vstd::prelude::*;

use crate::decode::{
    decode_word, field_kk, field_n, field_nnn, field_x, field_y, lemma_field_bounds, spec_step,
    step_rel, word_at, Op,
};
use crate::error::Chip8Error;
use crate::rng::{fresh_rng, next_random_u16};
use crate::state::{
    any_key_pressed, blank_vram, font_seq, init_state, lemma_wrap_backward, lemma_wrap_forward,
    loaded, lowest_pressed, op_add_imm, op_add_index, op_add_reg, op_and,
    op_bcd, op_call, op_cls, op_draw, op_font_addr, op_get_delay, op_jump, op_jump_v0,
    op_load_imm, op_move, op_or, op_read_regs, op_ret, op_rnd, op_set_delay, op_set_index,
    op_set_sound, op_shl, op_shr, op_skip_eq_imm, op_skip_eq_reg, op_skip_key, op_skip_ne_imm,
    op_skip_ne_reg, op_skip_no_key, op_store_regs, op_sub_reg, op_subn_reg, op_wait_key, op_xor,
    wrap_off, wrap_off32, wrap_off64,
    CpuState, FONT_BASE, LOAD_BASE, MEM_SIZE, NUM_KEYS, NUM_REGS, SCREEN_CELLS, STACK_SLOTS,
};

verus! {

/// The interpreter: memory, registers, decode and execute state.
///
/// The host owns the instance, drives [`Cpu::step`] at its chosen rate,
/// decrements the two timers at 60 Hz, writes the key lines and reads the
/// framebuffer between steps.
pub struct Cpu {
    /// The flat memory image, `MEM_SIZE` bytes.
    pub ram: Vec<u8>,
    /// The framebuffer: cell `(x, y)` is `vram[x * 32 + y]`, 1 when lit.
    pub vram: Vec<u8>,
    /// The 16 general-purpose registers V0..VF.
    pub reg: Vec<u8>,
    /// The 16-bit index register I.
    pub i: u16,
    /// The program counter.
    pub pc: u16,
    /// The call stack; slot 0 is never used.
    pub stack: Vec<u16>,
    /// The stack pointer: index of the topmost used slot, 0 when empty.
    pub sp: u8,
    /// The delay timer, decremented by the host at 60 Hz.
    pub dt: u8,
    /// The sound timer; nonzero means the tone should sound.
    pub st: u8,
    /// The 16 key lines, written by the host between steps.
    pub keypad: Vec<bool>,
    /// The pseudo-random source for the `random` opcode.
    pub rand: tinyrand::Wyrand,
}

impl View for Cpu {
    type V = CpuState;

    open spec fn view(&self) -> CpuState {
        CpuState {
            ram: self.ram@,
            vram: self.vram@,
            reg: self.reg@,
            i: self.i,
            pc: self.pc,
            stack: self.stack@,
            sp: self.sp,
            dt: self.dt,
            st: self.st,
            keypad: self.keypad@,
        }
    }
}

/// A vector of `n` copies of `val`.
fn filled_vec<T: Copy>(n: usize, val: T) -> (v: Vec<T>)
    ensures
        v@ == Seq::new(n as nat, |k: int| val),
{
    let mut v: Vec<T> = Vec::new();
    while v.len() < n
        invariant
            v@.len() <= n,
            forall|k: int| 0 <= k < v@.len() ==> v@[k] == val,
        decreases n - v@.len(),
    {
        v.push(val);
    }
    proof {
        assert(v@ =~= Seq::new(n as nat, |k: int| val));
    }
    v
}

/// The built-in hexadecimal font, as executable data.
fn font_data() -> (v: Vec<u8>)
    ensures
        v@ == font_seq(),
{
    let v: Vec<u8> = vec![
        0xF0, 0x90, 0x90, 0x90, 0xF0, // 0
        0x20, 0x60, 0x20, 0x20, 0x70, // 1
        0xF0, 0x10, 0xF0, 0x80, 0xF0, // 2
        0xF0, 0x10, 0xF0, 0x10, 0xF0, // 3
        0x90, 0x90, 0xF0, 0x10, 0x10, // 4
        0xF0, 0x80, 0xF0, 0x10, 0xF0, // 5
        0xF0, 0x80, 0xF0, 0x90, 0xF0, // 6
        0xF0, 0x10, 0x20, 0x40, 0x40, // 7
        0xF0, 0x90, 0xF0, 0x90, 0xF0, // 8
        0xF0, 0x90, 0xF0, 0x10, 0xF0, // 9
        0xF0, 0x90, 0xF0, 0x90, 0x90, // A
        0xE0, 0x90, 0xE0, 0x90, 0xE0, // B
        0xF0, 0x80, 0x80, 0x80, 0xF0, // C
        0xE0, 0x90, 0x90, 0x90, 0xE0, // D
        0xF0, 0x80, 0xF0, 0x80, 0xF0, // E
        0xF0, 0x80, 0xF0, 0x80, 0x80, // F
    ];
    proof {
        assert(v@ =~= font_seq());
    }
    v
}

impl Cpu {
    /// Structural well-formedness of the machine; every method preserves
    /// it, and construction establishes it.
    pub open spec fn wf(&self) -> bool {
        self@.wf()
    }

    /// A machine in its post-construction state: zeroed registers, timers
    /// and framebuffer, the program counter at the load base, and the
    /// hexadecimal font in the reserved low memory region.
    pub fn new() -> (c: Cpu)
        ensures
            c@ == init_state(),
            c.wf(),
    {
        let font = font_data();
        let mut ram = filled_vec::<u8>(MEM_SIZE, 0);
        let mut k: usize = 0;
        while k < 80
            invariant
                k <= 80,
                ram@.len() == MEM_SIZE,
                font@ == font_seq(),
                forall|a: int|
                    0 <= a < MEM_SIZE ==> ram@[a] == (if FONT_BASE <= a < FONT_BASE + k {
                        font_seq()[a - FONT_BASE]
                    } else {
                        0u8
                    }),
            decreases 80 - k,
        {
            ram[FONT_BASE + k] = font[k];
            k = k + 1;
        }
        let c = Cpu {
            ram,
            vram: filled_vec::<u8>(SCREEN_CELLS, 0),
            reg: filled_vec::<u8>(NUM_REGS, 0),
            i: 0,
            pc: 512,
            stack: filled_vec::<u16>(STACK_SLOTS, 0),
            sp: 0,
            dt: 0,
            st: 0,
            keypad: filled_vec::<bool>(NUM_KEYS, false),
            rand: fresh_rng(),
        };
        proof {
            assert(c@.ram =~= init_state().ram);
            assert(c@ =~= init_state());
        }
        c
    }

    /// Copy a program image verbatim into memory at the load base.
    ///
    /// Succeeds exactly when the image fits in the space above the
    /// reserved region; an oversized image is rejected whole, leaving the
    /// machine untouched.
    pub fn load_rom(&mut self, input: Vec<u8>) -> (r: Result<(), Chip8Error>)
        requires
            old(self).wf(),
        ensures
            final(self).wf(),
            match r {
                Ok(()) => input@.len() <= MEM_SIZE - LOAD_BASE && final(self)@ == loaded(
                    old(self)@,
                    input@,
                ),
                Err(e) => {
                    &&& e == Chip8Error::OversizedProgram
                    &&& input@.len() > MEM_SIZE - LOAD_BASE
                    &&& final(self)@ == old(self)@
                },
            },
    {
        if input.len() > MEM_SIZE - LOAD_BASE {
            return Err(Chip8Error::OversizedProgram);
        }
        let mut idx: usize = 0;
        while idx < input.len()
            invariant
                old(self).wf(),
                idx <= input@.len(),
                input@.len() <= MEM_SIZE - LOAD_BASE,
                self.ram@.len() == MEM_SIZE,
                self.vram == old(self).vram,
                self.reg == old(self).reg,
                self.i == old(self).i,
                self.pc == old(self).pc,
                self.stack == old(self).stack,
                self.sp == old(self).sp,
                self.dt == old(self).dt,
                self.st == old(self).st,
                self.keypad == old(self).keypad,
                self.rand == old(self).rand,
                forall|a: int|
                    0 <= a < MEM_SIZE ==> self.ram@[a] == (if LOAD_BASE <= a < LOAD_BASE + idx {
                        input@[a - LOAD_BASE]
                    } else {
                        old(self).ram@[a]
                    }),
            decreases input@.len() - idx,
        {
            self.ram[LOAD_BASE + idx] = input[idx];
            idx = idx + 1;
        }
        proof {
            assert(self@.ram =~= loaded(old(self)@, input@).ram);
            assert(self@ =~= loaded(old(self)@, input@));
        }
        Ok(())
    }

    /// clear-screen (00E0): every framebuffer cell goes unlit.
    pub fn op_00e0(&mut self, _inst: u16)
        requires
            old(self).wf(),
        ensures
            final(self).wf(),
            final(self)@ == op_cls(old(self)@),
    {
        let mut k: usize = 0;
        while k < SCREEN_CELLS
            invariant
                old(self).wf(),
                k <= SCREEN_CELLS,
                self.vram@.len() == SCREEN_CELLS,
                self.ram == old(self).ram,
                self.reg == old(self).reg,
                self.i == old(self).i,
                self.pc == old(self).pc,
                self.stack == old(self).stack,
                self.sp == old(self).sp,
                self.dt == old(self).dt,
                self.st == old(self).st,
                self.keypad == old(self).keypad,
                self.rand == old(self).rand,
                forall|j: int| 0 <= j < k ==> self.vram@[j] == 0u8,
                forall|j: int| k <= j < SCREEN_CELLS ==> self.vram@[j] == old(self).vram@[j],
            decreases SCREEN_CELLS - k,
        {
            self.vram[k] = 0;
            k = k + 1;
        }
        proof {
            assert(self@.vram =~= blank_vram());
            assert(self@ =~= op_cls(old(self)@));
        }
    }

    /// return (00EE): the program counter comes back from the topmost
    /// stack slot.  Reports a stack underflow, and changes nothing, when
    /// the stack is empty.
    pub fn op_00ee(&mut self, _inst: u16) -> (r: Result<(), Chip8Error>)
        requires
            old(self).wf(),
        ensures
            final(self).wf(),
            match r {
                Ok(()) => old(self).sp > 0 && final(self)@ == crate::state::op_ret(old(self)@),
                Err(e) => {
                    &&& e == Chip8Error::StackUnderflow
                    &&& old(self).sp == 0
                    &&& final(self)@ == old(self)@
                },
            },
    {
        if self.sp == 0 {
            return Err(Chip8Error::StackUnderflow);
        }
        self.pc = self.stack[self.sp as usize];
        self.sp = self.sp - 1;
        proof {
            assert(self@ =~= crate::state::op_ret(old(self)@));
        }
        Ok(())
    }

    /// jump (1nnn): the program counter is set to the address field.
    pub fn op_1nnn(&mut self, inst: u16)
        requires
            old(self).wf(),
        ensures
            final(self).wf(),
            final(self)@ == op_jump(old(self)@, field_nnn(inst)),
    {
        proof {
            lemma_field_bounds(inst);
        }
        self.pc = inst & 0xfff;
        proof {
            assert(self@ =~= op_jump(old(self)@, field_nnn(inst)));
        }
    }

    /// call (2nnn): push the return address and jump to the address field.
    /// Reports a stack overflow, and changes nothing, when every stack
    /// slot is in use.
    pub fn op_2nnn(&mut self, inst: u16) -> (r: Result<(), Chip8Error>)
        requires
            old(self).wf(),
        ensures
            final(self).wf(),
            match r {
                Ok(()) => old(self).sp < 15 && final(self)@ == op_call(
                    old(self)@,
                    field_nnn(inst),
                ),
                Err(e) => {
                    &&& e == Chip8Error::StackOverflow
                    &&& old(self).sp >= 15
                    &&& final(self)@ == old(self)@
                },
            },
    {
        proof {
            lemma_field_bounds(inst);
        }
        if self.sp >= 15 {
            return Err(Chip8Error::StackOverflow);
        }
        self.sp = self.sp + 1;
        let ret_addr = self.pc;
        self.stack[self.sp as usize] = ret_addr;
        self.pc = inst & 0xfff;
        proof {
            assert(self@ =~= op_call(old(self)@, field_nnn(inst)));
        }
        Ok(())
    }

    /// skip-eq immediate (3xkk): skip the next instruction when `Vx == kk`.
    pub fn op_3xkk(&mut self, inst: u16)
        requires
            old(self).wf(),
        ensures
            final(self).wf(),
            final(self)@ == op_skip_eq_imm(old(self)@, field_x(inst), field_kk(inst)),
    {
        proof {
            lemma_field_bounds(inst);
        }
        let x = ((inst >> 8) & 0xf) as usize;
        let kk = (inst & 0xff) as u8;
        if self.reg[x] == kk {
            self.pc = (self.pc + 2) % 4096;
        }
        proof {
            assert(self@ =~= op_skip_eq_imm(old(self)@, field_x(inst), field_kk(inst)));
        }
    }

    /// skip-neq immediate (4xkk): skip the next instruction when `Vx != kk`.
    pub fn op_4xkk(&mut self, inst: u16)
        requires
            old(self).wf(),
        ensures
            final(self).wf(),
            final(self)@ == op_skip_ne_imm(old(self)@, field_x(inst), field_kk(inst)),
    {
        proof {
            lemma_field_bounds(inst);
        }
        let x = ((inst >> 8) & 0xf) as usize;
        let kk = (inst & 0xff) as u8;
        if self.reg[x] != kk {
            self.pc = (self.pc + 2) % 4096;
        }
        proof {
            assert(self@ =~= op_skip_ne_imm(old(self)@, field_x(inst), field_kk(inst)));
        }
    }

    /// skip-eq register (5xy?): skip the next instruction when `Vx == Vy`.
    pub fn op_5xy0(&mut self, inst: u16)
        requires
            old(self).wf(),
        ensures
            final(self).wf(),
            final(self)@ == op_skip_eq_reg(old(self)@, field_x(inst), field_y(inst)),
    {
        proof {
            lemma_field_bounds(inst);
        }
        let x = ((inst >> 8) & 0xf) as usize;
        let y = ((inst >> 4) & 0xf) as usize;
        if self.reg[x] == self.reg[y] {
            self.pc = (self.pc + 2) % 4096;
        }
        proof {
            assert(self@ =~= op_skip_eq_reg(old(self)@, field_x(inst), field_y(inst)));
        }
    }

    /// skip-neq register (9xy?): skip the next instruction when `Vx != Vy`.
    pub fn op_9xy0(&mut self, inst: u16)
        requires
            old(self).wf(),
        ensures
            final(self).wf(),
            final(self)@ == op_skip_ne_reg(old(self)@, field_x(inst), field_y(inst)),
    {
        proof {
            lemma_field_bounds(inst);
        }
        let x = ((inst >> 8) & 0xf) as usize;
        let y = ((inst >> 4) & 0xf) as usize;
        if self.reg[x] != self.reg[y] {
            self.pc = (self.pc + 2) % 4096;
        }
        proof {
            assert(self@ =~= op_skip_ne_reg(old(self)@, field_x(inst), field_y(inst)));
        }
    }

    /// load immediate (6xkk): `Vx = kk`.
    pub fn op_6xkk(&mut self, inst: u16)
        requires
            old(self).wf(),
        ensures
            final(self).wf(),
            final(self)@ == op_load_imm(old(self)@, field_x(inst), field_kk(inst)),
    {
        proof {
            lemma_field_bounds(inst);
        }
        let x = ((inst >> 8) & 0xf) as usize;
        let kk = (inst & 0xff) as u8;
        self.reg[x] = kk;
        proof {
            assert(self@ =~= op_load_imm(old(self)@, field_x(inst), field_kk(inst)));
        }
    }

    /// add immediate (7xkk): `Vx = (Vx + kk) mod 256`; no flag side effect.
    pub fn op_7xkk(&mut self, inst: u16)
        requires
            old(self).wf(),
        ensures
            final(self).wf(),
            final(self)@ == op_add_imm(old(self)@, field_x(inst), field_kk(inst)),
    {
        proof {
            lemma_field_bounds(inst);
        }
        let x = ((inst >> 8) & 0xf) as usize;
        let kk = (inst & 0xff) as u16;
        let sum: u16 = self.reg[x] as u16 + kk;
        self.reg[x] = (sum % 256) as u8;
        proof {
            assert(self@ =~= op_add_imm(old(self)@, field_x(inst), field_kk(inst)));
        }
    }

    /// register move (8xy0): `Vx = Vy`.
    pub fn op_8xy0(&mut self, inst: u16)
        requires
            old(self).wf(),
        ensures
            final(self).wf(),
            final(self)@ == op_move(old(self)@, field_x(inst), field_y(inst)),
    {
        proof {
            lemma_field_bounds(inst);
        }
        let x = ((inst >> 8) & 0xf) as usize;
        let y = ((inst >> 4) & 0xf) as usize;
        self.reg[x] = self.reg[y];
        proof {
            assert(self@ =~= op_move(old(self)@, field_x(inst), field_y(inst)));
        }
    }

    /// bitwise or (8xy1): `Vx |= Vy`; the flag register is untouched.
    pub fn op_8xy1(&mut self, inst: u16)
        requires
            old(self).wf(),
        ensures
            final(self).wf(),
            final(self)@ == op_or(old(self)@, field_x(inst), field_y(inst)),
    {
        proof {
            lemma_field_bounds(inst);
        }
        let x = ((inst >> 8) & 0xf) as usize;
        let y = ((inst >> 4) & 0xf) as usize;
        self.reg[x] = self.reg[x] | self.reg[y];
        proof {
            assert(self@ =~= op_or(old(self)@, field_x(inst), field_y(inst)));
        }
    }

    /// bitwise and (8xy2): `Vx &= Vy`; the flag register is untouched.
    pub fn op_8xy2(&mut self, inst: u16)
        requires
            old(self).wf(),
        ensures
            final(self).wf(),
            final(self)@ == op_and(old(self)@, field_x(inst), field_y(inst)),
    {
        proof {
            lemma_field_bounds(inst);
        }
        let x = ((inst >> 8) & 0xf) as usize;
        let y = ((inst >> 4) & 0xf) as usize;
        self.reg[x] = self.reg[x] & self.reg[y];
        proof {
            assert(self@ =~= op_and(old(self)@, field_x(inst), field_y(inst)));
        }
    }

    /// bitwise xor (8xy3): `Vx ^= Vy`; the flag register is untouched.
    pub fn op_8xy3(&mut self, inst: u16)
        requires
            old(self).wf(),
        ensures
            final(self).wf(),
            final(self)@ == op_xor(old(self)@, field_x(inst), field_y(inst)),
    {
        proof {
            lemma_field_bounds(inst);
        }
        let x = ((inst >> 8) & 0xf) as usize;
        let y = ((inst >> 4) & 0xf) as usize;
        self.reg[x] = self.reg[x] ^ self.reg[y];
        proof {
            assert(self@ =~= op_xor(old(self)@, field_x(inst), field_y(inst)));
        }
    }

    /// add register (8xy4): `Vx += Vy` wrapping; VF takes the carry.
    pub fn op_8xy4(&mut self, inst: u16)
        requires
            old(self).wf(),
        ensures
            final(self).wf(),
            final(self)@ == op_add_reg(old(self)@, field_x(inst), field_y(inst)),
    {
        proof {
            lemma_field_bounds(inst);
        }
        let x = ((inst >> 8) & 0xf) as usize;
        let y = ((inst >> 4) & 0xf) as usize;
        self.reg[15] = 0;
        let sum: u16 = self.reg[x] as u16 + self.reg[y] as u16;
        if sum > 255 {
            self.reg[15] = 1;
        }
        self.reg[x] = (sum % 256) as u8;
        proof {
            assert(self@ =~= op_add_reg(old(self)@, field_x(inst), field_y(inst)));
        }
    }

    /// subtract register (8xy5): `Vx -= Vy` wrapping; VF takes "no borrow".
    pub fn op_8xy5(&mut self, inst: u16)
        requires
            old(self).wf(),
        ensures
            final(self).wf(),
            final(self)@ == op_sub_reg(old(self)@, field_x(inst), field_y(inst)),
    {
        proof {
            lemma_field_bounds(inst);
        }
        let x = ((inst >> 8) & 0xf) as usize;
        let y = ((inst >> 4) & 0xf) as usize;
        self.reg[15] = 0;
        let a = self.reg[x];
        let b = self.reg[y];
        if a >= b {
            self.reg[15] = 1;
        }
        self.reg[x] = ((a as u16 + 256 - b as u16) % 256) as u8;
        proof {
            assert(self@ =~= op_sub_reg(old(self)@, field_x(inst), field_y(inst)));
        }
    }

    /// shift right (8xy6): VF takes the pre-shift low bit, then `Vx` halves.
    pub fn op_8xy6(&mut self, inst: u16)
        requires
            old(self).wf(),
        ensures
            final(self).wf(),
            final(self)@ == op_shr(old(self)@, field_x(inst)),
    {
        proof {
            lemma_field_bounds(inst);
        }
        let x = ((inst >> 8) & 0xf) as usize;
        self.reg[15] = self.reg[x] & 1;
        self.reg[x] = self.reg[x] / 2;
        proof {
            assert(self@ =~= op_shr(old(self)@, field_x(inst)));
        }
    }

    /// reverse subtract (8xy7): `Vx = Vy - Vx` wrapping; VF takes
    /// "no borrow".
    pub fn op_8xy7(&mut self, inst: u16)
        requires
            old(self).wf(),
        ensures
            final(self).wf(),
            final(self)@ == op_subn_reg(old(self)@, field_x(inst), field_y(inst)),
    {
        proof {
            lemma_field_bounds(inst);
        }
        let x = ((inst >> 8) & 0xf) as usize;
        let y = ((inst >> 4) & 0xf) as usize;
        self.reg[15] = 0;
        let a = self.reg[x];
        let b = self.reg[y];
        if b >= a {
            self.reg[15] = 1;
        }
        self.reg[x] = ((b as u16 + 256 - a as u16) % 256) as u8;
        proof {
            assert(self@ =~= op_subn_reg(old(self)@, field_x(inst), field_y(inst)));
        }
    }

    /// shift left (8xyE): VF takes the pre-shift high bit, then `Vx`
    /// doubles modulo 256.
    pub fn op_8xye(&mut self, inst: u16)
        requires
            old(self).wf(),
        ensures
            final(self).wf(),
            final(self)@ == op_shl(old(self)@, field_x(inst)),
    {
        proof {
            lemma_field_bounds(inst);
        }
        let x = ((inst >> 8) & 0xf) as usize;
        self.reg[15] = (self.reg[x] >> 7) & 1;
        self.reg[x] = ((self.reg[x] as u16 * 2) % 256) as u8;
        proof {
            assert(self@ =~= op_shl(old(self)@, field_x(inst)));
        }
    }

    /// set-index (Annn): `I = nnn`.
    pub fn op_annn(&mut self, inst: u16)
        requires
            old(self).wf(),
        ensures
            final(self).wf(),
            final(self)@ == op_set_index(old(self)@, field_nnn(inst)),
    {
        self.i = inst & 0xfff;
        proof {
            assert(self@ =~= op_set_index(old(self)@, field_nnn(inst)));
        }
    }

    /// jump-with-offset (Bnnn): `PC = (V0 + nnn) mod 4096`; register 0 is
    /// the base.
    pub fn op_bnnn(&mut self, inst: u16)
        requires
            old(self).wf(),
        ensures
            final(self).wf(),
            final(self)@ == op_jump_v0(old(self)@, field_nnn(inst)),
    {
        proof {
            lemma_field_bounds(inst);
        }
        let nnn = inst & 0xfff;
        self.pc = (self.reg[0] as u16 + nnn) % 4096;
        proof {
            assert(self@ =~= op_jump_v0(old(self)@, field_nnn(inst)));
        }
    }

    /// random (Cxkk): `Vx` takes one generator byte masked with `kk`.  The
    /// byte itself is unconstrained: the contract holds for every outcome.
    pub fn op_cxkk(&mut self, inst: u16)
        requires
            old(self).wf(),
        ensures
            final(self).wf(),
            exists|r: u8|
                final(self)@ == op_rnd(old(self)@, field_x(inst), field_kk(inst), r),
    {
        proof {
            lemma_field_bounds(inst);
        }
        let x = ((inst >> 8) & 0xf) as usize;
        let kk = (inst & 0xff) as u8;
        let drawn: u16 = next_random_u16(&mut self.rand);
        let byte: u8 = (drawn % 256) as u8;
        self.reg[x] = byte & kk;
        proof {
            assert(self@ =~= op_rnd(old(self)@, field_x(inst), field_kk(inst), byte));
        }
    }

    /// skip-if-key (Ex9E): skip the next instruction when the key line
    /// indexed by `Vx` is held.  Reports an invalid key index, and changes
    /// nothing, when `Vx` is 16 or more.
    pub fn op_ex9e(&mut self, inst: u16) -> (r: Result<(), Chip8Error>)
        requires
            old(self).wf(),
        ensures
            final(self).wf(),
            match r {
                Ok(()) => old(self)@.reg[field_x(inst) as int] < 16 && final(self)@ == op_skip_key(
                    old(self)@,
                    field_x(inst),
                ),
                Err(e) => {
                    &&& e == (Chip8Error::InvalidKeyIndex {
                        key: old(self)@.reg[field_x(inst) as int],
                    })
                    &&& old(self)@.reg[field_x(inst) as int] >= 16
                    &&& final(self)@ == old(self)@
                },
            },
    {
        proof {
            lemma_field_bounds(inst);
        }
        let x = ((inst >> 8) & 0xf) as usize;
        let key = self.reg[x];
        if key >= 16 {
            return Err(Chip8Error::InvalidKeyIndex { key });
        }
        if self.keypad[key as usize] {
            self.pc = (self.pc + 2) % 4096;
        }
        proof {
            assert(self@ =~= op_skip_key(old(self)@, field_x(inst)));
        }
        Ok(())
    }

    /// skip-if-no-key (ExA1): skip the next instruction when the key line
    /// indexed by `Vx` is up.  Reports an invalid key index, and changes
    /// nothing, when `Vx` is 16 or more.
    pub fn op_exa1(&mut self, inst: u16) -> (r: Result<(), Chip8Error>)
        requires
            old(self).wf(),
        ensures
            final(self).wf(),
            match r {
                Ok(()) => old(self)@.reg[field_x(inst) as int] < 16 && final(self)@
                    == op_skip_no_key(old(self)@, field_x(inst)),
                Err(e) => {
                    &&& e == (Chip8Error::InvalidKeyIndex {
                        key: old(self)@.reg[field_x(inst) as int],
                    })
                    &&& old(self)@.reg[field_x(inst) as int] >= 16
                    &&& final(self)@ == old(self)@
                },
            },
    {
        proof {
            lemma_field_bounds(inst);
        }
        let x = ((inst >> 8) & 0xf) as usize;
        let key = self.reg[x];
        if key >= 16 {
            return Err(Chip8Error::InvalidKeyIndex { key });
        }
        if !self.keypad[key as usize] {
            self.pc = (self.pc + 2) % 4096;
        }
        proof {
            assert(self@ =~= op_skip_no_key(old(self)@, field_x(inst)));
        }
        Ok(())
    }

    /// get-delay (Fx07): `Vx = DT`.
    pub fn op_fx07(&mut self, inst: u16)
        requires
            old(self).wf(),
        ensures
            final(self).wf(),
            final(self)@ == op_get_delay(old(self)@, field_x(inst)),
    {
        proof {
            lemma_field_bounds(inst);
        }
        let x = ((inst >> 8) & 0xf) as usize;
        self.reg[x] = self.dt;
        proof {
            assert(self@ =~= op_get_delay(old(self)@, field_x(inst)));
        }
    }

    /// set-delay (Fx15): `DT = Vx`, effective before the host's next
    /// 60 Hz decrement.
    pub fn op_fx15(&mut self, inst: u16)
        requires
            old(self).wf(),
        ensures
            final(self).wf(),
            final(self)@ == op_set_delay(old(self)@, field_x(inst)),
    {
        proof {
            lemma_field_bounds(inst);
        }
        let x = ((inst >> 8) & 0xf) as usize;
        self.dt = self.reg[x];
        proof {
            assert(self@ =~= op_set_delay(old(self)@, field_x(inst)));
        }
    }

    /// set-sound (Fx18): `ST = Vx`, effective before the host's next
    /// 60 Hz decrement.
    pub fn op_fx18(&mut self, inst: u16)
        requires
            old(self).wf(),
        ensures
            final(self).wf(),
            final(self)@ == op_set_sound(old(self)@, field_x(inst)),
    {
        proof {
            lemma_field_bounds(inst);
        }
        let x = ((inst >> 8) & 0xf) as usize;
        self.st = self.reg[x];
        proof {
            assert(self@ =~= op_set_sound(old(self)@, field_x(inst)));
        }
    }

    /// add-to-index (Fx1E): `I = (I + Vx) mod 65536`; no flag is defined.
    pub fn op_fx1e(&mut self, inst: u16)
        requires
            old(self).wf(),
        ensures
            final(self).wf(),
            final(self)@ == op_add_index(old(self)@, field_x(inst)),
    {
        proof {
            lemma_field_bounds(inst);
        }
        let x = ((inst >> 8) & 0xf) as usize;
        let sum: u32 = self.i as u32 + self.reg[x] as u32;
        self.i = (sum % 65536) as u16;
        proof {
            assert(self@ =~= op_add_index(old(self)@, field_x(inst)));
        }
    }

    /// font-address (Fx29): `I` points at the five-byte glyph for the
    /// digit in `Vx`.
    pub fn op_fx29(&mut self, inst: u16)
        requires
            old(self).wf(),
        ensures
            final(self).wf(),
            final(self)@ == op_font_addr(old(self)@, field_x(inst)),
    {
        proof {
            lemma_field_bounds(inst);
        }
        let x = ((inst >> 8) & 0xf) as usize;
        self.i = FONT_BASE as u16 + 5 * self.reg[x] as u16;
        proof {
            assert(self@ =~= op_font_addr(old(self)@, field_x(inst)));
        }
    }

    /// store-BCD (Fx33): the decimal digits of `Vx` go to memory at `I`,
    /// `I+1`, `I+2` (hundreds, tens, ones).
    pub fn op_fx33(&mut self, inst: u16)
        requires
            old(self).wf(),
        ensures
            final(self).wf(),
            final(self)@ == op_bcd(old(self)@, field_x(inst)),
    {
        proof {
            lemma_field_bounds(inst);
        }
        let x = ((inst >> 8) & 0xf) as usize;
        let v = self.reg[x];
        let base = self.i as usize;
        self.ram[(base + 2) % 4096] = v % 10;
        self.ram[(base + 1) % 4096] = (v / 10) % 10;
        self.ram[base % 4096] = (v / 100) % 10;
        proof {
            assert(self@ =~= op_bcd(old(self)@, field_x(inst)));
        }
    }

    /// wait-for-key (Fx0A): level-triggered key wait.  If some key line is
    /// held, the lowest-indexed one goes to `Vx`; otherwise the program
    /// counter rewinds one instruction so the opcode runs again next step.
    pub fn op_fx0a(&mut self, inst: u16)
        requires
            old(self).wf(),
        ensures
            final(self).wf(),
            final(self)@ == op_wait_key(old(self)@, field_x(inst)),
    {
        proof {
            lemma_field_bounds(inst);
        }
        let x = ((inst >> 8) & 0xf) as usize;
        let mut k: usize = 0;
        while k < NUM_KEYS
            invariant
                old(self).wf(),
                self == old(self),
                k <= NUM_KEYS,
                x == field_x(inst) as usize,
                x < 16,
                forall|j: int| 0 <= j < k ==> !old(self).keypad@[j],
            decreases NUM_KEYS - k,
        {
            if self.keypad[k] {
                self.reg[x] = k as u8;
                proof {
                    lemma_field_bounds(inst);
                    let keys = old(self).keypad@;
                    assert(0 <= k < 16 && keys[k as int] && (forall|j: int|
                        0 <= j < k ==> !keys[j]));
                    assert(any_key_pressed(keys));
                    let c = lowest_pressed(keys);
                    assert(0 <= c < 16 && keys[c] && (forall|j: int| 0 <= j < c ==> !keys[j]));
                    assert(c == k as int);
                    assert(self@.reg =~= op_wait_key(old(self)@, field_x(inst)).reg);
                    assert(self@ =~= op_wait_key(old(self)@, field_x(inst)));
                }
                return;
            }
            k = k + 1;
        }
        self.pc = (self.pc + 4094) % 4096;
        proof {
            let keys = old(self).keypad@;
            assert(!any_key_pressed(keys));
            assert(self@ =~= op_wait_key(old(self)@, field_x(inst)));
        }
    }

    /// store-registers (Fx55): `V0..Vx` inclusive go to memory starting
    /// at `I`, each address reduced modulo the memory size.
    pub fn op_fx55(&mut self, inst: u16)
        requires
            old(self).wf(),
        ensures
            final(self).wf(),
            final(self)@ == op_store_regs(old(self)@, field_x(inst)),
    {
        proof {
            lemma_field_bounds(inst);
        }
        let x = ((inst >> 8) & 0xf) as usize;
        let base = self.i as usize;
        let mut k: usize = 0;
        while k <= x
            invariant
                old(self).wf(),
                x < 16,
                base == old(self).i,
                k <= x + 1,
                self.ram@.len() == MEM_SIZE,
                self.vram == old(self).vram,
                self.reg == old(self).reg,
                self.i == old(self).i,
                self.pc == old(self).pc,
                self.stack == old(self).stack,
                self.sp == old(self).sp,
                self.dt == old(self).dt,
                self.st == old(self).st,
                self.keypad == old(self).keypad,
                self.rand == old(self).rand,
                forall|a: int|
                    0 <= a < MEM_SIZE ==> self.ram@[a] == (if #[trigger] wrap_off(
                        base as int,
                        a,
                    ) < k {
                        old(self).reg@[wrap_off(base as int, a)]
                    } else {
                        old(self).ram@[a]
                    }),
            decreases x + 1 - k,
        {
            let addr = (base + k) % 4096;
            let val = self.reg[k];
            proof {
                lemma_wrap_forward(base as int, k as int, 4096);
                assert(wrap_off(base as int, addr as int) == k);
                assert forall|a: int|
                    0 <= a < MEM_SIZE && a != addr implies #[trigger] wrap_off(base as int, a)
                    != k by {
                    if wrap_off(base as int, a) == k {
                        lemma_wrap_backward(base as int, a, k as int, 4096);
                    }
                }
            }
            self.ram[addr] = val;
            k = k + 1;
        }
        proof {
            assert(self@.ram =~= op_store_regs(old(self)@, field_x(inst)).ram);
            assert(self@ =~= op_store_regs(old(self)@, field_x(inst)));
        }
    }

    /// read-registers (Fx65): `V0..Vx` inclusive are filled from memory
    /// starting at `I`, each address reduced modulo the memory size.
    pub fn op_fx65(&mut self, inst: u16)
        requires
            old(self).wf(),
        ensures
            final(self).wf(),
            final(self)@ == op_read_regs(old(self)@, field_x(inst)),
    {
        proof {
            lemma_field_bounds(inst);
        }
        let x = ((inst >> 8) & 0xf) as usize;
        let base = self.i as usize;
        let mut k: usize = 0;
        while k <= x
            invariant
                old(self).wf(),
                x < 16,
                base == old(self).i,
                k <= x + 1,
                self.reg@.len() == NUM_REGS,
                self.ram == old(self).ram,
                self.vram == old(self).vram,
                self.i == old(self).i,
                self.pc == old(self).pc,
                self.stack == old(self).stack,
                self.sp == old(self).sp,
                self.dt == old(self).dt,
                self.st == old(self).st,
                self.keypad == old(self).keypad,
                self.rand == old(self).rand,
                forall|j: int|
                    0 <= j < NUM_REGS ==> self.reg@[j] == (if j < k {
                        old(self).ram@[(base + j) % 4096]
                    } else {
                        old(self).reg@[j]
                    }),
            decreases x + 1 - k,
        {
            let addr = (base + k) % 4096;
            self.reg[k] = self.ram[addr];
            k = k + 1;
        }
        proof {
            assert(self@.reg =~= op_read_regs(old(self)@, field_x(inst)).reg);
            assert(self@ =~= op_read_regs(old(self)@, field_x(inst)));
        }
    }

    /// draw (Dxyn): XOR-blit an `n`-row sprite from `memory[I..]` at base
    /// `(Vx mod 64, Vy mod 32)`, wrapping each cell at the screen edges;
    /// VF is rewritten to 1 exactly when a lit cell is flipped unlit.
    pub fn op_dxyn(&mut self, inst: u16)
        requires
            old(self).wf(),
        ensures
            final(self).wf(),
            final(self)@ == op_draw(old(self)@, field_x(inst), field_y(inst), field_n(inst)),
    {
        proof {
            lemma_field_bounds(inst);
        }
        let x = ((inst >> 8) & 0xf) as usize;
        let y = ((inst >> 4) & 0xf) as usize;
        let n = (inst & 0xf) as usize;
        let x0 = (self.reg[x] % 64) as usize;
        let y0 = (self.reg[y] % 32) as usize;
        let base = self.i as usize;
        let ghost pre = self@;
        self.reg[15] = 0;
        let mut rr: usize = 0;
        while rr < n
            invariant
                pre.wf(),
                rr <= n,
                n < 16,
                x0 < 64,
                y0 < 32,
                base == pre.i,
                x0 == pre.reg[field_x(inst) as int] % 64,
                y0 == pre.reg[field_y(inst) as int] % 32,
                n == field_n(inst),
                self.ram@ == pre.ram,
                self.vram@.len() == SCREEN_CELLS,
                self.reg@.len() == NUM_REGS,
                self.i == pre.i,
                self.pc == pre.pc,
                self.stack@ == pre.stack,
                self.sp == pre.sp,
                self.dt == pre.dt,
                self.st == pre.st,
                self.keypad@ == pre.keypad,
                self.rand == old(self).rand,
                forall|j: int| 0 <= j < NUM_REGS && j != 15 ==> self.reg@[j] == pre.reg[j],
                self.reg@[15] <= 1,
                (self.reg@[15] == 1) <==> (exists|r2: int, c2: int|
                    0 <= r2 < rr && 0 <= c2 < 8 && #[trigger] crate::state::collision_at(
                        pre,
                        x0 as int,
                        y0 as int,
                        r2,
                        c2,
                    )),
                forall|k: int|
                    0 <= k < SCREEN_CELLS ==> self.vram@[k] == (if wrap_off64(x0 as int, k / 32)
                        < 8 && wrap_off32(y0 as int, k % 32) < rr {
                        pre.vram[k] ^ crate::state::sprite_bit(
                            crate::state::sprite_row(pre, wrap_off32(y0 as int, k % 32)),
                            wrap_off64(x0 as int, k / 32),
                        )
                    } else {
                        pre.vram[k]
                    }),
                forall|k: int| 0 <= k < SCREEN_CELLS ==> self.vram@[k] <= 1,
            decreases n - rr,
        {
            let byte = self.ram[(base + rr) % 4096];
            let yy = (y0 + rr) % 32;
            let mut cc: usize = 0;
            while cc < 8
                invariant
                    pre.wf(),
                    rr < n,
                    cc <= 8,
                    n < 16,
                    x0 < 64,
                    y0 < 32,
                    base == pre.i,
                    x0 == pre.reg[field_x(inst) as int] % 64,
                    y0 == pre.reg[field_y(inst) as int] % 32,
                    n == field_n(inst),
                    yy == (y0 + rr) % 32,
                    byte == crate::state::sprite_row(pre, rr as int),
                    self.ram@ == pre.ram,
                    self.vram@.len() == SCREEN_CELLS,
                    self.reg@.len() == NUM_REGS,
                    self.i == pre.i,
                    self.pc == pre.pc,
                    self.stack@ == pre.stack,
                    self.sp == pre.sp,
                    self.dt == pre.dt,
                    self.st == pre.st,
                    self.keypad@ == pre.keypad,
                    self.rand == old(self).rand,
                    forall|j: int| 0 <= j < NUM_REGS && j != 15 ==> self.reg@[j] == pre.reg[j],
                    self.reg@[15] <= 1,
                    (self.reg@[15] == 1) <==> (exists|r2: int, c2: int|
                        0 <= r2 < rr && 0 <= c2 < 8 && #[trigger] crate::state::collision_at(
                            pre,
                            x0 as int,
                            y0 as int,
                            r2,
                            c2,
                        )) || (exists|c2: int|
                        0 <= c2 < cc && #[trigger] crate::state::collision_at(
                            pre,
                            x0 as int,
                            y0 as int,
                            rr as int,
                            c2,
                        )),
                    forall|k: int|
                        0 <= k < SCREEN_CELLS ==> self.vram@[k] == (if wrap_off64(
                            x0 as int,
                            k / 32,
                        ) < 8 && wrap_off32(y0 as int, k % 32) < rr {
                            pre.vram[k] ^ crate::state::sprite_bit(
                                crate::state::sprite_row(pre, wrap_off32(y0 as int, k % 32)),
                                wrap_off64(x0 as int, k / 32),
                            )
                        } else if wrap_off64(x0 as int, k / 32) < cc && wrap_off32(
                            y0 as int,
                            k % 32,
                        ) == rr {
                            pre.vram[k] ^ crate::state::sprite_bit(
                                crate::state::sprite_row(pre, rr as int),
                                wrap_off64(x0 as int, k / 32),
                            )
                        } else {
                            pre.vram[k]
                        }),
                    forall|k: int| 0 <= k < SCREEN_CELLS ==> self.vram@[k] <= 1,
                decreases 8 - cc,
            {
                let px = (byte >> ((7 - cc) as u8)) & 1;
                let xx = (x0 + cc) % 64;
                let cell = xx * 32 + yy;
                proof {
                    assert(px <= 1) by {
                        let sh = (7 - cc) as u8;
                        assert((byte >> sh) & 1 <= 1) by (bit_vector);
                    }
                    vstd::arithmetic::div_mod::lemma_fundamental_div_mod(cell as int, 32);
                    assert(cell / 32 == xx && cell % 32 == yy) by (nonlinear_arith)
                        requires
                            cell == xx * 32 + yy,
                            0 <= yy < 32,
                            0 <= xx,
                    ;
                    lemma_wrap_forward(x0 as int, cc as int, 64);
                    lemma_wrap_forward(y0 as int, rr as int, 32);
                    assert(wrap_off64(x0 as int, cell as int / 32) == cc);
                    assert(wrap_off32(y0 as int, cell as int % 32) == rr);
                }
                proof {
                    assert(crate::state::cell_index(
                        (x0 as int + cc) % 64,
                        (y0 as int + rr) % 32,
                    ) == cell);
                }
                let lit = self.vram[cell];
                if lit == 1 && px == 1 {
                    self.reg[15] = 1;
                    proof {
                        assert(crate::state::collision_at(pre, x0 as int, y0 as int, rr as int,
                            cc as int));
                    }
                } else {
                    proof {
                        assert(!crate::state::collision_at(pre, x0 as int, y0 as int, rr as int,
                            cc as int));
                    }
                }
                self.vram[cell] = lit ^ px;
                proof {
                    assert(lit ^ px <= 1) by {
                        let l = lit;
                        let p = px;
                        assert(l <= 1 && p <= 1 ==> (l ^ p) <= 1) by (bit_vector);
                    }
                    assert forall|k: int| 0 <= k < SCREEN_CELLS implies #[trigger] self.vram@[k]
                        == (if wrap_off64(x0 as int, k / 32) < 8 && wrap_off32(y0 as int, k % 32)
                        < rr {
                        pre.vram[k] ^ crate::state::sprite_bit(
                            crate::state::sprite_row(pre, wrap_off32(y0 as int, k % 32)),
                            wrap_off64(x0 as int, k / 32),
                        )
                    } else if wrap_off64(x0 as int, k / 32) < cc + 1 && wrap_off32(
                        y0 as int,
                        k % 32,
                    ) == rr {
                        pre.vram[k] ^ crate::state::sprite_bit(
                            crate::state::sprite_row(pre, rr as int),
                            wrap_off64(x0 as int, k / 32),
                        )
                    } else {
                        pre.vram[k]
                    }) by {
                        if k != cell && wrap_off64(x0 as int, k / 32) == cc && wrap_off32(
                            y0 as int,
                            k % 32,
                        ) == rr {
                            vstd::arithmetic::div_mod::lemma_fundamental_div_mod(k, 32);
                            vstd::arithmetic::div_mod::lemma_mod_division_less_than_divisor(k, 32);
                            assert(0 <= k / 32 < 64) by (nonlinear_arith)
                                requires
                                    0 <= k < 2048,
                            ;
                            lemma_wrap_backward(x0 as int, k / 32, cc as int, 64);
                            lemma_wrap_backward(y0 as int, k % 32, rr as int, 32);
                            assert(k == cell);
                        }
                    }
                }
                cc = cc + 1;
            }
            rr = rr + 1;
        }
        proof {
            let s = old(self)@;
            let fx = field_x(inst);
            let fy = field_y(inst);
            let fnn = field_n(inst);
            let gx0 = s.reg[fx as int] as int % 64;
            let gy0 = s.reg[fy as int] as int % 32;
            assert(gx0 == x0 && gy0 == y0);
            assert(self@.vram =~= crate::state::draw_vram(s, gx0, gy0, fnn as int));
            assert((self.reg@[15] == 1) <==> crate::state::draw_collides(s, gx0, gy0, fnn as int));
            assert(self@.reg =~= op_draw(s, fx, fy, fnn).reg);
            assert(self@ =~= op_draw(s, fx, fy, fnn));
        }
    }

    /// One 60 Hz timer tick, driven by the host independently of the
    /// instruction rate: each timer goes down by one and floors at zero.
    pub fn tick_timers(&mut self)
        requires
            old(self).wf(),
        ensures
            final(self).wf(),
            final(self).dt == (if old(self).dt > 0 {
                (old(self).dt - 1) as u8
            } else {
                0u8
            }),
            final(self).st == (if old(self).st > 0 {
                (old(self).st - 1) as u8
            } else {
                0u8
            }),
            final(self)@ == (CpuState { dt: final(self).dt, st: final(self).st, ..old(self)@ }),
    {
        if self.dt > 0 {
            self.dt = self.dt - 1;
        }
        if self.st > 0 {
            self.st = self.st - 1;
        }
        proof {
            assert(self@ =~= (CpuState { dt: self.dt, st: self.st, ..old(self)@ }));
        }
    }

    /// Fetch, decode and execute exactly one instruction.
    ///
    /// The two bytes at the program counter are combined big-endian, the
    /// counter advances by two, and the decoded operation's effect is
    /// applied; an unrecognized encoding, a stack fault or an out-of-range
    /// key index is reported instead and leaves the machine untouched.
    /// The contract is exact up to the byte the generator hands a `random`
    /// opcode: for some such byte the machine lands exactly on the state
    /// the abstract step [`spec_step`] gives.
    pub fn step(&mut self) -> (r: Result<(), Chip8Error>)
        requires
            old(self).wf(),
        ensures
            final(self).wf(),
            exists|rb: u8| #[trigger] step_rel(old(self)@, rb, final(self)@, r),
            r matches Err(_) ==> final(self)@ == old(self)@,
    {
        let pc0 = self.pc;
        let hi = self.ram[pc0 as usize];
        let lo = self.ram[(pc0 as usize + 1) % 4096];
        let w: u16 = ((hi as u16) << 8) | (lo as u16);
        proof {
            assert(w == word_at(old(self)@));
        }
        let op = match decode_word(w) {
            Some(op) => op,
            None => {
                let e = Chip8Error::IllegalOpcode { word: w, pc: pc0 };
                proof {
                    assert(step_rel(old(self)@, 0u8, self@, Err::<(), Chip8Error>(e)));
                }
                return Err(e);
            },
        };
        self.pc = (self.pc + 2) % 4096;
        let ghost mid = self@;
        proof {
            assert(mid =~= (CpuState { pc: crate::state::adv(old(self)@.pc), ..old(self)@ }));
        }
        match op {
            Op::Cls => self.op_00e0(w),
            Op::Ret => {
                if let Err(e) = self.op_00ee(w) {
                    self.pc = pc0;
                    proof {
                        assert(self@ =~= old(self)@);
                        assert(step_rel(old(self)@, 0u8, self@, Err::<(), Chip8Error>(e)));
                    }
                    return Err(e);
                }
            },
            Op::Jump { .. } => self.op_1nnn(w),
            Op::Call { .. } => {
                if let Err(e) = self.op_2nnn(w) {
                    self.pc = pc0;
                    proof {
                        assert(self@ =~= old(self)@);
                        assert(step_rel(old(self)@, 0u8, self@, Err::<(), Chip8Error>(e)));
                    }
                    return Err(e);
                }
            },
            Op::SkipEqImm { .. } => self.op_3xkk(w),
            Op::SkipNeImm { .. } => self.op_4xkk(w),
            Op::SkipEqReg { .. } => self.op_5xy0(w),
            Op::LoadImm { .. } => self.op_6xkk(w),
            Op::AddImm { .. } => self.op_7xkk(w),
            Op::Move { .. } => self.op_8xy0(w),
            Op::Or { .. } => self.op_8xy1(w),
            Op::And { .. } => self.op_8xy2(w),
            Op::Xor { .. } => self.op_8xy3(w),
            Op::AddReg { .. } => self.op_8xy4(w),
            Op::SubReg { .. } => self.op_8xy5(w),
            Op::Shr { .. } => self.op_8xy6(w),
            Op::SubnReg { .. } => self.op_8xy7(w),
            Op::Shl { .. } => self.op_8xye(w),
            Op::SkipNeReg { .. } => self.op_9xy0(w),
            Op::SetIndex { .. } => self.op_annn(w),
            Op::JumpV0 { .. } => self.op_bnnn(w),
            Op::Rnd { .. } => self.op_cxkk(w),
            Op::Draw { .. } => self.op_dxyn(w),
            Op::SkipKey { .. } => {
                if let Err(e) = self.op_ex9e(w) {
                    self.pc = pc0;
                    proof {
                        assert(self@ =~= old(self)@);
                        assert(step_rel(old(self)@, 0u8, self@, Err::<(), Chip8Error>(e)));
                    }
                    return Err(e);
                }
            },
            Op::SkipNoKey { .. } => {
                if let Err(e) = self.op_exa1(w) {
                    self.pc = pc0;
                    proof {
                        assert(self@ =~= old(self)@);
                        assert(step_rel(old(self)@, 0u8, self@, Err::<(), Chip8Error>(e)));
                    }
                    return Err(e);
                }
            },
            Op::GetDelay { .. } => self.op_fx07(w),
            Op::WaitKey { .. } => self.op_fx0a(w),
            Op::SetDelay { .. } => self.op_fx15(w),
            Op::SetSound { .. } => self.op_fx18(w),
            Op::AddIndex { .. } => self.op_fx1e(w),
            Op::FontAddr { .. } => self.op_fx29(w),
            Op::Bcd { .. } => self.op_fx33(w),
            Op::StoreRegs { .. } => self.op_fx55(w),
            Op::ReadRegs { .. } => self.op_fx65(w),
        }
        proof {
            let pre = old(self)@;
            match op {
                Op::Rnd { .. } => {
                    let rb = choose|r: u8|
                        self@ == crate::state::op_rnd(mid, field_x(w), field_kk(w), r);
                    assert(self@ == crate::state::op_rnd(mid, field_x(w), field_kk(w), rb));
                    assert(step_rel(pre, rb, self@, Ok::<(), Chip8Error>(())));
                },
                _ => {
                    assert(step_rel(pre, 0u8, self@, Ok::<(), Chip8Error>(())));
                },
            }
        }
        Ok(())
    }
}

} // verus!
