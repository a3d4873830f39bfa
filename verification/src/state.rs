//! The mathematical model of the machine.
//!
//! [`CpuState`] mirrors the executable interpreter field for field, with
//! sequences in place of vectors, and one spec function per operation gives
//! the exact state each opcode produces.  The executable code in
//! [`crate::cpu`] is proved to follow these functions.
//!
//! Documented design choices of this implementation:
//! - the address space is 12 bits wide: the program counter and every
//!   memory-indexed access are reduced modulo the 4096-byte memory size,
//!   so no opcode can read or write outside the memory image;
//! - `jump-with-offset` uses register 0 as its base (the canonical variant);
//! - the call stack keeps slot 0 unused: a `call` first advances the stack
//!   pointer and then stores the return address, so at most 15 calls can be
//!   outstanding and a 16th fails with a stack overflow;
//! - the built-in hexadecimal font lives at addresses 100..180, five bytes
//!   per glyph, which is inside the reserved low region.

use vstd::prelude::*;

verus! {

/// Size of the flat memory image in bytes.
pub const MEM_SIZE: usize = 4096;

/// First address at which a program image is loaded.
pub const LOAD_BASE: usize = 512;

/// Framebuffer width in cells.
pub const SCREEN_W: usize = 64;

/// Framebuffer height in cells.
pub const SCREEN_H: usize = 32;

/// Number of framebuffer cells.
pub const SCREEN_CELLS: usize = 2048;

/// Number of general-purpose registers.
pub const NUM_REGS: usize = 16;

/// Number of call-stack slots.
pub const STACK_SLOTS: usize = 16;

/// Number of key lines on the pad.
pub const NUM_KEYS: usize = 16;

/// Address of the first byte of the built-in hexadecimal font.
pub const FONT_BASE: usize = 100;

/// The abstract machine state: what the interpreter's contracts speak of.
///
/// The pseudo-random generator is deliberately absent: its state is not
/// semantically load-bearing, and the contract of the `random` opcode holds
/// for every byte the generator may produce.
#[verifier::ext_equal]
pub struct CpuState {
    /// The flat memory image, `MEM_SIZE` bytes.
    pub ram: Seq<u8>,
    /// The framebuffer, row-major by column: cell `(x, y)` is `vram[x * 32 + y]`.
    pub vram: Seq<u8>,
    /// The 16 general-purpose registers V0..VF.
    pub reg: Seq<u8>,
    /// The 16-bit index register I.
    pub i: u16,
    /// The program counter, always below `MEM_SIZE`.
    pub pc: u16,
    /// The call stack, `STACK_SLOTS` slots; slot 0 is never used.
    pub stack: Seq<u16>,
    /// The stack pointer: index of the topmost used slot, 0 when empty.
    pub sp: u8,
    /// The delay timer.
    pub dt: u8,
    /// The sound timer; a nonzero value is the tone-enable signal.
    pub st: u8,
    /// The 16 key lines, true while the host holds the key down.
    pub keypad: Seq<bool>,
}

impl CpuState {
    /// Structural well-formedness: the sizes are fixed, the stack pointer
    /// stays within the stack, the program counter stays within memory,
    /// and every framebuffer cell is a bit.
    pub open spec fn wf(self) -> bool {
        &&& self.ram.len() == MEM_SIZE
        &&& self.vram.len() == SCREEN_CELLS
        &&& self.reg.len() == NUM_REGS
        &&& self.stack.len() == STACK_SLOTS
        &&& self.keypad.len() == NUM_KEYS
        &&& self.sp < STACK_SLOTS
        &&& self.pc < MEM_SIZE
        &&& forall|k: int| 0 <= k < STACK_SLOTS ==> self.stack[k] < MEM_SIZE
        &&& forall|k: int| 0 <= k < SCREEN_CELLS ==> self.vram[k] <= 1
    }
}

/// Flat framebuffer index of cell `(x, y)`.
pub open spec fn cell_index(x: int, y: int) -> int {
    x * 32 + y
}

/// An all-unlit framebuffer.
pub open spec fn blank_vram() -> Seq<u8> {
    Seq::new(SCREEN_CELLS as nat, |k: int| 0u8)
}

/// The built-in hexadecimal digit font: glyphs for 0..F, five bytes each.
pub open spec fn font_seq() -> Seq<u8> {
    seq![
        0xF0u8, 0x90, 0x90, 0x90, 0xF0, // 0
        0x20, 0x60, 0x20, 0x20, 0x70, // 1
        0xF0, 0x10, 0xF0, 0x80, 0xF0, // 2
        0xF0, 0x10, 0xF0, 0x10, 0xF0, // 3
        0x90, 0x90, 0xF0, 0x10, 0x10, // 4
        0xF0, 0x80, 0xF0, 0x10, 0xF0, // 5
        0xF0, 0x80, 0xF0, 0x90, 0xF0, // 6
        0xF0, 0x10, 0x20, 0x40, 0x40, // 7
        0xF0, 0x90, 0xF0, 0x90, 0xF0, // 8
        0xF0, 0x90, 0xF0, 0x10, 0xF0, // 9
        0xF0, 0x90, 0xF0, 0x90, 0x90, // A
        0xE0, 0x90, 0xE0, 0x90, 0xE0, // B
        0xF0, 0x80, 0x80, 0x80, 0xF0, // C
        0xE0, 0x90, 0x90, 0x90, 0xE0, // D
        0xF0, 0x80, 0xF0, 0x80, 0xF0, // E
        0xF0, 0x80, 0xF0, 0x80, 0x80, // F
    ]
}

/// The memory image right after construction: all zero except the font.
pub open spec fn init_ram() -> Seq<u8> {
    Seq::new(
        MEM_SIZE as nat,
        |a: int|
            if FONT_BASE <= a < FONT_BASE + 80 {
                font_seq()[a - FONT_BASE]
            } else {
                0u8
            },
    )
}

/// The machine state right after construction.
pub open spec fn init_state() -> CpuState {
    CpuState {
        ram: init_ram(),
        vram: blank_vram(),
        reg: Seq::new(NUM_REGS as nat, |k: int| 0u8),
        i: 0,
        pc: 512,
        stack: Seq::new(STACK_SLOTS as nat, |k: int| 0u16),
        sp: 0,
        dt: 0,
        st: 0,
        keypad: Seq::new(NUM_KEYS as nat, |k: int| false),
    }
}

/// The state after loading a program image: the bytes sit at
/// `LOAD_BASE..LOAD_BASE + len`, everything else is untouched.
pub open spec fn loaded(s: CpuState, rom: Seq<u8>) -> CpuState {
    CpuState {
        ram: Seq::new(
            MEM_SIZE as nat,
            |a: int|
                if LOAD_BASE <= a < LOAD_BASE + rom.len() {
                    rom[a - LOAD_BASE]
                } else {
                    s.ram[a]
                },
        ),
        ..s
    }
}

/// The program counter after the base advance of one instruction,
/// modulo the 12-bit address space.
pub open spec fn adv(pc: u16) -> u16 {
    ((pc + 2) % 4096) as u16
}

/// The program counter after rewinding one instruction (used by the
/// key-wait opcode to re-execute itself).
pub open spec fn rewind(pc: u16) -> u16 {
    ((pc + 4094) % 4096) as u16
}

/// Rewinding directly after the base advance lands back on the same
/// instruction: how the key-wait opcode spins in place.
pub proof fn lemma_rewind_adv(pc: u16)
    requires
        pc < 4096,
    ensures
        rewind(adv(pc)) == pc,
{
    vstd::arithmetic::div_mod::lemma_mod_division_less_than_divisor(pc + 2, 4096);
    vstd::arithmetic::div_mod::lemma_add_mod_noop(pc + 2, 4094, 4096);
    vstd::arithmetic::div_mod::lemma_small_mod(4094nat, 4096nat);
    assert(((pc + 2) % 4096 + 4094) % 4096 == (pc + 4096) % 4096);
    vstd::arithmetic::div_mod::lemma_mod_add_multiples_vanish(pc as int, 4096);
    vstd::arithmetic::div_mod::lemma_small_mod(pc as nat, 4096nat);
}

/// clear-screen: every framebuffer cell goes unlit.
pub open spec fn op_cls(s: CpuState) -> CpuState {
    CpuState { vram: blank_vram(), ..s }
}

/// return: the program counter comes back from the topmost stack slot.
/// Meaningful only when the stack is nonempty; `step` reports a stack
/// underflow otherwise.
pub open spec fn op_ret(s: CpuState) -> CpuState {
    CpuState { pc: s.stack[s.sp as int], sp: (s.sp - 1) as u8, ..s }
}

/// jump: the program counter is set to `nnn`.
pub open spec fn op_jump(s: CpuState, nnn: u16) -> CpuState {
    CpuState { pc: nnn, ..s }
}

/// call: the stack pointer advances, the return address is stored in the
/// newly claimed slot, and the program counter is set to `nnn`.
/// Meaningful only when a slot is free; `step` reports overflow otherwise.
pub open spec fn op_call(s: CpuState, nnn: u16) -> CpuState {
    CpuState {
        sp: (s.sp + 1) as u8,
        stack: s.stack.update(s.sp + 1, s.pc),
        pc: nnn,
        ..s
    }
}

/// skip-eq immediate: skip the next instruction when `Vx == kk`.
pub open spec fn op_skip_eq_imm(s: CpuState, x: u8, kk: u8) -> CpuState {
    if s.reg[x as int] == kk {
        CpuState { pc: adv(s.pc), ..s }
    } else {
        s
    }
}

/// skip-neq immediate: skip the next instruction when `Vx != kk`.
pub open spec fn op_skip_ne_imm(s: CpuState, x: u8, kk: u8) -> CpuState {
    if s.reg[x as int] != kk {
        CpuState { pc: adv(s.pc), ..s }
    } else {
        s
    }
}

/// skip-eq register: skip the next instruction when `Vx == Vy`.
pub open spec fn op_skip_eq_reg(s: CpuState, x: u8, y: u8) -> CpuState {
    if s.reg[x as int] == s.reg[y as int] {
        CpuState { pc: adv(s.pc), ..s }
    } else {
        s
    }
}

/// skip-neq register: skip the next instruction when `Vx != Vy`.
pub open spec fn op_skip_ne_reg(s: CpuState, x: u8, y: u8) -> CpuState {
    if s.reg[x as int] != s.reg[y as int] {
        CpuState { pc: adv(s.pc), ..s }
    } else {
        s
    }
}

/// load immediate: `Vx = kk`.
pub open spec fn op_load_imm(s: CpuState, x: u8, kk: u8) -> CpuState {
    CpuState { reg: s.reg.update(x as int, kk), ..s }
}

/// add immediate: `Vx = (Vx + kk) mod 256`; the flag register is untouched.
pub open spec fn op_add_imm(s: CpuState, x: u8, kk: u8) -> CpuState {
    CpuState { reg: s.reg.update(x as int, ((s.reg[x as int] + kk) % 256) as u8), ..s }
}

/// register move: `Vx = Vy`.
pub open spec fn op_move(s: CpuState, x: u8, y: u8) -> CpuState {
    CpuState { reg: s.reg.update(x as int, s.reg[y as int]), ..s }
}

/// bitwise or: `Vx |= Vy`.
pub open spec fn op_or(s: CpuState, x: u8, y: u8) -> CpuState {
    CpuState { reg: s.reg.update(x as int, s.reg[x as int] | s.reg[y as int]), ..s }
}

/// bitwise and: `Vx &= Vy`.
pub open spec fn op_and(s: CpuState, x: u8, y: u8) -> CpuState {
    CpuState { reg: s.reg.update(x as int, s.reg[x as int] & s.reg[y as int]), ..s }
}

/// bitwise xor: `Vx ^= Vy`.
pub open spec fn op_xor(s: CpuState, x: u8, y: u8) -> CpuState {
    CpuState { reg: s.reg.update(x as int, s.reg[x as int] ^ s.reg[y as int]), ..s }
}

/// add register: the flag register is cleared first, then the operands are
/// read, VF reports a carry out of 8 bits, and `Vx` takes the wrapped sum.
/// When `x` is 15 the stored sum overwrites the flag.
pub open spec fn op_add_reg(s: CpuState, x: u8, y: u8) -> CpuState {
    let r0 = s.reg.update(15, 0u8);
    let sum = r0[x as int] + r0[y as int];
    let r1 = if sum > 255 {
        r0.update(15, 1u8)
    } else {
        r0
    };
    CpuState { reg: r1.update(x as int, (sum % 256) as u8), ..s }
}

/// subtract register: the flag register is cleared first, then VF reports
/// "no borrow" (`Vx >= Vy`), and `Vx` takes the wrapped difference.
pub open spec fn op_sub_reg(s: CpuState, x: u8, y: u8) -> CpuState {
    let r0 = s.reg.update(15, 0u8);
    let a = r0[x as int];
    let b = r0[y as int];
    let r1 = if a >= b {
        r0.update(15, 1u8)
    } else {
        r0
    };
    CpuState { reg: r1.update(x as int, ((a - b + 256) % 256) as u8), ..s }
}

/// reverse subtract: the flag register is cleared first, then VF reports
/// "no borrow" (`Vy >= Vx`), and `Vx` takes the wrapped `Vy - Vx`.
pub open spec fn op_subn_reg(s: CpuState, x: u8, y: u8) -> CpuState {
    let r0 = s.reg.update(15, 0u8);
    let a = r0[x as int];
    let b = r0[y as int];
    let r1 = if b >= a {
        r0.update(15, 1u8)
    } else {
        r0
    };
    CpuState { reg: r1.update(x as int, ((b - a + 256) % 256) as u8), ..s }
}

/// shift right: VF takes the pre-shift low bit, then `Vx` is shifted.
/// When `x` is 15 the shift reads the freshly written flag.
pub open spec fn op_shr(s: CpuState, x: u8) -> CpuState {
    let r0 = s.reg.update(15, s.reg[x as int] & 1);
    CpuState { reg: r0.update(x as int, (r0[x as int] / 2) as u8), ..s }
}

/// shift left: VF takes the pre-shift high bit, then `Vx` is shifted.
/// When `x` is 15 the shift reads the freshly written flag.
pub open spec fn op_shl(s: CpuState, x: u8) -> CpuState {
    let r0 = s.reg.update(15, (s.reg[x as int] >> 7) & 1);
    CpuState { reg: r0.update(x as int, ((r0[x as int] * 2) % 256) as u8), ..s }
}

/// set-index: `I = nnn`.
pub open spec fn op_set_index(s: CpuState, nnn: u16) -> CpuState {
    CpuState { i: nnn, ..s }
}

/// jump-with-offset: `PC = (V0 + nnn) mod 4096`; register 0 is the base.
pub open spec fn op_jump_v0(s: CpuState, nnn: u16) -> CpuState {
    CpuState { pc: ((s.reg[0] + nnn) % 4096) as u16, ..s }
}

/// random: `Vx = r & kk` for the byte `r` the generator produced.
pub open spec fn op_rnd(s: CpuState, x: u8, kk: u8, r: u8) -> CpuState {
    CpuState { reg: s.reg.update(x as int, r & kk), ..s }
}

/// get-delay: `Vx = DT`.
pub open spec fn op_get_delay(s: CpuState, x: u8) -> CpuState {
    CpuState { reg: s.reg.update(x as int, s.dt), ..s }
}

/// set-delay: `DT = Vx`.
pub open spec fn op_set_delay(s: CpuState, x: u8) -> CpuState {
    CpuState { dt: s.reg[x as int], ..s }
}

/// set-sound: `ST = Vx`.
pub open spec fn op_set_sound(s: CpuState, x: u8) -> CpuState {
    CpuState { st: s.reg[x as int], ..s }
}

/// add-to-index: `I = (I + Vx) mod 65536`; no flag is defined.
pub open spec fn op_add_index(s: CpuState, x: u8) -> CpuState {
    CpuState { i: ((s.i + s.reg[x as int]) % 65536) as u16, ..s }
}

/// font-address: `I = FONT_BASE + 5 * Vx`.  Values of `Vx` above 15 point
/// past the glyph table, exactly as the register value dictates.
pub open spec fn op_font_addr(s: CpuState, x: u8) -> CpuState {
    CpuState { i: (FONT_BASE + 5 * s.reg[x as int]) as u16, ..s }
}

/// store-BCD: the decimal digits of `Vx` go to memory at `I`, `I+1`, `I+2`
/// (hundreds, tens, ones), each address reduced modulo the memory size.
pub open spec fn op_bcd(s: CpuState, x: u8) -> CpuState {
    let v = s.reg[x as int];
    CpuState {
        ram: s.ram
            .update((s.i + 2) as int % 4096, (v % 10) as u8)
            .update((s.i + 1) as int % 4096, ((v / 10) % 10) as u8)
            .update(s.i as int % 4096, ((v / 100) % 10) as u8),
        ..s
    }
}

/// The offset, modulo the memory size, of address `a` from a base address:
/// the register index whose slot `a` is during a block transfer.
pub open spec fn wrap_off(base: int, a: int) -> int {
    (a - base) % 4096
}

/// store-registers: `V0..Vx` inclusive go to memory starting at `I`, each
/// address reduced modulo the memory size.
pub open spec fn op_store_regs(s: CpuState, x: u8) -> CpuState {
    CpuState {
        ram: Seq::new(
            MEM_SIZE as nat,
            |a: int|
                if wrap_off(s.i as int, a) <= x {
                    s.reg[wrap_off(s.i as int, a)]
                } else {
                    s.ram[a]
                },
        ),
        ..s
    }
}

/// read-registers: `V0..Vx` inclusive are filled from memory starting at
/// `I`, each address reduced modulo the memory size.
pub open spec fn op_read_regs(s: CpuState, x: u8) -> CpuState {
    CpuState {
        reg: Seq::new(
            NUM_REGS as nat,
            |k: int|
                if k <= x {
                    s.ram[(s.i + k) as int % 4096]
                } else {
                    s.reg[k]
                },
        ),
        ..s
    }
}

/// Offsetting a base by `k < m` and reducing modulo `m` can be undone:
/// the written address maps back to the offset it was written for.
pub proof fn lemma_wrap_forward(i: int, k: int, m: int)
    requires
        m > 0,
        0 <= k < m,
        0 <= i,
    ensures
        0 <= (i + k) % m < m,
        (((i + k) % m) - i) % m == k,
{
    let q = i / m;
    let im = i % m;
    vstd::arithmetic::div_mod::lemma_fundamental_div_mod(i, m);
    vstd::arithmetic::div_mod::lemma_mod_division_less_than_divisor(i, m);
    vstd::arithmetic::div_mod::lemma_mod_division_less_than_divisor(i + k, m);
    assert(m * q + (im + k) == i + k);
    vstd::arithmetic::div_mod::lemma_mod_multiples_vanish(q, im + k, m);
    assert((i + k) % m == (im + k) % m);
    let a = (im + k) % m;
    vstd::arithmetic::div_mod::lemma_small_mod(k as nat, m as nat);
    if im + k < m {
        vstd::arithmetic::div_mod::lemma_small_mod((im + k) as nat, m as nat);
        assert(a == im + k);
        assert(m * (-q) + k == a - i) by (nonlinear_arith)
            requires
                a == im + k,
                i == m * q + im,
        ;
        vstd::arithmetic::div_mod::lemma_mod_multiples_vanish(-q, k, m);
        assert((a - i) % m == k);
    } else {
        vstd::arithmetic::div_mod::lemma_mod_sub_multiples_vanish(im + k, m);
        vstd::arithmetic::div_mod::lemma_small_mod((im + k - m) as nat, m as nat);
        assert(a == im + k - m);
        assert(m * (-q - 1) + k == a - i) by (nonlinear_arith)
            requires
                a == im + k - m,
                i == m * q + im,
        ;
        vstd::arithmetic::div_mod::lemma_mod_multiples_vanish(-q - 1, k, m);
        assert((a - i) % m == k);
    }
}

/// An address below `m` whose distance from the base reduces to `k` is
/// exactly the address the offset `k` maps to.
pub proof fn lemma_wrap_backward(i: int, a: int, k: int, m: int)
    requires
        m > 0,
        0 <= a < m,
        0 <= k < m,
        0 <= i,
        (a - i) % m == k,
    ensures
        a == (i + k) % m,
{
    vstd::arithmetic::div_mod::lemma_fundamental_div_mod(a - i, m);
    let q = (a - i) / m;
    assert(a - i == m * q + k);
    assert(i + k == a - m * q);
    vstd::arithmetic::div_mod::lemma_mod_multiples_vanish(-q, a, m);
    assert((a - m * q) % m == a % m) by {
        assert(a - m * q == m * (-q) + a) by (nonlinear_arith);
    }
    vstd::arithmetic::div_mod::lemma_small_mod(a as nat, m as nat);
}

/// The bit of sprite byte `b` for column `c` (column 0 is the high bit).
pub open spec fn sprite_bit(b: u8, c: int) -> u8 {
    (b >> ((7 - c) as u8)) & 1
}

/// The column distance, modulo the screen width, of column `a` from a
/// draw base column: which sprite column lands on `a`.
pub open spec fn wrap_off64(base: int, a: int) -> int {
    (a - base) % 64
}

/// The row distance, modulo the screen height, of row `a` from a draw
/// base row: which sprite row lands on `a`.
pub open spec fn wrap_off32(base: int, a: int) -> int {
    (a - base) % 32
}

/// The sprite byte for row `rr`, read at `I + rr` modulo the memory size.
pub open spec fn sprite_row(s: CpuState, rr: int) -> u8 {
    s.ram[(s.i + rr) as int % 4096]
}

/// Whether the sprite bit for `(rr, cc)` lands on an already-lit cell.
pub open spec fn collision_at(s: CpuState, x0: int, y0: int, rr: int, cc: int) -> bool {
    s.vram[cell_index((x0 + cc) % 64, (y0 + rr) % 32)] == 1 && sprite_bit(sprite_row(s, rr), cc)
        == 1
}

/// Whether drawing an `n`-row sprite at base `(x0, y0)` flips some lit cell:
/// some sprite bit is 1 over a cell that is already lit.
pub open spec fn draw_collides(s: CpuState, x0: int, y0: int, n: int) -> bool {
    exists|rr: int, cc: int|
        0 <= rr < n && 0 <= cc < 8 && #[trigger] collision_at(s, x0, y0, rr, cc)
}

/// The framebuffer after the XOR blit of an `n`-row sprite at `(x0, y0)`.
/// A cell `(xx, yy)` is affected exactly when it is within 8 columns and
/// `n` rows of the base, both distances taken modulo the screen size.
pub open spec fn draw_vram(s: CpuState, x0: int, y0: int, n: int) -> Seq<u8> {
    Seq::new(
        SCREEN_CELLS as nat,
        |k: int|
            {
                let cc = wrap_off64(x0, k / 32);
                let rr = wrap_off32(y0, k % 32);
                if cc < 8 && rr < n {
                    s.vram[k] ^ sprite_bit(sprite_row(s, rr), cc)
                } else {
                    s.vram[k]
                }
            },
    )
}

/// draw: the sprite rows at `memory[I..]` are XOR-blitted at base
/// `(Vx mod 64, Vy mod 32)` with per-cell wraparound, and VF is rewritten
/// to 1 exactly when some lit cell is flipped unlit.
pub open spec fn op_draw(s: CpuState, x: u8, y: u8, n: u8) -> CpuState {
    let x0 = s.reg[x as int] as int % 64;
    let y0 = s.reg[y as int] as int % 32;
    CpuState {
        vram: draw_vram(s, x0, y0, n as int),
        reg: s.reg.update(15, if draw_collides(s, x0, y0, n as int) { 1u8 } else { 0u8 }),
        ..s
    }
}

/// skip-if-key: skip the next instruction when the key line `Vx` is held.
/// Meaningful only when `Vx < 16`; `step` reports an invalid key index
/// otherwise.
pub open spec fn op_skip_key(s: CpuState, x: u8) -> CpuState {
    if s.keypad[s.reg[x as int] as int] {
        CpuState { pc: adv(s.pc), ..s }
    } else {
        s
    }
}

/// skip-if-no-key: skip the next instruction when the key line `Vx` is up.
/// Meaningful only when `Vx < 16`; `step` reports an invalid key index
/// otherwise.
pub open spec fn op_skip_no_key(s: CpuState, x: u8) -> CpuState {
    if !s.keypad[s.reg[x as int] as int] {
        CpuState { pc: adv(s.pc), ..s }
    } else {
        s
    }
}

/// Whether any of the 16 key lines is held.
pub open spec fn any_key_pressed(keys: Seq<bool>) -> bool {
    exists|k: int| 0 <= k < 16 && keys[k]
}

/// The lowest-indexed held key line.
pub open spec fn lowest_pressed(keys: Seq<bool>) -> int {
    choose|k: int| 0 <= k < 16 && keys[k] && (forall|j: int| 0 <= j < k ==> !keys[j])
}

/// wait-for-key: level-triggered.  If some key line is held, the
/// lowest-indexed one goes to `Vx` and execution proceeds; otherwise the
/// program counter rewinds one instruction so the same opcode runs again.
pub open spec fn op_wait_key(s: CpuState, x: u8) -> CpuState {
    if any_key_pressed(s.keypad) {
        CpuState { reg: s.reg.update(x as int, lowest_pressed(s.keypad) as u8), ..s }
    } else {
        CpuState { pc: rewind(s.pc), ..s }
    }
}

} // verus!
