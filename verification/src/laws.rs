//! Machine-checked statements of the interpreter's cross-cutting laws.
//!
//! Each proof function here states, over the abstract model in
//! [`crate::state`], a property that spans one or more operations: how the
//! program counter moves, what the arithmetic flags mean, how drawing
//! composes, and which pairs of operations undo each other.

use vstd::prelude::*;

use crate::decode::{decode, spec_step, word_at, Op};
use crate::state::{
    adv, cell_index, collision_at, lemma_rewind_adv, lemma_wrap_forward, op_add_reg, op_bcd,
    op_call, op_draw, op_read_regs, op_ret, op_shl, op_shr, op_store_regs, op_sub_reg,
    op_subn_reg, sprite_bit, sprite_row, wrap_off, wrap_off32, wrap_off64, CpuState,
};

verus! {

/// Whether an operation overwrites the program counter outright.
pub open spec fn sets_pc(op: Op) -> bool {
    match op {
        Op::Jump { .. } => true,
        Op::JumpV0 { .. } => true,
        Op::Call { .. } => true,
        Op::Ret => true,
        _ => false,
    }
}

/// Whether an operation may skip the following instruction.
pub open spec fn may_skip(op: Op) -> bool {
    match op {
        Op::SkipEqImm { .. } => true,
        Op::SkipNeImm { .. } => true,
        Op::SkipEqReg { .. } => true,
        Op::SkipNeReg { .. } => true,
        Op::SkipKey { .. } => true,
        Op::SkipNoKey { .. } => true,
        _ => false,
    }
}

/// Every successful step applies the base advance of exactly two bytes
/// before the operation's own control-flow effect: an operation without
/// one leaves the counter on the following instruction; a skip lands on
/// the following instruction or one past it; the key wait either proceeds
/// or rewinds to re-execute itself; only jump, call and return overwrite
/// the advanced counter.
pub proof fn lemma_step_base_advance(s: CpuState, rb: u8)
    requires
        s.wf(),
        spec_step(s, rb) is Ok,
    ensures
        ({
            let op = decode(word_at(s))->Some_0;
            let post = spec_step(s, rb)->Ok_0;
            &&& !sets_pc(op) && !may_skip(op) && !(op is WaitKey) ==> post.pc == adv(s.pc)
            &&& may_skip(op) ==> post.pc == adv(s.pc) || post.pc == adv(adv(s.pc))
            &&& op is WaitKey ==> post.pc == adv(s.pc) || post.pc == s.pc
        }),
{
    let op = decode(word_at(s))->Some_0;
    if op is WaitKey {
        lemma_rewind_adv(s.pc);
    }
}

/// Add-register flag semantics: for operand registers other than the flag
/// register itself, VF reports exactly whether the mathematical sum
/// exceeds 255, and the stored value is that sum modulo 256 — never a
/// value outside a byte.
pub proof fn lemma_add_reg_flag(s: CpuState, x: u8, y: u8)
    requires
        s.wf(),
        x < 15,
        y < 15,
    ensures
        ({
            let t = op_add_reg(s, x, y);
            let sum = s.reg[x as int] + s.reg[y as int];
            &&& t.reg[15] == (if sum > 255 {
                1u8
            } else {
                0u8
            })
            &&& t.reg[x as int] == (sum % 256) as u8
        }),
{
}

/// Subtract flag semantics: for operand registers other than the flag
/// register itself, VF reports "no borrow" — whether `Vx >= Vy` held
/// strictly before the subtraction mutated `Vx` — and `Vx` takes the
/// difference modulo 256.
pub proof fn lemma_sub_reg_flag(s: CpuState, x: u8, y: u8)
    requires
        s.wf(),
        x < 15,
        y < 15,
    ensures
        ({
            let t = op_sub_reg(s, x, y);
            &&& t.reg[15] == (if s.reg[x as int] >= s.reg[y as int] {
                1u8
            } else {
                0u8
            })
            &&& t.reg[x as int] == ((s.reg[x as int] - s.reg[y as int] + 256) % 256) as u8
        }),
{
}

/// Reverse-subtract flag semantics: VF reports `Vy >= Vx` as it held
/// before the subtraction, and `Vx` takes `Vy - Vx` modulo 256.
pub proof fn lemma_subn_reg_flag(s: CpuState, x: u8, y: u8)
    requires
        s.wf(),
        x < 15,
        y < 15,
    ensures
        ({
            let t = op_subn_reg(s, x, y);
            &&& t.reg[15] == (if s.reg[y as int] >= s.reg[x as int] {
                1u8
            } else {
                0u8
            })
            &&& t.reg[x as int] == ((s.reg[y as int] - s.reg[x as int] + 256) % 256) as u8
        }),
{
}

/// Shift flag semantics: for a register other than the flag register, VF
/// after a shift right is the pre-shift low bit, VF after a shift left is
/// the pre-shift high bit, whatever value the shift itself stores.
pub proof fn lemma_shift_flags(s: CpuState, x: u8)
    requires
        s.wf(),
        x < 15,
    ensures
        op_shr(s, x).reg[15] == s.reg[x as int] & 1,
        op_shr(s, x).reg[x as int] == (s.reg[x as int] / 2) as u8,
        op_shl(s, x).reg[15] == (s.reg[x as int] >> 7) & 1,
        op_shl(s, x).reg[x as int] == ((s.reg[x as int] * 2) % 256) as u8,
{
}

/// Each sprite bit lands exactly one XOR on the cell at the base plus its
/// offsets, both coordinates wrapped at the screen edges.  With a base
/// column of 63, column 1 of the sprite lands at screen column 0; with a
/// base row of 31, row 1 lands at screen row 0.
pub proof fn lemma_draw_cell(s: CpuState, x: u8, y: u8, n: u8, rr: int, cc: int)
    requires
        s.wf(),
        x < 16,
        y < 16,
        n < 16,
        0 <= rr < n,
        0 <= cc < 8,
    ensures
        ({
            let x0 = s.reg[x as int] as int % 64;
            let y0 = s.reg[y as int] as int % 32;
            let k = cell_index((x0 + cc) % 64, (y0 + rr) % 32);
            op_draw(s, x, y, n).vram[k] == s.vram[k] ^ sprite_bit(sprite_row(s, rr), cc)
        }),
{
    let x0 = s.reg[x as int] as int % 64;
    let y0 = s.reg[y as int] as int % 32;
    vstd::arithmetic::div_mod::lemma_mod_division_less_than_divisor(s.reg[x as int] as int, 64);
    vstd::arithmetic::div_mod::lemma_mod_division_less_than_divisor(s.reg[y as int] as int, 32);
    let xx = (x0 + cc) % 64;
    let yy = (y0 + rr) % 32;
    let k = cell_index(xx, yy);
    lemma_wrap_forward(x0, cc, 64);
    lemma_wrap_forward(y0, rr, 32);
    vstd::arithmetic::div_mod::lemma_fundamental_div_mod(k, 32);
    assert(k / 32 == xx && k % 32 == yy) by (nonlinear_arith)
        requires
            k == xx * 32 + yy,
            0 <= yy < 32,
            0 <= xx,
    ;
    assert(wrap_off64(x0, k / 32) == cc);
    assert(wrap_off32(y0, k % 32) == rr);
}

/// Drawing an all-zero sprite never reports a collision and leaves every
/// framebuffer cell exactly as it was.
pub proof fn lemma_draw_zero_sprite(s: CpuState, x: u8, y: u8, n: u8)
    requires
        s.wf(),
        x < 16,
        y < 16,
        n < 16,
        forall|rr: int| 0 <= rr < n ==> sprite_row(s, rr) == 0,
    ensures
        op_draw(s, x, y, n).reg[15] == 0,
        op_draw(s, x, y, n).vram == s.vram,
{
    let x0 = s.reg[x as int] as int % 64;
    let y0 = s.reg[y as int] as int % 32;
    assert(forall|c: int| 0 <= c < 8 ==> #[trigger] sprite_bit(0u8, c) == 0) by {
        assert forall|c: int| 0 <= c < 8 implies #[trigger] sprite_bit(0u8, c) == 0 by {
            let sh = (7 - c) as u8;
            assert((0u8 >> sh) & 1 == 0) by (bit_vector);
        }
    }
    assert forall|rr: int, cc: int| 0 <= rr < n && 0 <= cc < 8 implies !#[trigger] collision_at(
        s,
        x0,
        y0,
        rr,
        cc,
    ) by {}
    assert(!crate::state::draw_collides(s, x0, y0, n as int));
    assert forall|k: int| 0 <= k < 2048 implies #[trigger] crate::state::draw_vram(
        s,
        x0,
        y0,
        n as int,
    )[k] == s.vram[k] by {
        let ccw = wrap_off64(x0, k / 32);
        let rrw = wrap_off32(y0, k % 32);
        if ccw < 8 && rrw < n {
            vstd::arithmetic::div_mod::lemma_mod_division_less_than_divisor(k / 32 - x0, 64);
            vstd::arithmetic::div_mod::lemma_mod_division_less_than_divisor(k % 32 - y0, 32);
            assert(sprite_bit(sprite_row(s, rrw), ccw) == 0);
            let v = s.vram[k];
            assert(v ^ 0 == v) by (bit_vector);
        }
    }
    assert(crate::state::draw_vram(s, x0, y0, n as int) =~= s.vram);
}

/// Self-collision through XOR: starting from a framebuffer whose affected
/// cells are all unlit, drawing a sprite with at least one set bit and
/// then drawing it again (same registers, same index) reports no
/// collision the first time, reports a collision the second time, and
/// leaves every cell as it started — in particular every affected cell is
/// unlit again.
pub proof fn lemma_draw_twice(s: CpuState, x: u8, y: u8, n: u8)
    requires
        s.wf(),
        x < 15,
        y < 15,
        n < 16,
        exists|rr: int, cc: int|
            0 <= rr < n && 0 <= cc < 8 && #[trigger] sprite_bit(sprite_row(s, rr), cc) == 1,
        forall|rr: int, cc: int|
            0 <= rr < n && 0 <= cc < 8 ==> s.vram[#[trigger] cell_index(
                ((s.reg[x as int] as int % 64) + cc) % 64,
                ((s.reg[y as int] as int % 32) + rr) % 32,
            )] == 0,
    ensures
        ({
            let s1 = op_draw(s, x, y, n);
            let s2 = op_draw(s1, x, y, n);
            &&& s1.reg[15] == 0
            &&& s2.reg[15] == 1
            &&& s2.vram == s.vram
        }),
{
    let x0 = s.reg[x as int] as int % 64;
    let y0 = s.reg[y as int] as int % 32;
    vstd::arithmetic::div_mod::lemma_mod_division_less_than_divisor(s.reg[x as int] as int, 64);
    vstd::arithmetic::div_mod::lemma_mod_division_less_than_divisor(s.reg[y as int] as int, 32);
    let s1 = op_draw(s, x, y, n);
    let s2 = op_draw(s1, x, y, n);
    // First draw: nothing is lit under the sprite, so no collision.
    assert forall|rr: int, cc: int| 0 <= rr < n && 0 <= cc < 8 implies !#[trigger] collision_at(
        s,
        x0,
        y0,
        rr,
        cc,
    ) by {}
    assert(!crate::state::draw_collides(s, x0, y0, n as int));
    assert(s1.reg[15] == 0);
    // The second draw reads the same base and the same sprite rows.
    assert(s1.reg[x as int] == s.reg[x as int] && s1.reg[y as int] == s.reg[y as int]);
    assert(s1.ram == s.ram && s1.i == s.i);
    assert(forall|rr: int| 0 <= rr < n ==> #[trigger] sprite_row(s1, rr) == sprite_row(s, rr));
    // Every affected cell holds its sprite bit after the first draw.
    assert forall|rr: int, cc: int| 0 <= rr < n && 0 <= cc < 8 implies #[trigger] s1.vram[
        cell_index((x0 + cc) % 64, (y0 + rr) % 32)] == sprite_bit(sprite_row(s, rr), cc) by {
        lemma_draw_cell(s, x, y, n, rr, cc);
        let k = cell_index((x0 + cc) % 64, (y0 + rr) % 32);
        let b = sprite_bit(sprite_row(s, rr), cc);
        assert(s.vram[k] == 0);
        assert(0u8 ^ b == b) by (bit_vector);
    }
    // The set bit of the sprite is lit after the first draw: collision.
    let (rw, cw) = choose|rr: int, cc: int|
        0 <= rr < n && 0 <= cc < 8 && #[trigger] sprite_bit(sprite_row(s, rr), cc) == 1;
    assert(collision_at(s1, x0, y0, rw, cw));
    assert(crate::state::draw_collides(s1, x0, y0, n as int));
    assert(s2.reg[15] == 1);
    // XOR twice is the identity, cell by cell.
    assert forall|k: int| 0 <= k < 2048 implies #[trigger] s2.vram[k] == s.vram[k] by {
        let ccw = wrap_off64(x0, k / 32);
        let rrw = wrap_off32(y0, k % 32);
        vstd::arithmetic::div_mod::lemma_mod_division_less_than_divisor(k / 32 - x0, 64);
        vstd::arithmetic::div_mod::lemma_mod_division_less_than_divisor(k % 32 - y0, 32);
        if ccw < 8 && rrw < n {
            let b = sprite_bit(sprite_row(s, rrw), ccw);
            let v = s.vram[k];
            assert(s1.vram[k] == v ^ b);
            assert(s2.vram[k] == (v ^ b) ^ b);
            assert((v ^ b) ^ b == v) by (bit_vector);
        }
    }
    assert(s2.vram =~= s.vram);
}

/// Register block transfer round trip: storing `V0..Vx` inclusive and
/// reading them back with the same `x` and the same index register
/// restores the whole register file.
pub proof fn lemma_store_read_round_trip(s: CpuState, x: u8)
    requires
        s.wf(),
        x < 16,
    ensures
        op_read_regs(op_store_regs(s, x), x).reg == s.reg,
        op_read_regs(op_store_regs(s, x), x).i == s.i,
{
    let mid = op_store_regs(s, x);
    let fin = op_read_regs(mid, x);
    assert forall|k: int| 0 <= k < 16 implies fin.reg[k] == s.reg[k] by {
        if k <= x {
            lemma_wrap_forward(s.i as int, k, 4096);
            assert(wrap_off(s.i as int, (s.i + k) as int % 4096) == k);
            assert(mid.ram[(s.i + k) as int % 4096] == s.reg[k]);
        }
    }
    assert(fin.reg =~= s.reg);
}

/// Call/return round trip: a `call` followed by a `return` (each after
/// its own instruction fetch) puts the program counter on the instruction
/// immediately after the call site, with the stack depth restored.
pub proof fn lemma_call_ret_round_trip(s: CpuState, nnn: u16)
    requires
        s.wf(),
        s.sp < 15,
    ensures
        ({
            let s1 = op_call(CpuState { pc: adv(s.pc), ..s }, nnn);
            let s2 = op_ret(CpuState { pc: adv(s1.pc), ..s1 });
            &&& s2.pc == adv(s.pc)
            &&& s2.sp == s.sp
        }),
{
}

/// BCD decomposition: after `store-BCD` the three bytes at the index
/// register hold the hundreds, tens and ones digits of `Vx`.
pub proof fn lemma_bcd_digits(s: CpuState, x: u8)
    requires
        s.wf(),
        x < 16,
    ensures
        op_bcd(s, x).ram[s.i as int % 4096] == ((s.reg[x as int] / 100) % 10) as u8,
        op_bcd(s, x).ram[(s.i + 1) as int % 4096] == ((s.reg[x as int] / 10) % 10) as u8,
        op_bcd(s, x).ram[(s.i + 2) as int % 4096] == (s.reg[x as int] % 10) as u8,
{
    lemma_wrap_forward(s.i as int, 0, 4096);
    lemma_wrap_forward(s.i as int, 1, 4096);
    lemma_wrap_forward(s.i as int, 2, 4096);
    let a0 = s.i as int % 4096;
    let a1 = (s.i + 1) as int % 4096;
    let a2 = (s.i + 2) as int % 4096;
    assert((a0 - s.i as int) % 4096 == 0 && (a1 - s.i as int) % 4096 == 1 && (a2 - s.i as int)
        % 4096 == 2);
    assert(a0 != a1 && a0 != a2 && a1 != a2);
}

} // verus!
