//! Laws of the machine: properties that hold of every state, proved once and
//! for all over the step function.

use vstd::prelude::*;

use vstd::arithmetic::div_mod::{lemma_mod_bound, lemma_mod_multiples_vanish, lemma_small_mod};

use crate::decode::{addr_of, kk_of, nib_hi, nib_n, nib_x, nib_y};
use crate::semantics::{
    blit, blit_row, spec_step, sprite_bit, wrap_add8, wrap_sub8, xor_at,
};
use crate::state::{
    pix, spec_fetch, spec_tick_n, wf_view, ChipError, ChipView, StepOutcome,
};

verus! {

/// A value below twice the modulus reduces by at most one subtraction.
proof fn lemma_mod_window(a: int, m: int)
    requires
        0 < m,
        0 <= a < 2 * m,
    ensures
        a % m == (if a < m {
            a
        } else {
            a - m
        }),
{
    if a < m {
        lemma_small_mod(a as nat, m as nat);
    } else {
        lemma_mod_multiples_vanish(1, a - m, m);
        assert(m * 1 + (a - m) == a);
        lemma_small_mod((a - m) as nat, m as nat);
    }
}

/// Whether sprite column `cc` of row byte `b`, drawn at origin column `x`
/// on display row `py`, is set and lands on a lit pixel of `frame`.
pub open spec fn row_hit(frame: Seq<bool>, b: u8, x: int, py: int, cc: int) -> bool {
    sprite_bit(b, cc) && frame[pix((x + cc) % 64, py)]
}

/// Whether sprite bit (row `rr`, column `cc`) of the sprite at `i` in `mem`,
/// drawn at origin (`x`, `y`), is set and lands on a lit pixel of `frame`.
pub open spec fn sprite_hit(
    frame: Seq<bool>,
    mem: Seq<u8>,
    i: int,
    x: int,
    y: int,
    rr: int,
    cc: int,
) -> bool {
    sprite_bit(mem[i + rr], cc) && frame[pix((x + cc) % 64, (y + rr) % 32)]
}

/// Blitting one sprite row leaves every pixel outside display row `py`
/// unchanged, and keeps the buffer's size.
proof fn lemma_blit_row_frame(frame: Seq<bool>, b: u8, x: int, py: int, c: int)
    requires
        frame.len() == 2048,
        0 <= x < 64,
        0 <= py < 32,
        0 <= c <= 8,
    ensures
        blit_row(frame, b, x, py, c).0.len() == 2048,
        forall|px: int, qy: int|
            0 <= px < 64 && 0 <= qy < 32 && qy != py ==> blit_row(frame, b, x, py, c).0[pix(
                px,
                qy,
            )] == frame[pix(px, qy)],
    decreases 8 - c,
{
    if c < 8 {
        let px0 = (x + c) % 64;
        lemma_mod_window(x + c, 64);
        let here = if sprite_bit(b, c) {
            xor_at(frame, pix(px0, py))
        } else {
            frame
        };
        assert forall|px: int, qy: int|
            0 <= px < 64 && 0 <= qy < 32 && qy != py implies here[pix(px, qy)] == frame[pix(
            px,
            qy,
        )] by {
            assert(pix(px, qy) != pix(px0, py));
        }
        lemma_blit_row_frame(here, b, x, py, c + 1);
    }
}

/// Blitting one sprite row reports a collision exactly when some set sprite
/// bit of columns `c..8` lands on a pixel lit before the row was drawn.
proof fn lemma_blit_row_hit(frame: Seq<bool>, b: u8, x: int, py: int, c: int)
    requires
        frame.len() == 2048,
        0 <= x < 64,
        0 <= py < 32,
        0 <= c <= 8,
    ensures
        blit_row(frame, b, x, py, c).1 <==> (exists|cc: int|
            c <= cc < 8 && #[trigger] row_hit(frame, b, x, py, cc)),
    decreases 8 - c,
{
    if c < 8 {
        let px0 = (x + c) % 64;
        lemma_mod_window(x + c, 64);
        let hit0 = sprite_bit(b, c) && frame[pix(px0, py)];
        let here = if sprite_bit(b, c) {
            xor_at(frame, pix(px0, py))
        } else {
            frame
        };
        lemma_blit_row_hit(here, b, x, py, c + 1);
        assert(blit_row(frame, b, x, py, c).1 == (hit0 || blit_row(here, b, x, py, c + 1).1));
        if hit0 {
            assert(row_hit(frame, b, x, py, c));
        }
        if blit_row(here, b, x, py, c + 1).1 {
            let w = choose|cc: int| c + 1 <= cc < 8 && #[trigger] row_hit(here, b, x, py, cc);
            lemma_mod_window(x + w, 64);
            assert(pix((x + w) % 64, py) != pix(px0, py));
            assert(row_hit(frame, b, x, py, w));
        }
        if exists|cc: int| c <= cc < 8 && #[trigger] row_hit(frame, b, x, py, cc) {
            let w = choose|cc: int| c <= cc < 8 && #[trigger] row_hit(frame, b, x, py, cc);
            if w == c {
                assert(hit0);
            } else {
                lemma_mod_window(x + w, 64);
                assert(pix((x + w) % 64, py) != pix(px0, py));
                assert(row_hit(here, b, x, py, w));
            }
        }
    }
}

/// Blitting a whole sprite reports a collision exactly when some set sprite
/// bit of rows `r..n` lands on a pixel lit before the draw began; the buffer
/// keeps its size.
proof fn lemma_blit_hit(frame: Seq<bool>, mem: Seq<u8>, i: int, x: int, y: int, n: int, r: int)
    requires
        frame.len() == 2048,
        0 <= x < 64,
        0 <= y < 32,
        0 <= r <= n <= 15,
    ensures
        blit(frame, mem, i, x, y, n, r).0.len() == 2048,
        blit(frame, mem, i, x, y, n, r).1 <==> (exists|rr: int, cc: int|
            r <= rr < n && 0 <= cc < 8 && #[trigger] sprite_hit(frame, mem, i, x, y, rr, cc)),
    decreases n - r,
{
    if r < n {
        let py0 = (y + r) % 32;
        lemma_mod_window(y + r, 32);
        let b = mem[i + r];
        let row = blit_row(frame, b, x, py0, 0);
        lemma_blit_row_frame(frame, b, x, py0, 0);
        lemma_blit_row_hit(frame, b, x, py0, 0);
        lemma_blit_hit(row.0, mem, i, x, y, n, r + 1);
        assert(blit(frame, mem, i, x, y, n, r).1 == (row.1 || blit(
            row.0,
            mem,
            i,
            x,
            y,
            n,
            r + 1,
        ).1));
        if row.1 {
            let w = choose|cc: int| 0 <= cc < 8 && #[trigger] row_hit(frame, b, x, py0, cc);
            assert(sprite_hit(frame, mem, i, x, y, r, w));
        }
        if blit(row.0, mem, i, x, y, n, r + 1).1 {
            let (wr, wc) = choose|rr: int, cc: int|
                r + 1 <= rr < n && 0 <= cc < 8 && #[trigger] sprite_hit(row.0, mem, i, x, y, rr, cc);
            lemma_mod_window(y + wr, 32);
            lemma_mod_window(x + wc, 64);
            assert((y + wr) % 32 != py0);
            assert(frame[pix((x + wc) % 64, (y + wr) % 32)]);
            assert(sprite_hit(frame, mem, i, x, y, wr, wc));
        }
        if exists|rr: int, cc: int|
            r <= rr < n && 0 <= cc < 8 && #[trigger] sprite_hit(frame, mem, i, x, y, rr, cc) {
            let (wr, wc) = choose|rr: int, cc: int|
                r <= rr < n && 0 <= cc < 8 && #[trigger] sprite_hit(frame, mem, i, x, y, rr, cc);
            if wr == r {
                assert(row_hit(frame, b, x, py0, wc));
                assert(blit_row(frame, b, x, py0, 0).1);
            } else {
                lemma_mod_window(y + wr, 32);
                lemma_mod_window(x + wc, 64);
                assert((y + wr) % 32 != py0);
                assert(sprite_hit(row.0, mem, i, x, y, wr, wc));
                assert(blit(row.0, mem, i, x, y, n, r + 1).1);
            }
        }
    }
}

/// Law: clear-display yields an all-zero display buffer whatever the prior
/// content, advances the program counter by 2, and touches nothing else.
pub proof fn lemma_clear_display(pre: ChipView, rb: u8)
    requires
        wf_view(pre),
        pre.pc + 1 < 4096,
        nib_hi(spec_fetch(pre)) == 0x0,
        kk_of(spec_fetch(pre)) == 0xE0,
    ensures
        spec_step(pre, rb).0 == (ChipView {
            frame: Seq::new(2048, |j: int| false),
            draw_flag: true,
            pc: (pre.pc + 2) as u16,
            ..pre
        }),
        spec_step(pre, rb).1 == Ok::<StepOutcome, ChipError>(StepOutcome::Completed),
{
}

/// Law: load-imm stores exactly KK in Vx and advances the program counter by
/// 2, for every register index and every immediate.
pub proof fn lemma_load_imm(pre: ChipView, rb: u8)
    requires
        wf_view(pre),
        pre.pc + 1 < 4096,
        nib_hi(spec_fetch(pre)) == 0x6,
    ensures
        ({
            let op = spec_fetch(pre);
            spec_step(pre, rb).0.registers[nib_x(op) as int] == kk_of(op) as u8
                && spec_step(pre, rb).0.registers == pre.registers.update(
                nib_x(op) as int,
                kk_of(op) as u8,
            ) && spec_step(pre, rb).0.pc == pre.pc + 2 && spec_step(pre, rb).1 == Ok::<
                StepOutcome,
                ChipError,
            >(StepOutcome::Completed)
        }),
{
    let op = spec_fetch(pre);
    assert(nib_x(op) < 16) by (bit_vector);
}

/// Law: add-imm wraps at 8 bits and, for X other than the flag register,
/// leaves VF untouched.
pub proof fn lemma_add_imm(pre: ChipView, rb: u8)
    requires
        wf_view(pre),
        pre.pc + 1 < 4096,
        nib_hi(spec_fetch(pre)) == 0x7,
    ensures
        ({
            let op = spec_fetch(pre);
            let x = nib_x(op) as int;
            spec_step(pre, rb).0.registers[x] == wrap_add8(pre.registers[x], kk_of(op) as u8) && (x
                != 15 ==> spec_step(pre, rb).0.registers[15] == pre.registers[15]) && spec_step(
                pre,
                rb,
            ).0.pc == pre.pc + 2
        }),
{
    let op = spec_fetch(pre);
    assert(nib_x(op) < 16) by (bit_vector);
}

/// Law: add-reg stores the 8-bit wrapped sum in Vx and sets VF to 1 exactly
/// when the unsigned sum overflows, else to 0.
pub proof fn lemma_add_reg_carry(pre: ChipView, rb: u8)
    requires
        wf_view(pre),
        pre.pc + 1 < 4096,
        nib_hi(spec_fetch(pre)) == 0x8,
        nib_n(spec_fetch(pre)) == 0x4,
    ensures
        ({
            let op = spec_fetch(pre);
            let vx = pre.registers[nib_x(op) as int];
            let vy = pre.registers[nib_y(op) as int];
            spec_step(pre, rb).0.registers[15] == (if vx + vy > 255 {
                1u8
            } else {
                0u8
            }) && (nib_x(op) != 15 ==> spec_step(pre, rb).0.registers[nib_x(op) as int]
                == wrap_add8(vx, vy)) && spec_step(pre, rb).0.pc == pre.pc + 2
        }),
{
    let op = spec_fetch(pre);
    assert(nib_x(op) < 16 && nib_y(op) < 16) by (bit_vector);
}

/// Law: sub-reg sets VF to 1 exactly when Vx before the instruction is at
/// least Vy before it, and stores the wrapped difference in Vx.
pub proof fn lemma_sub_reg_borrow(pre: ChipView, rb: u8)
    requires
        wf_view(pre),
        pre.pc + 1 < 4096,
        nib_hi(spec_fetch(pre)) == 0x8,
        nib_n(spec_fetch(pre)) == 0x5,
    ensures
        ({
            let op = spec_fetch(pre);
            let vx = pre.registers[nib_x(op) as int];
            let vy = pre.registers[nib_y(op) as int];
            (spec_step(pre, rb).0.registers[15] == 1 <==> vx >= vy) && (nib_x(op) != 15
                ==> spec_step(pre, rb).0.registers[nib_x(op) as int] == wrap_sub8(vx, vy))
                && spec_step(pre, rb).0.pc == pre.pc + 2
        }),
{
    let op = spec_fetch(pre);
    assert(nib_x(op) < 16 && nib_y(op) < 16) by (bit_vector);
}

/// Law: the draw instruction XOR-composites the sprite at toroidally wrapped
/// coordinates and reports in VF, with 1, exactly the draws in which some set
/// sprite bit lands on a pixel lit before the draw — once one does, no later
/// bit of the same call can clear the flag.
pub proof fn lemma_draw_collision(pre: ChipView, rb: u8)
    requires
        wf_view(pre),
        pre.pc + 1 < 4096,
        nib_hi(spec_fetch(pre)) == 0xD,
        nib_n(spec_fetch(pre)) > 0 ==> pre.i_reg + nib_n(spec_fetch(pre)) - 1 < 4096,
    ensures
        ({
            let op = spec_fetch(pre);
            let ox = pre.registers[nib_x(op) as int] as int % 64;
            let oy = pre.registers[nib_y(op) as int] as int % 32;
            let n = nib_n(op) as int;
            let i = pre.i_reg as int;
            spec_step(pre, rb).1 == Ok::<StepOutcome, ChipError>(StepOutcome::Completed)
                && spec_step(pre, rb).0.frame == blit(pre.frame, pre.memory, i, ox, oy, n, 0).0 && (
            spec_step(pre, rb).0.registers[15] == 1 <==> (exists|rr: int, cc: int|
                0 <= rr < n && 0 <= cc < 8 && #[trigger] sprite_hit(
                    pre.frame,
                    pre.memory,
                    i,
                    ox,
                    oy,
                    rr,
                    cc,
                )))
        }),
{
    let op = spec_fetch(pre);
    assert(nib_x(op) < 16 && nib_y(op) < 16 && nib_n(op) <= 15) by (bit_vector);
    let ox = pre.registers[nib_x(op) as int] as int % 64;
    let oy = pre.registers[nib_y(op) as int] as int % 32;
    lemma_mod_bound(pre.registers[nib_x(op) as int] as int, 64);
    lemma_mod_bound(pre.registers[nib_y(op) as int] as int, 32);
    lemma_blit_hit(pre.frame, pre.memory, pre.i_reg as int, ox, oy, nib_n(op) as int, 0);
}

/// Law: a call followed by a return restores the program counter to the
/// call site plus 2 and leaves the stack pointer, the registers, memory and
/// the display exactly as they were before the call.
pub proof fn lemma_call_return_round_trip(pre: ChipView, rb1: u8, rb2: u8)
    requires
        wf_view(pre),
        pre.pc + 1 < 4096,
        nib_hi(spec_fetch(pre)) == 0x2,
        pre.sp < 16,
        addr_of(spec_fetch(pre)) + 1 < 4096,
        pre.memory[addr_of(spec_fetch(pre)) as int] == 0x00u8,
        pre.memory[addr_of(spec_fetch(pre)) as int + 1] == 0xEEu8,
    ensures
        ({
            let mid = spec_step(pre, rb1).0;
            let fin = spec_step(mid, rb2).0;
            spec_step(pre, rb1).1 == Ok::<StepOutcome, ChipError>(StepOutcome::Completed)
                && spec_step(mid, rb2).1 == Ok::<StepOutcome, ChipError>(StepOutcome::Completed)
                && fin.pc == pre.pc + 2 && fin.sp == pre.sp && fin.registers == pre.registers
                && fin.memory == pre.memory && fin.frame == pre.frame
        }),
{
    let op = spec_fetch(pre);
    let addr = addr_of(op);
    let mid = spec_step(pre, rb1).0;
    assert(mid.pc == addr && mid.sp == pre.sp + 1 && mid.memory == pre.memory);
    assert(spec_fetch(mid) == ((0x00u8 as u16) << 8) | (0xEEu8 as u16));
    assert(((0x00u8 as u16) << 8) | (0xEEu8 as u16) == 0x00EEu16) by (bit_vector);
    assert(nib_hi(0x00EEu16) == 0x0 && kk_of(0x00EEu16) == 0xEE) by (bit_vector);
    assert(mid.stack[pre.sp as int] == pre.pc);
}

/// Law: a call attempted with the stack already full fails with the stack
/// overflow error and changes nothing, rather than wrapping the stack
/// pointer.
pub proof fn lemma_call_overflow(pre: ChipView, rb: u8)
    requires
        wf_view(pre),
        pre.pc + 1 < 4096,
        nib_hi(spec_fetch(pre)) == 0x2,
        pre.sp == 16,
    ensures
        spec_step(pre, rb).0 == pre,
        spec_step(pre, rb).1 == Err::<StepOutcome, ChipError>(ChipError::StackOverflow),
{
}

/// Law: after `n` ticks of the timer clock each timer has lost exactly
/// `min(n, its value)` — it floors at 0 and never wraps — and nothing else
/// of the state changes, however many instructions executed meanwhile (a
/// tick reads and writes the two timers alone).
pub proof fn lemma_timer_decay(v: ChipView, n: nat)
    ensures
        spec_tick_n(v, n).delay_reg == (if n >= v.delay_reg {
            0u8
        } else {
            (v.delay_reg - n) as u8
        }),
        spec_tick_n(v, n).sound_reg == (if n >= v.sound_reg {
            0u8
        } else {
            (v.sound_reg - n) as u8
        }),
        spec_tick_n(v, n) == (ChipView {
            delay_reg: spec_tick_n(v, n).delay_reg,
            sound_reg: spec_tick_n(v, n).sound_reg,
            ..v
        }),
    decreases n,
{
    if n > 0 {
        lemma_timer_decay(v, (n - 1) as nat);
    }
}

} // verus!
