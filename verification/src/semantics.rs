//! The meaning of one executed cycle, as a function of machine states.
//!
//! `spec_step` maps a machine state (and, for the one random instruction, the
//! byte the generator handed back) to the next state and the cycle's result.
//! The executor in `exec` is proved to realize exactly this function.
//!
//! Choices among historically ambiguous behaviours, fixed here:
//! - an unrecognized sub-opcode advances the program counter by 2, uniformly;
//! - keys have held semantics: no read clears a flag, and wait-key completes
//!   on any cycle where some flag is set;
//! - the shift instructions read and write the X register and ignore Y;
//! - the redraw signal is set by clear-display and draw only, not by jumps.

use vstd::prelude::*;

use crate::decode::{addr_of, kk_of, nib_hi, nib_n, nib_x, nib_y};
use crate::state::{pix, spec_fetch, ChipError, ChipView, StepOutcome};

verus! {

/// The program counter moved past one 2-byte instruction.
pub open spec fn add2(pc: u16) -> u16 {
    (pc + 2) as u16
}

/// The program counter moved past this instruction and the skipped one.
pub open spec fn add4(pc: u16) -> u16 {
    (pc + 4) as u16
}

/// 8-bit addition with wraparound.
pub open spec fn wrap_add8(a: u8, b: u8) -> u8 {
    if a + b > 255 {
        (a + b - 256) as u8
    } else {
        (a + b) as u8
    }
}

/// 8-bit subtraction with wraparound.
pub open spec fn wrap_sub8(a: u8, b: u8) -> u8 {
    if a - b < 0 {
        (a - b + 256) as u8
    } else {
        (a - b) as u8
    }
}

/// 16-bit addition with wraparound.
pub open spec fn wrap_add16(a: u16, b: u16) -> u16 {
    if a + b > 65535 {
        (a + b - 65536) as u16
    } else {
        (a + b) as u16
    }
}

/// Whether sprite column `c` (0 = leftmost, bit 7) of a sprite byte is set.
pub open spec fn sprite_bit(b: u8, c: int) -> bool {
    (b >> ((7 - c) as u8)) & 1 == 1
}

/// The display buffer with one pixel toggled.
pub open spec fn xor_at(frame: Seq<bool>, idx: int) -> Seq<bool> {
    frame.update(idx, !frame[idx])
}

/// One sprite row blitted onto the display, columns `c..8`: the new buffer
/// and whether some set sprite bit landed on a lit pixel. Columns wrap at 64.
pub open spec fn blit_row(frame: Seq<bool>, b: u8, x: int, py: int, c: int) -> (Seq<bool>, bool)
    decreases 8 - c,
{
    if c < 0 || c >= 8 {
        (frame, false)
    } else {
        let px = (x + c) % 64;
        let here = if sprite_bit(b, c) {
            (xor_at(frame, pix(px, py)), frame[pix(px, py)])
        } else {
            (frame, false)
        };
        let rest = blit_row(here.0, b, x, py, c + 1);
        (rest.0, here.1 || rest.1)
    }
}

/// A whole sprite blitted onto the display, rows `r..n`: the new buffer and
/// whether any collision happened. Rows wrap at 32; row `r` is the byte at
/// `i + r` of memory.
pub open spec fn blit(
    frame: Seq<bool>,
    mem: Seq<u8>,
    i: int,
    x: int,
    y: int,
    n: int,
    r: int,
) -> (Seq<bool>, bool)
    decreases n - r,
{
    if r < 0 || r >= n {
        (frame, false)
    } else {
        let row = blit_row(frame, mem[i + r], x, (y + r) % 32, 0);
        let rest = blit(row.0, mem, i, x, y, n, r + 1);
        (rest.0, row.1 || rest.1)
    }
}

/// The lowest index in `k..16` whose key flag is set; 16 when none is.
pub open spec fn lowest_key(keys: Seq<bool>, k: int) -> int
    decreases 16 - k,
{
    if k < 0 || k >= 16 {
        16
    } else if keys[k] {
        k
    } else {
        lowest_key(keys, k + 1)
    }
}

/// Family 0x0: clear-display, return, and the unrecognized rest.
pub open spec fn spec_misc(pre: ChipView, op: u16) -> (ChipView, Result<StepOutcome, ChipError>) {
    let kk = kk_of(op);
    if kk == 0xE0 {
        (
            ChipView {
                frame: Seq::new(2048, |j: int| false),
                draw_flag: true,
                pc: add2(pre.pc),
                ..pre
            },
            Ok(StepOutcome::Completed),
        )
    } else if kk == 0xEE {
        if pre.sp == 0 {
            (pre, Err(ChipError::StackUnderflow))
        } else {
            (
                ChipView {
                    sp: (pre.sp - 1) as u8,
                    pc: (pre.stack[pre.sp - 1] + 2) as u16,
                    ..pre
                },
                Ok(StepOutcome::Completed),
            )
        }
    } else {
        (ChipView { pc: add2(pre.pc), ..pre }, Ok(StepOutcome::DecodeFallthrough))
    }
}

/// Family 0x2: call a subroutine, pushing the call site.
pub open spec fn spec_call(pre: ChipView, op: u16) -> (ChipView, Result<StepOutcome, ChipError>) {
    if pre.sp >= 16 {
        (pre, Err(ChipError::StackOverflow))
    } else {
        (
            ChipView {
                stack: pre.stack.update(pre.sp as int, pre.pc),
                sp: (pre.sp + 1) as u8,
                pc: addr_of(op),
                ..pre
            },
            Ok(StepOutcome::Completed),
        )
    }
}

/// Family 0x8: the register-to-register arithmetic and logic instructions.
pub open spec fn spec_alu(pre: ChipView, op: u16) -> (ChipView, Result<StepOutcome, ChipError>) {
    let x = nib_x(op) as int;
    let y = nib_y(op) as int;
    let n = nib_n(op);
    let vx = pre.registers[x];
    let vy = pre.registers[y];
    let pc2 = add2(pre.pc);
    if n == 0x0 {
        (ChipView { registers: pre.registers.update(x, vy), pc: pc2, ..pre }, Ok(StepOutcome::Completed))
    } else if n == 0x1 {
        (ChipView { registers: pre.registers.update(x, vx | vy), pc: pc2, ..pre }, Ok(StepOutcome::Completed))
    } else if n == 0x2 {
        (ChipView { registers: pre.registers.update(x, vx & vy), pc: pc2, ..pre }, Ok(StepOutcome::Completed))
    } else if n == 0x3 {
        (ChipView { registers: pre.registers.update(x, vx ^ vy), pc: pc2, ..pre }, Ok(StepOutcome::Completed))
    } else if n == 0x4 {
        (
            ChipView {
                registers: pre.registers.update(x, wrap_add8(vx, vy)).update(
                    15,
                    if vx + vy > 255 { 1u8 } else { 0u8 },
                ),
                pc: pc2,
                ..pre
            },
            Ok(StepOutcome::Completed),
        )
    } else if n == 0x5 {
        (
            ChipView {
                registers: pre.registers.update(x, wrap_sub8(vx, vy)).update(
                    15,
                    if vx >= vy { 1u8 } else { 0u8 },
                ),
                pc: pc2,
                ..pre
            },
            Ok(StepOutcome::Completed),
        )
    } else if n == 0x6 {
        (
            ChipView {
                registers: pre.registers.update(x, vx >> 1).update(15, vx & 1),
                pc: pc2,
                ..pre
            },
            Ok(StepOutcome::Completed),
        )
    } else if n == 0x7 {
        (
            ChipView {
                registers: pre.registers.update(x, wrap_sub8(vy, vx)).update(
                    15,
                    if vy >= vx { 1u8 } else { 0u8 },
                ),
                pc: pc2,
                ..pre
            },
            Ok(StepOutcome::Completed),
        )
    } else if n == 0xE {
        (
            ChipView {
                registers: pre.registers.update(x, vx << 1).update(15, (vx & 0x80) >> 7),
                pc: pc2,
                ..pre
            },
            Ok(StepOutcome::Completed),
        )
    } else {
        (ChipView { pc: pc2, ..pre }, Ok(StepOutcome::DecodeFallthrough))
    }
}

/// Family 0xD: draw a sprite of `n` rows from memory at I, origin (Vx, Vy)
/// taken modulo the screen size, XOR-composited with toroidal wrap; VF
/// reports whether any lit pixel was toggled off.
pub open spec fn spec_draw(pre: ChipView, op: u16) -> (ChipView, Result<StepOutcome, ChipError>) {
    let n = nib_n(op) as int;
    let ox = pre.registers[nib_x(op) as int] as int % 64;
    let oy = pre.registers[nib_y(op) as int] as int % 32;
    if n > 0 && pre.i_reg + n - 1 >= 4096 {
        (pre, Err(ChipError::OutOfBoundsAddress))
    } else {
        let done = blit(pre.frame, pre.memory, pre.i_reg as int, ox, oy, n, 0);
        (
            ChipView {
                frame: done.0,
                registers: pre.registers.update(15, if done.1 { 1u8 } else { 0u8 }),
                draw_flag: true,
                pc: add2(pre.pc),
                ..pre
            },
            Ok(StepOutcome::Completed),
        )
    }
}

/// Family 0xE: skip on a key's state. The key index is the low nibble of Vx;
/// held semantics, so the flag is left as it is.
pub open spec fn spec_key(pre: ChipView, op: u16) -> (ChipView, Result<StepOutcome, ChipError>) {
    let kk = kk_of(op);
    let key = (pre.registers[nib_x(op) as int] & 0x0F) as int;
    if kk == 0x9E {
        (
            ChipView { pc: if pre.keys[key] { add4(pre.pc) } else { add2(pre.pc) }, ..pre },
            Ok(StepOutcome::Completed),
        )
    } else if kk == 0xA1 {
        (
            ChipView { pc: if !pre.keys[key] { add4(pre.pc) } else { add2(pre.pc) }, ..pre },
            Ok(StepOutcome::Completed),
        )
    } else {
        (ChipView { pc: add2(pre.pc), ..pre }, Ok(StepOutcome::DecodeFallthrough))
    }
}

/// Family 0xF: timers, wait-key, the index register, BCD, and the register
/// file transfers.
pub open spec fn spec_sys(pre: ChipView, op: u16) -> (ChipView, Result<StepOutcome, ChipError>) {
    let kk = kk_of(op);
    let x = nib_x(op) as int;
    let vx = pre.registers[x];
    let i = pre.i_reg as int;
    let pc2 = add2(pre.pc);
    if kk == 0x07 {
        (ChipView { registers: pre.registers.update(x, pre.delay_reg), pc: pc2, ..pre }, Ok(StepOutcome::Completed))
    } else if kk == 0x0A {
        let k = lowest_key(pre.keys, 0);
        if k < 16 {
            (
                ChipView { registers: pre.registers.update(x, k as u8), pc: pc2, ..pre },
                Ok(StepOutcome::Completed),
            )
        } else {
            (pre, Ok(StepOutcome::AwaitingKey))
        }
    } else if kk == 0x15 {
        (ChipView { delay_reg: vx, pc: pc2, ..pre }, Ok(StepOutcome::Completed))
    } else if kk == 0x18 {
        (ChipView { sound_reg: vx, pc: pc2, ..pre }, Ok(StepOutcome::Completed))
    } else if kk == 0x1E {
        (ChipView { i_reg: wrap_add16(pre.i_reg, vx as u16), pc: pc2, ..pre }, Ok(StepOutcome::Completed))
    } else if kk == 0x29 {
        (ChipView { i_reg: (0x50 + 5 * vx) as u16, pc: pc2, ..pre }, Ok(StepOutcome::Completed))
    } else if kk == 0x33 {
        if i + 2 >= 4096 {
            (pre, Err(ChipError::OutOfBoundsAddress))
        } else {
            (
                ChipView {
                    memory: pre.memory.update(i, vx / 100).update(i + 1, (vx / 10) % 10).update(
                        i + 2,
                        vx % 10,
                    ),
                    pc: pc2,
                    ..pre
                },
                Ok(StepOutcome::Completed),
            )
        }
    } else if kk == 0x55 {
        if i + x >= 4096 {
            (pre, Err(ChipError::OutOfBoundsAddress))
        } else {
            (
                ChipView {
                    memory: Seq::new(
                        4096,
                        |j: int| if i <= j <= i + x { pre.registers[j - i] } else { pre.memory[j] },
                    ),
                    pc: pc2,
                    ..pre
                },
                Ok(StepOutcome::Completed),
            )
        }
    } else if kk == 0x65 {
        if i + x >= 4096 {
            (pre, Err(ChipError::OutOfBoundsAddress))
        } else {
            (
                ChipView {
                    registers: Seq::new(
                        16,
                        |j: int| if 0 <= j <= x { pre.memory[i + j] } else { pre.registers[j] },
                    ),
                    pc: pc2,
                    ..pre
                },
                Ok(StepOutcome::Completed),
            )
        }
    } else {
        (ChipView { pc: pc2, ..pre }, Ok(StepOutcome::DecodeFallthrough))
    }
}

/// Dispatch on the instruction class. `rb` is the byte the generator handed
/// back; only the random instruction reads it.
pub open spec fn spec_exec(pre: ChipView, op: u16, rb: u8) -> (
    ChipView,
    Result<StepOutcome, ChipError>,
) {
    let fam = nib_hi(op);
    let x = nib_x(op) as int;
    let y = nib_y(op) as int;
    let kk = kk_of(op) as u8;
    let vx = pre.registers[x];
    let vy = pre.registers[y];
    if fam == 0x0 {
        spec_misc(pre, op)
    } else if fam == 0x1 {
        (ChipView { pc: addr_of(op), ..pre }, Ok(StepOutcome::Completed))
    } else if fam == 0x2 {
        spec_call(pre, op)
    } else if fam == 0x3 {
        (
            ChipView { pc: if vx == kk { add4(pre.pc) } else { add2(pre.pc) }, ..pre },
            Ok(StepOutcome::Completed),
        )
    } else if fam == 0x4 {
        (
            ChipView { pc: if vx != kk { add4(pre.pc) } else { add2(pre.pc) }, ..pre },
            Ok(StepOutcome::Completed),
        )
    } else if fam == 0x5 {
        (
            ChipView { pc: if vx == vy { add4(pre.pc) } else { add2(pre.pc) }, ..pre },
            Ok(StepOutcome::Completed),
        )
    } else if fam == 0x6 {
        (
            ChipView { registers: pre.registers.update(x, kk), pc: add2(pre.pc), ..pre },
            Ok(StepOutcome::Completed),
        )
    } else if fam == 0x7 {
        (
            ChipView { registers: pre.registers.update(x, wrap_add8(vx, kk)), pc: add2(pre.pc), ..pre },
            Ok(StepOutcome::Completed),
        )
    } else if fam == 0x8 {
        spec_alu(pre, op)
    } else if fam == 0x9 {
        (
            ChipView { pc: if vx != vy { add4(pre.pc) } else { add2(pre.pc) }, ..pre },
            Ok(StepOutcome::Completed),
        )
    } else if fam == 0xA {
        (ChipView { i_reg: addr_of(op), pc: add2(pre.pc), ..pre }, Ok(StepOutcome::Completed))
    } else if fam == 0xB {
        (
            ChipView { pc: wrap_add16(addr_of(op), pre.registers[0] as u16), ..pre },
            Ok(StepOutcome::Completed),
        )
    } else if fam == 0xC {
        (
            ChipView { registers: pre.registers.update(x, rb & kk), pc: add2(pre.pc), ..pre },
            Ok(StepOutcome::Completed),
        )
    } else if fam == 0xD {
        spec_draw(pre, op)
    } else if fam == 0xE {
        spec_key(pre, op)
    } else {
        spec_sys(pre, op)
    }
}

/// One whole cycle: fetch the word at the program counter (failing when it
/// does not lie whole inside memory, with the state untouched), then execute
/// it. On every error the state is the one before the cycle.
pub open spec fn spec_step(pre: ChipView, rb: u8) -> (ChipView, Result<StepOutcome, ChipError>) {
    if pre.pc + 1 >= 4096 {
        (pre, Err(ChipError::OutOfBoundsAddress))
    } else {
        spec_exec(pre, spec_fetch(pre), rb)
    }
}

/// Whether the next cycle would execute the random instruction: only then
/// does the generator's byte matter to `spec_step`.
pub open spec fn is_rand_step(pre: ChipView) -> bool {
    pre.pc + 1 < 4096 && nib_hi(spec_fetch(pre)) == 0xC
}

} // verus!
