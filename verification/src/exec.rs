//! The instruction executor: one fetch-decode-execute cycle, proved to
//! realize `spec_step`.

use vstd::prelude::*;

use crate::decode::{
    decode, get_byte_0x000F, get_byte_0x00F0, get_byte_0x0F00, get_byte_0xF000, get_bytes_0x00FF,
    get_bytes_0x0FFF, kk_of, nib_n, nib_x, nib_y,
};
use crate::semantics::{
    blit, blit_row, is_rand_step, lowest_key, spec_alu, spec_call, spec_draw, spec_key, spec_misc,
    spec_step, spec_sys, sprite_bit, xor_at,
};
use crate::state::{pix, ChipContext, ChipError, ChipView, StepOutcome};

verus! {

/// Relies on rand::random: one byte drawn from the thread-local generator.
/// Nothing can be promised of its value.
#[verifier::external_body]
fn random_byte() -> u8 {
    rand::random::<u8>()
}

/// When no key below `k` is down, the search for the lowest key down may as
/// well start at `k`.
proof fn lemma_lowest_key_prefix(keys: Seq<bool>, k: int)
    requires
        0 <= k <= 16,
        forall|j: int| 0 <= j < k ==> !keys[j],
    ensures
        lowest_key(keys, 0) == lowest_key(keys, k),
    decreases k,
{
    if k > 0 {
        lemma_lowest_key_prefix(keys, k - 1);
        assert(lowest_key(keys, k - 1) == lowest_key(keys, k));
    }
}

impl ChipContext {
    /// Family 0x0: clear-display, return, and the unrecognized rest.
    fn op_misc(&mut self, opcode: u16) -> (r: Result<StepOutcome, ChipError>)
        requires
            old(self).wf(),
            old(self)@.pc + 1 < 4096,
        ensures
            final(self).wf(),
            final(self)@ == spec_misc(old(self)@, opcode).0,
            r == spec_misc(old(self)@, opcode).1,
    {
        let kk = get_bytes_0x00FF(opcode);
        if kk == 0xE0 {
            self.frame = [false; 2048];
            self.draw_flag = true;
            self.pc = self.pc + 2;
            proof {
                assert(self@.frame =~= Seq::new(2048, |j: int| false));
                assert(self@ =~= spec_misc(old(self)@, opcode).0);
            }
            Ok(StepOutcome::Completed)
        } else if kk == 0xEE {
            if self.sp == 0 {
                return Err(ChipError::StackUnderflow);
            }
            self.sp = self.sp - 1;
            self.pc = self.stack[self.sp as usize] + 2;
            proof {
                assert(self@ =~= spec_misc(old(self)@, opcode).0);
            }
            Ok(StepOutcome::Completed)
        } else {
            self.pc = self.pc + 2;
            proof {
                assert(self@ =~= spec_misc(old(self)@, opcode).0);
            }
            Ok(StepOutcome::DecodeFallthrough)
        }
    }

    /// Family 0x2: call a subroutine, pushing the call site.
    fn op_call(&mut self, opcode: u16) -> (r: Result<StepOutcome, ChipError>)
        requires
            old(self).wf(),
            old(self)@.pc + 1 < 4096,
        ensures
            final(self).wf(),
            final(self)@ == spec_call(old(self)@, opcode).0,
            r == spec_call(old(self)@, opcode).1,
    {
        if self.sp >= 16 {
            return Err(ChipError::StackOverflow);
        }
        self.stack[self.sp as usize] = self.pc;
        self.sp = self.sp + 1;
        self.pc = get_bytes_0x0FFF(opcode);
        proof {
            assert(self@ =~= spec_call(old(self)@, opcode).0);
        }
        Ok(StepOutcome::Completed)
    }

    /// Family 0x8: register-to-register arithmetic and logic.
    fn op_alu(&mut self, opcode: u16) -> (r: Result<StepOutcome, ChipError>)
        requires
            old(self).wf(),
            old(self)@.pc + 1 < 4096,
        ensures
            final(self).wf(),
            final(self)@ == spec_alu(old(self)@, opcode).0,
            r == spec_alu(old(self)@, opcode).1,
    {
        let x = get_byte_0x0F00(opcode) as usize;
        let y = get_byte_0x00F0(opcode) as usize;
        let n = get_byte_0x000F(opcode);
        let vx = self.registers[x];
        let vy = self.registers[y];
        let recognized: bool;
        if n == 0x0 {
            self.registers[x] = vy;
            recognized = true;
        } else if n == 0x1 {
            self.registers[x] = vx | vy;
            recognized = true;
        } else if n == 0x2 {
            self.registers[x] = vx & vy;
            recognized = true;
        } else if n == 0x3 {
            self.registers[x] = vx ^ vy;
            recognized = true;
        } else if n == 0x4 {
            self.registers[x] = vx.wrapping_add(vy);
            self.registers[15] = if vx as u16 + vy as u16 > 255 {
                1
            } else {
                0
            };
            recognized = true;
        } else if n == 0x5 {
            self.registers[x] = vx.wrapping_sub(vy);
            self.registers[15] = if vx >= vy {
                1
            } else {
                0
            };
            recognized = true;
        } else if n == 0x6 {
            self.registers[x] = vx >> 1;
            self.registers[15] = vx & 1;
            recognized = true;
        } else if n == 0x7 {
            self.registers[x] = vy.wrapping_sub(vx);
            self.registers[15] = if vy >= vx {
                1
            } else {
                0
            };
            recognized = true;
        } else if n == 0xE {
            self.registers[x] = vx << 1u8;
            self.registers[15] = (vx & 0x80) >> 7u8;
            recognized = true;
        } else {
            recognized = false;
        }
        self.pc = self.pc + 2;
        proof {
            assert(self@ =~= spec_alu(old(self)@, opcode).0);
        }
        if recognized {
            Ok(StepOutcome::Completed)
        } else {
            Ok(StepOutcome::DecodeFallthrough)
        }
    }

    /// Family 0xD: draw a sprite with XOR and toroidal wrap, reporting
    /// collisions in VF.
    fn op_draw(&mut self, opcode: u16) -> (r: Result<StepOutcome, ChipError>)
        requires
            old(self).wf(),
            old(self)@.pc + 1 < 4096,
        ensures
            final(self).wf(),
            final(self)@ == spec_draw(old(self)@, opcode).0,
            r == spec_draw(old(self)@, opcode).1,
    {
        let fl = decode(opcode);
        let n = fl.n as usize;
        let ox = (self.registers[fl.x as usize] % 64) as usize;
        let oy = (self.registers[fl.y as usize] % 32) as usize;
        let i0 = self.i_reg as usize;
        if n > 0 && i0 + (n - 1) >= 4096 {
            return Err(ChipError::OutOfBoundsAddress);
        }
        let ghost pre = self@;
        let mut collided: bool = false;
        let mut row: usize = 0;
        while row < n
            invariant
                row <= n,
                n == nib_n(opcode),
                n <= 15,
                pre == old(self)@,
                old(self).wf(),
                ox == pre.registers[nib_x(opcode) as int] as int % 64,
                oy == pre.registers[nib_y(opcode) as int] as int % 32,
                ox < 64,
                oy < 32,
                i0 == pre.i_reg,
                n > 0 ==> i0 + n <= 4096,
                self@ == (ChipView { frame: self@.frame, ..pre }),
                self@.frame.len() == 2048,
                ({
                    let whole = blit(pre.frame, pre.memory, i0 as int, ox as int, oy as int, n as int, 0);
                    let rest = blit(self@.frame, pre.memory, i0 as int, ox as int, oy as int, n as int, row as int);
                    whole.0 == rest.0 && whole.1 == (collided || rest.1)
                }),
            decreases n - row,
        {
            let b = self.memory[i0 + row];
            let py = (oy + row) % 32;
            let ghost row_start = self@.frame;
            let mut hit_row: bool = false;
            let mut c: usize = 0;
            while c < 8
                invariant
                    c <= 8,
                    row < n,
                    n == nib_n(opcode),
                    n <= 15,
                    pre == old(self)@,
                    old(self).wf(),
                    ox < 64,
                    oy < 32,
                    py == (oy + row) % 32,
                    py < 32,
                    i0 == pre.i_reg,
                    n > 0 ==> i0 + n <= 4096,
                    b == pre.memory[i0 + row],
                    self@ == (ChipView { frame: self@.frame, ..pre }),
                    self@.frame.len() == 2048,
                    ({
                        let wrow = blit_row(row_start, b, ox as int, py as int, 0);
                        let rrow = blit_row(self@.frame, b, ox as int, py as int, c as int);
                        wrow.0 == rrow.0 && wrow.1 == (hit_row || rrow.1)
                    }),
                decreases 8 - c,
            {
                let ghost fcur = self@.frame;
                let shift = (7 - c) as u8;
                if (b >> shift) & 1 == 1 {
                    let px = (ox + c) % 64;
                    let idx = px * 32 + py;
                    let lit = self.frame[idx];
                    if lit {
                        hit_row = true;
                    }
                    self.frame[idx] = !lit;
                    proof {
                        assert(sprite_bit(b, c as int));
                        assert(pix(px as int, py as int) == idx);
                        assert(self@.frame =~= xor_at(fcur, idx as int));
                    }
                } else {
                    proof {
                        assert(!sprite_bit(b, c as int));
                    }
                }
                c = c + 1;
            }
            proof {
                assert(blit_row(self@.frame, b, ox as int, py as int, 8).0 == self@.frame);
                assert(blit_row(self@.frame, b, ox as int, py as int, 8).1 == false);
                assert(blit_row(row_start, b, ox as int, py as int, 0).0 == self@.frame);
                assert(blit_row(row_start, b, ox as int, py as int, 0).1 == hit_row);
            }
            collided = collided || hit_row;
            row = row + 1;
        }
        self.registers[15] = if collided {
            1
        } else {
            0
        };
        self.draw_flag = true;
        self.pc = self.pc + 2;
        proof {
            let whole = blit(pre.frame, pre.memory, i0 as int, ox as int, oy as int, n as int, 0);
            assert(whole.0 == self@.frame && whole.1 == collided);
            assert(self@ =~= spec_draw(pre, opcode).0);
        }
        Ok(StepOutcome::Completed)
    }

    /// Family 0xE: skip on a key's state; the key index is Vx's low nibble.
    fn op_key(&mut self, opcode: u16) -> (r: Result<StepOutcome, ChipError>)
        requires
            old(self).wf(),
            old(self)@.pc + 1 < 4096,
        ensures
            final(self).wf(),
            final(self)@ == spec_key(old(self)@, opcode).0,
            r == spec_key(old(self)@, opcode).1,
    {
        let kk = get_bytes_0x00FF(opcode);
        let x = get_byte_0x0F00(opcode) as usize;
        let vx = self.registers[x];
        let key = (vx & 0x0F) as usize;
        proof {
            assert(vx & 0x0F < 16) by (bit_vector);
        }
        if kk == 0x9E {
            if self.keys[key] {
                self.pc = self.pc + 4;
            } else {
                self.pc = self.pc + 2;
            }
            proof {
                assert(self@ =~= spec_key(old(self)@, opcode).0);
            }
            Ok(StepOutcome::Completed)
        } else if kk == 0xA1 {
            if !self.keys[key] {
                self.pc = self.pc + 4;
            } else {
                self.pc = self.pc + 2;
            }
            proof {
                assert(self@ =~= spec_key(old(self)@, opcode).0);
            }
            Ok(StepOutcome::Completed)
        } else {
            self.pc = self.pc + 2;
            proof {
                assert(self@ =~= spec_key(old(self)@, opcode).0);
            }
            Ok(StepOutcome::DecodeFallthrough)
        }
    }

    /// Family 0xF: timers, wait-key, the index register, BCD, and the
    /// register file transfers.
    fn op_sys(&mut self, opcode: u16) -> (r: Result<StepOutcome, ChipError>)
        requires
            old(self).wf(),
            old(self)@.pc + 1 < 4096,
        ensures
            final(self).wf(),
            final(self)@ == spec_sys(old(self)@, opcode).0,
            r == spec_sys(old(self)@, opcode).1,
    {
        let kk = get_bytes_0x00FF(opcode);
        let x = get_byte_0x0F00(opcode) as usize;
        let vx = self.registers[x];
        if kk == 0x07 {
            self.registers[x] = self.delay_reg;
            self.pc = self.pc + 2;
            proof {
                assert(self@ =~= spec_sys(old(self)@, opcode).0);
            }
            Ok(StepOutcome::Completed)
        } else if kk == 0x0A {
            let mut k: usize = 0;
            while k < 16
                invariant
                    k <= 16,
                    old(self).wf(),
                    old(self)@.pc + 1 < 4096,
                    self@ == old(self)@,
                    x == nib_x(opcode),
                    x < 16,
                    kk_of(opcode) == 0x0A,
                    forall|j: int| 0 <= j < k ==> !self@.keys[j],
                decreases 16 - k,
            {
                if self.keys[k] {
                    self.registers[x] = k as u8;
                    self.pc = self.pc + 2;
                    proof {
                        lemma_lowest_key_prefix(old(self)@.keys, k as int);
                        assert(lowest_key(old(self)@.keys, k as int) == k as int);
                        assert(self@ =~= spec_sys(old(self)@, opcode).0);
                    }
                    return Ok(StepOutcome::Completed);
                }
                k = k + 1;
            }
            proof {
                lemma_lowest_key_prefix(old(self)@.keys, 16);
                assert(lowest_key(old(self)@.keys, 0) == 16);
            }
            Ok(StepOutcome::AwaitingKey)
        } else if kk == 0x15 {
            self.delay_reg = vx;
            self.pc = self.pc + 2;
            proof {
                assert(self@ =~= spec_sys(old(self)@, opcode).0);
            }
            Ok(StepOutcome::Completed)
        } else if kk == 0x18 {
            self.sound_reg = vx;
            self.pc = self.pc + 2;
            proof {
                assert(self@ =~= spec_sys(old(self)@, opcode).0);
            }
            Ok(StepOutcome::Completed)
        } else if kk == 0x1E {
            self.i_reg = self.i_reg.wrapping_add(vx as u16);
            self.pc = self.pc + 2;
            proof {
                assert(self@ =~= spec_sys(old(self)@, opcode).0);
            }
            Ok(StepOutcome::Completed)
        } else if kk == 0x29 {
            self.i_reg = 0x50 + 5 * (vx as u16);
            self.pc = self.pc + 2;
            proof {
                assert(self@ =~= spec_sys(old(self)@, opcode).0);
            }
            Ok(StepOutcome::Completed)
        } else if kk == 0x33 {
            if self.i_reg >= 4094 {
                return Err(ChipError::OutOfBoundsAddress);
            }
            let i = self.i_reg as usize;
            self.memory[i] = vx / 100;
            self.memory[i + 1] = (vx / 10) % 10;
            self.memory[i + 2] = vx % 10;
            self.pc = self.pc + 2;
            proof {
                assert(self@ =~= spec_sys(old(self)@, opcode).0);
            }
            Ok(StepOutcome::Completed)
        } else if kk == 0x55 {
            if self.i_reg as usize + x >= 4096 {
                return Err(ChipError::OutOfBoundsAddress);
            }
            let i = self.i_reg as usize;
            let mut k: usize = 0;
            while k <= x
                invariant
                    k <= x + 1,
                    x < 16,
                    x == nib_x(opcode),
                    old(self).wf(),
                    old(self)@.pc + 1 < 4096,
                    i == old(self)@.i_reg,
                    i + x < 4096,
                    self@ == (ChipView { memory: self@.memory, ..old(self)@ }),
                    self@.memory.len() == 4096,
                    forall|j: int| i <= j < i + k ==> self@.memory[j] == old(self)@.registers[j - i],
                    forall|j: int| (0 <= j < i || i + k <= j < 4096) ==> self@.memory[j] == old(
                        self,
                    )@.memory[j],
                decreases x + 1 - k,
            {
                self.memory[i + k] = self.registers[k];
                k = k + 1;
            }
            self.pc = self.pc + 2;
            proof {
                let xi = x as int;
                let ii = i as int;
                assert(self@.memory =~= Seq::new(
                    4096,
                    |j: int|
                        if ii <= j <= ii + xi {
                            old(self)@.registers[j - ii]
                        } else {
                            old(self)@.memory[j]
                        },
                ));
                assert(self@ =~= spec_sys(old(self)@, opcode).0);
            }
            Ok(StepOutcome::Completed)
        } else if kk == 0x65 {
            if self.i_reg as usize + x >= 4096 {
                return Err(ChipError::OutOfBoundsAddress);
            }
            let i = self.i_reg as usize;
            let mut k: usize = 0;
            while k <= x
                invariant
                    k <= x + 1,
                    x < 16,
                    x == nib_x(opcode),
                    old(self).wf(),
                    old(self)@.pc + 1 < 4096,
                    i == old(self)@.i_reg,
                    i + x < 4096,
                    self@ == (ChipView { registers: self@.registers, ..old(self)@ }),
                    self@.registers.len() == 16,
                    forall|j: int| 0 <= j < k ==> self@.registers[j] == old(self)@.memory[i + j],
                    forall|j: int| k <= j < 16 ==> self@.registers[j] == old(self)@.registers[j],
                decreases x + 1 - k,
            {
                self.registers[k] = self.memory[i + k];
                k = k + 1;
            }
            self.pc = self.pc + 2;
            proof {
                let xi = x as int;
                let ii = i as int;
                assert(self@.registers =~= Seq::new(
                    16,
                    |j: int|
                        if 0 <= j <= xi {
                            old(self)@.memory[ii + j]
                        } else {
                            old(self)@.registers[j]
                        },
                ));
                assert(self@ =~= spec_sys(old(self)@, opcode).0);
            }
            Ok(StepOutcome::Completed)
        } else {
            self.pc = self.pc + 2;
            proof {
                assert(self@ =~= spec_sys(old(self)@, opcode).0);
            }
            Ok(StepOutcome::DecodeFallthrough)
        }
    }

    /// One whole cycle: fetch the word at the program counter, decode it,
    /// execute it. The next state and the result are exactly `spec_step` of
    /// the state before, for the byte the generator handed back (which only
    /// the random instruction reads: every other cycle equals `spec_step`
    /// with byte 0).
    pub fn exec_opcode(&mut self) -> (r: Result<StepOutcome, ChipError>)
        requires
            old(self).wf(),
        ensures
            final(self).wf(),
            exists|rb: u8|
                #![auto]
                final(self)@ == spec_step(old(self)@, rb).0 && r == spec_step(old(self)@, rb).1,
            !is_rand_step(old(self)@) ==> final(self)@ == spec_step(old(self)@, 0u8).0 && r
                == spec_step(old(self)@, 0u8).1,
    {
        let opcode = match self.fetch_opcode() {
            Ok(op) => op,
            Err(e) => {
                proof {
                    assert(self@ == spec_step(old(self)@, 0u8).0);
                }
                return Err(e);
            },
        };
        let fam = get_byte_0xF000(opcode);
        if fam == 0x0 {
            let res = self.op_misc(opcode);
            proof {
                assert(self@ == spec_step(old(self)@, 0u8).0 && res == spec_step(old(self)@, 0u8).1);
            }
            res
        } else if fam == 0x1 {
            self.pc = get_bytes_0x0FFF(opcode);
            proof {
                assert(self@ =~= spec_step(old(self)@, 0u8).0);
            }
            Ok(StepOutcome::Completed)
        } else if fam == 0x2 {
            let res = self.op_call(opcode);
            proof {
                assert(self@ == spec_step(old(self)@, 0u8).0 && res == spec_step(old(self)@, 0u8).1);
            }
            res
        } else if fam == 0x3 {
            let x = get_byte_0x0F00(opcode) as usize;
            let kk = get_bytes_0x00FF(opcode);
            if self.registers[x] == kk as u8 {
                self.pc = self.pc + 4;
            } else {
                self.pc = self.pc + 2;
            }
            proof {
                assert(self@ =~= spec_step(old(self)@, 0u8).0);
            }
            Ok(StepOutcome::Completed)
        } else if fam == 0x4 {
            let x = get_byte_0x0F00(opcode) as usize;
            let kk = get_bytes_0x00FF(opcode);
            if self.registers[x] != kk as u8 {
                self.pc = self.pc + 4;
            } else {
                self.pc = self.pc + 2;
            }
            proof {
                assert(self@ =~= spec_step(old(self)@, 0u8).0);
            }
            Ok(StepOutcome::Completed)
        } else if fam == 0x5 {
            let x = get_byte_0x0F00(opcode) as usize;
            let y = get_byte_0x00F0(opcode) as usize;
            if self.registers[x] == self.registers[y] {
                self.pc = self.pc + 4;
            } else {
                self.pc = self.pc + 2;
            }
            proof {
                assert(self@ =~= spec_step(old(self)@, 0u8).0);
            }
            Ok(StepOutcome::Completed)
        } else if fam == 0x6 {
            let x = get_byte_0x0F00(opcode) as usize;
            let kk = get_bytes_0x00FF(opcode);
            self.registers[x] = kk as u8;
            self.pc = self.pc + 2;
            proof {
                assert(self@ =~= spec_step(old(self)@, 0u8).0);
            }
            Ok(StepOutcome::Completed)
        } else if fam == 0x7 {
            let x = get_byte_0x0F00(opcode) as usize;
            let kk = get_bytes_0x00FF(opcode);
            let vx = self.registers[x];
            self.registers[x] = vx.wrapping_add(kk as u8);
            self.pc = self.pc + 2;
            proof {
                assert(self@ =~= spec_step(old(self)@, 0u8).0);
            }
            Ok(StepOutcome::Completed)
        } else if fam == 0x8 {
            let res = self.op_alu(opcode);
            proof {
                assert(self@ == spec_step(old(self)@, 0u8).0 && res == spec_step(old(self)@, 0u8).1);
            }
            res
        } else if fam == 0x9 {
            let x = get_byte_0x0F00(opcode) as usize;
            let y = get_byte_0x00F0(opcode) as usize;
            if self.registers[x] != self.registers[y] {
                self.pc = self.pc + 4;
            } else {
                self.pc = self.pc + 2;
            }
            proof {
                assert(self@ =~= spec_step(old(self)@, 0u8).0);
            }
            Ok(StepOutcome::Completed)
        } else if fam == 0xA {
            self.i_reg = get_bytes_0x0FFF(opcode);
            self.pc = self.pc + 2;
            proof {
                assert(self@ =~= spec_step(old(self)@, 0u8).0);
            }
            Ok(StepOutcome::Completed)
        } else if fam == 0xB {
            let addr = get_bytes_0x0FFF(opcode);
            self.pc = addr.wrapping_add(self.registers[0] as u16);
            proof {
                assert(self@ =~= spec_step(old(self)@, 0u8).0);
            }
            Ok(StepOutcome::Completed)
        } else if fam == 0xC {
            let x = get_byte_0x0F00(opcode) as usize;
            let kk = get_bytes_0x00FF(opcode);
            let b = random_byte();
            self.registers[x] = b & (kk as u8);
            self.pc = self.pc + 2;
            proof {
                assert(self@ =~= spec_step(old(self)@, b).0);
                assert(is_rand_step(old(self)@));
            }
            Ok(StepOutcome::Completed)
        } else if fam == 0xD {
            let res = self.op_draw(opcode);
            proof {
                assert(self@ == spec_step(old(self)@, 0u8).0 && res == spec_step(old(self)@, 0u8).1);
            }
            res
        } else if fam == 0xE {
            let res = self.op_key(opcode);
            proof {
                assert(self@ == spec_step(old(self)@, 0u8).0 && res == spec_step(old(self)@, 0u8).1);
            }
            res
        } else {
            let res = self.op_sys(opcode);
            proof {
                assert(self@ == spec_step(old(self)@, 0u8).0 && res == spec_step(old(self)@, 0u8).1);
            }
            res
        }
    }
}

} // verus!
