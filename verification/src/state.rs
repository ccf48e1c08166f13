//! The machine state: memory, registers, stack, timers, display and input,
//! with its reset value, program loading, instruction fetch and timer decay.

use vstd::prelude::*;

verus! {

/// Unrecoverable failures of the machine.
#[derive(Clone, Copy, Debug, PartialEq, Eq, Structural)]
pub enum ChipError {
    /// A call was attempted with the stack already full.
    StackOverflow,
    /// A return was attempted with the stack already empty.
    StackUnderflow,
    /// The program counter, the index register or a memory-indexed operation
    /// would address a byte outside the 4096-byte space.
    OutOfBoundsAddress,
    /// A program image does not fit between the load offset and the end of memory.
    RomTooLarge,
}

/// What one executed cycle reports back to the driving loop.
#[derive(Clone, Copy, Debug, PartialEq, Eq, Structural)]
pub enum StepOutcome {
    /// The instruction ran to completion and the program counter moved on.
    Completed,
    /// A wait-key instruction found no key down: the state is unchanged and
    /// the same instruction runs again on the next cycle.
    AwaitingKey,
    /// The word at the program counter names no instruction; the program
    /// counter advanced by 2 and the machine may continue.
    DecodeFallthrough,
}

/// The mathematical value of a machine state.
#[verifier::ext_equal]
pub ghost struct ChipView {
    pub memory: Seq<u8>,
    pub registers: Seq<u8>,
    pub stack: Seq<u16>,
    pub i_reg: u16,
    pub pc: u16,
    pub sp: u8,
    pub delay_reg: u8,
    pub sound_reg: u8,
    pub draw_flag: bool,
    pub frame: Seq<bool>,
    pub keys: Seq<bool>,
}

/// Well-formedness: the fixed sizes of the state's parts, the stack pointer
/// within its 17 positions (16 means full), and every stack slot holding an
/// address from which a 2-byte fetch stays in memory.
pub open spec fn wf_view(v: ChipView) -> bool {
    &&& v.memory.len() == 4096
    &&& v.registers.len() == 16
    &&& v.stack.len() == 16
    &&& v.frame.len() == 2048
    &&& v.keys.len() == 16
    &&& v.sp <= 16
    &&& forall|k: int| 0 <= k < 16 ==> v.stack[k] < 4096
}

/// The 80-byte font table: 16 glyphs of 5 rows each, glyph `d` at offset `5*d`.
pub open spec fn spec_font() -> Seq<u8> {
    seq![
        0xF0u8, 0x90u8, 0x90u8, 0x90u8, 0xF0u8,
        0x20u8, 0x60u8, 0x20u8, 0x20u8, 0x70u8,
        0xF0u8, 0x10u8, 0xF0u8, 0x80u8, 0xF0u8,
        0xF0u8, 0x10u8, 0xF0u8, 0x10u8, 0xF0u8,
        0x90u8, 0x90u8, 0xF0u8, 0x10u8, 0x10u8,
        0xF0u8, 0x80u8, 0xF0u8, 0x10u8, 0xF0u8,
        0xF0u8, 0x80u8, 0xF0u8, 0x90u8, 0xF0u8,
        0xF0u8, 0x10u8, 0x20u8, 0x40u8, 0x40u8,
        0xF0u8, 0x90u8, 0xF0u8, 0x90u8, 0xF0u8,
        0xF0u8, 0x90u8, 0xF0u8, 0x10u8, 0xF0u8,
        0xF0u8, 0x90u8, 0xF0u8, 0x90u8, 0x90u8,
        0xE0u8, 0x90u8, 0xE0u8, 0x90u8, 0xE0u8,
        0xF0u8, 0x80u8, 0x80u8, 0x80u8, 0xF0u8,
        0xE0u8, 0x90u8, 0x90u8, 0x90u8, 0xE0u8,
        0xF0u8, 0x80u8, 0xF0u8, 0x80u8, 0xF0u8,
        0xF0u8, 0x80u8, 0xF0u8, 0x80u8, 0x80u8,
    ]
}

/// Memory after reset: the font table at [0x050, 0x0A0), zero elsewhere.
pub open spec fn reset_memory() -> Seq<u8> {
    Seq::new(4096, |j: int| if 0x50 <= j < 0xA0 { spec_font()[j - 0x50] } else { 0u8 })
}

/// The whole machine state after reset.
pub open spec fn spec_reset() -> ChipView {
    ChipView {
        memory: reset_memory(),
        registers: Seq::new(16, |j: int| 0u8),
        stack: Seq::new(16, |j: int| 0u16),
        i_reg: 0x50,
        pc: 0x200,
        sp: 0,
        delay_reg: 0,
        sound_reg: 0,
        draw_flag: false,
        frame: Seq::new(2048, |j: int| false),
        keys: Seq::new(16, |j: int| false),
    }
}

/// Memory after a program image is copied in at the load offset 0x200.
pub open spec fn loaded_memory(mem: Seq<u8>, rom: Seq<u8>) -> Seq<u8> {
    Seq::new(4096, |j: int| if 0x200 <= j < 0x200 + rom.len() { rom[j - 0x200] } else { mem[j] })
}

/// The 16-bit word fetched at the program counter: high byte first.
pub open spec fn spec_fetch(v: ChipView) -> u16 {
    ((v.memory[v.pc as int] as u16) << 8) | (v.memory[v.pc as int + 1] as u16)
}

/// One tick of the timer clock: each timer loses 1 and floors at 0.
pub open spec fn spec_tick(v: ChipView) -> ChipView {
    ChipView {
        delay_reg: if v.delay_reg > 0 { (v.delay_reg - 1) as u8 } else { 0u8 },
        sound_reg: if v.sound_reg > 0 { (v.sound_reg - 1) as u8 } else { 0u8 },
        ..v
    }
}

/// `n` ticks of the timer clock, one after the other.
pub open spec fn spec_tick_n(v: ChipView, n: nat) -> ChipView
    decreases n,
{
    if n == 0 {
        v
    } else {
        spec_tick(spec_tick_n(v, (n - 1) as nat))
    }
}

/// The index of pixel (x, y) in the flattened display buffer: columns of 32.
pub open spec fn pix(x: int, y: int) -> int {
    x * 32 + y
}

/// The aggregate machine state. Mutated only through the executor, the timer
/// tick, the program loader and the key setter.
pub struct ChipContext {
    pub memory: [u8; 4096],
    pub registers: [u8; 16],
    pub stack: [u16; 16],
    pub i_reg: u16,
    pub pc: u16,
    pub sp: u8,
    pub delay_reg: u8,
    pub sound_reg: u8,
    pub draw_flag: bool,
    pub frame: [bool; 2048],
    pub keys: [bool; 16],
}

impl View for ChipContext {
    type V = ChipView;

    open spec fn view(&self) -> ChipView {
        ChipView {
            memory: self.memory@,
            registers: self.registers@,
            stack: self.stack@,
            i_reg: self.i_reg,
            pc: self.pc,
            sp: self.sp,
            delay_reg: self.delay_reg,
            sound_reg: self.sound_reg,
            draw_flag: self.draw_flag,
            frame: self.frame@,
            keys: self.keys@,
        }
    }
}

impl ChipContext {
    pub open spec fn wf(&self) -> bool {
        wf_view(self@)
    }

    /// A fresh machine: memory zero but for the font table, PC at 0x200,
    /// I at the font base, everything else zero or false.
    pub fn reset() -> (r: ChipContext)
        ensures
            r@ == spec_reset(),
            r.wf(),
    {
        let font: [u8; 80] = [
            0xF0, 0x90, 0x90, 0x90, 0xF0,
            0x20, 0x60, 0x20, 0x20, 0x70,
            0xF0, 0x10, 0xF0, 0x80, 0xF0,
            0xF0, 0x10, 0xF0, 0x10, 0xF0,
            0x90, 0x90, 0xF0, 0x10, 0x10,
            0xF0, 0x80, 0xF0, 0x10, 0xF0,
            0xF0, 0x80, 0xF0, 0x90, 0xF0,
            0xF0, 0x10, 0x20, 0x40, 0x40,
            0xF0, 0x90, 0xF0, 0x90, 0xF0,
            0xF0, 0x90, 0xF0, 0x10, 0xF0,
            0xF0, 0x90, 0xF0, 0x90, 0x90,
            0xE0, 0x90, 0xE0, 0x90, 0xE0,
            0xF0, 0x80, 0x80, 0x80, 0xF0,
            0xE0, 0x90, 0x90, 0x90, 0xE0,
            0xF0, 0x80, 0xF0, 0x80, 0xF0,
            0xF0, 0x80, 0xF0, 0x80, 0x80,
        ];
        proof {
            assert(font@ =~= spec_font());
        }
        let mut memory: [u8; 4096] = [0; 4096];
        let mut k: usize = 0;
        while k < 80
            invariant
                k <= 80,
                font@ == spec_font(),
                forall|j: int| 0x50 <= j < 0x50 + k ==> memory@[j] == spec_font()[j - 0x50],
                forall|j: int| 0 <= j < 0x50 ==> memory@[j] == 0u8,
                forall|j: int| 0x50 + k <= j < 4096 ==> memory@[j] == 0u8,
            decreases 80 - k,
        {
            memory[0x50 + k] = font[k];
            k += 1;
        }
        let r = ChipContext {
            memory,
            registers: [0; 16],
            stack: [0; 16],
            i_reg: 0x50,
            pc: 0x200,
            sp: 0,
            delay_reg: 0,
            sound_reg: 0,
            draw_flag: false,
            frame: [false; 2048],
            keys: [false; 16],
        };
        proof {
            assert(r@.memory =~= reset_memory());
            assert(r@ =~= spec_reset());
        }
        r
    }

    /// Copy a program image into memory starting at 0x200. An image longer
    /// than the 3584 bytes available there is refused whole.
    pub fn load_program(&mut self, rom: &[u8]) -> (r: Result<(), ChipError>)
        requires
            old(self).wf(),
        ensures
            final(self).wf(),
            rom@.len() <= 3584 ==> r == Ok::<(), ChipError>(())
                && final(self)@ == (ChipView { memory: loaded_memory(old(self)@.memory, rom@), ..old(self)@ }),
            rom@.len() > 3584 ==> r == Err::<(), ChipError>(ChipError::RomTooLarge)
                && final(self)@ == old(self)@,
    {
        if rom.len() > 3584 {
            return Err(ChipError::RomTooLarge);
        }
        let n = rom.len();
        let mut k: usize = 0;
        while k < n
            invariant
                k <= n,
                n == rom@.len() <= 3584,
                self@.memory.len() == 4096,
                forall|j: int| 0x200 <= j < 0x200 + k ==> self@.memory[j] == rom@[j - 0x200],
                forall|j: int| (0 <= j < 0x200 || 0x200 + k <= j < 4096) ==> self@.memory[j]
                    == old(self)@.memory[j],
                self@ == (ChipView { memory: self@.memory, ..old(self)@ }),
            decreases n - k,
        {
            self.memory[0x200 + k] = rom[k];
            k += 1;
        }
        proof {
            assert(self@.memory =~= loaded_memory(old(self)@.memory, rom@));
            assert(self@ =~= (ChipView { memory: loaded_memory(old(self)@.memory, rom@), ..old(self)@ }));
        }
        Ok(())
    }

    /// Read the 2-byte instruction word at the program counter, high byte
    /// first. Fails when the word would not lie whole inside memory.
    pub fn fetch_opcode(&self) -> (r: Result<u16, ChipError>)
        requires
            self.wf(),
        ensures
            self@.pc as int + 1 < 4096 ==> r == Ok::<u16, ChipError>(spec_fetch(self@)),
            self@.pc as int + 1 >= 4096 ==> r == Err::<u16, ChipError>(ChipError::OutOfBoundsAddress),
    {
        if self.pc >= 4095 {
            return Err(ChipError::OutOfBoundsAddress);
        }
        let hi = self.memory[self.pc as usize];
        let lo = self.memory[self.pc as usize + 1];
        Ok(((hi as u16) << 8) | (lo as u16))
    }

    /// One tick of the timer clock: both timers lose 1, flooring at 0.
    /// Decoupled from instruction execution: the driving loop fires this at
    /// its own fixed cadence.
    pub fn update_timers(&mut self)
        requires
            old(self).wf(),
        ensures
            final(self).wf(),
            final(self)@ == spec_tick(old(self)@),
    {
        if self.delay_reg > 0 {
            self.delay_reg = self.delay_reg - 1;
        }
        if self.sound_reg > 0 {
            self.sound_reg = self.sound_reg - 1;
        }
        proof {
            assert(self@ =~= spec_tick(old(self)@));
        }
    }

    /// Record a key going down or up. Called only by the input collaborator,
    /// which translates physical keys to the 16 logical indices. Keys use
    /// held semantics: a flag mirrors the physical key and no read clears it.
    pub fn set_key(&mut self, key: usize, down: bool)
        requires
            old(self).wf(),
            key < 16,
        ensures
            final(self).wf(),
            final(self)@ == (ChipView { keys: old(self)@.keys.update(key as int, down), ..old(self)@ }),
    {
        self.keys[key] = down;
        proof {
            assert(self@ =~= (ChipView { keys: old(self)@.keys.update(key as int, down), ..old(self)@ }));
        }
    }

    /// Read one display pixel; true is a lit pixel.
    pub fn pixel(&self, x: usize, y: usize) -> (r: bool)
        requires
            self.wf(),
            x < 64,
            y < 32,
        ensures
            r == self@.frame[pix(x as int, y as int)],
    {
        self.frame[x * 32 + y]
    }

    /// Whether an instruction since the last presented frame changed the
    /// visible output.
    pub fn redraw_pending(&self) -> (r: bool)
        ensures
            r == self@.draw_flag,
    {
        self.draw_flag
    }

    /// Consume the redraw signal: the render collaborator calls this once
    /// per presented frame.
    pub fn clear_redraw(&mut self)
        requires
            old(self).wf(),
        ensures
            final(self).wf(),
            final(self)@ == (ChipView { draw_flag: false, ..old(self)@ }),
    {
        self.draw_flag = false;
        proof {
            assert(self@ =~= (ChipView { draw_flag: false, ..old(self)@ }));
        }
    }

    /// Read one general register.
    pub fn register(&self, x: usize) -> (r: u8)
        requires
            x < 16,
        ensures
            r == self@.registers[x as int],
    {
        self.registers[x]
    }

    /// Read one memory byte.
    pub fn mem_byte(&self, addr: usize) -> (r: u8)
        requires
            addr < 4096,
        ensures
            r == self@.memory[addr as int],
    {
        self.memory[addr]
    }

    /// The program counter.
    pub fn program_counter(&self) -> (r: u16)
        ensures
            r == self@.pc,
    {
        self.pc
    }

    /// The stack pointer: how many return addresses are on the stack.
    pub fn stack_pointer(&self) -> (r: u8)
        ensures
            r == self@.sp,
    {
        self.sp
    }

    /// The index register.
    pub fn index_register(&self) -> (r: u16)
        ensures
            r == self@.i_reg,
    {
        self.i_reg
    }

    /// The delay timer's current value.
    pub fn delay_timer(&self) -> (r: u8)
        ensures
            r == self@.delay_reg,
    {
        self.delay_reg
    }

    /// The sound timer's current value; the audio collaborator sounds a tone
    /// while it is above zero.
    pub fn sound_timer(&self) -> (r: u8)
        ensures
            r == self@.sound_reg,
    {
        self.sound_reg
    }
}

} // verus!
