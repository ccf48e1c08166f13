//! Reset, loading, fetching, timers and the error conditions.

use chip8::state::{ChipContext, ChipError, StepOutcome};

fn prog(words: &[u16]) -> Vec<u8> {
    let mut bytes: Vec<u8> = Vec::new();
    for w in words {
        bytes.push((w >> 8) as u8);
        bytes.push((w & 0xFF) as u8);
    }
    bytes
}

fn loaded(words: &[u16]) -> ChipContext {
    let mut c = ChipContext::reset();
    let bytes = prog(words);
    c.load_program(&bytes).unwrap();
    c
}

const FONT: [u8; 80] = [
    0xF0, 0x90, 0x90, 0x90, 0xF0, 0x20, 0x60, 0x20, 0x20, 0x70, 0xF0, 0x10, 0xF0, 0x80, 0xF0,
    0xF0, 0x10, 0xF0, 0x10, 0xF0, 0x90, 0x90, 0xF0, 0x10, 0x10, 0xF0, 0x80, 0xF0, 0x10, 0xF0,
    0xF0, 0x80, 0xF0, 0x90, 0xF0, 0xF0, 0x10, 0x20, 0x40, 0x40, 0xF0, 0x90, 0xF0, 0x90, 0xF0,
    0xF0, 0x90, 0xF0, 0x10, 0xF0, 0xF0, 0x90, 0xF0, 0x90, 0x90, 0xE0, 0x90, 0xE0, 0x90, 0xE0,
    0xF0, 0x80, 0x80, 0x80, 0xF0, 0xE0, 0x90, 0x90, 0x90, 0xE0, 0xF0, 0x80, 0xF0, 0x80, 0xF0,
    0xF0, 0x80, 0xF0, 0x80, 0x80,
];

#[test]
fn reset_loads_font_and_zeroes_everything() {
    let c = ChipContext::reset();
    for k in 0..80usize {
        assert_eq!(c.mem_byte(0x50 + k), FONT[k]);
    }
    for a in 0..0x50usize {
        assert_eq!(c.mem_byte(a), 0);
    }
    for a in 0xA0..4096usize {
        assert_eq!(c.mem_byte(a), 0);
    }
    assert_eq!(c.program_counter(), 0x200);
    assert_eq!(c.index_register(), 0x50);
    assert_eq!(c.stack_pointer(), 0);
    assert_eq!(c.delay_timer(), 0);
    assert_eq!(c.sound_timer(), 0);
    assert!(!c.redraw_pending());
    for x in 0..16usize {
        assert_eq!(c.register(x), 0);
    }
    for x in 0..64usize {
        for y in 0..32usize {
            assert!(!c.pixel(x, y));
        }
    }
}

#[test]
fn load_program_copies_at_0x200() {
    let c = loaded(&[0x6005, 0x610A]);
    assert_eq!(c.mem_byte(0x200), 0x60);
    assert_eq!(c.mem_byte(0x201), 0x05);
    assert_eq!(c.mem_byte(0x202), 0x61);
    assert_eq!(c.mem_byte(0x203), 0x0A);
    assert_eq!(c.mem_byte(0x204), 0);
}

#[test]
fn load_program_refuses_an_image_past_memory() {
    let mut c = ChipContext::reset();
    let big = vec![0u8; 3585];
    assert_eq!(c.load_program(&big), Err(ChipError::RomTooLarge));
    // nothing was copied
    assert_eq!(c.mem_byte(0x200), 0);
    let exact = vec![0xABu8; 3584];
    assert_eq!(c.load_program(&exact), Ok(()));
    assert_eq!(c.mem_byte(0xFFF), 0xAB);
}

#[test]
fn fetch_reads_big_endian_word() {
    let c = loaded(&[0x6A42]);
    assert_eq!(c.fetch_opcode(), Ok(0x6A42));
}

#[test]
fn fetch_at_the_memory_edge_fails() {
    // jump to 0xFFF, where no whole 2-byte word fits
    let mut c = loaded(&[0x1FFF]);
    assert_eq!(c.exec_opcode(), Ok(StepOutcome::Completed));
    assert_eq!(c.program_counter(), 0xFFF);
    assert_eq!(c.fetch_opcode(), Err(ChipError::OutOfBoundsAddress));
    assert_eq!(c.exec_opcode(), Err(ChipError::OutOfBoundsAddress));
    // the failing cycle changed nothing
    assert_eq!(c.program_counter(), 0xFFF);
}

#[test]
fn timers_decay_by_one_per_tick_and_floor_at_zero() {
    // V0=60, delay=V0, V1=5, sound=V1
    let mut c = loaded(&[0x603C, 0xF015, 0x6105, 0xF118]);
    for _ in 0..4 {
        c.exec_opcode().unwrap();
    }
    assert_eq!(c.delay_timer(), 60);
    assert_eq!(c.sound_timer(), 5);
    for _ in 0..25 {
        c.update_timers();
    }
    assert_eq!(c.delay_timer(), 35);
    assert_eq!(c.sound_timer(), 0);
    for _ in 0..100 {
        c.update_timers();
    }
    assert_eq!(c.delay_timer(), 0);
    assert_eq!(c.sound_timer(), 0);
}

#[test]
fn timer_decay_is_independent_of_instructions_executed() {
    // delay=2 set, then spin on loads without ticking the timer clock
    let mut c = loaded(&[0x6002, 0xF015, 0x6301, 0x6302, 0x6303, 0x6304]);
    c.exec_opcode().unwrap();
    c.exec_opcode().unwrap();
    assert_eq!(c.delay_timer(), 2);
    for _ in 0..4 {
        c.exec_opcode().unwrap();
    }
    // many instructions, no tick: the timer is untouched
    assert_eq!(c.delay_timer(), 2);
    c.update_timers();
    assert_eq!(c.delay_timer(), 1);
}

#[test]
fn load_delay_reads_the_timer_back() {
    let mut c = loaded(&[0x6007, 0xF015, 0xF407]);
    c.exec_opcode().unwrap();
    c.exec_opcode().unwrap();
    c.update_timers();
    c.exec_opcode().unwrap();
    assert_eq!(c.register(4), 6);
}
