//! Drawing and collisions, the call stack, key input, and an end-to-end run.

use chip8::state::{ChipContext, ChipError, StepOutcome};

fn prog(words: &[u16]) -> Vec<u8> {
    let mut bytes: Vec<u8> = Vec::new();
    for w in words {
        bytes.push((w >> 8) as u8);
        bytes.push((w & 0xFF) as u8);
    }
    bytes
}

fn loaded(words: &[u16]) -> ChipContext {
    let mut c = ChipContext::reset();
    let bytes = prog(words);
    c.load_program(&bytes).unwrap();
    c
}

#[test]
fn draw_lights_pixels_and_signals_redraw() {
    // draw glyph 0 (rows F0 90 90 90 F0) at (0, 0); I is 0x50 after reset
    let mut c = loaded(&[0xD005]);
    assert_eq!(c.exec_opcode(), Ok(StepOutcome::Completed));
    assert!(c.redraw_pending());
    assert_eq!(c.register(15), 0);
    // top row: 0xF0 lights columns 0..4
    assert!(c.pixel(0, 0) && c.pixel(1, 0) && c.pixel(2, 0) && c.pixel(3, 0));
    assert!(!c.pixel(4, 0));
    // second row: 0x90 lights columns 0 and 3
    assert!(c.pixel(0, 1) && !c.pixel(1, 1) && !c.pixel(2, 1) && c.pixel(3, 1));
    c.clear_redraw();
    assert!(!c.redraw_pending());
}

#[test]
fn clear_display_zeroes_every_pixel() {
    let mut c = loaded(&[0xD005, 0x00E0]);
    c.exec_opcode().unwrap();
    assert!(c.pixel(0, 0));
    assert_eq!(c.exec_opcode(), Ok(StepOutcome::Completed));
    for x in 0..64usize {
        for y in 0..32usize {
            assert!(!c.pixel(x, y));
        }
    }
    assert_eq!(c.program_counter(), 0x204);
    assert!(c.redraw_pending());
}

#[test]
fn draw_wraps_around_the_right_edge() {
    // V0=63, V1=0, draw one row of glyph 0 (0xF0): columns 63, 0, 1, 2
    let mut c = loaded(&[0x603F, 0xD011]);
    c.exec_opcode().unwrap();
    c.exec_opcode().unwrap();
    assert!(c.pixel(63, 0));
    assert!(c.pixel(0, 0) && c.pixel(1, 0) && c.pixel(2, 0));
    assert!(!c.pixel(3, 0));
    assert_eq!(c.register(15), 0);
}

#[test]
fn draw_wraps_around_the_bottom_edge() {
    // V1=31: rows 31, 0, 1, 2, 3
    let mut c = loaded(&[0x611F, 0xD015]);
    c.exec_opcode().unwrap();
    c.exec_opcode().unwrap();
    assert!(c.pixel(0, 31));
    assert!(c.pixel(0, 0) && c.pixel(0, 1) && c.pixel(0, 2));
}

#[test]
fn draw_collision_sets_vf_and_xor_clears() {
    let mut c = loaded(&[0xD005, 0xA050, 0xD005]);
    c.exec_opcode().unwrap();
    assert_eq!(c.register(15), 0);
    c.exec_opcode().unwrap();
    // drawing the same glyph again toggles every lit pixel off
    c.exec_opcode().unwrap();
    assert_eq!(c.register(15), 1);
    for x in 0..64usize {
        for y in 0..32usize {
            assert!(!c.pixel(x, y));
        }
    }
}

#[test]
fn draw_collision_flag_stays_set_for_the_whole_call() {
    // light the single pixel (0, 0), then draw a tall sprite whose first row
    // collides there and whose later rows land on dark pixels
    // sprite data at 0x300: 0x80 (one pixel), then a 3-row sprite
    // 0x80 0x40 0x20 whose first row collides and whose later rows do not
    let mut image = prog(&[0xA300, 0xD001, 0xA301, 0xD003]);
    while image.len() < 0x100 {
        image.push(0);
    }
    image.push(0x80); // 0x300
    image.push(0x80); // 0x301
    image.push(0x40); // 0x302
    image.push(0x20); // 0x303
    let mut c = ChipContext::reset();
    c.load_program(&image).unwrap();
    c.exec_opcode().unwrap();
    c.exec_opcode().unwrap();
    assert!(c.pixel(0, 0));
    assert_eq!(c.register(15), 0);
    c.exec_opcode().unwrap();
    c.exec_opcode().unwrap();
    // the first row collided; the later, collision-free rows kept VF at 1
    assert_eq!(c.register(15), 1);
    assert!(!c.pixel(0, 0));
    assert!(c.pixel(1, 1));
    assert!(c.pixel(2, 2));
}

#[test]
fn draw_past_memory_fails() {
    let mut c = loaded(&[0xAFFF, 0xD002]);
    c.exec_opcode().unwrap();
    assert_eq!(c.exec_opcode(), Err(ChipError::OutOfBoundsAddress));
    // one row at 0xFFF is still in bounds
    let mut c = loaded(&[0xAFFF, 0xD001]);
    c.exec_opcode().unwrap();
    assert_eq!(c.exec_opcode(), Ok(StepOutcome::Completed));
}

#[test]
fn draw_of_zero_rows_clears_vf_and_touches_no_pixel() {
    let mut c = loaded(&[0xD005, 0xD000]);
    c.exec_opcode().unwrap();
    assert!(c.pixel(0, 0));
    assert_eq!(c.exec_opcode(), Ok(StepOutcome::Completed));
    assert_eq!(c.register(15), 0);
    assert!(c.pixel(0, 0));
    assert_eq!(c.program_counter(), 0x204);
}

#[test]
fn call_then_return_restores_pc_and_sp() {
    // the call target 0x400 lies at offset 0x200 of the image and holds 00EE
    let mut bytes = prog(&[0x2400]);
    while bytes.len() < 0x200 {
        bytes.push(0);
    }
    bytes.push(0x00);
    bytes.push(0xEE);
    let mut c = ChipContext::reset();
    c.load_program(&bytes).unwrap();
    assert_eq!(c.exec_opcode(), Ok(StepOutcome::Completed));
    assert_eq!(c.program_counter(), 0x400);
    assert_eq!(c.stack_pointer(), 1);
    assert_eq!(c.exec_opcode(), Ok(StepOutcome::Completed));
    assert_eq!(c.program_counter(), 0x202);
    assert_eq!(c.stack_pointer(), 0);
}

#[test]
fn seventeen_nested_calls_overflow_the_stack() {
    let mut words: Vec<u16> = Vec::new();
    for k in 0..17u16 {
        // each instruction calls the next one
        words.push(0x2000 | (0x202 + 2 * k));
    }
    let mut c = loaded(&words);
    for _ in 0..16 {
        assert_eq!(c.exec_opcode(), Ok(StepOutcome::Completed));
    }
    assert_eq!(c.stack_pointer(), 16);
    let pc_before = c.program_counter();
    assert_eq!(c.exec_opcode(), Err(ChipError::StackOverflow));
    assert_eq!(c.stack_pointer(), 16);
    assert_eq!(c.program_counter(), pc_before);
}

#[test]
fn return_with_an_empty_stack_underflows() {
    let mut c = loaded(&[0x00EE]);
    assert_eq!(c.exec_opcode(), Err(ChipError::StackUnderflow));
    assert_eq!(c.program_counter(), 0x200);
}

#[test]
fn skip_key_down_and_up_read_the_flags() {
    // V0 = 7; skip-if-down then skip-if-up
    let mut c = loaded(&[0x6007, 0xE09E]);
    c.exec_opcode().unwrap();
    c.set_key(7, true);
    c.exec_opcode().unwrap();
    assert_eq!(c.program_counter(), 0x206);
    // held semantics: the check did not clear the flag
    let mut c = loaded(&[0x6007, 0xE09E, 0x0000, 0xE09E]);
    c.exec_opcode().unwrap();
    c.set_key(7, true);
    c.exec_opcode().unwrap();
    assert_eq!(c.program_counter(), 0x206);
    c.exec_opcode().unwrap();
    assert_eq!(c.program_counter(), 0x20A);
    // key up: ExA1 skips only while the key is released
    let mut c = loaded(&[0x6007, 0xE0A1]);
    c.exec_opcode().unwrap();
    c.exec_opcode().unwrap();
    assert_eq!(c.program_counter(), 0x206);
    let mut c = loaded(&[0x6007, 0xE0A1]);
    c.exec_opcode().unwrap();
    c.set_key(7, true);
    c.exec_opcode().unwrap();
    assert_eq!(c.program_counter(), 0x204);
}

#[test]
fn wait_key_suspends_until_a_key_is_down() {
    let mut c = loaded(&[0xF50A]);
    assert_eq!(c.exec_opcode(), Ok(StepOutcome::AwaitingKey));
    assert_eq!(c.program_counter(), 0x200);
    assert_eq!(c.exec_opcode(), Ok(StepOutcome::AwaitingKey));
    c.set_key(9, true);
    c.set_key(11, true);
    assert_eq!(c.exec_opcode(), Ok(StepOutcome::Completed));
    // the lowest set index is stored
    assert_eq!(c.register(5), 9);
    assert_eq!(c.program_counter(), 0x202);
}

#[test]
fn end_to_end_add_then_bcd() {
    // V0=5, V1=10, V0+=V1, then store the digits of V0 at I
    let mut c = loaded(&[0x6005, 0x610A, 0x8014, 0xF033]);
    for _ in 0..3 {
        c.exec_opcode().unwrap();
    }
    assert_eq!(c.register(0), 15);
    c.exec_opcode().unwrap();
    let i = c.index_register() as usize;
    assert_eq!(c.mem_byte(i), 0);
    assert_eq!(c.mem_byte(i + 1), 1);
    assert_eq!(c.mem_byte(i + 2), 5);
}
