use chip8_core::{Chip8, Chip8Error, DISPLAY_CELLS, FONT_START, MAX_PROGRAM_SIZE, PROGRAM_START};

fn machine_with(program: &[u8]) -> Chip8 {
    let mut m = Chip8::new();
    m.load(program).unwrap();
    m
}

fn run(m: &mut Chip8, cycles: usize) {
    for _ in 0..cycles {
        m.cycle().unwrap();
    }
}

fn lit_cells(m: &Chip8) -> Vec<usize> {
    m.get_display()
        .iter()
        .enumerate()
        .filter(|(_, on)| **on)
        .map(|(i, _)| i)
        .collect()
}

#[test]
fn new_machine_is_zeroed_with_font() {
    let m = Chip8::new();
    assert_eq!(m.program_counter(), PROGRAM_START);
    assert_eq!(m.index_register(), 0);
    assert_eq!(m.stack_pointer(), 0);
    assert_eq!(m.delay_timer(), 0);
    assert_eq!(m.sound_timer(), 0);
    for x in 0..16 {
        assert_eq!(m.register(x), 0);
    }
    assert_eq!(m.memory_at(FONT_START), 0xF0);
    assert_eq!(m.memory_at(FONT_START + 5), 0x20);
    assert_eq!(m.memory_at(FONT_START + 79), 0x80);
    assert_eq!(m.memory_at(FONT_START - 1), 0);
    assert_eq!(m.memory_at(FONT_START + 80), 0);
    assert_eq!(m.get_display().len(), DISPLAY_CELLS);
    assert!(lit_cells(&m).is_empty());
}

#[test]
fn load_copies_program_at_start() {
    let m = machine_with(&[0x12, 0x34, 0x56]);
    assert_eq!(m.memory_at(0x200), 0x12);
    assert_eq!(m.memory_at(0x201), 0x34);
    assert_eq!(m.memory_at(0x202), 0x56);
    assert_eq!(m.memory_at(0x203), 0);
}

#[test]
fn load_accepts_largest_program() {
    let mut m = Chip8::new();
    let data = vec![0xAB; MAX_PROGRAM_SIZE];
    assert_eq!(m.load(&data), Ok(()));
    assert_eq!(m.memory_at(4095), 0xAB);
}

#[test]
fn load_rejects_oversized_program() {
    let mut m = Chip8::new();
    let data = vec![0xAB; MAX_PROGRAM_SIZE + 1];
    assert_eq!(m.load(&data), Err(Chip8Error::ProgramTooLarge));
    assert_eq!(m.memory_at(0x200), 0);
}

#[test]
fn set_then_add_wraps() {
    let mut m = machine_with(&[0x6A, 200, 0x7A, 100]);
    run(&mut m, 2);
    assert_eq!(m.register(0xA), 44);
    assert_eq!(m.program_counter(), 0x204);
}

#[test]
fn add_sets_carry() {
    let mut m = machine_with(&[0x6A, 250, 0x6B, 10, 0x8A, 0xB4]);
    run(&mut m, 3);
    assert_eq!(m.register(0xF), 1);
    assert_eq!(m.register(0xA), 4);
    let mut m = machine_with(&[0x6A, 1, 0x6B, 1, 0x8A, 0xB4]);
    run(&mut m, 3);
    assert_eq!(m.register(0xF), 0);
    assert_eq!(m.register(0xA), 2);
}

#[test]
fn sub_sets_not_borrow() {
    let mut m = machine_with(&[0x6A, 5, 0x6B, 10, 0x8A, 0xB5]);
    run(&mut m, 3);
    assert_eq!(m.register(0xF), 0);
    assert_eq!(m.register(0xA), 251);
    let mut m = machine_with(&[0x6A, 10, 0x6B, 5, 0x8A, 0xB5]);
    run(&mut m, 3);
    assert_eq!(m.register(0xF), 1);
    assert_eq!(m.register(0xA), 5);
}

#[test]
fn reverse_sub_wraps() {
    let mut m = machine_with(&[0x6A, 10, 0x6B, 5, 0x8A, 0xB7]);
    run(&mut m, 3);
    assert_eq!(m.register(0xF), 0);
    assert_eq!(m.register(0xA), 251);
}

#[test]
fn logic_and_copy() {
    let mut m = Chip8::new();
    m.execute(0x610C, 0).unwrap();
    m.execute(0x620A, 0).unwrap();
    m.execute(0x6310, 0).unwrap();
    m.execute(0x8121, 0).unwrap();
    assert_eq!(m.register(1), 0x0E);
    m.execute(0x8122, 0).unwrap();
    assert_eq!(m.register(1), 0x0A);
    m.execute(0x8133, 0).unwrap();
    assert_eq!(m.register(1), 0x1A);
    m.execute(0x8130, 0).unwrap();
    assert_eq!(m.register(1), 0x10);
}

#[test]
fn shifts_report_dropped_bit() {
    let mut m = Chip8::new();
    m.execute(0x6181, 0).unwrap();
    m.execute(0x8106, 0).unwrap();
    assert_eq!(m.register(1), 0x40);
    assert_eq!(m.register(0xF), 1);
    m.execute(0x6181, 0).unwrap();
    m.execute(0x810E, 0).unwrap();
    assert_eq!(m.register(1), 0x02);
    assert_eq!(m.register(0xF), 1);
    m.execute(0x810E, 0).unwrap();
    assert_eq!(m.register(1), 0x04);
    assert_eq!(m.register(0xF), 0);
}

#[test]
fn skips_and_jumps() {
    let mut m = Chip8::new();
    m.execute(0x6105, 0).unwrap();
    m.execute(0x6205, 0).unwrap();
    let pc = m.program_counter();
    m.execute(0x3105, 0).unwrap();
    assert_eq!(m.program_counter(), pc + 2);
    m.execute(0x4105, 0).unwrap();
    assert_eq!(m.program_counter(), pc + 2);
    m.execute(0x5120, 0).unwrap();
    assert_eq!(m.program_counter(), pc + 4);
    m.execute(0x9120, 0).unwrap();
    assert_eq!(m.program_counter(), pc + 4);
    m.execute(0x1ABC, 0).unwrap();
    assert_eq!(m.program_counter(), 0xABC);
    m.execute(0x6010, 0).unwrap();
    m.execute(0xB300, 0).unwrap();
    assert_eq!(m.program_counter(), 0x310);
    m.execute(0xA123, 0).unwrap();
    assert_eq!(m.index_register(), 0x123);
}

#[test]
fn random_is_masked() {
    let mut m = Chip8::new();
    m.execute(0xC30F, 0xAB).unwrap();
    assert_eq!(m.register(3), 0x0B);
    let mut m = machine_with(&[0xC4, 0x00, 0xC5, 0xF0]);
    run(&mut m, 2);
    assert_eq!(m.register(4), 0);
    assert_eq!(m.register(5) & 0x0F, 0);
}

#[test]
fn clear_then_draw_shows_only_sprite() {
    // Draw the glyph 0 at (0, 0), clear, then draw the glyph 1 at (0, 0).
    let mut m = machine_with(&[0xA0, 0x50, 0xD0, 0x05, 0x00, 0xE0, 0xA0, 0x55, 0xD0, 0x05]);
    run(&mut m, 3);
    assert!(lit_cells(&m).is_empty());
    run(&mut m, 2);
    assert_eq!(m.register(0xF), 0);
    // glyph 1: 0x20, 0x60, 0x20, 0x20, 0x70
    assert_eq!(lit_cells(&m), vec![2, 65, 66, 130, 194, 257, 258, 259]);
}

#[test]
fn draw_twice_restores_display() {
    let mut m = machine_with(&[0x61, 10, 0x62, 7, 0xA0, 0x50, 0xD1, 0x25, 0xD1, 0x25]);
    run(&mut m, 4);
    assert_eq!(m.register(0xF), 0);
    assert_eq!(lit_cells(&m).len(), 14);
    run(&mut m, 1);
    assert_eq!(m.register(0xF), 1);
    assert!(lit_cells(&m).is_empty());
}

#[test]
fn draw_wraps_each_pixel() {
    // Glyph 0 at x = 62, y = 30: columns and rows past the edge wrap around.
    let mut m = machine_with(&[0x61, 62, 0x62, 30, 0xA0, 0x50, 0xD1, 0x22]);
    run(&mut m, 4);
    // rows 0 and 1 of glyph 0 are 0xF0 and 0x90
    assert_eq!(lit_cells(&m), vec![1920, 1921, 1982, 1983, 1985, 2046]);
}

#[test]
fn call_then_return_restores_pc() {
    let mut image = vec![0u8; 0x102];
    image[0] = 0x23;
    image[1] = 0x00;
    image[0x100] = 0x00;
    image[0x101] = 0xEE;
    let mut m = machine_with(&image);
    m.cycle().unwrap();
    assert_eq!(m.program_counter(), 0x300);
    assert_eq!(m.stack_pointer(), 1);
    m.cycle().unwrap();
    assert_eq!(m.program_counter(), 0x202);
    assert_eq!(m.stack_pointer(), 0);
}

#[test]
fn bcd_stores_digits() {
    let mut m = machine_with(&[0x6A, 156, 0xA4, 0x00, 0xFA, 0x33]);
    run(&mut m, 3);
    assert_eq!(m.memory_at(0x400), 1);
    assert_eq!(m.memory_at(0x401), 5);
    assert_eq!(m.memory_at(0x402), 6);
}

#[test]
fn wait_for_key_repeats_until_pressed() {
    let mut m = machine_with(&[0xF3, 0x0A]);
    for _ in 0..3 {
        m.cycle().unwrap();
        assert_eq!(m.program_counter(), 0x200);
    }
    m.keypress(9, true);
    m.keypress(4, true);
    m.cycle().unwrap();
    assert_eq!(m.register(3), 4);
    assert_eq!(m.program_counter(), 0x202);
}

#[test]
fn delay_timer_counts_down_to_zero() {
    let mut m = machine_with(&[
        0x6A, 5, 0xFA, 0x15, 0x60, 0, 0x60, 0, 0x60, 0, 0x60, 0, 0x60, 0, 0x60, 0, 0xF1, 0x07,
    ]);
    run(&mut m, 2);
    assert_eq!(m.delay_timer(), 4);
    run(&mut m, 4);
    assert_eq!(m.delay_timer(), 0);
    run(&mut m, 1);
    assert_eq!(m.delay_timer(), 0);
    run(&mut m, 2);
    assert_eq!(m.register(1), 0);
}

#[test]
fn sound_timer_counts_down() {
    let mut m = machine_with(&[0x6A, 2, 0xFA, 0x18, 0x60, 0, 0x60, 0]);
    run(&mut m, 2);
    assert_eq!(m.sound_timer(), 1);
    run(&mut m, 2);
    assert_eq!(m.sound_timer(), 0);
}

#[test]
fn key_skips() {
    let mut m = Chip8::new();
    m.execute(0x6507, 0).unwrap();
    let pc = m.program_counter();
    m.execute(0xE59E, 0).unwrap();
    assert_eq!(m.program_counter(), pc);
    m.execute(0xE5A1, 0).unwrap();
    assert_eq!(m.program_counter(), pc + 2);
    m.keypress(7, true);
    m.execute(0xE59E, 0).unwrap();
    assert_eq!(m.program_counter(), pc + 4);
    m.keypress(7, false);
    m.execute(0xE59E, 0).unwrap();
    assert_eq!(m.program_counter(), pc + 4);
}

#[test]
fn index_arithmetic_and_font_lookup() {
    let mut m = Chip8::new();
    m.execute(0x630A, 0).unwrap();
    m.execute(0xF329, 0).unwrap();
    assert_eq!(m.index_register(), (FONT_START + 50) as u16);
    m.execute(0xAFFF, 0).unwrap();
    m.execute(0xF31E, 0).unwrap();
    assert_eq!(m.index_register(), 0x1009);
    m.execute(0xF307, 0).unwrap();
    assert_eq!(m.register(3), 0);
}

#[test]
fn store_and_load_registers() {
    let mut m = Chip8::new();
    m.execute(0x6011, 0).unwrap();
    m.execute(0x6122, 0).unwrap();
    m.execute(0x6233, 0).unwrap();
    m.execute(0x6344, 0).unwrap();
    m.execute(0xA300, 0).unwrap();
    m.execute(0xF255, 0).unwrap();
    assert_eq!(m.memory_at(0x300), 0x11);
    assert_eq!(m.memory_at(0x301), 0x22);
    assert_eq!(m.memory_at(0x302), 0x33);
    assert_eq!(m.memory_at(0x303), 0);
    m.execute(0x6000, 0).unwrap();
    m.execute(0x6100, 0).unwrap();
    m.execute(0x6200, 0).unwrap();
    m.execute(0xF165, 0).unwrap();
    assert_eq!(m.register(0), 0x11);
    assert_eq!(m.register(1), 0x22);
    assert_eq!(m.register(2), 0);
    assert_eq!(m.register(3), 0x44);
}

#[test]
fn unknown_opcodes_are_errors() {
    for op in [0x0123u16, 0x5121, 0x8008, 0x9121, 0xE0FF, 0xF0FF] {
        let mut m = Chip8::new();
        assert_eq!(m.execute(op, 0), Err(Chip8Error::UnknownOpcode(op)));
        assert_eq!(m.program_counter(), PROGRAM_START);
    }
    let mut m = machine_with(&[0xF0, 0xFF]);
    assert_eq!(m.cycle(), Err(Chip8Error::UnknownOpcode(0xF0FF)));
    assert_eq!(m.program_counter(), PROGRAM_START);
}

#[test]
fn return_on_empty_stack_is_error() {
    let mut m = machine_with(&[0x00, 0xEE]);
    assert_eq!(m.cycle(), Err(Chip8Error::StackUnderflow));
    assert_eq!(m.program_counter(), PROGRAM_START);
}

#[test]
fn seventeenth_call_overflows() {
    let mut m = machine_with(&[0x22, 0x00]);
    run(&mut m, 16);
    assert_eq!(m.stack_pointer(), 16);
    assert_eq!(m.cycle(), Err(Chip8Error::StackOverflow));
    assert_eq!(m.stack_pointer(), 16);
}

#[test]
fn fetch_past_memory_is_error() {
    let mut m = machine_with(&[0x1F, 0xFF]);
    run(&mut m, 1);
    assert_eq!(m.program_counter(), 0xFFF);
    assert_eq!(m.cycle(), Err(Chip8Error::AddressOutOfRange));
}

#[test]
fn out_of_range_accesses_are_errors() {
    let mut m = Chip8::new();
    m.execute(0x6310, 0).unwrap();
    assert_eq!(m.execute(0xE39E, 0), Err(Chip8Error::KeyOutOfRange));
    m.execute(0xAFFE, 0).unwrap();
    assert_eq!(m.execute(0xF333, 0), Err(Chip8Error::AddressOutOfRange));
    assert_eq!(m.execute(0xF255, 0), Err(Chip8Error::AddressOutOfRange));
    assert_eq!(m.execute(0xD005, 0), Err(Chip8Error::AddressOutOfRange));
    assert_eq!(m.memory_at(0xFFE), 0);
}
