use rust8::chip8::{Chip8, Chip8Error, MAX_PROGRAM_SIZE};

fn machine(program: &[u8]) -> Chip8 {
    Chip8::new(program.to_vec()).unwrap()
}

#[test]
fn new_loads_font_and_program() {
    let c = machine(&[0x12, 0x34]);
    assert_eq!(c.program_counter(), 0x200);
    assert_eq!(c.read_memory(0x200), 0x12);
    assert_eq!(c.read_memory(0x201), 0x34);
    assert_eq!(c.read_memory(0x202), 0);
    assert_eq!(c.read_memory(0), 0xF0);
    assert_eq!(c.read_memory(5), 0x20);
    assert_eq!(c.read_memory(79), 0x80);
    assert_eq!(c.read_memory(80), 0);
    assert_eq!(c.index_register(), 0);
    assert_eq!(c.key_to_wait_for(), None);
    for r in 0..16 {
        assert_eq!(c.read_reg(r), 0);
    }
}

#[test]
fn program_too_large_is_rejected() {
    assert!(Chip8::new(vec![0; MAX_PROGRAM_SIZE]).is_ok());
    assert_eq!(
        Chip8::new(vec![0; MAX_PROGRAM_SIZE + 1]).err(),
        Some(Chip8Error::ProgramTooLarge { len: 3585 })
    );
}

#[test]
fn two_instruction_program() {
    let mut c = machine(&[0x60, 0x05, 0x70, 0x03]);
    assert_eq!(c.cycle(3), Ok(()));
    assert_eq!(c.read_reg(0), 8);
    assert_eq!(c.program_counter(), 0x204);
}

#[test]
fn budget_runs_one_fewer_step() {
    let mut c = machine(&[0x60, 0x05, 0x70, 0x03]);
    assert_eq!(c.cycle(0), Ok(()));
    assert_eq!(c.cycle(1), Ok(()));
    assert_eq!(c.program_counter(), 0x200);
    assert_eq!(c.cycle(2), Ok(()));
    assert_eq!(c.program_counter(), 0x202);
    assert_eq!(c.read_reg(0), 5);
}

#[test]
fn add_sets_carry() {
    let mut c = machine(&[0x65, 0xC8, 0x66, 0x64, 0x85, 0x64]);
    assert_eq!(c.cycle(4), Ok(()));
    assert_eq!(c.read_reg(5), 44);
    assert_eq!(c.read_reg(0xF), 1);
}

#[test]
fn add_without_carry_clears_flag() {
    let mut c = machine(&[0x6F, 0x07, 0x65, 0x01, 0x66, 0x02, 0x85, 0x64]);
    assert_eq!(c.cycle(5), Ok(()));
    assert_eq!(c.read_reg(5), 3);
    assert_eq!(c.read_reg(0xF), 0);
}

#[test]
fn sub_wraps_and_clears_flag() {
    let mut c = machine(&[0x6F, 0x07, 0x65, 0x05, 0x66, 0x0A, 0x85, 0x65]);
    assert_eq!(c.cycle(5), Ok(()));
    assert_eq!(c.read_reg(5), 251);
    assert_eq!(c.read_reg(0xF), 0);
}

#[test]
fn sub_of_equal_values_clears_flag() {
    let mut c = machine(&[0x65, 0x09, 0x66, 0x09, 0x85, 0x65]);
    assert_eq!(c.cycle(4), Ok(()));
    assert_eq!(c.read_reg(5), 0);
    assert_eq!(c.read_reg(0xF), 0);
}

#[test]
fn reverse_sub_subtracts_the_other_way() {
    let mut c = machine(&[0x65, 0x05, 0x66, 0x0A, 0x85, 0x67]);
    assert_eq!(c.cycle(4), Ok(()));
    assert_eq!(c.read_reg(5), 5);
    assert_eq!(c.read_reg(0xF), 1);
}

#[test]
fn add_immediate_wraps() {
    let mut c = machine(&[0x60, 0xFF, 0x70, 0x02]);
    assert_eq!(c.cycle(3), Ok(()));
    assert_eq!(c.read_reg(0), 1);
    assert_eq!(c.read_reg(0xF), 0);
}

#[test]
fn bitwise_operations() {
    let mut c = machine(&[
        0x61, 0b1100, 0x62, 0b1010, 0x83, 0x10, 0x83, 0x21, 0x84, 0x10, 0x84, 0x22, 0x85,
        0x10, 0x85, 0x23,
    ]);
    assert_eq!(c.cycle(9), Ok(()));
    assert_eq!(c.read_reg(3), 0b1110);
    assert_eq!(c.read_reg(4), 0b1000);
    assert_eq!(c.read_reg(5), 0b0110);
}

#[test]
fn shifts_set_flag_to_bit_shifted_out() {
    let mut c = machine(&[0x61, 0x81, 0x81, 0x06]);
    assert_eq!(c.cycle(3), Ok(()));
    assert_eq!(c.read_reg(1), 0x40);
    assert_eq!(c.read_reg(0xF), 1);
    let mut c = machine(&[0x61, 0x81, 0x81, 0x0E]);
    assert_eq!(c.cycle(3), Ok(()));
    assert_eq!(c.read_reg(1), 0x02);
    assert_eq!(c.read_reg(0xF), 1);
    let mut c = machine(&[0x61, 0x40, 0x81, 0x0E]);
    assert_eq!(c.cycle(3), Ok(()));
    assert_eq!(c.read_reg(1), 0x80);
    assert_eq!(c.read_reg(0xF), 0);
}

#[test]
fn skips_advance_by_four_when_taken() {
    let mut c = machine(&[0x61, 0x07, 0x31, 0x07]);
    assert_eq!(c.cycle(3), Ok(()));
    assert_eq!(c.program_counter(), 0x206);
    let mut c = machine(&[0x61, 0x07, 0x41, 0x07]);
    assert_eq!(c.cycle(3), Ok(()));
    assert_eq!(c.program_counter(), 0x204);
    let mut c = machine(&[0x61, 0x07, 0x62, 0x07, 0x51, 0x20]);
    assert_eq!(c.cycle(4), Ok(()));
    assert_eq!(c.program_counter(), 0x208);
    let mut c = machine(&[0x61, 0x07, 0x62, 0x07, 0x91, 0x20]);
    assert_eq!(c.cycle(4), Ok(()));
    assert_eq!(c.program_counter(), 0x206);
}

#[test]
fn jump_call_and_return() {
    let mut c = machine(&[0x22, 0x06, 0x00, 0x00, 0x00, 0x00, 0x00, 0xEE]);
    assert_eq!(c.cycle(2), Ok(()));
    assert_eq!(c.program_counter(), 0x206);
    assert_eq!(c.cycle(2), Ok(()));
    assert_eq!(c.program_counter(), 0x202);
    let mut c = machine(&[0x13, 0x00]);
    assert_eq!(c.cycle(2), Ok(()));
    assert_eq!(c.program_counter(), 0x300);
}

#[test]
fn jump_plus_register_zero() {
    let mut c = machine(&[0x60, 0x10, 0xB3, 0x00]);
    assert_eq!(c.cycle(3), Ok(()));
    assert_eq!(c.program_counter(), 0x310);
}

#[test]
fn return_on_empty_stack_fails() {
    let mut c = machine(&[0x00, 0xEE]);
    assert_eq!(c.cycle(2), Err(Chip8Error::StackUnderflow { pc: 0x200 }));
    assert_eq!(c.program_counter(), 0x200);
}

#[test]
fn seventeenth_nested_call_fails() {
    let mut c = machine(&[0x22, 0x00]);
    assert_eq!(c.cycle(17), Ok(()));
    assert_eq!(c.cycle(2), Err(Chip8Error::StackOverflow { pc: 0x200 }));
}

#[test]
fn unrecognized_opcode_fails() {
    let mut c = machine(&[0x60, 0x01, 0xFF, 0xFF, 0x60, 0x02]);
    assert_eq!(
        c.cycle(4),
        Err(Chip8Error::UnrecognizedInstruction { opcode: 0xFFFF, pc: 0x202 })
    );
    assert_eq!(c.read_reg(0), 1);
    assert_eq!(c.program_counter(), 0x202);
}

#[test]
fn fetch_past_memory_fails() {
    let mut c = machine(&[0x1F, 0xFF]);
    assert_eq!(c.cycle(3), Err(Chip8Error::AddressOutOfRange { pc: 0xFFF }));
}

#[test]
fn memory_access_past_end_fails() {
    let mut c = machine(&[0xAF, 0xFE, 0xF0, 0x33]);
    assert_eq!(c.cycle(3), Err(Chip8Error::AddressOutOfRange { pc: 0x202 }));
    let mut c = machine(&[0xAF, 0xFE, 0xF2, 0x55]);
    assert_eq!(c.cycle(3), Err(Chip8Error::AddressOutOfRange { pc: 0x202 }));
    let mut c = machine(&[0xAF, 0xFE, 0xD0, 0x03]);
    assert_eq!(c.cycle(3), Err(Chip8Error::AddressOutOfRange { pc: 0x202 }));
}

#[test]
fn bcd_of_157() {
    let mut c = machine(&[0x64, 157, 0xA3, 0x00, 0xF4, 0x33]);
    assert_eq!(c.cycle(4), Ok(()));
    assert_eq!(c.read_memory(0x300), 1);
    assert_eq!(c.read_memory(0x301), 5);
    assert_eq!(c.read_memory(0x302), 7);
}

#[test]
fn store_and_load_registers() {
    let mut c = machine(&[
        0x60, 0x0A, 0x61, 0x0B, 0x62, 0x0C, 0xA3, 0x00, 0xF1, 0x55, 0x60, 0x00, 0x61, 0x00,
        0x62, 0x00, 0xA3, 0x00, 0xF2, 0x65,
    ]);
    assert_eq!(c.cycle(11), Ok(()));
    assert_eq!(c.read_memory(0x300), 0x0A);
    assert_eq!(c.read_memory(0x301), 0x0B);
    assert_eq!(c.read_memory(0x302), 0);
    assert_eq!(c.read_reg(0), 0x0A);
    assert_eq!(c.read_reg(1), 0x0B);
    assert_eq!(c.read_reg(2), 0);
}

#[test]
fn index_register_instructions() {
    let mut c = machine(&[0x65, 0x1B, 0xF5, 0x29, 0x66, 0x04, 0xF6, 0x1E]);
    assert_eq!(c.cycle(3), Ok(()));
    assert_eq!(c.index_register(), 55);
    assert_eq!(c.cycle(3), Ok(()));
    assert_eq!(c.index_register(), 59);
}

#[test]
fn timers() {
    let mut c = machine(&[0x65, 0x05, 0xF5, 0x15, 0xF5, 0x18, 0xF6, 0x07]);
    assert_eq!(c.cycle(5), Ok(()));
    assert_eq!(c.sound_timer(), 5);
    assert_eq!(c.read_reg(6), 3);
    assert_eq!(c.delay_timer(), 3);
}

#[test]
fn random_is_masked() {
    let mut c = machine(&[0x60, 0xFF, 0xC0, 0x00, 0xC1, 0x0F]);
    assert_eq!(c.cycle(4), Ok(()));
    assert_eq!(c.read_reg(0), 0);
    assert!(c.read_reg(1) <= 0x0F);
}

#[test]
fn draw_glyph_and_collision() {
    let mut c = machine(&[0xD0, 0x05, 0xD0, 0x05]);
    assert_eq!(c.cycle(2), Ok(()));
    assert_eq!(c.read_reg(0xF), 0);
    let buffer = c.display().get_buffer();
    assert_eq!(&buffer[0][0..5], &[true, true, true, true, false]);
    assert_eq!(&buffer[1][0..5], &[true, false, false, true, false]);
    assert_eq!(c.cycle(2), Ok(()));
    assert_eq!(c.read_reg(0xF), 1);
    assert!(c.display().get_buffer().iter().all(|row| row.iter().all(|p| !p)));
}

#[test]
fn clear_display_instruction() {
    let mut c = machine(&[0xD0, 0x05, 0x00, 0xE0]);
    assert_eq!(c.cycle(3), Ok(()));
    assert!(c.display().get_buffer().iter().all(|row| row.iter().all(|p| !p)));
    assert_eq!(c.program_counter(), 0x204);
}

#[test]
fn key_wait_blocks_until_press() {
    let mut c = machine(&[0xF3, 0x0A, 0x60, 0x07]);
    assert_eq!(c.cycle(2), Ok(()));
    assert_eq!(c.program_counter(), 0x202);
    assert_eq!(c.key_to_wait_for(), Some(3));
    assert_eq!(c.cycle(20), Ok(()));
    assert_eq!(c.program_counter(), 0x202);
    assert_eq!(c.read_reg(0), 0);
    c.handle_key_press(0xB);
    assert_eq!(c.read_reg(3), 0xB);
    assert_eq!(c.key_to_wait_for(), None);
    assert_eq!(c.cycle(2), Ok(()));
    assert_eq!(c.program_counter(), 0x204);
    assert_eq!(c.read_reg(0), 7);
}

#[test]
fn key_press_without_wait_changes_no_register() {
    let mut c = machine(&[0x60, 0x07]);
    c.handle_key_press(4);
    for r in 0..16 {
        assert_eq!(c.read_reg(r), 0);
    }
}

#[test]
fn skip_on_key_state() {
    let mut c = machine(&[0x61, 0x04, 0xE1, 0x9E]);
    c.handle_key_press(4);
    assert_eq!(c.cycle(3), Ok(()));
    assert_eq!(c.program_counter(), 0x206);
    let mut c = machine(&[0x61, 0x04, 0xE1, 0x9E]);
    c.handle_key_press(4);
    c.handle_key_release(4);
    assert_eq!(c.cycle(3), Ok(()));
    assert_eq!(c.program_counter(), 0x204);
    let mut c = machine(&[0x61, 0x04, 0xE1, 0xA1]);
    assert_eq!(c.cycle(3), Ok(()));
    assert_eq!(c.program_counter(), 0x206);
    let mut c = machine(&[0x61, 0x40, 0xE1, 0xA1]);
    assert_eq!(c.cycle(3), Ok(()));
    assert_eq!(c.program_counter(), 0x206);
}
