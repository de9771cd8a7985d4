//! End-to-end tests of the machine through its public operations.
use chip8_core::{Emu, Fault, SCREEN_HEIGHT, SCREEN_WIDTH};

fn boot(prog: &[u8]) -> Emu {
    let mut emu = Emu::new();
    emu.load(prog);
    emu
}

fn all_dark(emu: &Emu) -> bool {
    emu.get_display().iter().all(|p| !*p)
}

#[test]
fn init_state_is_zeroed_with_font() {
    let emu = Emu::new();
    assert_eq!(emu.get_pc(), 0x200);
    assert_eq!(emu.get_i_reg(), 0);
    assert_eq!(emu.get_stack_depth(), 0);
    assert_eq!(emu.get_delay_timer(), 0);
    assert_eq!(emu.get_sound_timer(), 0);
    for i in 0..16 {
        assert_eq!(emu.get_register(i), 0);
    }
    assert!(all_dark(&emu));
    assert_eq!(emu.get_display().len(), SCREEN_WIDTH * SCREEN_HEIGHT);
    // first glyph row and last font byte
    assert_eq!(emu.get_memory(0), 0xF0);
    assert_eq!(emu.get_memory(79), 0x80);
    assert_eq!(emu.get_memory(80), 0);
}

#[test]
fn reset_restores_initial_state() {
    let mut emu = boot(&[0x6A, 0x05]);
    assert!(emu.tick().is_ok());
    emu.keypress(3, true);
    emu.reset();
    assert_eq!(emu.get_pc(), 0x200);
    assert_eq!(emu.get_register(0xA), 0);
    // the program image is discarded, the font reinstalled
    assert_eq!(emu.get_memory(0x200), 0);
    assert_eq!(emu.get_memory(0), 0xF0);
}

#[test]
fn load_places_image_at_load_address() {
    let emu = boot(&[0x12, 0x34, 0x56]);
    assert_eq!(emu.get_memory(0x200), 0x12);
    assert_eq!(emu.get_memory(0x201), 0x34);
    assert_eq!(emu.get_memory(0x202), 0x56);
    assert_eq!(emu.get_memory(0x203), 0);
}

#[test]
fn end_to_end_set_register_and_clear() {
    // 6A05: V[A] = 5; 00E0: clear screen
    let mut emu = boot(&[0x6A, 0x05, 0x00, 0xE0]);
    assert!(emu.tick().is_ok());
    assert!(emu.tick().is_ok());
    assert_eq!(emu.get_register(0xA), 5);
    assert!(all_dark(&emu));
}

#[test]
fn end_to_end_return_on_empty_stack_faults() {
    // 00E0 then 00EE with nothing on the stack
    let mut emu = boot(&[0x00, 0xE0, 0x00, 0xEE]);
    assert!(emu.tick().is_ok());
    assert_eq!(emu.tick(), Err(Fault::StackUnderflow));
}

#[test]
fn add_immediate_wraps_without_flag() {
    // 63FA: V3 = 250; 7310: V3 += 16 -> 10 mod 256; VF untouched
    let mut emu = boot(&[0x63, 0xFA, 0x73, 0x10]);
    assert!(emu.tick().is_ok());
    assert!(emu.tick().is_ok());
    assert_eq!(emu.get_register(3), 10);
    assert_eq!(emu.get_register(0xF), 0);
}

#[test]
fn add_register_sets_carry() {
    // V3 = 200, V4 = 200, V3 += V4 -> 144 carry 1
    let mut emu = boot(&[0x63, 0xC8, 0x64, 0xC8, 0x83, 0x44]);
    for _ in 0..3 {
        assert!(emu.tick().is_ok());
    }
    assert_eq!(emu.get_register(3), 144);
    assert_eq!(emu.get_register(0xF), 1);
}

#[test]
fn add_register_clears_carry() {
    let mut emu = boot(&[0x63, 0x02, 0x64, 0x03, 0x83, 0x44]);
    for _ in 0..3 {
        assert!(emu.tick().is_ok());
    }
    assert_eq!(emu.get_register(3), 5);
    assert_eq!(emu.get_register(0xF), 0);
}

#[test]
fn sub_register_borrow_clears_flag() {
    // V3 = 5, V4 = 10, V3 -= V4 -> 251, VF = 0 (borrow)
    let mut emu = boot(&[0x63, 0x05, 0x64, 0x0A, 0x83, 0x45]);
    for _ in 0..3 {
        assert!(emu.tick().is_ok());
    }
    assert_eq!(emu.get_register(3), 251);
    assert_eq!(emu.get_register(0xF), 0);
}

#[test]
fn sub_register_no_borrow_sets_flag() {
    let mut emu = boot(&[0x63, 0x0A, 0x64, 0x05, 0x83, 0x45]);
    for _ in 0..3 {
        assert!(emu.tick().is_ok());
    }
    assert_eq!(emu.get_register(3), 5);
    assert_eq!(emu.get_register(0xF), 1);
}

#[test]
fn reversed_sub_register() {
    // V3 = 10, V4 = 3, V3 = V4 - V3 -> 249, VF = 0 (borrow)
    let mut emu = boot(&[0x63, 0x0A, 0x64, 0x03, 0x83, 0x47]);
    for _ in 0..3 {
        assert!(emu.tick().is_ok());
    }
    assert_eq!(emu.get_register(3), 249);
    assert_eq!(emu.get_register(0xF), 0);
}

#[test]
fn shift_right_reports_low_bit() {
    // V5 = 7, V5 >>= 1 -> 3, VF = 1
    let mut emu = boot(&[0x65, 0x07, 0x85, 0x06]);
    assert!(emu.tick().is_ok());
    assert!(emu.tick().is_ok());
    assert_eq!(emu.get_register(5), 3);
    assert_eq!(emu.get_register(0xF), 1);
}

#[test]
fn shift_left_reports_high_bit() {
    // V5 = 0x81, V5 <<= 1 -> 0x02, VF = 1
    let mut emu = boot(&[0x65, 0x81, 0x85, 0x0E]);
    assert!(emu.tick().is_ok());
    assert!(emu.tick().is_ok());
    assert_eq!(emu.get_register(5), 0x02);
    assert_eq!(emu.get_register(0xF), 1);
}

#[test]
fn bitwise_logic_ops() {
    // V1 = 0b1100, V2 = 0b1010; OR, then reload and AND, then reload and XOR
    let mut emu = boot(&[
        0x61, 0x0C, 0x62, 0x0A, 0x81, 0x21, // V1 |= V2 -> 0b1110
        0x61, 0x0C, 0x81, 0x22, // V1 &= V2 -> 0b1000
        0x61, 0x0C, 0x81, 0x23, // V1 ^= V2 -> 0b0110
    ]);
    for _ in 0..3 {
        assert!(emu.tick().is_ok());
    }
    assert_eq!(emu.get_register(1), 0b1110);
    for _ in 0..2 {
        assert!(emu.tick().is_ok());
    }
    assert_eq!(emu.get_register(1), 0b1000);
    for _ in 0..2 {
        assert!(emu.tick().is_ok());
    }
    assert_eq!(emu.get_register(1), 0b0110);
}

#[test]
fn skip_instructions_branch_correctly() {
    // 6305: V3 = 5; 3305: skip (taken) -> lands at 0x206
    let mut emu = boot(&[0x63, 0x05, 0x33, 0x05]);
    assert!(emu.tick().is_ok());
    assert!(emu.tick().is_ok());
    assert_eq!(emu.get_pc(), 0x206);
    // 4305: V3 != 5 is false -> not taken
    let mut emu2 = boot(&[0x63, 0x05, 0x43, 0x05]);
    assert!(emu2.tick().is_ok());
    assert!(emu2.tick().is_ok());
    assert_eq!(emu2.get_pc(), 0x204);
}

#[test]
fn jump_and_jump_with_offset() {
    let mut emu = boot(&[0x13, 0x00]);
    assert!(emu.tick().is_ok());
    assert_eq!(emu.get_pc(), 0x300);
    // 6005: V0 = 5; B300: jump to 0x300 + 5
    let mut emu2 = boot(&[0x60, 0x05, 0xB3, 0x00]);
    assert!(emu2.tick().is_ok());
    assert!(emu2.tick().is_ok());
    assert_eq!(emu2.get_pc(), 0x305);
}

#[test]
fn call_and_return_round_trip() {
    // 0x200: call 0x208; 0x208: return
    let mut emu = boot(&[0x22, 0x08, 0, 0, 0, 0, 0, 0, 0x00, 0xEE]);
    assert!(emu.tick().is_ok());
    assert_eq!(emu.get_pc(), 0x208);
    assert_eq!(emu.get_stack_depth(), 1);
    assert!(emu.tick().is_ok());
    assert_eq!(emu.get_pc(), 0x202);
    assert_eq!(emu.get_stack_depth(), 0);
}

#[test]
fn call_beyond_sixteen_frames_overflows() {
    // 0x200: call 0x200, forever
    let mut emu = boot(&[0x22, 0x00]);
    for _ in 0..16 {
        assert!(emu.tick().is_ok());
    }
    assert_eq!(emu.tick(), Err(Fault::StackOverflow));
    assert_eq!(emu.get_stack_depth(), 16);
}

#[test]
fn index_register_ops() {
    // A123: I = 0x123; 6307: V3 = 7; F31E: I += V3; F329: I = V3 * 5
    let mut emu = boot(&[0xA1, 0x23, 0x63, 0x07, 0xF3, 0x1E, 0xF3, 0x29]);
    assert!(emu.tick().is_ok());
    assert_eq!(emu.get_i_reg(), 0x123);
    assert!(emu.tick().is_ok());
    assert!(emu.tick().is_ok());
    assert_eq!(emu.get_i_reg(), 0x12A);
    assert!(emu.tick().is_ok());
    assert_eq!(emu.get_i_reg(), 35);
}

#[test]
fn bcd_decomposes_decimal_digits() {
    // V7 = 234; I = 0x300; F733
    let mut emu = boot(&[0x67, 0xEA, 0xA3, 0x00, 0xF7, 0x33]);
    for _ in 0..3 {
        assert!(emu.tick().is_ok());
    }
    assert_eq!(emu.get_memory(0x300), 2);
    assert_eq!(emu.get_memory(0x301), 3);
    assert_eq!(emu.get_memory(0x302), 4);
}

#[test]
fn store_registers_is_exclusive_of_x() {
    // V0 = 1, V1 = 2, V2 = 3; I = 0x400; F255 stores V0..V1 only
    let mut emu = boot(&[
        0x60, 0x01, 0x61, 0x02, 0x62, 0x03, 0xA4, 0x00, 0xF2, 0x55,
    ]);
    for _ in 0..5 {
        assert!(emu.tick().is_ok());
    }
    assert_eq!(emu.get_memory(0x400), 1);
    assert_eq!(emu.get_memory(0x401), 2);
    assert_eq!(emu.get_memory(0x402), 0);
}

#[test]
fn load_registers_is_exclusive_of_x() {
    // memory at 0x20A holds 9, 8, 7 (part of the image); I = 0x20A; F265
    let mut emu = boot(&[
        0xA2, 0x0A, 0xF2, 0x65, 0x00, 0x00, 0x00, 0x00, 0x00, 0x00, 0x09, 0x08, 0x07,
    ]);
    assert!(emu.tick().is_ok());
    assert!(emu.tick().is_ok());
    assert_eq!(emu.get_register(0), 9);
    assert_eq!(emu.get_register(1), 8);
    assert_eq!(emu.get_register(2), 0);
}

#[test]
fn draw_lights_pixels_and_reports_no_collision() {
    // I = 0 (glyph for 0, top row 0xF0); draw 5 rows at (V0, V1) = (0, 0)
    let mut emu = boot(&[0xA0, 0x00, 0xD0, 0x15]);
    assert!(emu.tick().is_ok());
    assert!(emu.tick().is_ok());
    let display = emu.get_display();
    // top row 0xF0: columns 0..4 lit, column 4 dark
    assert!(display[0] && display[1] && display[2] && display[3]);
    assert!(!display[4]);
    assert_eq!(emu.get_register(0xF), 0);
}

#[test]
fn draw_twice_restores_screen_and_collides() {
    let mut emu = boot(&[0xA0, 0x00, 0xD0, 0x15, 0xD0, 0x15]);
    for _ in 0..3 {
        assert!(emu.tick().is_ok());
    }
    assert_eq!(emu.get_register(0xF), 1);
    assert!(all_dark(&emu));
}

#[test]
fn draw_wraps_at_both_edges() {
    // V0 = 63, V1 = 31, I = 0, draw 2 rows of the 0 glyph (0xF0, 0x90)
    let mut emu = boot(&[0x60, 0x3F, 0x61, 0x1F, 0xA0, 0x00, 0xD0, 0x12]);
    for _ in 0..4 {
        assert!(emu.tick().is_ok());
    }
    let display = emu.get_display();
    // row 31 gets 0xF0 at columns 63, 0, 1, 2
    assert!(display[31 * 64 + 63]);
    assert!(display[31 * 64]);
    assert!(display[31 * 64 + 1]);
    assert!(display[31 * 64 + 2]);
    // row 31 + 1 wraps to row 0, 0x90 lights columns 63 and 2
    assert!(display[63]);
    assert!(display[2]);
    assert!(!display[0]);
}

#[test]
fn draw_past_end_of_memory_faults() {
    // I = 0xFFF, two sprite rows would read past memory
    let mut emu = boot(&[0xAF, 0xFF, 0xD0, 0x12]);
    assert!(emu.tick().is_ok());
    assert_eq!(emu.tick(), Err(Fault::MemOutOfBounds));
}

#[test]
fn key_skip_instructions() {
    // V3 = 7; E39E skips when key 7 pressed
    let mut emu = boot(&[0x63, 0x07, 0xE3, 0x9E]);
    emu.keypress(7, true);
    assert!(emu.tick().is_ok());
    assert!(emu.tick().is_ok());
    assert_eq!(emu.get_pc(), 0x206);
    // EXA1 skips when not pressed
    let mut emu2 = boot(&[0x63, 0x07, 0xE3, 0xA1]);
    assert!(emu2.tick().is_ok());
    assert!(emu2.tick().is_ok());
    assert_eq!(emu2.get_pc(), 0x206);
}

#[test]
fn key_index_out_of_range_faults() {
    // V3 = 16 is no key index
    let mut emu = boot(&[0x63, 0x10, 0xE3, 0x9E]);
    assert!(emu.tick().is_ok());
    assert_eq!(emu.tick(), Err(Fault::KeyOutOfRange));
}

#[test]
fn wait_for_key_blocks_until_press() {
    // F30A: wait for a key into V3
    let mut emu = boot(&[0xF3, 0x0A]);
    for _ in 0..3 {
        assert!(emu.tick().is_ok());
        assert_eq!(emu.get_pc(), 0x200);
        assert_eq!(emu.get_register(3), 0);
    }
    emu.keypress(0xB, true);
    assert!(emu.tick().is_ok());
    assert_eq!(emu.get_pc(), 0x202);
    assert_eq!(emu.get_register(3), 0xB);
}

#[test]
fn wait_for_key_takes_lowest_pressed() {
    let mut emu = boot(&[0xF3, 0x0A]);
    emu.keypress(9, true);
    emu.keypress(4, true);
    assert!(emu.tick().is_ok());
    assert_eq!(emu.get_register(3), 4);
}

#[test]
fn timers_load_and_read() {
    // 6205: V2 = 5; F215: DT = V2; F307: V3 = DT
    let mut emu = boot(&[0x62, 0x05, 0xF2, 0x15, 0xF3, 0x07]);
    for _ in 0..3 {
        assert!(emu.tick().is_ok());
    }
    assert_eq!(emu.get_delay_timer(), 5);
    assert_eq!(emu.get_register(3), 5);
}

#[test]
fn sound_timer_edge_signals_once() {
    // V5 = 1; F518: ST = V5
    let mut emu = boot(&[0x65, 0x01, 0xF5, 0x18]);
    assert!(emu.tick().is_ok());
    assert!(emu.tick().is_ok());
    assert_eq!(emu.get_sound_timer(), 1);
    assert!(emu.tick_timers());
    assert_eq!(emu.get_sound_timer(), 0);
    assert!(!emu.tick_timers());
    assert_eq!(emu.get_sound_timer(), 0);
}

#[test]
fn timers_count_down_independently() {
    let mut emu = boot(&[0x62, 0x03, 0xF2, 0x15]);
    assert!(emu.tick().is_ok());
    assert!(emu.tick().is_ok());
    assert!(!emu.tick_timers());
    assert_eq!(emu.get_delay_timer(), 2);
    assert_eq!(emu.get_sound_timer(), 0);
}

#[test]
fn random_masked_with_zero_is_zero() {
    // C300: V3 = random byte AND 0
    let mut emu = boot(&[0x63, 0x55, 0xC3, 0x00]);
    assert!(emu.tick().is_ok());
    assert!(emu.tick().is_ok());
    assert_eq!(emu.get_register(3), 0);
}

#[test]
fn random_masked_byte_stays_within_mask() {
    // C30F: V3 = random byte AND 0x0F
    let mut emu = boot(&[0xC3, 0x0F]);
    assert!(emu.tick().is_ok());
    assert!(emu.get_register(3) <= 0x0F);
}

#[test]
fn unimplemented_instruction_faults() {
    let mut emu = boot(&[0xFF, 0xFF]);
    assert_eq!(emu.tick(), Err(Fault::BadInstruction));
    // 5xy1 is no instruction either
    let mut emu2 = boot(&[0x51, 0x21]);
    assert_eq!(emu2.tick(), Err(Fault::BadInstruction));
}

#[test]
fn program_counter_out_of_bounds_faults() {
    // jump to 0xFFF, where no two bytes can be fetched
    let mut emu = boot(&[0x1F, 0xFF]);
    assert!(emu.tick().is_ok());
    assert_eq!(emu.tick(), Err(Fault::PcOutOfBounds));
    assert_eq!(emu.get_pc(), 0xFFF);
}

#[test]
fn fault_descriptions_name_the_condition() {
    assert_eq!(Fault::StackOverflow.describe(), "stack overflow");
    assert_eq!(Fault::StackUnderflow.describe(), "stack underflow");
    assert_eq!(Fault::BadInstruction.describe(), "unimplemented instruction");
}

#[test]
fn injected_random_byte_is_used_exactly() {
    // C30F: V3 = injected byte AND 0x0F
    let mut emu = Emu::new();
    emu.load(&[0xC3, 0x0F]);
    assert!(emu.tick_with_random(0xAB).is_ok());
    assert_eq!(emu.get_register(3), 0x0B);
}

#[test]
fn injected_random_ignored_by_other_instructions() {
    let mut emu = Emu::new();
    emu.load(&[0x63, 0x07]);
    assert!(emu.tick_with_random(0xFF).is_ok());
    assert_eq!(emu.get_register(3), 7);
}
