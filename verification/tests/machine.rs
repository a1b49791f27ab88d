use chip8::chip::Chip8;
use chip8::model::{Fault, LoadError, StepEvent};

fn boot(rom: &[u8]) -> Chip8 {
    let mut c = Chip8::new();
    c.load_rom(&rom.to_vec()).unwrap();
    c
}

fn run(c: &mut Chip8, steps: usize) {
    for _ in 0..steps {
        assert_eq!(c.execute(0, None), Ok(StepEvent::Executed));
    }
}

#[test]
fn load_immediate_sets_register() {
    let mut c = boot(&[0x6A, 0x42]);
    run(&mut c, 1);
    assert_eq!(c.reg(0xA), 0x42);
    assert_eq!(c.pc(), 0x202);
}

#[test]
fn add_with_carry_wraps_and_flags() {
    // 250 + 10 = 260: carry set, result 4.
    let mut c = boot(&[0x6A, 0xFA, 0x6B, 0x0A, 0x8A, 0xB4]);
    run(&mut c, 3);
    assert_eq!(c.reg(0xA), 4);
    assert_eq!(c.reg(0xF), 1);
    // 10 + 20 = 30: no carry, exact sum.
    let mut c = boot(&[0x6A, 0x0A, 0x6B, 0x14, 0x8A, 0xB4]);
    run(&mut c, 3);
    assert_eq!(c.reg(0xA), 30);
    assert_eq!(c.reg(0xF), 0);
}

#[test]
fn sub_with_borrow_exact_and_wrapped() {
    // 250 - 10: VF = 1, exact difference.
    let mut c = boot(&[0x6A, 0xFA, 0x6B, 0x0A, 0x8A, 0xB5]);
    run(&mut c, 3);
    assert_eq!(c.reg(0xA), 240);
    assert_eq!(c.reg(0xF), 1);
    // 10 - 250: VF = 0, wraps modulo 256 to 16.
    let mut c = boot(&[0x6A, 0x0A, 0x6B, 0xFA, 0x8A, 0xB5]);
    run(&mut c, 3);
    assert_eq!(c.reg(0xA), 16);
    assert_eq!(c.reg(0xF), 0);
}

#[test]
fn reverse_sub_flags() {
    // Vy - Vx with Vy > Vx: VF = 1.
    let mut c = boot(&[0x6A, 0x0A, 0x6B, 0xFA, 0x8A, 0xB7]);
    run(&mut c, 3);
    assert_eq!(c.reg(0xA), 240);
    assert_eq!(c.reg(0xF), 1);
}

#[test]
fn call_then_ret_restores_pc() {
    // 0x200: call 0x204; 0x202: (never run); 0x204: ret.
    let mut c = boot(&[0x22, 0x04, 0x00, 0x00, 0x00, 0xEE]);
    run(&mut c, 1);
    assert_eq!(c.pc(), 0x204);
    assert_eq!(c.sp(), 1);
    run(&mut c, 1);
    assert_eq!(c.pc(), 0x202);
    assert_eq!(c.sp(), 0);
}

#[test]
fn sixteen_calls_then_overflow() {
    // 0x200: call 0x200, forever.
    let mut c = boot(&[0x22, 0x00]);
    for _ in 0..16 {
        assert_eq!(c.execute(0, None), Ok(StepEvent::Executed));
    }
    assert_eq!(c.sp(), 16);
    assert_eq!(
        c.execute(0, None),
        Err(Fault::StackOverflow { opcode: 0x2200, pc: 0x200 })
    );
}

#[test]
fn ret_on_empty_stack_underflows() {
    let mut c = boot(&[0x00, 0xEE]);
    assert_eq!(
        c.execute(0, None),
        Err(Fault::StackUnderflow { opcode: 0x00EE, pc: 0x200 })
    );
}

#[test]
fn draw_twice_clears_and_collides() {
    // I = 0x20A; V2 = 5; V3 = 3; draw 2 rows at (5, 3), twice.
    // Sprite: 0xC0 (bits for columns 0 and 1), 0x80 (column 0).
    let rom = [
        0xA2, 0x0A, 0x62, 0x05, 0x63, 0x03, 0xD2, 0x32, 0xD2, 0x32, 0xC0, 0x80,
    ];
    let mut c = boot(&rom);
    run(&mut c, 4);
    assert!(c.pixel(5, 3));
    assert!(c.pixel(6, 3));
    assert!(c.pixel(5, 4));
    assert!(!c.pixel(6, 4));
    assert_eq!(c.reg(0xF), 0);
    run(&mut c, 1);
    assert!(!c.pixel(5, 3));
    assert!(!c.pixel(6, 3));
    assert!(!c.pixel(5, 4));
    assert_eq!(c.reg(0xF), 1);
}

#[test]
fn draw_wraps_around_right_edge() {
    // I = 0x208; V0 = 60; V1 = 0; draw one 0xFF row at (60, 0).
    let rom = [0xA2, 0x08, 0x60, 0x3C, 0x61, 0x00, 0xD0, 0x11, 0xFF];
    let mut c = boot(&rom);
    run(&mut c, 4);
    for x in 60..64 {
        assert!(c.pixel(x, 0));
    }
    for x in 0..4 {
        assert!(c.pixel(x, 0));
    }
    assert!(!c.pixel(4, 0));
    assert!(!c.pixel(59, 0));
    assert_eq!(c.reg(0xF), 0);
}

#[test]
fn bcd_digits_reconstruct_value() {
    // V0 = 137; I = 0x300; store BCD.
    let mut c = boot(&[0x60, 0x89, 0xA3, 0x00, 0xF0, 0x33]);
    run(&mut c, 3);
    assert_eq!(c.mem_byte(0x300), 1);
    assert_eq!(c.mem_byte(0x301), 3);
    assert_eq!(c.mem_byte(0x302), 7);
    let v = 100 * c.mem_byte(0x300) as u16 + 10 * c.mem_byte(0x301) as u16
        + c.mem_byte(0x302) as u16;
    assert_eq!(v, 137);
}

#[test]
fn bcd_every_value_reconstructs() {
    for v in 0..=255u8 {
        let mut c = boot(&[0x60, v, 0xA3, 0x00, 0xF0, 0x33]);
        run(&mut c, 3);
        let got = 100 * c.mem_byte(0x300) as u16 + 10 * c.mem_byte(0x301) as u16
            + c.mem_byte(0x302) as u16;
        assert_eq!(got, v as u16);
    }
}

#[test]
fn delay_timer_ticks_to_zero_and_stays() {
    // V0 = 5; delay = V0.
    let mut c = boot(&[0x60, 0x05, 0xF0, 0x15]);
    run(&mut c, 2);
    assert_eq!(c.delay_timer(), 5);
    for expected in (0..5).rev() {
        c.tick_timers();
        assert_eq!(c.delay_timer(), expected);
    }
    c.tick_timers();
    assert_eq!(c.delay_timer(), 0);
}

#[test]
fn sound_timer_set_and_ticks() {
    let mut c = boot(&[0x60, 0x02, 0xF0, 0x18]);
    run(&mut c, 2);
    assert_eq!(c.sound_timer(), 2);
    c.tick_timers();
    c.tick_timers();
    c.tick_timers();
    assert_eq!(c.sound_timer(), 0);
}

#[test]
fn read_delay_into_register() {
    let mut c = boot(&[0x60, 0x05, 0xF0, 0x15, 0xF1, 0x07]);
    run(&mut c, 2);
    c.tick_timers();
    run(&mut c, 1);
    assert_eq!(c.reg(1), 4);
}

#[test]
fn unknown_opcode_is_reported_not_fatal() {
    let mut c = boot(&[0x00, 0x00, 0x6A, 0x07]);
    assert_eq!(c.execute(0, None), Ok(StepEvent::UnknownOpcode(0x0000)));
    assert_eq!(c.pc(), 0x202);
    run(&mut c, 1);
    assert_eq!(c.reg(0xA), 7);
}

#[test]
fn unknown_alu_sub_opcode() {
    let mut c = boot(&[0x8A, 0xBF]);
    assert_eq!(c.execute(0, None), Ok(StepEvent::UnknownOpcode(0x8ABF)));
}

#[test]
fn rom_too_large_is_rejected() {
    let mut c = Chip8::new();
    let too_big = vec![0u8; 3585];
    assert_eq!(c.load_rom(&too_big), Err(LoadError::RomTooLarge));
    let just_fits = vec![0u8; 3584];
    let mut c = Chip8::new();
    assert_eq!(c.load_rom(&just_fits), Ok(()));
    assert_eq!(c.mem_byte(0xFFF), 0);
}

#[test]
fn random_byte_is_masked() {
    // Cxkk with kk = 0 must always give 0, whatever the random byte.
    let mut c = boot(&[0xC5, 0x00, 0xC6, 0x0F]);
    run(&mut c, 2);
    assert_eq!(c.reg(5), 0);
    assert!(c.reg(6) <= 0x0F);
}

#[test]
fn jump_sets_pc() {
    let mut c = boot(&[0x12, 0x08]);
    run(&mut c, 1);
    assert_eq!(c.pc(), 0x208);
}

#[test]
fn jump_with_offset() {
    let mut c = boot(&[0x60, 0x04, 0xB2, 0x00]);
    run(&mut c, 2);
    assert_eq!(c.pc(), 0x204);
}

#[test]
fn skip_if_equal_immediate() {
    let mut c = boot(&[0x6A, 0x07, 0x3A, 0x07]);
    run(&mut c, 2);
    assert_eq!(c.pc(), 0x206);
    let mut c = boot(&[0x6A, 0x07, 0x3A, 0x08]);
    run(&mut c, 2);
    assert_eq!(c.pc(), 0x204);
}

#[test]
fn skip_if_not_equal_immediate() {
    let mut c = boot(&[0x6A, 0x07, 0x4A, 0x08]);
    run(&mut c, 2);
    assert_eq!(c.pc(), 0x206);
}

#[test]
fn skip_on_register_compare() {
    let mut c = boot(&[0x6A, 0x07, 0x6B, 0x07, 0x5A, 0xB0]);
    run(&mut c, 3);
    assert_eq!(c.pc(), 0x208);
    let mut c = boot(&[0x6A, 0x07, 0x6B, 0x08, 0x9A, 0xB0]);
    run(&mut c, 3);
    assert_eq!(c.pc(), 0x208);
}

#[test]
fn alu_moves_and_bitwise() {
    let mut c = boot(&[
        0x6A, 0x0C, 0x6B, 0x0A, 0x8C, 0xB0, 0x8A, 0xB1, 0x6A, 0x0C, 0x8A, 0xB2, 0x6A, 0x0C, 0x8A,
        0xB3,
    ]);
    run(&mut c, 3);
    assert_eq!(c.reg(0xC), 0x0A);
    run(&mut c, 1);
    assert_eq!(c.reg(0xA), 0x0E);
    run(&mut c, 2);
    assert_eq!(c.reg(0xA), 0x08);
    run(&mut c, 2);
    assert_eq!(c.reg(0xA), 0x06);
}

#[test]
fn add_immediate_wraps_without_flag() {
    let mut c = boot(&[0x6A, 0xFF, 0x7A, 0x02]);
    run(&mut c, 2);
    assert_eq!(c.reg(0xA), 1);
    assert_eq!(c.reg(0xF), 0);
}

#[test]
fn shift_right_keeps_low_bit() {
    let mut c = boot(&[0x6A, 0x05, 0x8A, 0x06]);
    run(&mut c, 2);
    assert_eq!(c.reg(0xA), 2);
    assert_eq!(c.reg(0xF), 1);
}

#[test]
fn shift_left_keeps_high_bit() {
    let mut c = boot(&[0x6A, 0x81, 0x8A, 0x0E]);
    run(&mut c, 2);
    assert_eq!(c.reg(0xA), 2);
    assert_eq!(c.reg(0xF), 1);
}

#[test]
fn address_register_ops() {
    let mut c = boot(&[0xA0, 0x10, 0x6A, 0x05, 0xFA, 0x1E]);
    run(&mut c, 1);
    assert_eq!(c.addr_reg(), 0x10);
    run(&mut c, 2);
    assert_eq!(c.addr_reg(), 0x15);
}

#[test]
fn address_register_wraps_at_twelve_bits() {
    // I = 0xFFF; add 5: masked to (0xFFF + 5) % 4096 = 4.
    let mut c = boot(&[0xAF, 0xFF, 0x6A, 0x05, 0xFA, 0x1E]);
    run(&mut c, 3);
    assert_eq!(c.addr_reg(), 4);
}

#[test]
fn font_address_and_glyph() {
    // Glyph for digit 4 starts at 4 * 5 = 20, first byte 0x90.
    let mut c = boot(&[0x6B, 0x04, 0xFB, 0x29]);
    run(&mut c, 2);
    assert_eq!(c.addr_reg(), 20);
    assert_eq!(c.mem_byte(20), 0x90);
    assert_eq!(c.mem_byte(0), 0xF0);
}

#[test]
fn store_and_load_registers() {
    let rom = [
        0x60, 0x11, 0x61, 0x22, 0x62, 0x33, 0xA3, 0x00, 0xF2, 0x55, 0x60, 0x00, 0x61, 0x00, 0x62,
        0x00, 0xF2, 0x65,
    ];
    let mut c = boot(&rom);
    run(&mut c, 5);
    assert_eq!(c.mem_byte(0x300), 0x11);
    assert_eq!(c.mem_byte(0x301), 0x22);
    assert_eq!(c.mem_byte(0x302), 0x33);
    run(&mut c, 3);
    assert_eq!(c.reg(0), 0);
    run(&mut c, 1);
    assert_eq!(c.reg(0), 0x11);
    assert_eq!(c.reg(1), 0x22);
    assert_eq!(c.reg(2), 0x33);
}

#[test]
fn clear_display_darkens_all() {
    let rom = [0xA2, 0x08, 0x60, 0x00, 0xD0, 0x01, 0x00, 0xE0, 0xFF];
    let mut c = boot(&rom);
    run(&mut c, 3);
    assert!(c.pixel(0, 0));
    run(&mut c, 1);
    for x in 0..8 {
        assert!(!c.pixel(x, 0));
    }
}

#[test]
fn skip_if_key_held() {
    let mut c = boot(&[0x6A, 0x03, 0xEA, 0x9E]);
    run(&mut c, 1);
    assert_eq!(c.execute(0b1000, None), Ok(StepEvent::Executed));
    assert_eq!(c.pc(), 0x206);
    let mut c = boot(&[0x6A, 0x03, 0xEA, 0x9E]);
    run(&mut c, 1);
    assert_eq!(c.execute(0, None), Ok(StepEvent::Executed));
    assert_eq!(c.pc(), 0x204);
}

#[test]
fn skip_if_key_not_held() {
    let mut c = boot(&[0x6A, 0x03, 0xEA, 0xA1]);
    run(&mut c, 1);
    assert_eq!(c.execute(0, None), Ok(StepEvent::Executed));
    assert_eq!(c.pc(), 0x206);
}

#[test]
fn wait_for_key_blocks_then_stores() {
    let mut c = boot(&[0xF5, 0x0A]);
    assert_eq!(c.execute(0, None), Ok(StepEvent::WaitingForKey));
    assert_eq!(c.pc(), 0x200);
    assert_eq!(c.execute(0, Some(0x0C)), Ok(StepEvent::Executed));
    assert_eq!(c.reg(5), 0x0C);
    assert_eq!(c.pc(), 0x202);
}

#[test]
fn fresh_machine_state() {
    let c = Chip8::new();
    assert_eq!(c.pc(), 0x200);
    assert_eq!(c.sp(), 0);
    assert_eq!(c.addr_reg(), 0);
    assert_eq!(c.delay_timer(), 0);
    assert_eq!(c.sound_timer(), 0);
    for x in 0..16 {
        assert_eq!(c.reg(x), 0);
    }
    assert!(!c.pixel(0, 0));
    assert!(!c.pixel(63, 31));
}
