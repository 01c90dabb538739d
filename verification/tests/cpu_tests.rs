use chip8::cpu::CPU;
use chip8::model::ExecError;
use chip8::model::LoadError;

fn exec(cpu: &mut CPU, opcode: u32) {
    let r = cpu.execute_instruction(opcode, 0, 0);
    assert_eq!(r, Ok(None));
}

#[test]
fn new_machine_starts_at_0x200_with_everything_zeroed() {
    let cpu = CPU::new();
    assert_eq!(cpu.pc, 0x200);
    assert_eq!(cpu.address, 0);
    assert_eq!(cpu.delay_timer, 0);
    assert_eq!(cpu.sound_timer, 0);
    assert!(!cpu.paused);
    assert!(cpu.stack.is_empty());
    assert_eq!(cpu.memory.len(), 4096);
    assert!(cpu.memory.iter().all(|b| *b == 0));
    assert_eq!(cpu.registers.len(), 16);
    assert!(cpu.registers.iter().all(|b| *b == 0));
}

#[test]
fn font_then_fx29_for_digit_zero_points_at_its_glyph() {
    let mut cpu = CPU::new();
    cpu.load_sprites_into_memory();
    exec(&mut cpu, 0x6000); // V0 := 0
    exec(&mut cpu, 0xF029); // I := V0 * 5
    assert_eq!(cpu.address, 0);
    let glyph: Vec<u8> = (0..5).map(|i| cpu.memory[cpu.address as usize + i]).collect();
    assert_eq!(glyph, vec![0xF0, 0x90, 0x90, 0x90, 0xF0]);
}

#[test]
fn fx29_for_digit_f_points_at_offset_75() {
    let mut cpu = CPU::new();
    cpu.load_sprites_into_memory();
    exec(&mut cpu, 0x600F);
    exec(&mut cpu, 0xF029);
    assert_eq!(cpu.address, 75);
    assert_eq!(cpu.memory[75], 0xF0);
    assert_eq!(cpu.memory[79], 0x80);
}

#[test]
fn fx33_stores_decimal_digits_of_234() {
    let mut cpu = CPU::new();
    exec(&mut cpu, 0x60EA); // V0 := 234
    exec(&mut cpu, 0xA300); // I := 0x300
    exec(&mut cpu, 0xF033);
    assert_eq!(cpu.memory[0x300], 2);
    assert_eq!(cpu.memory[0x301], 3);
    assert_eq!(cpu.memory[0x302], 4);
}

#[test]
fn call_then_return_resumes_after_the_call() {
    let mut cpu = CPU::new();
    exec(&mut cpu, 0x2200); // call 0x200
    assert_eq!(cpu.pc, 0x200);
    assert_eq!(cpu.stack, vec![0x202]);
    exec(&mut cpu, 0x00EE); // return
    assert_eq!(cpu.pc, 0x202);
    assert!(cpu.stack.is_empty());
}

#[test]
fn delay_timer_reaches_zero_and_stays_there() {
    let mut cpu = CPU::new();
    cpu.delay_timer = 5;
    for _ in 0..5 {
        cpu.cycle(0, 0, None).unwrap();
    }
    assert_eq!(cpu.delay_timer, 0);
    cpu.cycle(0, 0, None).unwrap();
    assert_eq!(cpu.delay_timer, 0);
}

#[test]
fn short_program_adds_without_carry() {
    let mut cpu = CPU::new();
    cpu.load_program_into_memory(vec![0x60, 0x05, 0x61, 0x03, 0x80, 0x14]).unwrap();
    let out = cpu.cycle(3, 0, None).unwrap();
    assert!(out.unknown_opcodes.is_empty());
    assert_eq!(cpu.registers[0], 8);
    assert_eq!(cpu.registers[1], 3);
    assert_eq!(cpu.registers[15], 0);
    assert_eq!(cpu.pc, 0x206);
}

#[test]
fn add_sets_carry_and_wraps() {
    let mut cpu = CPU::new();
    exec(&mut cpu, 0x60C8); // V0 := 200
    exec(&mut cpu, 0x6164); // V1 := 100
    exec(&mut cpu, 0x8014); // V0 += V1 with carry
    assert_eq!(cpu.registers[0], 44);
    assert_eq!(cpu.registers[15], 1);
}

#[test]
fn sub_sets_not_borrow_flag() {
    let mut cpu = CPU::new();
    exec(&mut cpu, 0x6005);
    exec(&mut cpu, 0x6103);
    exec(&mut cpu, 0x8015); // V0 -= V1
    assert_eq!(cpu.registers[0], 2);
    assert_eq!(cpu.registers[15], 1);
    exec(&mut cpu, 0x6003);
    exec(&mut cpu, 0x6105);
    exec(&mut cpu, 0x8015);
    assert_eq!(cpu.registers[0], 254);
    assert_eq!(cpu.registers[15], 0);
}

#[test]
fn subn_subtracts_the_other_way() {
    let mut cpu = CPU::new();
    exec(&mut cpu, 0x6003);
    exec(&mut cpu, 0x610A);
    exec(&mut cpu, 0x8017); // V0 := V1 - V0
    assert_eq!(cpu.registers[0], 7);
    assert_eq!(cpu.registers[15], 1);
}

#[test]
fn shifts_move_the_edge_bit_into_vf() {
    let mut cpu = CPU::new();
    exec(&mut cpu, 0x6005);
    exec(&mut cpu, 0x8006); // V0 >>= 1
    assert_eq!(cpu.registers[0], 2);
    assert_eq!(cpu.registers[15], 1);
    exec(&mut cpu, 0x6081);
    exec(&mut cpu, 0x800E); // V0 <<= 1
    assert_eq!(cpu.registers[0], 2);
    assert_eq!(cpu.registers[15], 1);
}

#[test]
fn bitwise_and_assign_operations() {
    let mut cpu = CPU::new();
    exec(&mut cpu, 0x60F0);
    exec(&mut cpu, 0x610F);
    exec(&mut cpu, 0x8011); // V0 |= V1
    assert_eq!(cpu.registers[0], 0xFF);
    exec(&mut cpu, 0x8012); // V0 &= V1
    assert_eq!(cpu.registers[0], 0x0F);
    exec(&mut cpu, 0x8013); // V0 ^= V1
    assert_eq!(cpu.registers[0], 0x00);
    exec(&mut cpu, 0x8010); // V0 := V1
    assert_eq!(cpu.registers[0], 0x0F);
}

#[test]
fn seven_kk_adds_with_wrap_and_no_flag() {
    let mut cpu = CPU::new();
    exec(&mut cpu, 0x60FF);
    exec(&mut cpu, 0x7002); // V0 += 2, wraps, VF untouched
    assert_eq!(cpu.registers[0], 1);
    assert_eq!(cpu.registers[15], 0);
}

#[test]
fn jumps_and_skips_move_the_program_counter() {
    let mut cpu = CPU::new();
    exec(&mut cpu, 0x1234);
    assert_eq!(cpu.pc, 0x234);
    let mut cpu = CPU::new();
    exec(&mut cpu, 0x6005);
    exec(&mut cpu, 0x3005); // skip: V0 == 5
    assert_eq!(cpu.pc, 0x206);
    exec(&mut cpu, 0x3006); // no skip
    assert_eq!(cpu.pc, 0x208);
    exec(&mut cpu, 0x4006); // skip: V0 != 6
    assert_eq!(cpu.pc, 0x20C);
    exec(&mut cpu, 0x6105);
    exec(&mut cpu, 0x5010); // skip: V0 == V1
    assert_eq!(cpu.pc, 0x212);
    exec(&mut cpu, 0x9010); // no skip
    assert_eq!(cpu.pc, 0x214);
}

#[test]
fn annn_and_bnnn_set_address_and_jump_with_offset() {
    let mut cpu = CPU::new();
    exec(&mut cpu, 0xA123);
    assert_eq!(cpu.address, 0x123);
    exec(&mut cpu, 0x6005);
    exec(&mut cpu, 0xB100);
    assert_eq!(cpu.pc, 0x105);
}

#[test]
fn cxkk_masks_the_supplied_random_byte() {
    let mut cpu = CPU::new();
    let r = cpu.execute_instruction(0xC0F0, 0xAB, 0);
    assert_eq!(r, Ok(None));
    assert_eq!(cpu.registers[0], 0xA0);
    let r = cpu.execute_instruction(0xC100, 0xFF, 0);
    assert_eq!(r, Ok(None));
    assert_eq!(cpu.registers[1], 0);
}

#[test]
fn random_byte_stays_within_the_mask() {
    let mut cpu = CPU::new();
    cpu.load_program_into_memory(vec![0xC0, 0x0F]).unwrap();
    cpu.step(0).unwrap();
    assert!(cpu.registers[0] <= 0x0F);
}

#[test]
fn key_skips_follow_the_key_bitmask() {
    let mut cpu = CPU::new();
    exec(&mut cpu, 0x6004); // V0 := 4
    let held: u16 = 1 << 4;
    let r = cpu.execute_instruction(0xE09E, 0, held);
    assert_eq!(r, Ok(None));
    assert_eq!(cpu.pc, 0x206); // skipped
    let r = cpu.execute_instruction(0xE09E, 0, 0);
    assert_eq!(r, Ok(None));
    assert_eq!(cpu.pc, 0x208); // not skipped
    let r = cpu.execute_instruction(0xE0A1, 0, 0);
    assert_eq!(r, Ok(None));
    assert_eq!(cpu.pc, 0x20C); // skipped: key up
    let r = cpu.execute_instruction(0xE0A1, 0, held);
    assert_eq!(r, Ok(None));
    assert_eq!(cpu.pc, 0x20E); // not skipped
}

#[test]
fn timer_instructions_move_values_both_ways() {
    let mut cpu = CPU::new();
    exec(&mut cpu, 0x602A);
    exec(&mut cpu, 0xF015); // delay := V0
    assert_eq!(cpu.delay_timer, 42);
    exec(&mut cpu, 0xF018); // sound := V0
    assert_eq!(cpu.sound_timer, 42);
    exec(&mut cpu, 0xF107); // V1 := delay
    assert_eq!(cpu.registers[1], 42);
}

#[test]
fn fx0a_pauses_until_a_key_arrives() {
    let mut cpu = CPU::new();
    exec(&mut cpu, 0xF30A);
    assert!(cpu.paused);
    assert_eq!(cpu.wait_register, 3);
    // Paused: no instruction runs, timers still tick.
    cpu.delay_timer = 2;
    let out = cpu.cycle(10, 0, None).unwrap();
    assert!(cpu.paused);
    assert_eq!(cpu.delay_timer, 1);
    assert!(out.unknown_opcodes.is_empty());
    // A key out of range does not resume.
    cpu.cycle(0, 0, Some(16)).unwrap();
    assert!(cpu.paused);
    // A key in range is captured and execution resumes.
    cpu.cycle(0, 0, Some(7)).unwrap();
    assert!(!cpu.paused);
    assert_eq!(cpu.registers[3], 7);
}

#[test]
fn paused_step_is_a_no_op() {
    let mut cpu = CPU::new();
    exec(&mut cpu, 0xF00A);
    let pc = cpu.pc;
    let r = cpu.step(0);
    assert_eq!(r, Ok(None));
    assert_eq!(cpu.pc, pc);
}

#[test]
fn fx1e_adds_to_address_with_wrap() {
    let mut cpu = CPU::new();
    exec(&mut cpu, 0xAFFF);
    exec(&mut cpu, 0x6010);
    exec(&mut cpu, 0xF01E);
    assert_eq!(cpu.address, 0x100F);
    cpu.address = 0xFFFF;
    exec(&mut cpu, 0x6002);
    exec(&mut cpu, 0xF01E);
    assert_eq!(cpu.address, 1);
}

#[test]
fn fx55_and_fx65_transfer_register_blocks() {
    let mut cpu = CPU::new();
    exec(&mut cpu, 0x6011);
    exec(&mut cpu, 0x6122);
    exec(&mut cpu, 0x6233);
    exec(&mut cpu, 0xA300);
    exec(&mut cpu, 0xF255); // memory[0x300..=0x302] := V0..V2
    assert_eq!(cpu.memory[0x300], 0x11);
    assert_eq!(cpu.memory[0x301], 0x22);
    assert_eq!(cpu.memory[0x302], 0x33);
    assert_eq!(cpu.memory[0x303], 0);
    exec(&mut cpu, 0x6000);
    exec(&mut cpu, 0x6100);
    exec(&mut cpu, 0x6200);
    exec(&mut cpu, 0xF265); // V0..V2 := memory[0x300..=0x302]
    assert_eq!(cpu.registers[0], 0x11);
    assert_eq!(cpu.registers[1], 0x22);
    assert_eq!(cpu.registers[2], 0x33);
}

#[test]
fn dxyn_draws_reports_collision_and_restores_on_redraw() {
    let mut cpu = CPU::new();
    cpu.load_sprites_into_memory();
    exec(&mut cpu, 0x6000); // V0 := 0 (x)
    exec(&mut cpu, 0x6100); // V1 := 0 (y)
    exec(&mut cpu, 0xA000); // I := 0 (glyph for digit 0)
    exec(&mut cpu, 0xD015); // draw 5 rows at (0, 0)
    assert_eq!(cpu.registers[15], 0);
    let snap = cpu.display.snapshot();
    assert!(snap[0]); // 0xF0: leftmost bit of row 0
    assert!(snap[3]);
    assert!(!snap[4]);
    assert!(snap[64]); // 0x90: bits 0 and 3 of row 1
    assert!(!snap[64 + 1]);
    assert!(snap[64 + 3]);
    exec(&mut cpu, 0xD015); // redraw: erases everything, collision
    assert_eq!(cpu.registers[15], 1);
    assert!(cpu.display.snapshot().iter().all(|p| !p));
}

#[test]
fn dxyn_wraps_sprite_coordinates() {
    let mut cpu = CPU::new();
    cpu.memory[0x0] = 0x80;
    exec(&mut cpu, 0x6040); // V0 := 64, wraps to column 0
    exec(&mut cpu, 0x6120); // V1 := 32, wraps to row 0
    exec(&mut cpu, 0xA000);
    exec(&mut cpu, 0xD011);
    assert!(cpu.display.snapshot()[0]);
}

#[test]
fn clear_screen_instruction_blanks_the_display() {
    let mut cpu = CPU::new();
    cpu.display.set_pixel(9, 9);
    exec(&mut cpu, 0x00E0);
    assert!(cpu.display.snapshot().iter().all(|p| !p));
}

#[test]
fn return_on_empty_stack_is_a_stack_underflow() {
    let mut cpu = CPU::new();
    let r = cpu.execute_instruction(0x00EE, 0, 0);
    assert_eq!(r, Err(ExecError::StackUnderflow));
}

#[test]
fn out_of_range_addresses_are_fatal() {
    let mut cpu = CPU::new();
    exec(&mut cpu, 0xAFFF);
    let r = cpu.execute_instruction(0xD012, 0, 0); // 0xFFF + 2 rows > 4096
    assert_eq!(r, Err(ExecError::AddressOutOfRange));
    let mut cpu = CPU::new();
    cpu.address = 0xFFE;
    let r = cpu.execute_instruction(0xF033, 0, 0);
    assert_eq!(r, Err(ExecError::AddressOutOfRange));
    let mut cpu = CPU::new();
    cpu.address = 0xFFF;
    let r = cpu.execute_instruction(0xF155, 0, 0);
    assert_eq!(r, Err(ExecError::AddressOutOfRange));
    let r = cpu.execute_instruction(0xF165, 0, 0);
    assert_eq!(r, Err(ExecError::AddressOutOfRange));
}

#[test]
fn program_counter_running_off_memory_is_fatal() {
    let mut cpu = CPU::new();
    cpu.pc = 4095;
    let r = cpu.step(0);
    assert_eq!(r, Err(ExecError::AddressOutOfRange));
}

#[test]
fn oversized_program_is_rejected_unchanged() {
    let mut cpu = CPU::new();
    let r = cpu.load_program_into_memory(vec![0xAA; 3585]);
    assert_eq!(r, Err(LoadError::ProgramTooLarge));
    assert!(cpu.memory.iter().all(|b| *b == 0));
    let r = cpu.load_program_into_memory(vec![0xAA; 3584]);
    assert_eq!(r, Ok(()));
    assert_eq!(cpu.memory[0x200], 0xAA);
    assert_eq!(cpu.memory[4095], 0xAA);
    assert_eq!(cpu.memory[0x1FF], 0);
    assert_eq!(cpu.pc, 0x200);
}

#[test]
fn unknown_opcodes_are_reported_and_skipped() {
    let mut cpu = CPU::new();
    for op in [0x0000u32, 0x5001, 0x8008, 0x9005, 0xE000, 0xF0FF] {
        let pc = cpu.pc;
        let r = cpu.execute_instruction(op, 0, 0);
        assert_eq!(r, Ok(Some(op)));
        assert_eq!(cpu.pc, pc + 2);
    }
}

#[test]
fn cycle_collects_unknown_opcodes() {
    let mut cpu = CPU::new();
    cpu.load_program_into_memory(vec![0x50, 0x01, 0x60, 0x07]).unwrap();
    let out = cpu.cycle(2, 0, None).unwrap();
    assert_eq!(out.unknown_opcodes, vec![0x5001]);
    assert_eq!(cpu.registers[0], 7);
}

#[test]
fn cycle_reports_the_tone_decision_after_the_tick() {
    let mut cpu = CPU::new();
    cpu.sound_timer = 3;
    let out = cpu.cycle(0, 0, None).unwrap();
    assert!(out.tone_on);
    assert_eq!(cpu.sound_timer, 2);
    cpu.sound_timer = 1;
    let out = cpu.cycle(0, 0, None).unwrap();
    assert!(!out.tone_on);
    assert_eq!(cpu.sound_timer, 0);
}

#[test]
fn cycle_halts_on_a_fault_without_ticking_timers() {
    let mut cpu = CPU::new();
    cpu.load_program_into_memory(vec![0x00, 0xEE]).unwrap();
    cpu.delay_timer = 9;
    let r = cpu.cycle(4, 0, None);
    assert_eq!(r.err(), Some(ExecError::StackUnderflow));
    assert_eq!(cpu.delay_timer, 9);
}

#[test]
fn font_load_only_touches_its_80_bytes() {
    let mut cpu = CPU::new();
    cpu.memory[80] = 0x5A;
    cpu.memory[0x200] = 0x77;
    cpu.load_sprites_into_memory();
    assert_eq!(cpu.memory[0], 0xF0);
    assert_eq!(cpu.memory[79], 0x80);
    assert_eq!(cpu.memory[80], 0x5A);
    assert_eq!(cpu.memory[0x200], 0x77);
}
