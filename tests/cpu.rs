use chip8::{Fault, Operand, Protocol, CPU};

fn machine_with(program: &[u8]) -> CPU {
    let mut cpu = CPU::new();
    cpu.load_program(program.to_vec()).unwrap();
    cpu
}

fn exec(cpu: &mut CPU, word: u16) -> Result<Option<Protocol>, Fault> {
    cpu.execute(Operand::new(word))
}

fn cycle(cpu: &mut CPU) -> Result<Option<Protocol>, Fault> {
    let op = cpu.fetch()?;
    cpu.execute(op)
}

#[test]
fn decode_splits_class_and_field() {
    let op = Operand::new(0xD12F);
    assert_eq!(op.op_code, 0xD);
    assert_eq!(op.value, 0x12F);
    assert_eq!(op.x(), 1);
    assert_eq!(op.y(), 2);
    assert_eq!(op.n(), 0xF);
    assert_eq!(op.kk(), 0x2F);
    assert_eq!(op.nnn(), 0x12F);
}

#[test]
fn new_machine_state() {
    let cpu = CPU::new();
    assert_eq!(cpu.pc(), 0x200);
    assert_eq!(cpu.index(), 0);
    assert_eq!(cpu.stack_depth(), 0);
    for x in 0..16 {
        assert_eq!(cpu.register(x), 0);
    }
    assert_eq!(cpu.memory_at(0), 0xF0);
    assert_eq!(cpu.memory_at(79), 0x80);
    assert_eq!(cpu.memory_at(80), 0);
    assert_eq!(cpu.memory_at(0x200), 0);
    assert!(!cpu.pixel(0, 0));
}

#[test]
fn load_program_copies_bytes() {
    let cpu = machine_with(&[0x12, 0x34, 0x56]);
    assert_eq!(cpu.memory_at(0x1FF), 0);
    assert_eq!(cpu.memory_at(0x200), 0x12);
    assert_eq!(cpu.memory_at(0x201), 0x34);
    assert_eq!(cpu.memory_at(0x202), 0x56);
    assert_eq!(cpu.memory_at(0x203), 0);
}

#[test]
fn load_program_largest_and_too_large() {
    let mut cpu = CPU::new();
    assert_eq!(cpu.load_program(vec![7u8; 4096 - 0x200]), Ok(()));
    assert_eq!(cpu.memory_at(0xFFF), 7);
    let mut other = CPU::new();
    assert_eq!(other.load_program(vec![7u8; 4096 - 0x200 + 1]), Err(Fault::ProgramTooLarge));
    assert_eq!(other.memory_at(0x200), 0);
}

#[test]
fn add_byte_wraps_without_flag() {
    let mut cpu = CPU::new();
    exec(&mut cpu, 0x6FAA).unwrap();
    exec(&mut cpu, 0x63FF).unwrap();
    exec(&mut cpu, 0x7302).unwrap();
    assert_eq!(cpu.register(3), 0x01);
    assert_eq!(cpu.register(0xF), 0xAA);
    exec(&mut cpu, 0x7310).unwrap();
    assert_eq!(cpu.register(3), 0x11);
    assert_eq!(cpu.pc(), 0x208);
}

#[test]
fn add_reg_sets_carry() {
    let mut cpu = CPU::new();
    exec(&mut cpu, 0x61FF).unwrap();
    exec(&mut cpu, 0x6201).unwrap();
    exec(&mut cpu, 0x8124).unwrap();
    assert_eq!(cpu.register(1), 0x00);
    assert_eq!(cpu.register(0xF), 1);
    exec(&mut cpu, 0x6110).unwrap();
    exec(&mut cpu, 0x6220).unwrap();
    exec(&mut cpu, 0x8124).unwrap();
    assert_eq!(cpu.register(1), 0x30);
    assert_eq!(cpu.register(0xF), 0);
}

#[test]
fn sub_reg_sets_no_borrow() {
    let mut cpu = CPU::new();
    exec(&mut cpu, 0x6105).unwrap();
    exec(&mut cpu, 0x6203).unwrap();
    exec(&mut cpu, 0x8125).unwrap();
    assert_eq!(cpu.register(1), 2);
    assert_eq!(cpu.register(0xF), 1);
    exec(&mut cpu, 0x6103).unwrap();
    exec(&mut cpu, 0x6205).unwrap();
    exec(&mut cpu, 0x8125).unwrap();
    assert_eq!(cpu.register(1), 0xFE);
    assert_eq!(cpu.register(0xF), 0);
    exec(&mut cpu, 0x6107).unwrap();
    exec(&mut cpu, 0x6207).unwrap();
    exec(&mut cpu, 0x8125).unwrap();
    assert_eq!(cpu.register(1), 0);
    assert_eq!(cpu.register(0xF), 0);
}

#[test]
fn alu_logic_shifts_and_subn() {
    let mut cpu = CPU::new();
    exec(&mut cpu, 0x61C5).unwrap();
    exec(&mut cpu, 0x623A).unwrap();
    exec(&mut cpu, 0x8310).unwrap();
    assert_eq!(cpu.register(3), 0xC5);
    exec(&mut cpu, 0x8321).unwrap();
    assert_eq!(cpu.register(3), 0xFF);
    exec(&mut cpu, 0x8312).unwrap();
    assert_eq!(cpu.register(3), 0xC5);
    exec(&mut cpu, 0x8323).unwrap();
    assert_eq!(cpu.register(3), 0xFF);
    exec(&mut cpu, 0x8106).unwrap();
    assert_eq!(cpu.register(1), 0x62);
    assert_eq!(cpu.register(0xF), 1);
    exec(&mut cpu, 0x810E).unwrap();
    assert_eq!(cpu.register(1), 0xC4);
    assert_eq!(cpu.register(0xF), 0);
    exec(&mut cpu, 0x810E).unwrap();
    assert_eq!(cpu.register(1), 0x88);
    assert_eq!(cpu.register(0xF), 1);
    exec(&mut cpu, 0x8127).unwrap();
    assert_eq!(cpu.register(1), 0xB2);
    assert_eq!(cpu.register(0xF), 0);
    assert_eq!(exec(&mut cpu, 0x8128).unwrap_err(), Fault::InvalidInstruction);
}

#[test]
fn call_then_return_resumes_after_call() {
    let mut program = vec![0u8; 0x102];
    program[0] = 0x23;
    program[1] = 0x00;
    program[0x100] = 0x00;
    program[0x101] = 0xEE;
    let mut cpu = machine_with(&program);
    cycle(&mut cpu).unwrap();
    assert_eq!(cpu.pc(), 0x300);
    assert_eq!(cpu.stack_depth(), 1);
    cycle(&mut cpu).unwrap();
    assert_eq!(cpu.pc(), 0x202);
    assert_eq!(cpu.stack_depth(), 0);
}

#[test]
fn call_to_last_address_then_return() {
    let mut cpu = CPU::new();
    exec(&mut cpu, 0x2FFF).unwrap();
    assert_eq!(cpu.pc(), 0xFFF);
    exec(&mut cpu, 0x00EE).unwrap();
    assert_eq!(cpu.pc(), 0x202);
}

#[test]
fn jump_then_fetch_decodes_target() {
    let mut program = vec![0u8; 0x102];
    program[0] = 0x13;
    program[1] = 0x00;
    program[0x100] = 0xA1;
    program[0x101] = 0x23;
    let mut cpu = machine_with(&program);
    cycle(&mut cpu).unwrap();
    assert_eq!(cpu.pc(), 0x300);
    let op = cpu.fetch().unwrap();
    assert_eq!(op, Operand::new(0xA123));
}

#[test]
fn jump_to_odd_address_fetches_unaligned_word() {
    let mut cpu = machine_with(&[0x12, 0x03, 0x00, 0x6A, 0xBC]);
    cycle(&mut cpu).unwrap();
    assert_eq!(cpu.pc(), 0x203);
    assert_eq!(cpu.fetch().unwrap(), Operand::new(0x6ABC));
}

#[test]
fn fetch_past_memory_faults() {
    let mut cpu = CPU::new();
    exec(&mut cpu, 0x1FFF).unwrap();
    assert_eq!(cpu.fetch().unwrap_err(), Fault::PcOutOfRange);
    exec(&mut cpu, 0x1FFE).unwrap();
    assert!(cpu.fetch().is_ok());
}

#[test]
fn execute_past_memory_faults() {
    let mut cpu = CPU::new();
    exec(&mut cpu, 0x60FF).unwrap();
    exec(&mut cpu, 0xBFFF).unwrap();
    assert_eq!(cpu.pc(), 0x10FE);
    assert_eq!(exec(&mut cpu, 0x6001).unwrap_err(), Fault::PcOutOfRange);
    assert_eq!(cpu.register(0), 0xFF);
}

#[test]
fn jump_with_offset() {
    let mut cpu = CPU::new();
    exec(&mut cpu, 0x6004).unwrap();
    exec(&mut cpu, 0xB300).unwrap();
    assert_eq!(cpu.pc(), 0x304);
}

#[test]
fn skips() {
    let mut cpu = CPU::new();
    exec(&mut cpu, 0x6142).unwrap();
    exec(&mut cpu, 0x6242).unwrap();
    let pc = cpu.pc();
    exec(&mut cpu, 0x3142).unwrap();
    assert_eq!(cpu.pc(), pc + 4);
    exec(&mut cpu, 0x3143).unwrap();
    assert_eq!(cpu.pc(), pc + 6);
    exec(&mut cpu, 0x4143).unwrap();
    assert_eq!(cpu.pc(), pc + 10);
    exec(&mut cpu, 0x4142).unwrap();
    assert_eq!(cpu.pc(), pc + 12);
    exec(&mut cpu, 0x5120).unwrap();
    assert_eq!(cpu.pc(), pc + 16);
    exec(&mut cpu, 0x9120).unwrap();
    assert_eq!(cpu.pc(), pc + 18);
    exec(&mut cpu, 0x6300).unwrap();
    exec(&mut cpu, 0x9130).unwrap();
    assert_eq!(cpu.pc(), pc + 24);
}

#[test]
fn three_instruction_program() {
    let mut cpu = machine_with(&[0x60, 0x0A, 0x61, 0x05, 0x80, 0x14]);
    for _ in 0..3 {
        assert!(cycle(&mut cpu).unwrap().is_none());
    }
    assert_eq!(cpu.register(0), 0x0F);
    assert_eq!(cpu.register(0xF), 0);
    assert_eq!(cpu.pc(), 0x206);
}

#[test]
fn stack_overflow_on_seventeenth_call() {
    let mut cpu = CPU::new();
    for _ in 0..16 {
        assert!(exec(&mut cpu, 0x2200).is_ok());
    }
    assert_eq!(cpu.stack_depth(), 16);
    assert_eq!(exec(&mut cpu, 0x2200).unwrap_err(), Fault::StackOverflow);
    assert_eq!(cpu.stack_depth(), 16);
    assert_eq!(cpu.pc(), 0x200);
}

#[test]
fn return_on_empty_stack_underflows() {
    let mut cpu = CPU::new();
    assert_eq!(exec(&mut cpu, 0x00EE).unwrap_err(), Fault::StackUnderflow);
    assert_eq!(cpu.pc(), 0x200);
}

#[test]
fn unknown_words_are_invalid() {
    let mut cpu = CPU::new();
    for word in [0x0123u16, 0x00E1, 0xE19F, 0xF0FF, 0xF000] {
        assert_eq!(exec(&mut cpu, word).unwrap_err(), Fault::InvalidInstruction);
    }
    assert_eq!(cpu.pc(), 0x200);
}

#[test]
fn index_instructions_and_font() {
    let mut cpu = CPU::new();
    exec(&mut cpu, 0xA123).unwrap();
    assert_eq!(cpu.index(), 0x123);
    exec(&mut cpu, 0x6510).unwrap();
    exec(&mut cpu, 0xF51E).unwrap();
    assert_eq!(cpu.index(), 0x133);
    exec(&mut cpu, 0xAFFF).unwrap();
    exec(&mut cpu, 0x65FF).unwrap();
    exec(&mut cpu, 0xF51E).unwrap();
    assert_eq!(cpu.index(), 0x10FE);
    exec(&mut cpu, 0x650A).unwrap();
    exec(&mut cpu, 0xF529).unwrap();
    assert_eq!(cpu.index(), 50);
    assert_eq!(cpu.memory_at(50), 0xF0);
    assert_eq!(cpu.memory_at(51), 0x90);
}

#[test]
fn bcd_stores_digits() {
    let mut cpu = CPU::new();
    exec(&mut cpu, 0x67EA).unwrap();
    exec(&mut cpu, 0xA300).unwrap();
    exec(&mut cpu, 0xF733).unwrap();
    assert_eq!(cpu.memory_at(0x300), 2);
    assert_eq!(cpu.memory_at(0x301), 3);
    assert_eq!(cpu.memory_at(0x302), 4);
    exec(&mut cpu, 0xAFFE).unwrap();
    assert_eq!(exec(&mut cpu, 0xF733).unwrap_err(), Fault::MemoryOutOfRange);
}

#[test]
fn store_and_load_registers() {
    let mut cpu = CPU::new();
    exec(&mut cpu, 0x6011).unwrap();
    exec(&mut cpu, 0x6122).unwrap();
    exec(&mut cpu, 0x6233).unwrap();
    exec(&mut cpu, 0xA400).unwrap();
    exec(&mut cpu, 0xF155).unwrap();
    assert_eq!(cpu.memory_at(0x400), 0x11);
    assert_eq!(cpu.memory_at(0x401), 0x22);
    assert_eq!(cpu.memory_at(0x402), 0);
    assert_eq!(cpu.index(), 0x400);
    exec(&mut cpu, 0x6000).unwrap();
    exec(&mut cpu, 0x6100).unwrap();
    exec(&mut cpu, 0xF165).unwrap();
    assert_eq!(cpu.register(0), 0x11);
    assert_eq!(cpu.register(1), 0x22);
    assert_eq!(cpu.register(2), 0x33);
    assert_eq!(cpu.index(), 0x402);
    exec(&mut cpu, 0xAFFF).unwrap();
    assert_eq!(exec(&mut cpu, 0xF155).unwrap_err(), Fault::MemoryOutOfRange);
    assert_eq!(exec(&mut cpu, 0xF065).map(|r| r.is_none()), Ok(true));
}

#[test]
fn timers_transfer_and_tick() {
    let mut cpu = CPU::new();
    exec(&mut cpu, 0x6402).unwrap();
    exec(&mut cpu, 0xF415).unwrap();
    exec(&mut cpu, 0xF418).unwrap();
    assert_eq!(cpu.delay_timer(), 2);
    assert_eq!(cpu.sound_timer(), 2);
    cpu.tick_timers();
    exec(&mut cpu, 0xF507).unwrap();
    assert_eq!(cpu.register(5), 1);
    cpu.tick_timers();
    cpu.tick_timers();
    assert_eq!(cpu.delay_timer(), 0);
    assert_eq!(cpu.sound_timer(), 0);
}

#[test]
fn key_skips() {
    let mut cpu = CPU::new();
    exec(&mut cpu, 0x6307).unwrap();
    let pc = cpu.pc();
    exec(&mut cpu, 0xE39E).unwrap();
    assert_eq!(cpu.pc(), pc + 2);
    exec(&mut cpu, 0xE3A1).unwrap();
    assert_eq!(cpu.pc(), pc + 6);
    cpu.set_key(7, true);
    exec(&mut cpu, 0xE39E).unwrap();
    assert_eq!(cpu.pc(), pc + 10);
    exec(&mut cpu, 0xE3A1).unwrap();
    assert_eq!(cpu.pc(), pc + 12);
    exec(&mut cpu, 0x6320).unwrap();
    exec(&mut cpu, 0xE39E).unwrap();
    assert_eq!(cpu.pc(), pc + 16);
}

#[test]
fn wait_for_key_holds_until_pressed() {
    let mut cpu = CPU::new();
    exec(&mut cpu, 0xF60A).unwrap();
    assert_eq!(cpu.pc(), 0x200);
    cpu.set_key(0xC, true);
    cpu.set_key(0x9, true);
    exec(&mut cpu, 0xF60A).unwrap();
    assert_eq!(cpu.pc(), 0x202);
    assert_eq!(cpu.register(6), 0x9);
}

#[test]
fn random_is_masked() {
    let mut cpu = CPU::new();
    assert!(cpu.execute_with_random(Operand::new(0xC20F), 0xAB).unwrap().is_none());
    assert_eq!(cpu.register(2), 0x0B);
    for _ in 0..32 {
        exec(&mut cpu, 0xC30F).unwrap();
        assert!(cpu.register(3) <= 0x0F);
        exec(&mut cpu, 0xC400).unwrap();
        assert_eq!(cpu.register(4), 0);
    }
}

#[test]
fn clear_emits_blank_frame() {
    let mut cpu = CPU::new();
    exec(&mut cpu, 0xD005).unwrap();
    assert!(cpu.pixel(0, 0));
    let msg = exec(&mut cpu, 0x00E0).unwrap().unwrap();
    assert_eq!(msg.cmd, "CLS");
    assert!(msg.data.iter().all(|col| col.iter().all(|p| !p)));
    assert!(!cpu.pixel(0, 0));
}

#[test]
fn draw_digit_zero() {
    let mut cpu = CPU::new();
    let msg = exec(&mut cpu, 0xD005).unwrap().unwrap();
    assert_eq!(msg.cmd, "DRAW");
    assert_eq!(cpu.register(0xF), 0);
    // glyph 0: F0 90 90 90 F0
    for x in 0..4 {
        assert!(cpu.pixel(x, 0));
        assert!(cpu.pixel(x, 4));
        assert!(msg.data[x][0]);
    }
    assert!(cpu.pixel(0, 2));
    assert!(!cpu.pixel(1, 2));
    assert!(cpu.pixel(3, 2));
    assert!(!cpu.pixel(4, 0));
    assert!(!cpu.pixel(0, 5));
    assert_eq!(msg.data, cpu.screen());
}

#[test]
fn draw_twice_restores_and_flags_second() {
    let mut cpu = CPU::new();
    exec(&mut cpu, 0x6A0A).unwrap();
    exec(&mut cpu, 0x6B03).unwrap();
    exec(&mut cpu, 0xA000).unwrap();
    let before = cpu.screen();
    exec(&mut cpu, 0xDAB5).unwrap();
    assert_eq!(cpu.register(0xF), 0);
    assert_ne!(cpu.screen(), before);
    exec(&mut cpu, 0xDAB5).unwrap();
    assert_eq!(cpu.register(0xF), 1);
    assert_eq!(cpu.screen(), before);
}

#[test]
fn draw_over_partly_set_screen_flags_first() {
    let mut cpu = CPU::new();
    exec(&mut cpu, 0xA00A).unwrap(); // glyph 2: F0 10 F0 80 F0
    exec(&mut cpu, 0xD005).unwrap();
    exec(&mut cpu, 0xA000).unwrap(); // glyph 0
    exec(&mut cpu, 0xD005).unwrap();
    assert_eq!(cpu.register(0xF), 1);
    assert!(!cpu.pixel(0, 0));
    assert!(cpu.pixel(0, 1));
    assert!(!cpu.pixel(3, 1));
}

#[test]
fn draw_wraps_at_right_and_bottom_edges() {
    let mut cpu = machine_with(&[0xFF, 0xFF]);
    exec(&mut cpu, 0x613C).unwrap(); // x = 60
    exec(&mut cpu, 0x621F).unwrap(); // y = 31
    exec(&mut cpu, 0xA200).unwrap();
    exec(&mut cpu, 0xD122).unwrap();
    assert_eq!(cpu.register(0xF), 0);
    for x in [60usize, 61, 62, 63, 0, 1, 2, 3] {
        assert!(cpu.pixel(x, 31));
        assert!(cpu.pixel(x, 0));
    }
    for x in 4..60 {
        assert!(!cpu.pixel(x, 31));
        assert!(!cpu.pixel(x, 0));
    }
    assert!(!cpu.pixel(60, 1));
    assert!(!cpu.pixel(60, 30));
}

#[test]
fn clear_then_draw_has_no_collision() {
    let mut cpu = CPU::new();
    exec(&mut cpu, 0xD005).unwrap();
    exec(&mut cpu, 0x00E0).unwrap();
    exec(&mut cpu, 0xD005).unwrap();
    assert_eq!(cpu.register(0xF), 0);
}

#[test]
fn draw_past_memory_faults() {
    let mut cpu = CPU::new();
    exec(&mut cpu, 0xAFFC).unwrap();
    assert_eq!(exec(&mut cpu, 0xD005).unwrap_err(), Fault::MemoryOutOfRange);
    assert!(exec(&mut cpu, 0xD004).is_ok());
}

#[test]
fn reset_keeps_memory_and_screen() {
    let mut cpu = machine_with(&[0x22, 0x10]);
    cycle(&mut cpu).unwrap();
    exec(&mut cpu, 0xD005).unwrap();
    cpu.reset();
    assert_eq!(cpu.pc(), 0x200);
    assert_eq!(cpu.stack_depth(), 0);
    assert_eq!(cpu.memory_at(0x200), 0x22);
    assert!(cpu.pixel(0, 0));
}

#[test]
fn run_stops_at_first_message() {
    let mut cpu = machine_with(&[0x60, 0x01, 0x00, 0xE0, 0x61, 0x02]);
    let msg = cpu.run(100).unwrap().unwrap();
    assert_eq!(msg.cmd, "CLS");
    assert_eq!(cpu.pc(), 0x204);
    assert_eq!(cpu.register(0), 1);
    assert_eq!(cpu.register(1), 0);
}

#[test]
fn run_stops_when_budget_spent() {
    let mut cpu = machine_with(&[0x70, 0x01, 0x12, 0x00]);
    assert!(cpu.run(10).unwrap().is_none());
    assert_eq!(cpu.register(0), 5);
    assert_eq!(cpu.pc(), 0x200);
    assert!(cpu.run(0).unwrap().is_none());
}

#[test]
fn run_stops_at_fault() {
    let mut cpu = machine_with(&[0x60, 0x01, 0x00, 0x00]);
    assert_eq!(cpu.run(10).unwrap_err(), Fault::InvalidInstruction);
    assert_eq!(cpu.pc(), 0x202);
    assert_eq!(cpu.register(0), 1);
}
