use lib::assembler::assemble;
use lib::display::render_display;
use lib::machine::{mnemonic, safe_instruction_pointer, Event, Fatal, Machine, RunEnd};
use lib::stack::{binary_op, get, pop, psh, unary_op};

/// Runs `program` to its end, supplying `input` to each read from I/O address 0xFF;
/// gives the machine and the exit code or the event that ended the run.
fn run(program: &[u8], input: &[u8]) -> (Machine, Result<u8, Event>) {
    let mut m = Machine::new();
    let mut steps = 0;
    while m.running(program) {
        steps += 1;
        assert!(steps < 10_000, "runaway program");
        match m.execute(program) {
            Event::Halted => break,
            Event::Died(f) => return (m, Err(Event::Died(f))),
            Event::OutOfBounds(i) => return (m, Err(Event::OutOfBounds(i))),
            Event::AwaitingInput => m.provide_input(input),
            Event::Executed => {},
        }
        if let Err(f) = m.advance(program) {
            return (m, Err(Event::Died(f)));
        }
    }
    let r = m.finish(program);
    (m, r)
}

fn run_source(src: &str) -> (Machine, Result<u8, Event>) {
    let code = assemble(src.as_bytes()).unwrap();
    run(&code, b"")
}

#[test]
fn add_gives_exit_code() {
    assert_eq!(run_source("x05 x03 add hlt").1, Ok(8));
}

#[test]
fn sub_takes_second_from_top() {
    // The top (3) minus the one below (5), wrapping.
    assert_eq!(run_source("x05 x03 sub hlt").1, Ok(254));
}

#[test]
fn comparisons_give_255_or_0() {
    assert_eq!(run_source("x05 x03 ilt hlt").1, Ok(255));
    assert_eq!(run_source("x03 x05 ilt hlt").1, Ok(0));
    assert_eq!(run_source("x03 x05 lgt hlt").1, Ok(255));
    assert_eq!(run_source("x04 x04 ieq hlt").1, Ok(255));
    assert_eq!(run_source("x00 nez hlt").1, Ok(0));
}

#[test]
fn unary_operations() {
    assert_eq!(run_source("x01 neg hlt").1, Ok(255));
    assert_eq!(run_source("xff abs hlt").1, Ok(1));
    assert_eq!(run_source("x80 abs hlt").1, Ok(0x80));
    assert_eq!(run_source("x0f not hlt").1, Ok(0xF0));
    assert_eq!(run_source("xff inc hlt").1, Ok(0));
    assert_eq!(run_source("x00 dec hlt").1, Ok(255));
}

#[test]
fn bitwise_operations() {
    assert_eq!(run_source("x0c x0a oor hlt").1, Ok(0x0E));
    assert_eq!(run_source("x0c x0a and hlt").1, Ok(0x08));
    assert_eq!(run_source("x0c x0a xor hlt").1, Ok(0x06));
    assert_eq!(run_source("x0c x0a xnd hlt").1, Ok(0));
}

#[test]
fn add_with_carry_adds_a_byte_to_a_16_bit_value() {
    // high byte 0x01, low byte 0xFF, plus 0x01: 0x0200, low byte on top;
    // dropping it leaves the high byte.
    let (m, r) = run_source("x01 xff x01 adc drp hlt");
    assert_eq!(r, Ok(0x02));
    assert_eq!(m.stack_pointer(), 255);
}

#[test]
fn subtract_with_carry() {
    // 0x0200 - 0x01 = 0x01FF; drop the low byte, leave the high one.
    assert_eq!(run_source("x02 x00 x01 sbc drp hlt").1, Ok(0x01));
}

#[test]
fn shifts() {
    assert_eq!(run_source("x03 shl x02 hlt").1, Ok(0x0C));
    assert_eq!(run_source("x80 shr x07 hlt").1, Ok(0x01));
    // A count of 0 in the opcode takes the count from the stack.
    assert_eq!(run_source("x01 x04 shl x00 hlt").1, Ok(0x10));
}

#[test]
fn stack_shuffles() {
    assert_eq!(run_source("x01 x02 swp drp hlt").1, Ok(0x02));
    assert_eq!(run_source("x07 dup add hlt").1, Ok(14));
}

#[test]
fn store_and_load_relative_to_stack_pointer() {
    // Two values; store the top at offset 0 from the new stack pointer
    // (overwriting the other one), then load it back.
    assert_eq!(run_source("x09 x04 sto x00 ldo x00 swp drp hlt").1, Ok(0x04));
}

#[test]
fn memory_store_and_load() {
    assert_eq!(run_source("x2a x10 sta x10 lda hlt").1, Ok(0x2A));
}

#[test]
fn store_to_address_ff_writes_stdout() {
    let (m, r) = run_source("x41 xff sta x07 hlt");
    assert_eq!(r, Ok(7));
    assert_eq!(m.stdout().clone(), b"A".to_vec());
}

#[test]
fn store_to_address_ff_encodes_high_bytes_as_utf8() {
    let (m, _) = run_source("xe9 xff sta x00 hlt");
    assert_eq!(String::from_utf8(m.stdout().clone()).unwrap(), "\u{e9}");
}

#[test]
fn load_from_address_ff_reads_input() {
    let code = assemble(b"xff lda hlt").unwrap();
    let (m, r) = run(&code, b"Q\n");
    assert_eq!(r, Ok(b'Q'));
    assert_eq!(m.stdout().clone(), b"Q\n".to_vec());
}

#[test]
fn display_store_and_load() {
    let (m, r) = run_source("x05 x03 stb x03 ldb hlt");
    assert_eq!(r, Ok(5));
    assert_eq!(m.display()[3], 5);
}

#[test]
fn skip_on_true_jumps_over() {
    // 255 skips the next one-byte instruction (x01 push), leaving the 7.
    assert_eq!(run_source("x07 xff skp x01 x01 hlt").1, Ok(7));
    // 0 does not skip.
    assert_eq!(run_source("x07 x00 skp x01 x01 add hlt").1, Ok(8));
}

#[test]
fn skip_on_other_value_dies() {
    let code = assemble(b"x05 skp x01 hlt").unwrap();
    assert_eq!(run(&code, b"").1, Err(Event::Died(Fatal { code: 3, instruction_pointer: 1, value: 5 })));
}

#[test]
fn stp_dies() {
    let code = assemble(b"stp").unwrap();
    assert_eq!(run(&code, b"").1, Err(Event::Died(Fatal { code: 8, instruction_pointer: 0, value: 0 })));
}

#[test]
fn unknown_opcode_dies() {
    assert_eq!(run(&[0x05], b"").1, Err(Event::Died(Fatal { code: 1, instruction_pointer: 0, value: 5 })));
    assert_eq!(run(&[0xC8], b"").1, Err(Event::Died(Fatal { code: 1, instruction_pointer: 0, value: 0xC8 })));
}

#[test]
fn wrong_stack_depth_at_halt_dies() {
    let code = assemble(b"x01 x02 hlt").unwrap();
    assert_eq!(run(&code, b"").1, Err(Event::Died(Fatal { code: 5, instruction_pointer: 2, value: 254 })));
}

#[test]
fn running_off_the_end_is_halt_not_reached() {
    let code = assemble(b"x01").unwrap();
    assert_eq!(run(&code, b"").1, Err(Event::Died(Fatal { code: 6, instruction_pointer: 1, value: 0 })));
}

#[test]
fn empty_program_dies_without_halt() {
    assert_eq!(run(&[], b"").1, Err(Event::Died(Fatal { code: 6, instruction_pointer: 0, value: 0 })));
}

#[test]
fn immediate_operand_missing_reads_out_of_bounds() {
    assert_eq!(run(&[0x01], b"").1, Err(Event::OutOfBounds(1)));
}

#[test]
fn jump_beyond_the_program_dies() {
    // sti to address 0x0010 - 1 in a 4-byte program.
    assert_eq!(run(&[0xF0, 0x01, 0x10, 0x16], b"").1, Err(Event::Died(Fatal { code: 7, instruction_pointer: 3, value: 0x0F })));
}

#[test]
fn jump_back_with_sti() {
    // x09 x00 x05 sti: jump to 5, where hlt is; the x09 before it is skipped.
    // 0x05 then 0x00 are popped: address 0x0005 - 1, then advanced to 5.
    let (_, r) = run(&[0xF9, 0xF0, 0xF5, 0x16, 0xF9, 0x02], b"");
    assert_eq!(r, Ok(9));
}

#[test]
fn debug_switches_on_debug_and_stepping() {
    let mut m = Machine::new();
    let program = [0x0F, 0x02];
    assert!(!m.debug() && !m.stepping());
    assert_eq!(m.execute(&program), Event::Executed);
    assert!(m.debug() && m.stepping());
}

#[test]
fn ldi_pushes_next_address() {
    let mut m = Machine::new();
    let program = [0x00, 0x15];
    m.advance(&program).unwrap();
    assert_eq!(m.instruction_pointer(), 1);
    assert_eq!(m.execute(&program), Event::Executed);
    assert_eq!(m.memory()[255], 0x00);
    assert_eq!(m.memory()[254], 0x02);
    assert_eq!(m.stack_pointer(), 254);
}

#[test]
fn ldp_reads_program_memory() {
    // push 0x00 (high), 0x00 (low): address 0, the first byte (0xF0).
    assert_eq!(run(&[0xF0, 0xF0, 0x17, 0x02], b"").1, Ok(0xF0));
}

#[test]
fn safe_instruction_pointer_checks_bounds() {
    assert_eq!(safe_instruction_pointer(0, 3, 3), Ok(3));
    assert_eq!(safe_instruction_pointer(0, 3, 4), Err(Fatal { code: 6, instruction_pointer: 0, value: 0 }));
    assert_eq!(safe_instruction_pointer(2, 3, 0x105), Err(Fatal { code: 7, instruction_pointer: 2, value: 0x05 }));
    // The length is taken on 16 bits.
    assert_eq!(safe_instruction_pointer(0, 0x10003, 3), Ok(3));
    assert_eq!(safe_instruction_pointer(0, 0x10003, 5), Err(Fatal { code: 7, instruction_pointer: 0, value: 5 }));
}

#[test]
fn stack_push_and_pop() {
    let mut memory = vec![0u8; 256];
    let mut sp: u8 = 0;
    psh(&mut memory, &mut sp, 42);
    assert_eq!(sp, 255);
    assert_eq!(memory[255], 42);
    psh(&mut memory, &mut sp, 7);
    assert_eq!(sp, 254);
    assert_eq!(pop(&mut memory, &mut sp), 7);
    assert_eq!(memory[254], 0);
    assert_eq!(sp, 255);
}

#[test]
fn pop_after_push_restores() {
    let mut memory: Vec<u8> = (0..=255).collect();
    let before = memory.clone();
    let mut sp: u8 = 100;
    psh(&mut memory, &mut sp, 9);
    assert_eq!(pop(&mut memory, &mut sp), 9);
    assert_eq!(sp, 100);
    let mut expected = before;
    expected[99] = 0;
    assert_eq!(memory, expected);
}

#[test]
fn set_and_get() {
    let mut memory = vec![0u8; 256];
    let mut p: u8 = 17;
    lib::stack::set(&mut memory, &mut p, 3);
    assert_eq!(get(&mut memory, &mut p), 3);
    assert_eq!(p, 17);
}

#[test]
fn binary_and_unary_op() {
    let mut memory = vec![0u8; 256];
    let mut sp: u8 = 0;
    psh(&mut memory, &mut sp, 10);
    psh(&mut memory, &mut sp, 3);
    binary_op(&mut memory, &mut sp, |a, b| a.wrapping_sub(b));
    assert_eq!(sp, 255);
    assert_eq!(memory[255], 249);
    unary_op(&mut memory, &mut sp, |a| a / 2);
    assert_eq!(memory[255], 124);
}

#[test]
fn swap_twice_is_identity() {
    let mut m = Machine::new();
    let program = [0xF1, 0xF2, 0x1D, 0x1D];
    for _ in 0..2 {
        m.execute(&program);
        m.advance(&program).unwrap();
    }
    let before: Vec<u8> = m.memory().clone();
    let sp = m.stack_pointer();
    for _ in 0..2 {
        assert_eq!(m.execute(&program), Event::Executed);
        m.advance(&program).unwrap();
    }
    assert_eq!(m.memory().clone(), before);
    assert_eq!(m.stack_pointer(), sp);
}

#[test]
fn store_then_load_restores_top() {
    let mut m = Machine::new();
    let program = [0xF3, 0xF6, 0x45, 0x85];
    for _ in 0..2 {
        m.execute(&program);
        m.advance(&program).unwrap();
    }
    let sp = m.stack_pointer();
    let top = m.memory()[sp as usize];
    for _ in 0..2 {
        assert_eq!(m.execute(&program), Event::Executed);
        m.advance(&program).unwrap();
    }
    assert_eq!(m.stack_pointer(), sp);
    assert_eq!(m.memory()[sp as usize], top);
}

#[test]
fn assembled_immediates_push_their_value() {
    for v in [0u8, 5, 15, 16, 0x7F, 255] {
        let src = format!("x{:02x} hlt", v);
        assert_eq!(run_source(&src).1, Ok(v));
    }
}

#[test]
fn mnemonics() {
    assert_eq!(mnemonic(0x00), "nop");
    assert_eq!(mnemonic(0x01), "xXX");
    assert_eq!(mnemonic(0x03), "xXX xXX");
    assert_eq!(mnemonic(0x27), "igt");
    assert_eq!(mnemonic(0x2C), "unk");
    assert_eq!(mnemonic(0x45), "sto");
    assert_eq!(mnemonic(0x85), "ldo");
    assert_eq!(mnemonic(0xC1), "skp");
    assert_eq!(mnemonic(0xC9), "unk");
    assert_eq!(mnemonic(0xD1), "shl");
    assert_eq!(mnemonic(0xD9), "shr");
    assert_eq!(mnemonic(0xE1), "slc");
    assert_eq!(mnemonic(0xE9), "src");
    assert_eq!(mnemonic(0xF3), "x0X");
}

#[test]
fn blank_display_renders_frame() {
    let d = vec![0u8; 256];
    let s: String = render_display(&d).into_iter().collect();
    let lines: Vec<&str> = s.lines().collect();
    assert_eq!(lines.len(), 18);
    assert_eq!(lines[0], format!(".{}.", "-".repeat(34)));
    assert_eq!(lines[1], format!("| {} |", " ".repeat(32)));
    assert_eq!(lines[17], format!("'{}'", "-".repeat(34)));
    assert!(s.ends_with('\n'));
}

#[test]
fn display_pixels_render_as_blocks() {
    let mut d = vec![0u8; 256];
    d[0] = 0b0000_0001; // pixel (0, 0)
    d[4] = 0b0000_0011; // pixels (0, 1) and (1, 1)
    d[8 + 3] = 0b1000_0000; // pixel (31, 2)
    let s: String = render_display(&d).into_iter().collect();
    let lines: Vec<&str> = s.lines().collect();
    let row0: Vec<char> = lines[1].chars().collect();
    assert_eq!(row0[2], '\u{2588}');
    assert_eq!(row0[3], '\u{2584}');
    assert_eq!(row0[4], ' ');
    let row1: Vec<char> = lines[2].chars().collect();
    assert_eq!(row1[2 + 31], '\u{2580}');
}

#[test]
fn push_after_pop_restores() {
    let mut memory: Vec<u8> = (0..=255).map(|x: u32| x as u8).collect();
    let before = memory.clone();
    let mut sp: u8 = 200;
    let v = pop(&mut memory, &mut sp);
    assert_eq!(v, 200);
    psh(&mut memory, &mut sp, v);
    assert_eq!(sp, 200);
    assert_eq!(memory, before);
}

#[test]
fn run_gives_exit_code() {
    let code = assemble(b"x05 x03 add hlt").unwrap();
    let mut m = Machine::new();
    assert_eq!(m.run(&code, 100), RunEnd::Exit(8));
}

#[test]
fn run_stops_on_fatal_error_and_budget_and_input() {
    let code = assemble(b"x05 skp x01 hlt").unwrap();
    assert_eq!(
        Machine::new().run(&code, 100),
        RunEnd::Stopped(Event::Died(Fatal { code: 3, instruction_pointer: 1, value: 5 }))
    );
    let code = assemble(b"x01 x02 add hlt").unwrap();
    let mut m = Machine::new();
    assert_eq!(m.run(&code, 2), RunEnd::OutOfSteps);
    assert_eq!(m.instruction_pointer(), 2);
    assert_eq!(m.run(&code, 2), RunEnd::Exit(3));
    let code = assemble(b"xff lda hlt").unwrap();
    let mut m = Machine::new();
    assert_eq!(m.run(&code, 100), RunEnd::AwaitingInput);
    m.provide_input(b"z\n");
    m.advance(&code).unwrap();
    assert_eq!(m.run(&code, 100), RunEnd::Exit(b'z'));
}

#[test]
fn run_off_the_end_is_halt_not_reached() {
    let code = assemble(b"x01").unwrap();
    assert_eq!(
        Machine::new().run(&code, 100),
        RunEnd::Stopped(Event::Died(Fatal { code: 6, instruction_pointer: 1, value: 0 }))
    );
}
