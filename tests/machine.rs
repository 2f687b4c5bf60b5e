use synacor_vm::debug::{tick, Engine, Meta};
use synacor_vm::exec::execute;
use synacor_vm::opcode::{debug_op, parse, Code};
use synacor_vm::util::{fetch_word, read_argument, read_x, resolve, store_word, to_u16, write_argument, write_target};
use synacor_vm::vm::{Fault, Outcome, State};

fn program(words: &[u16]) -> Vec<u8> {
    let mut bytes = Vec::new();
    for w in words {
        bytes.push((w % 256) as u8);
        bytes.push((w / 256) as u8);
    }
    bytes
}

fn run_to_end(state: &mut State, meta: &mut Meta) -> Vec<u16> {
    let mut out = Vec::new();
    for _ in 0..1000 {
        let t = tick(state, meta, None);
        if let Outcome::Output(c) = t.outcome {
            out.push(c);
        }
        if t.engine != Engine::Running {
            break;
        }
    }
    out
}

#[test]
fn set_then_halt() {
    let mut state = State::new(program(&[1, 32768, 5, 0]));
    let mut meta = Meta::new();
    run_to_end(&mut state, &mut meta);
    assert_eq!(state.register[0], 5);
    assert!(meta.halt);
    assert_eq!(meta.op_count, 2);
}

#[test]
fn add_wraps() {
    let mut state = State::new(program(&[9, 32768, 32767, 5, 0]));
    let mut meta = Meta::new();
    run_to_end(&mut state, &mut meta);
    assert_eq!(state.register[0], 4);
}

#[test]
fn push_then_pop() {
    let mut state = State::new(program(&[2, 9, 3, 32768, 0]));
    let mut meta = Meta::new();
    run_to_end(&mut state, &mut meta);
    assert!(state.stack.is_empty());
    assert_eq!(state.register[0], 9);
}

#[test]
fn breakpoint_on_out_pauses_after_first() {
    let mut state = State::new(program(&[19, 65, 19, 66, 0]));
    let mut meta = Meta::new();
    meta.break_op = Some(19);
    let t = tick(&mut state, &mut meta, None);
    assert_eq!(t.outcome, Outcome::Output(65));
    assert_eq!(t.engine, Engine::Paused);
    assert_eq!(state.ip, 4);
    assert_eq!(meta.op_count, 1);
}

#[test]
fn input_missing_pauses_then_resumes() {
    let mut state = State::new(program(&[20, 32769, 0]));
    let mut meta = Meta::new();
    let t = tick(&mut state, &mut meta, None);
    assert_eq!(t.outcome, Outcome::AwaitInput);
    assert_eq!(t.engine, Engine::Paused);
    assert_eq!(state.ip, 0);
    assert_eq!(meta.op_count, 0);
    let t = tick(&mut state, &mut meta, Some(b'x'));
    assert_eq!(t.outcome, Outcome::Continue);
    assert_eq!(t.engine, Engine::Running);
    assert_eq!(state.register[1], 120);
    assert_eq!(state.ip, 4);
}

#[test]
fn arithmetic_values() {
    // mult r0 = 300 * 200; mod r1 = 17 % 5; and r2 = 12 & 10; or r3 = 12 | 10; not r4 = ~0
    let mut state = State::new(program(&[
        10, 32768, 300, 200, 11, 32769, 17, 5, 12, 32770, 12, 10, 13, 32771, 12, 10, 14, 32772, 0, 0,
    ]));
    let mut meta = Meta::new();
    run_to_end(&mut state, &mut meta);
    assert_eq!(state.register[0], (60000 % 32768) as u16);
    assert_eq!(state.register[1], 2);
    assert_eq!(state.register[2], 8);
    assert_eq!(state.register[3], 14);
    assert_eq!(state.register[4], 32767);
    for r in state.register.iter() {
        assert!(*r <= 32767);
    }
}

#[test]
fn not_of_literal() {
    let mut state = State::new(program(&[14, 32768, 21845, 0]));
    assert_eq!(execute(&mut state, None), Outcome::Continue);
    assert_eq!(state.register[0], 10922);
}

#[test]
fn compare_instructions() {
    let mut state = State::new(program(&[4, 32768, 7, 7, 5, 32769, 3, 7, 5, 32770, 8, 7, 0]));
    let mut meta = Meta::new();
    run_to_end(&mut state, &mut meta);
    assert_eq!(state.register[0], 1);
    assert_eq!(state.register[1], 0);
    assert_eq!(state.register[2], 1);
}

#[test]
fn jumps() {
    let mut state = State::new(program(&[6, 3, 0, 7, 1, 7, 0, 8, 0, 10, 1, 32768, 1, 0]));
    let mut meta = Meta::new();
    // word 0: jmp 3 -> word 3: jt 1 7 -> word 7: jf 0 10 -> word 10: set r0 1 -> word 13: halt
    run_to_end(&mut state, &mut meta);
    assert_eq!(state.register[0], 1);
    assert_eq!(state.ip, 26);
    assert_eq!(meta.op_count, 5);
}

#[test]
fn jump_not_taken_advances() {
    let mut state = State::new(program(&[7, 0, 5, 8, 1, 5, 0]));
    assert_eq!(execute(&mut state, None), Outcome::Continue);
    assert_eq!(state.ip, 6);
    assert_eq!(execute(&mut state, None), Outcome::Continue);
    assert_eq!(state.ip, 12);
}

#[test]
fn call_then_return() {
    // 0: call 3; 2: halt; 3: ret
    let mut state = State::new(program(&[17, 3, 0, 18]));
    assert_eq!(execute(&mut state, None), Outcome::Continue);
    assert_eq!(state.ip, 6);
    assert_eq!(state.stack, vec![2]);
    assert_eq!(execute(&mut state, None), Outcome::Continue);
    assert_eq!(state.ip, 4);
    assert!(state.stack.is_empty());
}

#[test]
fn return_on_empty_stack_halts() {
    let mut state = State::new(program(&[18]));
    let mut meta = Meta::new();
    let t = tick(&mut state, &mut meta, None);
    assert_eq!(t.outcome, Outcome::Halted);
    assert_eq!(t.engine, Engine::Halted);
    assert!(meta.halt);
}

#[test]
fn pop_on_empty_stack_is_underflow() {
    let mut state = State::new(program(&[3, 32768, 0]));
    let mut meta = Meta::new();
    let t = tick(&mut state, &mut meta, None);
    assert_eq!(t.outcome, Outcome::Fault(Fault::StackUnderflow));
    assert_eq!(t.engine, Engine::Paused);
    assert_eq!(state.ip, 0);
}

#[test]
fn write_then_read_memory_grows() {
    // wmem 100 <- 1234; rmem r0 <- [100]; halt
    let mut state = State::new(program(&[16, 100, 1234, 15, 32768, 100, 0]));
    let mut meta = Meta::new();
    run_to_end(&mut state, &mut meta);
    assert_eq!(state.program.len(), 202);
    assert_eq!(state.program[200], (1234 % 256) as u8);
    assert_eq!(state.program[201], (1234 / 256) as u8);
    assert_eq!(state.register[0], 1234);
}

#[test]
fn self_modifying_code() {
    // wmem 3 <- 0 (turns the noop at word 3 into halt); noop; out 65
    let mut state = State::new(program(&[16, 3, 0, 21, 19, 65]));
    let mut meta = Meta::new();
    let out = run_to_end(&mut state, &mut meta);
    assert!(out.is_empty());
    assert!(meta.halt);
}

#[test]
fn read_memory_out_of_bounds() {
    let mut state = State::new(program(&[15, 32768, 500, 0]));
    assert_eq!(execute(&mut state, None), Outcome::Fault(Fault::OutOfBounds(1000)));
    assert_eq!(state.ip, 0);
}

#[test]
fn modulo_by_zero_faults() {
    let mut state = State::new(program(&[11, 32768, 5, 0, 0]));
    assert_eq!(execute(&mut state, None), Outcome::Fault(Fault::DivideByZero));
}

#[test]
fn unknown_opcode_pauses() {
    let mut state = State::new(program(&[22, 0]));
    let mut meta = Meta::new();
    let t = tick(&mut state, &mut meta, None);
    assert_eq!(t.outcome, Outcome::Fault(Fault::UnknownOpcode(22)));
    assert_eq!(t.engine, Engine::Paused);
}

#[test]
fn invalid_write_target_faults() {
    let mut state = State::new(program(&[1, 5, 5, 0]));
    assert_eq!(execute(&mut state, None), Outcome::Fault(Fault::InvalidWriteTarget(5)));
    let mut state = State::new(program(&[1, 32776, 5, 0]));
    assert_eq!(execute(&mut state, None), Outcome::Fault(Fault::InvalidWriteTarget(32776)));
}

#[test]
fn invalid_operand_faults() {
    let mut state = State::new(program(&[2, 40000, 0]));
    assert_eq!(execute(&mut state, None), Outcome::Fault(Fault::InvalidOperand(40000)));
}

#[test]
fn truncated_instruction_faults() {
    let mut state = State::new(program(&[9, 32768, 1]));
    assert_eq!(execute(&mut state, None), Outcome::Fault(Fault::OutOfBounds(0)));
}

#[test]
fn register_operands_resolve() {
    // set r1 = 40; add r0 = r1 + r1
    let mut state = State::new(program(&[1, 32769, 40, 9, 32768, 32769, 32769, 0]));
    let mut meta = Meta::new();
    run_to_end(&mut state, &mut meta);
    assert_eq!(state.register[0], 80);
}

#[test]
fn chained_register_resolution() {
    let mut regs = [0u16; 8];
    regs[0] = 32769;
    regs[1] = 32770;
    regs[2] = 77;
    assert_eq!(resolve(&regs, 32768), Ok(77));
    assert_eq!(resolve(&regs, 12), Ok(12));
    let mut cyclic = [0u16; 8];
    cyclic[0] = 32769;
    cyclic[1] = 32768;
    assert!(matches!(resolve(&cyclic, 32768), Err(Fault::InvalidOperand(_))));
    let mut bad = [0u16; 8];
    bad[3] = 50000;
    assert_eq!(resolve(&bad, 32771), Err(Fault::InvalidOperand(50000)));
}

#[test]
fn write_target_range() {
    assert_eq!(write_target(32768), Ok(0));
    assert_eq!(write_target(32775), Ok(7));
    assert_eq!(write_target(32767), Err(Fault::InvalidWriteTarget(32767)));
    assert_eq!(write_target(32776), Err(Fault::InvalidWriteTarget(32776)));
}

#[test]
fn word_helpers() {
    assert_eq!(to_u16(0x12, 0x34), 0x1234);
    assert_eq!(to_u16(0, 0), 0);
    assert_eq!(to_u16(0xff, 0xff), 0xffff);
    let mut mem = vec![0x34u8, 0x12];
    assert_eq!(fetch_word(&mem, 0), Ok(0x1234));
    assert_eq!(fetch_word(&mem, 1), Err(Fault::OutOfBounds(1)));
    store_word(&mut mem, 4, 0xabcd);
    assert_eq!(mem, vec![0x34, 0x12, 0, 0, 0xcd, 0xab]);
}

#[test]
fn argument_readers() {
    let mut state = State::new(program(&[32770, 9, 32768]));
    state.register[2] = 31;
    state.register[0] = 8;
    assert_eq!(read_argument(&state), Ok(31));
    assert_eq!(write_argument(&state), Ok(2));
    assert_eq!(read_x(&state, 2), Ok(9));
    assert_eq!(read_x(&state, 4), Ok(8));
    assert_eq!(read_x(&state, 5), Err(Fault::OutOfBounds(5)));
}

#[test]
fn parse_decodes_operands() {
    let mem = program(&[9, 32768, 1, 2, 18, 19, 65]);
    assert_eq!(parse(&mem, &0), Ok(Code::Add(32768, 1, 2)));
    assert_eq!(parse(&mem, &8), Ok(Code::Return));
    assert_eq!(parse(&mem, &10), Ok(Code::Out(65)));
    assert_eq!(parse(&mem, &14), Err(Fault::OutOfBounds(14)));
    assert_eq!(parse(&vec![200u8, 0], &0), Ok(Code::Unknown(200)));
}

#[test]
fn code_len_and_opcode() {
    assert_eq!(Code::Halt.len(), 0);
    assert_eq!(Code::SetReg(1, 2).len(), 2);
    assert_eq!(Code::Push(1).len(), 1);
    assert_eq!(Code::Add(1, 2, 3).len(), 3);
    assert_eq!(Code::Noop.len(), 0);
    assert_eq!(Code::Call(4).opcode(), 17);
    assert_eq!(Code::Unknown(99).opcode(), 99);
}

#[test]
fn debug_op_resolves_operands() {
    let mut state = State::new(program(&[0]));
    state.register[1] = 44;
    let r = debug_op(&state, &Code::Add(32768, 32769, 40000));
    assert_eq!(r, vec![Ok(0), Ok(44), Err(Fault::InvalidOperand(40000))]);
    assert!(debug_op(&state, &Code::Halt).is_empty());
}

#[test]
fn step_budget_pauses() {
    let mut state = State::new(program(&[21, 21, 21, 0]));
    let mut meta = Meta::new();
    meta.steps = Some(2);
    let t = tick(&mut state, &mut meta, None);
    assert_eq!(t.engine, Engine::Running);
    assert_eq!(meta.steps, Some(1));
    let t = tick(&mut state, &mut meta, None);
    assert_eq!(t.engine, Engine::Paused);
    assert_eq!(meta.steps, None);
    assert_eq!(state.ip, 4);
}

#[test]
fn lone_opcode_byte_decodes() {
    assert_eq!(parse(&vec![0u8], &0), Ok(Code::Halt));
    assert_eq!(parse(&vec![21u8], &0), Ok(Code::Noop));
    assert_eq!(parse(&vec![18u8], &0), Ok(Code::Return));
    assert_eq!(parse(&vec![19u8], &0), Err(Fault::OutOfBounds(0)));
}

#[test]
fn lone_return_byte_returns() {
    let mut state = State::new(vec![18u8]);
    state.stack = vec![7];
    assert_eq!(execute(&mut state, None), Outcome::Continue);
    assert_eq!(state.ip, 14);
    assert!(state.stack.is_empty());
    let mut state = State::new(vec![18u8]);
    assert_eq!(execute(&mut state, None), Outcome::Halted);
}

#[test]
fn read_memory_refuses_non_literal() {
    let mut state = State::new(program(&[15, 32768, 1]));
    assert_eq!(execute(&mut state, None), Outcome::Fault(Fault::NotALiteral(32768)));
    assert_eq!(state.register[0], 0);
    assert_eq!(state.ip, 0);
}

#[test]
fn call_return_address_must_be_literal() {
    let mut mem = vec![0u8; 65536];
    mem[65532] = 17;
    mem[65534] = 3;
    let mut state = State::new(mem);
    state.ip = 65532;
    assert_eq!(execute(&mut state, None), Outcome::Fault(Fault::OutOfBounds(65532)));
    assert!(state.stack.is_empty());
    state.ip = 65530;
    state.program[65530] = 17;
    state.program[65532] = 3;
    assert_eq!(execute(&mut state, None), Outcome::Continue);
    assert_eq!(state.stack, vec![32767]);
}

#[test]
fn halt_pauses_at_default_breakpoint() {
    let mut state = State::new(vec![0u8]);
    let mut meta = Meta::new();
    let t = tick(&mut state, &mut meta, None);
    assert_eq!(t.outcome, Outcome::Halted);
    assert_eq!(t.engine, Engine::Paused);
    assert!(meta.halt);
    assert_eq!(meta.op_count, 1);
    let mut state = State::new(vec![0u8]);
    let mut meta = Meta::new();
    meta.break_op = None;
    let t = tick(&mut state, &mut meta, None);
    assert_eq!(t.engine, Engine::Halted);
}
