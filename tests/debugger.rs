use synacor_vm::config::parse_args;
use synacor_vm::debug::{apply, halt, memory_rows, Action, Command, DebugError, Meta};
use synacor_vm::error::InvalidArgError;
use synacor_vm::lexer::{lex, LexError};
use synacor_vm::opcode::Code;
use synacor_vm::vm::{Fault, State};

fn is(r: Result<Command, LexError>, expected: Command) -> bool {
    match (r, expected) {
        (Ok(Command::Step(a)), Command::Step(b)) => a == b,
        (Ok(Command::PrintMemory), Command::PrintMemory) => true,
        (Ok(Command::PrintMemoryX(a)), Command::PrintMemoryX(b)) => a == b,
        (Ok(Command::PrintMemoryRange(a, b)), Command::PrintMemoryRange(c, d)) => a == c && b == d,
        (Ok(Command::StackGet), Command::StackGet) => true,
        (Ok(Command::StackGetN(a)), Command::StackGetN(b)) => a == b,
        (Ok(Command::StackSet(a, b)), Command::StackSet(c, d)) => a == c && b == d,
        (Ok(Command::Run), Command::Run) => true,
        (Ok(Command::BreakPointOpGet), Command::BreakPointOpGet) => true,
        (Ok(Command::BreakPointOpSet(a)), Command::BreakPointOpSet(b)) => a == b,
        (Ok(Command::RegisterGet), Command::RegisterGet) => true,
        (Ok(Command::RegisterGetN(a)), Command::RegisterGetN(b)) => a == b,
        (Ok(Command::RegisterSet(a, b)), Command::RegisterSet(c, d)) => a == c && b == d,
        (Ok(Command::DebugGet), Command::DebugGet) => true,
        (Ok(Command::DebugSet(a)), Command::DebugSet(b)) => a == b,
        (Ok(Command::Help), Command::Help) => true,
        (Ok(Command::Halt), Command::Halt) => true,
        (Ok(Command::PrintInfo), Command::PrintInfo) => true,
        (Ok(Command::Null), Command::Null) => true,
        (Ok(Command::Save(a)), Command::Save(b)) => a == b,
        _ => false,
    }
}

#[test]
fn lex_commands() {
    assert!(is(lex("step"), Command::Step(0)));
    assert!(is(lex("  n 25 \n"), Command::Step(25)));
    assert!(is(lex("m"), Command::PrintMemory));
    assert!(is(lex("memory 40"), Command::PrintMemoryX(40)));
    assert!(is(lex("m 4 80"), Command::PrintMemoryRange(4, 80)));
    assert!(is(lex("s"), Command::StackGet));
    assert!(is(lex("stack 2"), Command::StackGetN(2)));
    assert!(is(lex("s 2 65535"), Command::StackSet(2, 65535)));
    assert!(is(lex("run\n"), Command::Run));
    assert!(is(lex("bp"), Command::BreakPointOpGet));
    assert!(is(lex("op 19"), Command::BreakPointOpSet(19)));
    assert!(is(lex("r"), Command::RegisterGet));
    assert!(is(lex("register 7"), Command::RegisterGetN(7)));
    assert!(is(lex("r 3 1234"), Command::RegisterSet(3, 1234)));
    assert!(is(lex("debug"), Command::DebugGet));
    assert!(is(lex("debug on"), Command::DebugSet(true)));
    assert!(is(lex("debug 0"), Command::DebugSet(false)));
    assert!(is(lex("?"), Command::Help));
    assert!(is(lex("man"), Command::Help));
    assert!(is(lex("halt"), Command::Halt));
    assert!(is(lex("info"), Command::PrintInfo));
    assert!(is(lex(""), Command::Null));
    assert!(is(lex(" \t\n"), Command::Null));
    assert!(is(lex("save"), Command::Save(String::from("./out"))));
    assert!(is(lex("save /tmp/state.bin"), Command::Save(String::from("/tmp/state.bin"))));
}

#[test]
fn lex_save_keeps_unicode_path() {
    assert!(is(lex("save\tcafé/état.bin  extra"), Command::Save(String::from("café/état.bin"))));
    assert!(is(lex("  save   ü"), Command::Save(String::from("ü"))));
}

#[test]
fn lex_errors() {
    assert!(matches!(lex("jump"), Err(LexError::UnknownCommand)));
    assert!(matches!(lex("Run"), Err(LexError::UnknownCommand)));
    assert!(matches!(lex("r 8"), Err(LexError::NoSuchRegister(8))));
    assert!(matches!(lex("r x"), Err(LexError::BadNumber)));
    assert!(matches!(lex("r 1 65536"), Err(LexError::BadNumber)));
    assert!(matches!(lex("op 256"), Err(LexError::BadNumber)));
    assert!(matches!(lex("n 99999999999999999999999"), Err(LexError::BadNumber)));
    assert!(matches!(lex("m -1"), Err(LexError::BadNumber)));
    assert!(matches!(lex("debug maybe"), Err(LexError::BadFlag)));
}

#[test]
fn apply_register_commands() {
    let mut state = State::new(vec![0, 0]);
    let mut meta = Meta::new();
    let (_, a) = apply(&mut state, &mut meta, Command::RegisterSet(2, 77));
    assert!(matches!(a, Action::Show));
    assert_eq!(state.register[2], 77);
    let (_, a) = apply(&mut state, &mut meta, Command::RegisterGetN(2));
    assert!(matches!(a, Action::Value(77)));
    let (_, a) = apply(&mut state, &mut meta, Command::RegisterSet(9, 1));
    assert!(matches!(a, Action::Failed(DebugError::NoSuchRegister(9))));
    let (_, a) = apply(&mut state, &mut meta, Command::RegisterSet(1, 40000));
    assert!(matches!(a, Action::Failed(DebugError::NotALiteral(40000))));
    assert_eq!(state.register, [0, 0, 77, 0, 0, 0, 0, 0]);
}

#[test]
fn apply_stack_commands() {
    let mut state = State::new(vec![0, 0]);
    state.stack = vec![5, 6];
    let mut meta = Meta::new();
    let (_, a) = apply(&mut state, &mut meta, Command::StackSet(1, 60));
    assert!(matches!(a, Action::Show));
    assert_eq!(state.stack, vec![5, 60]);
    let (_, a) = apply(&mut state, &mut meta, Command::StackGetN(0));
    assert!(matches!(a, Action::Value(5)));
    let (_, a) = apply(&mut state, &mut meta, Command::StackGetN(2));
    assert!(matches!(a, Action::Failed(DebugError::NoSuchStackSlot(2))));
    let (_, a) = apply(&mut state, &mut meta, Command::StackSet(2, 1));
    assert!(matches!(a, Action::Failed(DebugError::NoSuchStackSlot(2))));
    let (_, a) = apply(&mut state, &mut meta, Command::StackSet(0, 40000));
    assert!(matches!(a, Action::Failed(DebugError::NotALiteral(40000))));
    assert_eq!(state.stack, vec![5, 60]);
}

#[test]
fn apply_resume_and_repeat() {
    let mut state = State::new(vec![0, 0]);
    let mut meta = Meta::new();
    let (_, a) = apply(&mut state, &mut meta, Command::Step(0));
    assert!(matches!(a, Action::Resume));
    assert_eq!(meta.steps, Some(1));
    let (_, a) = apply(&mut state, &mut meta, Command::Step(5));
    assert!(matches!(a, Action::Resume));
    assert_eq!(meta.steps, Some(5));
    let (c, a) = apply(&mut state, &mut meta, Command::Null);
    assert!(matches!(c, Command::Step(5)));
    assert!(matches!(a, Action::Resume));
    let (_, a) = apply(&mut state, &mut meta, Command::Run);
    assert!(matches!(a, Action::Resume));
    assert_eq!(meta.steps, None);
}

#[test]
fn apply_blank_line_first_does_nothing() {
    let mut state = State::new(vec![0, 0]);
    let mut meta = Meta::new();
    let (c, a) = apply(&mut state, &mut meta, Command::Null);
    assert!(matches!(c, Command::Null));
    assert!(matches!(a, Action::Show));
}

#[test]
fn apply_flags() {
    let mut state = State::new(vec![0, 0]);
    let mut meta = Meta::new();
    apply(&mut state, &mut meta, Command::BreakPointOpSet(19));
    assert_eq!(meta.break_op, Some(19));
    apply(&mut state, &mut meta, Command::DebugSet(true));
    assert!(meta.debug);
    apply(&mut state, &mut meta, Command::Halt);
    assert!(meta.halt);
    apply(&mut state, &mut meta, Command::Halt);
    assert!(!meta.halt);
}

#[test]
fn apply_save_is_not_repeated() {
    let mut state = State::new(vec![21, 0]);
    let mut meta = Meta::new();
    apply(&mut state, &mut meta, Command::RegisterGet);
    let (_, a) = apply(&mut state, &mut meta, Command::Save(String::from("x")));
    match a {
        Action::Save(bytes) => assert_eq!(bytes, State::save(&state)),
        _ => panic!("expected save"),
    }
    assert!(matches!(meta.last, Command::RegisterGet));
    let (c, _) = apply(&mut state, &mut meta, Command::Null);
    assert!(matches!(c, Command::RegisterGet));
}

#[test]
fn meta_constructors() {
    let m = Meta::new();
    assert_eq!(m.op_count, 0);
    assert!(!m.halt);
    assert_eq!(m.break_op, Some(0));
    let mut m = Meta::recover(42);
    assert_eq!(m.op_count, 42);
    halt(&mut m);
    assert!(m.halt);
    assert_eq!(m.op_count, 42);
}

#[test]
fn memory_listing_walks_instructions() {
    // add r0 1 2; out 65; halt; (odd trailing byte)
    let mem = vec![9, 0, 0, 128, 1, 0, 2, 0, 19, 0, 65, 0, 0, 0, 7];
    let rows = memory_rows(&mem, 0, 100);
    let offsets: Vec<usize> = rows.iter().map(|r| r.0).collect();
    assert_eq!(offsets, vec![0, 8, 12, 14]);
    assert_eq!(rows[0].1, Ok(Code::Add(32768, 1, 2)));
    assert_eq!(rows[1].1, Ok(Code::Out(65)));
    assert_eq!(rows[2].1, Ok(Code::Halt));
    assert_eq!(rows[3].1, Err(Fault::OutOfBounds(14)));
    let rows = memory_rows(&mem, 8, 12);
    assert_eq!(rows.len(), 1);
    assert!(memory_rows(&mem, 20, 30).is_empty());
}

#[test]
fn command_line() {
    let args = |v: &[&str]| v.iter().map(|s| s.to_string()).collect::<Vec<String>>();
    assert!(matches!(parse_args(&args(&["vm"])), Ok(None)));
    let c = parse_args(&args(&["vm", "prog.bin"])).ok().unwrap().unwrap();
    assert_eq!(c.path, "prog.bin");
    assert!(!c.debug && !c.quiet);
    let c = parse_args(&args(&["vm", "-d", "prog.bin", "--quiet"])).ok().unwrap().unwrap();
    assert_eq!(c.path, "prog.bin");
    assert!(c.debug && c.quiet);
    match parse_args(&args(&["vm", "a", "-q", "b"])) {
        Err(e) => assert_eq!(e.details, "b"),
        _ => panic!("expected an error"),
    }
    assert!(matches!(parse_args(&args(&["vm", "--debug"])), Ok(None)));
    let e = InvalidArgError::new(String::from("z"));
    assert_eq!(e.details, "z");
}
