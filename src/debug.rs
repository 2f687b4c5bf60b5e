use vstd::prelude::*;
use crate::exec::{next, run};
use crate::opcode::{decode, parse, Code};
use crate::snapshot::encodable;
use crate::laws::lemma_step_keeps_literals;
use crate::vm::{registers_in_range, stack_in_range, Fault, Machine, Outcome, State};

verus! {

/// Opcode of `Halt`, the default breakpoint: the debugger opens before the
/// machine stops.
pub const HALT_OPCODE: u8 = 0;

/// Default number of instructions for `step` without a count.
pub const DEFAULT_STEPS: usize = 1;

/// A debugger command.
pub enum Command {
    /// Save the machine to a file at this path.
    Save(String),
    Help,
    /// Resume until the next pause.
    Run,
    /// Resume for this many instructions (0: the default).
    Step(usize),
    /// Turn the step trace on or off.
    DebugSet(bool),
    DebugGet,
    /// Set a register to a literal.
    RegisterSet(usize, u16),
    RegisterGet,
    RegisterGetN(usize),
    /// Set a stack slot, counted from the bottom.
    StackSet(usize, u16),
    StackGet,
    /// Pause after each instruction with this opcode.
    BreakPointOpSet(u8),
    BreakPointOpGet,
    StackGetN(usize),
    /// A blank line: repeat the last command.
    Null,
    Noop,
    PrintInfo,
    PrintMemory,
    /// Show memory from the first byte offset up to the second.
    PrintMemoryRange(usize, usize),
    /// Show this many bytes of memory from the instruction pointer.
    PrintMemoryX(usize),
    /// Toggle termination.
    Halt,
}

impl Command {
    /// A copy of the command.
    pub fn duplicate(&self) -> (r: Command)
        ensures
            r == *self,
    {
        match self {
            Command::Save(p) => Command::Save(p.clone()),
            Command::Help => Command::Help,
            Command::Run => Command::Run,
            Command::Step(n) => Command::Step(*n),
            Command::DebugSet(b) => Command::DebugSet(*b),
            Command::DebugGet => Command::DebugGet,
            Command::RegisterSet(r, v) => Command::RegisterSet(*r, *v),
            Command::RegisterGet => Command::RegisterGet,
            Command::RegisterGetN(r) => Command::RegisterGetN(*r),
            Command::StackSet(i, v) => Command::StackSet(*i, *v),
            Command::StackGet => Command::StackGet,
            Command::BreakPointOpSet(op) => Command::BreakPointOpSet(*op),
            Command::BreakPointOpGet => Command::BreakPointOpGet,
            Command::StackGetN(i) => Command::StackGetN(*i),
            Command::Null => Command::Null,
            Command::Noop => Command::Noop,
            Command::PrintInfo => Command::PrintInfo,
            Command::PrintMemory => Command::PrintMemory,
            Command::PrintMemoryRange(a, b) => Command::PrintMemoryRange(*a, *b),
            Command::PrintMemoryX(n) => Command::PrintMemoryX(*n),
            Command::Halt => Command::Halt,
        }
    }
}

/// Where the engine stands after a step.
#[derive(PartialEq, Eq, Structural, Clone, Copy, Debug)]
pub enum Engine {
    Running,
    /// Waiting for the debugger.
    Paused,
    Halted,
}

/// What the engine keeps besides the machine.
pub struct Meta {
    /// Instructions completed so far.
    pub op_count: usize,
    /// Whether each step is traced.
    pub debug: bool,
    /// Opcode after which the engine pauses.
    pub break_op: Option<u8>,
    /// Whether the machine is to stop.
    pub halt: bool,
    /// The last command, repeated by a blank line.
    pub last: Command,
    /// Instructions left before the engine pauses, when stepping.
    pub steps: Option<usize>,
}

impl Meta {
    /// Engine state for a fresh run: nothing counted, a breakpoint on
    /// `Halt`, no budget.
    pub fn new() -> (r: Meta)
        ensures
            r.op_count == 0,
            !r.debug,
            r.break_op == Some(HALT_OPCODE),
            !r.halt,
            r.last is Null,
            r.steps is None,
    {
        Meta::recover(0)
    }

    /// Engine state that resumes counting from `op_count`.
    pub fn recover(op_count: usize) -> (r: Meta)
        ensures
            r.op_count == op_count,
            !r.debug,
            r.break_op == Some(HALT_OPCODE),
            !r.halt,
            r.last is Null,
            r.steps is None,
    {
        Meta {
            op_count,
            debug: false,
            break_op: Some(HALT_OPCODE),
            halt: false,
            last: Command::Null,
            steps: None,
        }
    }
}

/// What one engine step did.
#[derive(PartialEq, Eq, Structural, Clone, Copy, Debug)]
pub struct Tick {
    /// What the instruction did.
    pub outcome: Outcome,
    /// Where the engine stands after it.
    pub engine: Engine,
}

/// Whether the instruction ran to its end.
pub open spec fn completed(o: Outcome) -> bool {
    o is Continue || o is Output || o is Halted
}

/// Where the engine stands after an instruction with opcode `op` reported
/// `o`: paused by a fault or by missing input; paused by the breakpoint
/// opcode once the instruction has run, a `Halt` included; halted by `Halt`
/// or an empty-stack `Ret`; paused at the end of a step budget; else
/// running.
pub open spec fn engine_after(meta: Meta, op: u8, o: Outcome) -> Engine {
    if o is Fault || o is AwaitInput {
        Engine::Paused
    } else if meta.break_op == Some(op) {
        Engine::Paused
    } else if o is Halted {
        Engine::Halted
    } else if meta.steps matches Some(n) && n <= 1 {
        Engine::Paused
    } else {
        Engine::Running
    }
}

/// The step budget after an instruction: cleared on a pause, one less
/// after a completed instruction.
pub open spec fn steps_after(meta: Meta, engine: Engine, o: Outcome) -> Option<usize> {
    if engine != Engine::Running {
        None
    } else {
        match meta.steps {
            Some(n) => Some((n - 1) as usize),
            None => None,
        }
    }
}

/// The opcode byte at the instruction pointer of `m`, or 0 where there is none.
pub open spec fn opcode_at(m: Machine) -> u8 {
    if 0 <= m.ip < m.memory.len() { m.memory[m.ip] } else { 0 }
}

/// The `halt` instruction's effect on the engine: the machine is to stop.
pub fn halt(meta: &mut Meta)
    ensures
        final(meta).halt,
        final(meta).op_count == old(meta).op_count,
        final(meta).debug == old(meta).debug,
        final(meta).break_op == old(meta).break_op,
        final(meta).last == old(meta).last,
        final(meta).steps == old(meta).steps,
{
    meta.halt = true;
}

/// Runs one instruction and decides where the engine stands after it.
/// `input` is the character available to `In`, if any.
pub fn tick(state: &mut State, meta: &mut Meta, input: Option<u8>) -> (r: Tick)
    ensures
        (final(state)@, r.outcome) == next(old(state)@, input),
        final(state).debug == old(state).debug,
        r.engine == engine_after(*old(meta), opcode_at(old(state)@), r.outcome),
        final(meta).op_count == (if completed(r.outcome) && old(meta).op_count < usize::MAX {
            old(meta).op_count + 1
        } else {
            old(meta).op_count as int
        }),
        final(meta).halt == (old(meta).halt || r.outcome is Halted),
        final(meta).steps == steps_after(*old(meta), r.engine, r.outcome),
        final(meta).debug == old(meta).debug,
        final(meta).break_op == old(meta).break_op,
        final(meta).last == old(meta).last,
        registers_in_range(old(state)@) && stack_in_range(old(state)@) ==> registers_in_range(
            final(state)@,
        ) && stack_in_range(final(state)@),
{
    proof {
        if registers_in_range(state@) && stack_in_range(state@) {
            lemma_step_keeps_literals(state@, input);
        }
    }
    let op: u8 = if state.ip < state.program.len() { state.program[state.ip] } else { 0 };
    let outcome = match parse(&state.program, &state.ip) {
        Ok(code) => run(state, code, input),
        Err(f) => Outcome::Fault(f),
    };
    let completed = match outcome {
        Outcome::Continue | Outcome::Output(_) | Outcome::Halted => true,
        _ => false,
    };
    if completed && meta.op_count < usize::MAX {
        meta.op_count = meta.op_count + 1;
    }
    let at_break = match meta.break_op {
        Some(b) => b == op,
        None => false,
    };
    let engine = match outcome {
        Outcome::Fault(_) | Outcome::AwaitInput => Engine::Paused,
        _ => {
            let budget_spent = match meta.steps {
                Some(n) => n <= 1,
                None => false,
            };
            if at_break {
                Engine::Paused
            } else if let Outcome::Halted = outcome {
                Engine::Halted
            } else if budget_spent {
                Engine::Paused
            } else {
                Engine::Running
            }
        },
    };
    if let Outcome::Halted = outcome {
        halt(meta);
    }
    meta.steps = match engine {
        Engine::Running => match meta.steps {
            Some(n) => Some(n - 1),
            None => None,
        },
        _ => None,
    };
    Tick { outcome, engine }
}

/// Why a debugger command was refused; the machine is unchanged.
#[derive(PartialEq, Eq, Structural, Clone, Copy, Debug)]
pub enum DebugError {
    /// There are 8 registers, 0 to 7.
    NoSuchRegister(usize),
    /// The stack has no slot at this index.
    NoSuchStackSlot(usize),
    /// Registers and stack slots hold literals, 0 to 32767.
    NotALiteral(u16),
    /// The machine does not fit the snapshot layout.
    NotSavable,
}

/// What the debugger does after a command.
pub enum Action {
    /// Leave the debugger and resume the engine.
    Resume,
    /// Stay; the command's result is to be shown.
    Show,
    /// Stay; show this value.
    Value(u16),
    /// Stay; write these bytes to the path of the `Save` command.
    Save(Vec<u8>),
    /// Stay; the command was refused.
    Failed(DebugError),
}

/// The command that a blank line stands for.
pub open spec fn effective(meta: Meta, cmd: Command) -> Command {
    if cmd is Null { meta.last } else { cmd }
}

/// The command that a blank line repeats after `cmd`.
pub open spec fn last_after(meta: Meta, cmd: Command) -> Command {
    if cmd is Save || cmd is Null { meta.last } else { cmd }
}

/// Carries out a debugger command on the paused machine. A blank line
/// repeats the last command other than `save`. Returns the command carried
/// out and what to do next.
pub fn apply(state: &mut State, meta: &mut Meta, cmd: Command) -> (r: (Command, Action))
    ensures
        r.0 == effective(*old(meta), cmd),
        final(meta).last == last_after(*old(meta), effective(*old(meta), cmd)),
        final(meta).op_count == old(meta).op_count,
        final(state).debug == old(state).debug,
        final(state).program == old(state).program,
        final(state).ip == old(state).ip,
        registers_in_range(old(state)@) && stack_in_range(old(state)@) ==> registers_in_range(
            final(state)@,
        ) && stack_in_range(final(state)@),
        ({
            let c = r.0;
            let m = old(state)@;
            &&& c matches Command::Run ==> r.1 is Resume && final(meta).steps is None
            &&& c matches Command::Step(n) ==> r.1 is Resume && final(meta).steps == Some(
                if n == 0 { DEFAULT_STEPS } else { n },
            )
            &&& c matches Command::DebugSet(b) ==> final(meta).debug == b && r.1 is Show
            &&& !(c is DebugSet) ==> final(meta).debug == old(meta).debug
            &&& c matches Command::BreakPointOpSet(op) ==> final(meta).break_op == Some(op)
                && r.1 is Show
            &&& !(c is BreakPointOpSet) ==> final(meta).break_op == old(meta).break_op
            &&& c is Halt ==> final(meta).halt == !old(meta).halt && r.1 is Show
            &&& !(c is Halt) ==> final(meta).halt == old(meta).halt
            &&& !(c is Run || c is Step) ==> final(meta).steps == old(meta).steps
            &&& c matches Command::RegisterSet(i, v) ==> if i >= 8 {
                r.1 == Action::Failed(DebugError::NoSuchRegister(i)) && final(state).register
                    == old(state).register
            } else if v > 32767 {
                r.1 == Action::Failed(DebugError::NotALiteral(v)) && final(state).register
                    == old(state).register
            } else {
                r.1 is Show && final(state).register@ == m.registers.update(i as int, v)
            }
            &&& !(c is RegisterSet) ==> final(state).register == old(state).register
            &&& c matches Command::RegisterGetN(i) ==> if i >= 8 {
                r.1 == Action::Failed(DebugError::NoSuchRegister(i))
            } else {
                r.1 == Action::Value(m.registers[i as int])
            }
            &&& c matches Command::StackSet(i, v) ==> if i >= m.stack.len() {
                r.1 == Action::Failed(DebugError::NoSuchStackSlot(i)) && final(state).stack
                    == old(state).stack
            } else if v > 32767 {
                r.1 == Action::Failed(DebugError::NotALiteral(v)) && final(state).stack
                    == old(state).stack
            } else {
                r.1 is Show && final(state).stack@ == m.stack.update(i as int, v)
            }
            &&& !(c is StackSet) ==> final(state).stack == old(state).stack
            &&& c matches Command::StackGetN(i) ==> if i >= m.stack.len() {
                r.1 == Action::Failed(DebugError::NoSuchStackSlot(i))
            } else {
                r.1 == Action::Value(m.stack[i as int])
            }
            &&& c is Save ==> if encodable(m) {
                r.1 matches Action::Save(bytes) && bytes@ == crate::snapshot::encode(m)
            } else {
                r.1 == Action::Failed(DebugError::NotSavable)
            }
            &&& (c is Help || c is DebugGet || c is RegisterGet || c is StackGet
                || c is BreakPointOpGet || c is Null || c is Noop || c is PrintInfo
                || c is PrintMemory || c is PrintMemoryRange || c is PrintMemoryX) ==> r.1 is Show
        }),
{
    let c = match cmd {
        Command::Null => meta.last.duplicate(),
        other => other,
    };
    match c {
        Command::Save(_) | Command::Null => {},
        _ => {
            meta.last = c.duplicate();
        },
    }
    let action = match &c {
        Command::Run => {
            meta.steps = None;
            Action::Resume
        },
        Command::Step(n) => {
            meta.steps = Some(if *n == 0 { DEFAULT_STEPS } else { *n });
            Action::Resume
        },
        Command::DebugSet(b) => {
            meta.debug = *b;
            Action::Show
        },
        Command::BreakPointOpSet(op) => {
            meta.break_op = Some(*op);
            Action::Show
        },
        Command::Halt => {
            meta.halt = !meta.halt;
            Action::Show
        },
        Command::RegisterSet(i, v) => {
            if *i >= 8 {
                Action::Failed(DebugError::NoSuchRegister(*i))
            } else if *v > 32767 {
                Action::Failed(DebugError::NotALiteral(*v))
            } else {
                state.register[*i] = *v;
                assert(state.register@ =~= old(state).register@.update(*i as int, *v));
                Action::Show
            }
        },
        Command::RegisterGetN(i) => {
            if *i >= 8 {
                Action::Failed(DebugError::NoSuchRegister(*i))
            } else {
                Action::Value(state.register[*i])
            }
        },
        Command::StackSet(i, v) => {
            if *i >= state.stack.len() {
                Action::Failed(DebugError::NoSuchStackSlot(*i))
            } else if *v > 32767 {
                Action::Failed(DebugError::NotALiteral(*v))
            } else {
                state.stack.set(*i, *v);
                assert(state.stack@ =~= old(state).stack@.update(*i as int, *v));
                assert(forall|j: int|
                    0 <= j < state.stack@.len() && j != *i as int ==> state.stack@[j] == old(
                        state,
                    ).stack@[j]);
                Action::Show
            }
        },
        Command::StackGetN(i) => {
            if *i >= state.stack.len() {
                Action::Failed(DebugError::NoSuchStackSlot(*i))
            } else {
                Action::Value(state.stack[*i])
            }
        },
        Command::Save(_) => {
            if state.stack.len() <= 65535 && state.ip <= 65535 {
                Action::Save(State::save(state))
            } else {
                Action::Failed(DebugError::NotSavable)
            }
        },
        _ => Action::Show,
    };
    proof {
        if registers_in_range(old(state)@) {
            assert forall|j: int| 0 <= j < state.register@.len() implies state.register@[j]
                <= 32767 by {
                assert(old(state)@.registers == old(state).register@);
                if state.register@[j] != old(state).register@[j] {
                    assert(c is RegisterSet);
                }
            }
        }
        if stack_in_range(old(state)@) {
            assert forall|j: int| 0 <= j < state.stack@.len() implies state.stack@[j] <= 32767 by {
                assert(old(state)@.stack == old(state).stack@);
                if state.stack@.len() != old(state).stack@.len() || state.stack@[j] != old(
                    state,
                ).stack@[j] {
                    assert(c is StackSet);
                }
            }
        }
    }
    (c, action)
}

/// Bytes that the row at `i` of a memory listing covers beyond its first
/// word: the operands where an instruction decodes there, else none.
pub open spec fn row_extra(mem: Seq<u8>, i: int) -> nat {
    match decode(mem, i) {
        Ok(c) => 2 * c.spec_len(),
        Err(_) => 0,
    }
}

/// Byte offsets of the rows of a memory listing from `i` up to `bound`.
pub open spec fn rows_from(mem: Seq<u8>, i: int, bound: int) -> Seq<int>
    decreases bound - i,
{
    if i >= bound || i < 0 {
        seq![]
    } else {
        let n = i + 2 + row_extra(mem, i);
        if n >= bound {
            seq![i]
        } else {
            seq![i] + rows_from(mem, n, bound)
        }
    }
}

/// The rows of a memory listing of the bytes from `start` up to `limit`
/// (and the end of memory): each row is an offset and what decodes there,
/// and the next row starts after it.
pub fn memory_rows(program: &Vec<u8>, start: usize, limit: usize) -> (r: Vec<(usize, Result<Code, Fault>)>)
    ensures
        ({
            let bound = if limit < program@.len() { limit as int } else { program@.len() as int };
            &&& r@.len() == rows_from(program@, start as int, bound).len()
            &&& forall|k: int|
                0 <= k < r@.len() ==> #[trigger] r@[k].0 == rows_from(program@, start as int, bound)[k]
                    && r@[k].1 == decode(program@, r@[k].0 as int)
        }),
{
    let bound = if limit < program.len() { limit } else { program.len() };
    let ghost all = rows_from(program@, start as int, bound as int);
    let mut rows: Vec<(usize, Result<Code, Fault>)> = Vec::new();
    let mut i = start;
    while i < bound
        invariant
            bound <= program@.len(),
            all == rows_from(program@, start as int, bound as int),
            all == rows@.map_values(|row: (usize, Result<Code, Fault>)| row.0 as int) + rows_from(
                program@,
                i as int,
                bound as int,
            ),
            forall|k: int| 0 <= k < rows@.len() ==> #[trigger] rows@[k].1 == decode(program@, rows@[k].0 as int),
        decreases bound - i,
    {
        let decoded = parse(program, &i);
        let width = match decoded {
            Ok(c) => 2 + 2 * c.len(),
            Err(_) => 2,
        };
        let ghost before = rows@;
        rows.push((i, decoded));
        assert(rows@.map_values(|row: (usize, Result<Code, Fault>)| row.0 as int) =~= before.map_values(
            |row: (usize, Result<Code, Fault>)| row.0 as int,
        ).push(i as int));
        assert(all =~= rows@.map_values(|row: (usize, Result<Code, Fault>)| row.0 as int) + rows_from(
            program@,
            i + width,
            bound as int,
        ));
        if width >= bound - i {
            i = bound;
        } else {
            i = i + width;
        }
    }
    assert(all =~= rows@.map_values(|row: (usize, Result<Code, Fault>)| row.0 as int));
    assert forall|k: int| 0 <= k < rows@.len() implies #[trigger] rows@[k].0 == all[k] by {
        assert(rows@.map_values(|row: (usize, Result<Code, Fault>)| row.0 as int)[k] == rows@[k].0 as int);
    }
    rows
}

} // verus!
