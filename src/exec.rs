use vstd::prelude::*;
use crate::opcode::{decode, parse, Code};
use crate::util::{
    fetch_word, resolve, resolved, store_word, stored, target, word_at, write_target, WORD_MAX,
};
use crate::vm::{Fault, Machine, Outcome, State};

verus! {

/// `m` with the instruction pointer past an instruction of `n` operands.
pub open spec fn moved(m: Machine, n: nat) -> Machine {
    Machine { ip: m.ip + 2 + 2 * n, ..m }
}

/// `m` with register `t` set to `v` and the instruction pointer past an
/// instruction of `n` operands.
pub open spec fn with_reg(m: Machine, t: int, v: u16, n: nat) -> Machine {
    Machine { registers: m.registers.update(t, v), ip: m.ip + 2 + 2 * n, ..m }
}

/// The value that the three-operand instruction `op` computes from `x` and `y`.
pub open spec fn binary_value(op: u8, x: u16, y: u16) -> u16 {
    if op == 4 {
        if x == y { 1 } else { 0 }
    } else if op == 5 {
        if x > y { 1 } else { 0 }
    } else if op == 9 {
        ((x + y) % 32768) as u16
    } else if op == 10 {
        ((x * y) % 32768) as u16
    } else if op == 11 {
        (x % y) as u16
    } else if op == 12 {
        x & y
    } else {
        x | y
    }
}

/// A three-operand instruction: register `a` gets `binary_value(op, b, c)`.
pub open spec fn binary_step(m: Machine, op: u8, a: u16, b: u16, c: u16) -> (Machine, Outcome) {
    match target(a) {
        Err(f) => (m, Outcome::Fault(f)),
        Ok(t) => match resolved(m.registers, b) {
            Err(f) => (m, Outcome::Fault(f)),
            Ok(x) => match resolved(m.registers, c) {
                Err(f) => (m, Outcome::Fault(f)),
                Ok(y) => if op == 11 && y == 0 {
                    (m, Outcome::Fault(Fault::DivideByZero))
                } else {
                    (with_reg(m, t, binary_value(op, x, y), 3), Outcome::Continue)
                },
            },
        },
    }
}

/// The machine after running `code` at its instruction pointer, with
/// `input` as the character available to `In`, and what it reports.
pub open spec fn run_code(m: Machine, code: Code, input: Option<u8>) -> (Machine, Outcome) {
    let regs = m.registers;
    match code {
        Code::Halt => (m, Outcome::Halted),
        Code::SetReg(a, b) => match target(a) {
            Err(f) => (m, Outcome::Fault(f)),
            Ok(t) => match resolved(regs, b) {
                Err(f) => (m, Outcome::Fault(f)),
                Ok(v) => (with_reg(m, t, v, 2), Outcome::Continue),
            },
        },
        Code::Push(a) => match resolved(regs, a) {
            Err(f) => (m, Outcome::Fault(f)),
            Ok(v) => (Machine { stack: m.stack.push(v), ..moved(m, 1) }, Outcome::Continue),
        },
        Code::Pop(a) => match target(a) {
            Err(f) => (m, Outcome::Fault(f)),
            Ok(t) => if m.stack.len() == 0 {
                (m, Outcome::Fault(Fault::StackUnderflow))
            } else {
                (
                    Machine { stack: m.stack.drop_last(), ..with_reg(m, t, m.stack.last(), 1) },
                    Outcome::Continue,
                )
            },
        },
        Code::Equals(a, b, c) => binary_step(m, 4, a, b, c),
        Code::GreaterThan(a, b, c) => binary_step(m, 5, a, b, c),
        Code::Jump(a) => match resolved(regs, a) {
            Err(f) => (m, Outcome::Fault(f)),
            Ok(x) => (Machine { ip: 2 * x, ..m }, Outcome::Continue),
        },
        Code::JumpIfTrue(a, b) => match resolved(regs, a) {
            Err(f) => (m, Outcome::Fault(f)),
            Ok(x) => match resolved(regs, b) {
                Err(f) => (m, Outcome::Fault(f)),
                Ok(y) => if x != 0 {
                    (Machine { ip: 2 * y, ..m }, Outcome::Continue)
                } else {
                    (moved(m, 2), Outcome::Continue)
                },
            },
        },
        Code::JumpIfFalse(a, b) => match resolved(regs, a) {
            Err(f) => (m, Outcome::Fault(f)),
            Ok(x) => match resolved(regs, b) {
                Err(f) => (m, Outcome::Fault(f)),
                Ok(y) => if x == 0 {
                    (Machine { ip: 2 * y, ..m }, Outcome::Continue)
                } else {
                    (moved(m, 2), Outcome::Continue)
                },
            },
        },
        Code::Add(a, b, c) => binary_step(m, 9, a, b, c),
        Code::Multiply(a, b, c) => binary_step(m, 10, a, b, c),
        Code::Modulo(a, b, c) => binary_step(m, 11, a, b, c),
        Code::And(a, b, c) => binary_step(m, 12, a, b, c),
        Code::Or(a, b, c) => binary_step(m, 13, a, b, c),
        Code::Not(a, b) => match target(a) {
            Err(f) => (m, Outcome::Fault(f)),
            Ok(t) => match resolved(regs, b) {
                Err(f) => (m, Outcome::Fault(f)),
                Ok(x) => (with_reg(m, t, ((!x) % 32768) as u16, 2), Outcome::Continue),
            },
        },
        Code::ReadMemory(a, b) => match target(a) {
            Err(f) => (m, Outcome::Fault(f)),
            Ok(t) => match resolved(regs, b) {
                Err(f) => (m, Outcome::Fault(f)),
                Ok(x) => if 2 * x + 1 < m.memory.len() {
                    if word_at(m.memory, 2 * x) <= WORD_MAX {
                        (with_reg(m, t, word_at(m.memory, 2 * x), 2), Outcome::Continue)
                    } else {
                        (m, Outcome::Fault(Fault::NotALiteral(word_at(m.memory, 2 * x))))
                    }
                } else {
                    (m, Outcome::Fault(Fault::OutOfBounds((2 * x) as usize)))
                },
            },
        },
        Code::WriteMemory(a, b) => match resolved(regs, a) {
            Err(f) => (m, Outcome::Fault(f)),
            Ok(x) => match resolved(regs, b) {
                Err(f) => (m, Outcome::Fault(f)),
                Ok(y) => (
                    Machine { memory: stored(m.memory, 2 * x, y), ..moved(m, 2) },
                    Outcome::Continue,
                ),
            },
        },
        Code::Call(a) => match resolved(regs, a) {
            Err(f) => (m, Outcome::Fault(f)),
            Ok(x) => if (m.ip + 4) / 2 > WORD_MAX {
                (m, Outcome::Fault(Fault::OutOfBounds(m.ip as usize)))
            } else {
                (
                    Machine { stack: m.stack.push(((m.ip + 4) / 2) as u16), ip: 2 * x, ..m },
                    Outcome::Continue,
                )
            },
        },
        Code::Return => if m.stack.len() == 0 {
            (m, Outcome::Halted)
        } else {
            (Machine { stack: m.stack.drop_last(), ip: 2 * m.stack.last(), ..m }, Outcome::Continue)
        },
        Code::Out(a) => match resolved(regs, a) {
            Err(f) => (m, Outcome::Fault(f)),
            Ok(x) => (moved(m, 1), Outcome::Output(x)),
        },
        Code::In(a) => match target(a) {
            Err(f) => (m, Outcome::Fault(f)),
            Ok(t) => match input {
                None => (m, Outcome::AwaitInput),
                Some(ch) => (with_reg(m, t, ch as u16, 1), Outcome::Continue),
            },
        },
        Code::Noop => if m.ip + 2 > usize::MAX {
            (m, Outcome::Fault(Fault::OutOfBounds(m.ip as usize)))
        } else {
            (moved(m, 0), Outcome::Continue)
        },
        Code::Unknown(op) => (m, Outcome::Fault(Fault::UnknownOpcode(op))),
    }
}

/// One step of the machine: decode the instruction at the instruction
/// pointer and run it.
pub open spec fn next(m: Machine, input: Option<u8>) -> (Machine, Outcome) {
    match decode(m.memory, m.ip) {
        Err(f) => (m, Outcome::Fault(f)),
        Ok(code) => run_code(m, code, input),
    }
}

/// Computes `binary_value(op, x, y)`.
fn binary_exec(op: u8, x: u16, y: u16) -> (r: u16)
    requires
        x <= 32767,
        y <= 32767,
        op == 11 ==> y != 0,
    ensures
        r == binary_value(op, x, y),
{
    if op == 4 {
        if x == y { 1 } else { 0 }
    } else if op == 5 {
        if x > y { 1 } else { 0 }
    } else if op == 9 {
        (x + y) % 32768
    } else if op == 10 {
        assert(x * y <= 32767 * 32767) by (nonlinear_arith)
            requires
                x <= 32767,
                y <= 32767,
        ;
        ((x as u32) * (y as u32) % 32768) as u16
    } else if op == 11 {
        x % y
    } else if op == 12 {
        x & y
    } else {
        x | y
    }
}

/// Runs the three-operand instruction `op`.
fn binary(state: &mut State, op: u8, a: u16, b: u16, c: u16) -> (r: Outcome)
    requires
        old(state).ip + 8 <= old(state).program@.len(),
    ensures
        (final(state)@, r) == binary_step(old(state)@, op, a, b, c),
        final(state).debug == old(state).debug,
{
    proof {
        assert(state.program@.len() == state.program.len());
    }
    let t = match write_target(a) {
        Ok(t) => t,
        Err(f) => return Outcome::Fault(f),
    };
    let x = match resolve(&state.register, b) {
        Ok(x) => x,
        Err(f) => return Outcome::Fault(f),
    };
    let y = match resolve(&state.register, c) {
        Ok(y) => y,
        Err(f) => return Outcome::Fault(f),
    };
    if op == 11 && y == 0 {
        return Outcome::Fault(Fault::DivideByZero);
    }
    let v = binary_exec(op, x, y);
    state.register[t] = v;
    state.ip = state.ip + 8;
    Outcome::Continue
}

/// Runs `code`, the instruction at the instruction pointer.
pub fn run(state: &mut State, code: Code, input: Option<u8>) -> (r: Outcome)
    requires
        old(state).ip < old(state).program@.len(),
        code.spec_len() > 0 ==> old(state).ip + 2 + 2 * code.spec_len() <= old(state).program@.len(),
    ensures
        (final(state)@, r) == run_code(old(state)@, code, input),
        final(state).debug == old(state).debug,
{
    proof {
        assert(state.program@.len() == state.program.len());
    }
    match code {
        Code::Halt => Outcome::Halted,
        Code::SetReg(a, b) => {
            let t = match write_target(a) {
                Ok(t) => t,
                Err(f) => return Outcome::Fault(f),
            };
            let v = match resolve(&state.register, b) {
                Ok(v) => v,
                Err(f) => return Outcome::Fault(f),
            };
            state.register[t] = v;
            state.ip = state.ip + 6;
            Outcome::Continue
        },
        Code::Push(a) => {
            let v = match resolve(&state.register, a) {
                Ok(v) => v,
                Err(f) => return Outcome::Fault(f),
            };
            state.stack.push(v);
            state.ip = state.ip + 4;
            Outcome::Continue
        },
        Code::Pop(a) => {
            let t = match write_target(a) {
                Ok(t) => t,
                Err(f) => return Outcome::Fault(f),
            };
            match state.stack.pop() {
                Some(v) => {
                    state.register[t] = v;
                    state.ip = state.ip + 4;
                    Outcome::Continue
                },
                None => Outcome::Fault(Fault::StackUnderflow),
            }
        },
        Code::Equals(a, b, c) => binary(state, 4, a, b, c),
        Code::GreaterThan(a, b, c) => binary(state, 5, a, b, c),
        Code::Jump(a) => {
            let x = match resolve(&state.register, a) {
                Ok(x) => x,
                Err(f) => return Outcome::Fault(f),
            };
            state.ip = 2 * (x as usize);
            Outcome::Continue
        },
        Code::JumpIfTrue(a, b) | Code::JumpIfFalse(a, b) => {
            let x = match resolve(&state.register, a) {
                Ok(x) => x,
                Err(f) => return Outcome::Fault(f),
            };
            let y = match resolve(&state.register, b) {
                Ok(y) => y,
                Err(f) => return Outcome::Fault(f),
            };
            let jump = match code {
                Code::JumpIfTrue(..) => x != 0,
                _ => x == 0,
            };
            if jump {
                state.ip = 2 * (y as usize);
            } else {
                state.ip = state.ip + 6;
            }
            Outcome::Continue
        },
        Code::Add(a, b, c) => binary(state, 9, a, b, c),
        Code::Multiply(a, b, c) => binary(state, 10, a, b, c),
        Code::Modulo(a, b, c) => binary(state, 11, a, b, c),
        Code::And(a, b, c) => binary(state, 12, a, b, c),
        Code::Or(a, b, c) => binary(state, 13, a, b, c),
        Code::Not(a, b) => {
            let t = match write_target(a) {
                Ok(t) => t,
                Err(f) => return Outcome::Fault(f),
            };
            let x = match resolve(&state.register, b) {
                Ok(x) => x,
                Err(f) => return Outcome::Fault(f),
            };
            state.register[t] = (!x) % 32768;
            state.ip = state.ip + 6;
            Outcome::Continue
        },
        Code::ReadMemory(a, b) => {
            let t = match write_target(a) {
                Ok(t) => t,
                Err(f) => return Outcome::Fault(f),
            };
            let x = match resolve(&state.register, b) {
                Ok(x) => x,
                Err(f) => return Outcome::Fault(f),
            };
            let w = match fetch_word(&state.program, 2 * (x as usize)) {
                Ok(w) => w,
                Err(f) => return Outcome::Fault(f),
            };
            if w > WORD_MAX {
                return Outcome::Fault(Fault::NotALiteral(w));
            }
            state.register[t] = w;
            state.ip = state.ip + 6;
            Outcome::Continue
        },
        Code::WriteMemory(a, b) => {
            let x = match resolve(&state.register, a) {
                Ok(x) => x,
                Err(f) => return Outcome::Fault(f),
            };
            let y = match resolve(&state.register, b) {
                Ok(y) => y,
                Err(f) => return Outcome::Fault(f),
            };
            store_word(&mut state.program, 2 * (x as usize), y);
            state.ip = state.ip + 6;
            Outcome::Continue
        },
        Code::Call(a) => {
            let x = match resolve(&state.register, a) {
                Ok(x) => x,
                Err(f) => return Outcome::Fault(f),
            };
            let ret = (state.ip + 4) / 2;
            if ret > WORD_MAX as usize {
                return Outcome::Fault(Fault::OutOfBounds(state.ip));
            }
            state.stack.push(ret as u16);
            state.ip = 2 * (x as usize);
            Outcome::Continue
        },
        Code::Return => match state.stack.pop() {
            Some(w) => {
                state.ip = 2 * (w as usize);
                Outcome::Continue
            },
            None => Outcome::Halted,
        },
        Code::Out(a) => {
            let x = match resolve(&state.register, a) {
                Ok(x) => x,
                Err(f) => return Outcome::Fault(f),
            };
            state.ip = state.ip + 4;
            Outcome::Output(x)
        },
        Code::In(a) => {
            let t = match write_target(a) {
                Ok(t) => t,
                Err(f) => return Outcome::Fault(f),
            };
            match input {
                None => Outcome::AwaitInput,
                Some(ch) => {
                    state.register[t] = ch as u16;
                    state.ip = state.ip + 4;
                    Outcome::Continue
                },
            }
        },
        Code::Noop => {
            if state.ip > usize::MAX - 2 {
                return Outcome::Fault(Fault::OutOfBounds(state.ip));
            }
            state.ip = state.ip + 2;
            Outcome::Continue
        },
        Code::Unknown(op) => Outcome::Fault(Fault::UnknownOpcode(op)),
    }
}

/// Runs the instruction at the instruction pointer, with `input` as the
/// character available to `In` (`None`: no input is there).
pub fn execute(state: &mut State, input: Option<u8>) -> (r: Outcome)
    ensures
        (final(state)@, r) == next(old(state)@, input),
        final(state).debug == old(state).debug,
{
    let code = match parse(&state.program, &state.ip) {
        Ok(c) => c,
        Err(f) => return Outcome::Fault(f),
    };
    run(state, code, input)
}

} // verus!
