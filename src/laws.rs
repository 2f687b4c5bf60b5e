use vstd::prelude::*;
use crate::debug::{engine_after, opcode_at, Engine, Meta};
use crate::exec::next;
use crate::opcode::{decode, Code};
use crate::util::{lemma_resolved_is_literal, resolved, target, REG_BASE, WORD_MAX};
use crate::vm::{registers_in_range, stack_in_range, Machine, Outcome};

verus! {

/// The instruction at the instruction pointer of `m`, where there is one.
pub open spec fn current(m: Machine) -> Code {
    decode(m.memory, m.ip)->Ok_0
}

/// `Add`, `Mult`, `Mod`, `And`, `Or` or `Not`.
pub open spec fn is_arithmetic(c: Code) -> bool {
    c is Add || c is Multiply || c is Modulo || c is And || c is Or || c is Not
}

/// After an arithmetic instruction runs, its destination register holds a
/// value in 0..=32767, and if every register held one before, every
/// register holds one after.
pub proof fn lemma_arithmetic_in_range(m: Machine, input: Option<u8>)
    requires
        m.registers.len() == 8,
        decode(m.memory, m.ip) is Ok,
        is_arithmetic(current(m)),
        next(m, input).1 == Outcome::Continue,
    ensures
        next(m, input).0.registers[current(m).operands()[0] - REG_BASE] <= WORD_MAX,
        registers_in_range(m) ==> registers_in_range(next(m, input).0),
{
    let code = current(m);
    let regs = m.registers;
    let after = next(m, input).0;
    match code {
        Code::Add(a, b, c) | Code::Multiply(a, b, c) | Code::Modulo(a, b, c) | Code::And(a, b, c)
        | Code::Or(a, b, c) => {
            lemma_resolved_is_literal(regs, b, 8);
            lemma_resolved_is_literal(regs, c, 8);
            let x = resolved(regs, b)->Ok_0;
            let y = resolved(regs, c)->Ok_0;
            if code is And {
                assert(x <= 32767 && y <= 32767 ==> x & y <= 32767) by (bit_vector);
            }
            if code is Or {
                assert(x <= 32767 && y <= 32767 ==> x | y <= 32767) by (bit_vector);
            }
            if code is Modulo {
                assert(x % y < y);
            }
        },
        Code::Not(a, b) => {},
        _ => {},
    }
    let t = target(code.operands()[0])->Ok_0;
    assert(after.registers == regs.update(t, after.registers[t]));
}

/// `Push` followed by `Pop` leaves the stack as it was and puts the pushed
/// value in the register that `Pop` names.
pub proof fn lemma_push_then_pop(m: Machine, first: Option<u8>, second: Option<u8>)
    requires
        m.registers.len() == 8,
        decode(m.memory, m.ip) is Ok,
        current(m) is Push,
        next(m, first).1 == Outcome::Continue,
        decode(next(m, first).0.memory, next(m, first).0.ip) is Ok,
        current(next(m, first).0) is Pop,
        next(next(m, first).0, second).1 == Outcome::Continue,
    ensures
        ({
            let pushed = resolved(m.registers, current(m).operands()[0])->Ok_0;
            let m1 = next(m, first).0;
            let m2 = next(m1, second).0;
            &&& m2.stack == m.stack
            &&& m2.registers[current(m1).operands()[0] - REG_BASE] == pushed
        }),
{
    let m1 = next(m, first).0;
    assert(m1.stack.drop_last() =~= m.stack);
}

/// `Call` followed by `Ret` resumes at the instruction after the `Call`
/// with the stack as deep as before it.
pub proof fn lemma_call_then_return(m: Machine, first: Option<u8>, second: Option<u8>)
    requires
        m.registers.len() == 8,
        m.ip % 2 == 0,
        decode(m.memory, m.ip) is Ok,
        current(m) is Call,
        next(m, first).1 == Outcome::Continue,
        decode(next(m, first).0.memory, next(m, first).0.ip) == Ok::<Code, crate::vm::Fault>(
            Code::Return,
        ),
    ensures
        next(next(m, first).0, second).1 == Outcome::Continue,
        next(next(m, first).0, second).0.ip == m.ip + 4,
        next(next(m, first).0, second).0.stack == m.stack,
{
    let m1 = next(m, first).0;
    assert(m1.stack.drop_last() =~= m.stack);
}

/// A step keeps the instruction pointer at a word: if it is even before,
/// it is even after, whatever the instruction does.
pub proof fn lemma_ip_stays_even(m: Machine, input: Option<u8>)
    requires
        m.ip % 2 == 0,
    ensures
        next(m, input).0.ip % 2 == 0,
{
    if let Ok(code) = decode(m.memory, m.ip) {
        let after = next(m, input).0;
        assert(after == crate::exec::run_code(m, code, input).0);
        match code {
            Code::Halt => {},
            Code::SetReg(..) => {},
            Code::Push(..) => {},
            Code::Pop(..) => {},
            Code::Equals(..) => {},
            Code::GreaterThan(..) => {},
            Code::Jump(..) => {},
            Code::JumpIfTrue(..) => {},
            Code::JumpIfFalse(..) => {},
            Code::Add(..) => {},
            Code::Multiply(..) => {},
            Code::Modulo(..) => {},
            Code::And(..) => {},
            Code::Or(..) => {},
            Code::Not(..) => {},
            Code::ReadMemory(..) => {},
            Code::WriteMemory(..) => {},
            Code::Call(..) => {},
            Code::Return => {},
            Code::Out(..) => {},
            Code::In(..) => {},
            Code::Noop => {},
            Code::Unknown(..) => {},
        }
    }
}

/// Every step keeps the machine's words literal: if every register and
/// every stack word is at most 32767 before a step, the same holds after it.
pub proof fn lemma_step_keeps_literals(m: Machine, input: Option<u8>)
    requires
        m.registers.len() == 8,
        registers_in_range(m),
        stack_in_range(m),
    ensures
        registers_in_range(next(m, input).0),
        stack_in_range(next(m, input).0),
{
    if let Ok(code) = decode(m.memory, m.ip) {
        let after = next(m, input).0;
        assert(after == crate::exec::run_code(m, code, input).0);
        match code {
            Code::Halt => {},
            Code::SetReg(_, b) => {
                lemma_resolved_is_literal(m.registers, b, 8);
            },
            Code::Push(a) => {
                lemma_resolved_is_literal(m.registers, a, 8);
            },
            Code::Pop(..) => {},
            Code::Equals(..) => {},
            Code::GreaterThan(..) => {},
            Code::Jump(..) => {},
            Code::JumpIfTrue(..) => {},
            Code::JumpIfFalse(..) => {},
            Code::Add(..) => {
                if next(m, input).1 == Outcome::Continue {
                    lemma_arithmetic_in_range(m, input);
                }
            },
            Code::Multiply(..) => {
                if next(m, input).1 == Outcome::Continue {
                    lemma_arithmetic_in_range(m, input);
                }
            },
            Code::Modulo(..) => {
                if next(m, input).1 == Outcome::Continue {
                    lemma_arithmetic_in_range(m, input);
                }
            },
            Code::And(..) => {
                if next(m, input).1 == Outcome::Continue {
                    lemma_arithmetic_in_range(m, input);
                }
            },
            Code::Or(..) => {
                if next(m, input).1 == Outcome::Continue {
                    lemma_arithmetic_in_range(m, input);
                }
            },
            Code::Not(..) => {
                if next(m, input).1 == Outcome::Continue {
                    lemma_arithmetic_in_range(m, input);
                }
            },
            Code::ReadMemory(..) => {},
            Code::WriteMemory(..) => {},
            Code::Call(..) => {},
            Code::Return => {},
            Code::Out(..) => {},
            Code::In(..) => {},
            Code::Noop => {},
            Code::Unknown(..) => {},
        }
        if next(m, input).1 == Outcome::Continue && (code is Pop || code is SetReg || code is Push
            || code is Return || code is Call) {
            assert(after.registers.len() == 8);
        }
    }
}

/// With the breakpoint on `Out`, an `Out` that runs emits its character,
/// moves the instruction pointer to the next instruction and pauses the
/// engine before that instruction is fetched.
pub proof fn lemma_breakpoint_after_out(m: Machine, meta: Meta, input: Option<u8>)
    requires
        decode(m.memory, m.ip) is Ok,
        current(m) is Out,
        next(m, input).1 is Output,
        meta.break_op == Some(19u8),
    ensures
        engine_after(meta, opcode_at(m), next(m, input).1) == Engine::Paused,
        next(m, input).0.ip == m.ip + 4,
        next(m, input).1 == Outcome::Output(resolved(m.registers, current(m).operands()[0])->Ok_0),
{
}

} // verus!
