use vstd::prelude::*;
use crate::util::{fetch_word, resolve, resolved, word_at};
use crate::vm::{Fault, State};

verus! {

/// One decoded instruction with its raw operand words.
#[derive(PartialEq, Eq, Structural, Clone, Copy, Debug)]
pub enum Code {
    /// 0: stop the machine.
    Halt,
    /// 1 a b: register `a` gets `b`.
    SetReg(u16, u16),
    /// 2 a: push `a`.
    Push(u16),
    /// 3 a: pop into register `a`; an empty stack is an error.
    Pop(u16),
    /// 4 a b c: register `a` gets 1 if `b == c`, else 0.
    Equals(u16, u16, u16),
    /// 5 a b c: register `a` gets 1 if `b > c`, else 0.
    GreaterThan(u16, u16, u16),
    /// 6 a: jump to word address `a`.
    Jump(u16),
    /// 7 a b: jump to `b` if `a` is not zero.
    JumpIfTrue(u16, u16),
    /// 8 a b: jump to `b` if `a` is zero.
    JumpIfFalse(u16, u16),
    /// 9 a b c: register `a` gets `(b + c) mod 32768`.
    Add(u16, u16, u16),
    /// 10 a b c: register `a` gets `(b * c) mod 32768`.
    Multiply(u16, u16, u16),
    /// 11 a b c: register `a` gets `b mod c`.
    Modulo(u16, u16, u16),
    /// 12 a b c: register `a` gets `b & c`.
    And(u16, u16, u16),
    /// 13 a b c: register `a` gets `b | c`.
    Or(u16, u16, u16),
    /// 14 a b: register `a` gets the 15-bit complement of `b`.
    Not(u16, u16),
    /// 15 a b: register `a` gets the memory word at word address `b`.
    ReadMemory(u16, u16),
    /// 16 a b: the memory word at word address `a` gets `b`.
    WriteMemory(u16, u16),
    /// 17 a: push the word address of the next instruction and jump to `a`.
    Call(u16),
    /// 18: pop a word address and jump to it; an empty stack halts.
    Return,
    /// 19 a: emit `a` as a character.
    Out(u16),
    /// 20 a: read a character into register `a`.
    In(u16),
    /// 21: do nothing.
    Noop,
    /// Any other opcode byte.
    Unknown(u8),
}

/// Number of operand words that follow the opcode `op`.
pub open spec fn arity(op: u8) -> nat {
    if op == 2 || op == 3 || op == 6 || op == 17 || op == 19 || op == 20 {
        1
    } else if op == 1 || op == 7 || op == 8 || op == 14 || op == 15 || op == 16 {
        2
    } else if op == 4 || op == 5 || (9 <= op && op <= 13) {
        3
    } else {
        0
    }
}

/// The instruction with opcode `op` and operand words `a`, `b`, `c` (those
/// past its arity are ignored).
pub open spec fn code_of(op: u8, a: u16, b: u16, c: u16) -> Code {
    match op {
        0 => Code::Halt,
        1 => Code::SetReg(a, b),
        2 => Code::Push(a),
        3 => Code::Pop(a),
        4 => Code::Equals(a, b, c),
        5 => Code::GreaterThan(a, b, c),
        6 => Code::Jump(a),
        7 => Code::JumpIfTrue(a, b),
        8 => Code::JumpIfFalse(a, b),
        9 => Code::Add(a, b, c),
        10 => Code::Multiply(a, b, c),
        11 => Code::Modulo(a, b, c),
        12 => Code::And(a, b, c),
        13 => Code::Or(a, b, c),
        14 => Code::Not(a, b),
        15 => Code::ReadMemory(a, b),
        16 => Code::WriteMemory(a, b),
        17 => Code::Call(a),
        18 => Code::Return,
        19 => Code::Out(a),
        20 => Code::In(a),
        21 => Code::Noop,
        _ => Code::Unknown(op),
    }
}

/// The `k`-th operand word of the instruction at `ip`, or 0 past the end of memory.
pub open spec fn operand(mem: Seq<u8>, ip: int, k: int) -> u16 {
    if ip + 2 * k + 3 < mem.len() {
        word_at(mem, ip + 2 * k + 2)
    } else {
        0
    }
}

/// The instruction at byte offset `ip`: its opcode byte, then its operand
/// words, all of which must lie in memory. An instruction without operands
/// needs only its opcode byte.
pub open spec fn decode(mem: Seq<u8>, ip: int) -> Result<Code, Fault> {
    if ip < 0 || ip >= mem.len() || (arity(mem[ip]) > 0 && ip + 2 + 2 * arity(mem[ip]) > mem.len()) {
        Err(Fault::OutOfBounds(ip as usize))
    } else {
        Ok(code_of(mem[ip], operand(mem, ip, 0), operand(mem, ip, 1), operand(mem, ip, 2)))
    }
}

impl Code {
    /// Number of operand words of the instruction.
    pub open spec fn spec_len(&self) -> nat {
        match *self {
            Code::SetReg(..) | Code::JumpIfTrue(..) | Code::JumpIfFalse(..) | Code::Not(..)
            | Code::ReadMemory(..) | Code::WriteMemory(..) => 2,
            Code::Push(..) | Code::Pop(..) | Code::Jump(..) | Code::Call(..) | Code::Out(..)
            | Code::In(..) => 1,
            Code::Equals(..) | Code::GreaterThan(..) | Code::Add(..) | Code::Multiply(..)
            | Code::Modulo(..) | Code::And(..) | Code::Or(..) => 3,
            Code::Halt | Code::Return | Code::Noop | Code::Unknown(..) => 0,
        }
    }

    /// The operand words of the instruction, in order.
    pub open spec fn operands(&self) -> Seq<u16> {
        match *self {
            Code::SetReg(a, b) | Code::JumpIfTrue(a, b) | Code::JumpIfFalse(a, b) | Code::Not(a, b)
            | Code::ReadMemory(a, b) | Code::WriteMemory(a, b) => seq![a, b],
            Code::Push(a) | Code::Pop(a) | Code::Jump(a) | Code::Call(a) | Code::Out(a)
            | Code::In(a) => seq![a],
            Code::Equals(a, b, c) | Code::GreaterThan(a, b, c) | Code::Add(a, b, c)
            | Code::Multiply(a, b, c) | Code::Modulo(a, b, c) | Code::And(a, b, c)
            | Code::Or(a, b, c) => seq![a, b, c],
            Code::Halt | Code::Return | Code::Noop | Code::Unknown(..) => seq![],
        }
    }

    /// Number of operand words of the instruction.
    pub fn len(&self) -> (r: usize)
        ensures
            r == self.spec_len(),
            r == self.operands().len(),
    {
        match self {
            Code::SetReg(..) | Code::JumpIfTrue(..) | Code::JumpIfFalse(..) | Code::Not(..)
            | Code::ReadMemory(..) | Code::WriteMemory(..) => 2,
            Code::Push(..) | Code::Pop(..) | Code::Jump(..) | Code::Call(..) | Code::Out(..)
            | Code::In(..) => 1,
            Code::Equals(..) | Code::GreaterThan(..) | Code::Add(..) | Code::Multiply(..)
            | Code::Modulo(..) | Code::And(..) | Code::Or(..) => 3,
            Code::Halt | Code::Return | Code::Noop | Code::Unknown(..) => 0,
        }
    }

    /// The opcode byte of the instruction.
    pub open spec fn spec_opcode(&self) -> u8 {
        match *self {
            Code::Halt => 0,
            Code::SetReg(..) => 1,
            Code::Push(..) => 2,
            Code::Pop(..) => 3,
            Code::Equals(..) => 4,
            Code::GreaterThan(..) => 5,
            Code::Jump(..) => 6,
            Code::JumpIfTrue(..) => 7,
            Code::JumpIfFalse(..) => 8,
            Code::Add(..) => 9,
            Code::Multiply(..) => 10,
            Code::Modulo(..) => 11,
            Code::And(..) => 12,
            Code::Or(..) => 13,
            Code::Not(..) => 14,
            Code::ReadMemory(..) => 15,
            Code::WriteMemory(..) => 16,
            Code::Call(..) => 17,
            Code::Return => 18,
            Code::Out(..) => 19,
            Code::In(..) => 20,
            Code::Noop => 21,
            Code::Unknown(op) => op,
        }
    }

    /// The opcode byte of the instruction.
    pub fn opcode(&self) -> (r: u8)
        ensures
            r == self.spec_opcode(),
    {
        match self {
            Code::Halt => 0,
            Code::SetReg(..) => 1,
            Code::Push(..) => 2,
            Code::Pop(..) => 3,
            Code::Equals(..) => 4,
            Code::GreaterThan(..) => 5,
            Code::Jump(..) => 6,
            Code::JumpIfTrue(..) => 7,
            Code::JumpIfFalse(..) => 8,
            Code::Add(..) => 9,
            Code::Multiply(..) => 10,
            Code::Modulo(..) => 11,
            Code::And(..) => 12,
            Code::Or(..) => 13,
            Code::Not(..) => 14,
            Code::ReadMemory(..) => 15,
            Code::WriteMemory(..) => 16,
            Code::Call(..) => 17,
            Code::Return => 18,
            Code::Out(..) => 19,
            Code::In(..) => 20,
            Code::Noop => 21,
            Code::Unknown(op) => *op,
        }
    }
}

/// Number of operand words that follow the opcode `op`.
pub fn op_arity(op: u8) -> (r: usize)
    ensures
        r == arity(op),
{
    if op == 2 || op == 3 || op == 6 || op == 17 || op == 19 || op == 20 {
        1
    } else if op == 1 || op == 7 || op == 8 || op == 14 || op == 15 || op == 16 {
        2
    } else if op == 4 || op == 5 || (9 <= op && op <= 13) {
        3
    } else {
        0
    }
}

/// Decodes the instruction at byte offset `ip`.
pub fn parse(program: &Vec<u8>, ip: &usize) -> (r: Result<Code, Fault>)
    ensures
        r == decode(program@, *ip as int),
        r matches Ok(c) ==> c.spec_opcode() == program@[*ip as int] && c.spec_len() == arity(
            program@[*ip as int],
        ),
{
    let ip = *ip;
    if ip >= program.len() {
        return Err(Fault::OutOfBounds(ip));
    }
    let op = program[ip];
    let n = op_arity(op);
    if n > 0 && program.len() - ip < 2 + 2 * n {
        return Err(Fault::OutOfBounds(ip));
    }
    let mut words: [u16; 3] = [0; 3];
    let mut k: usize = 0;
    while k < 3
        invariant
            ip < program@.len(),
            k <= 3,
            forall|j: int| 0 <= j < k ==> words@[j] == operand(program@, ip as int, j),
        decreases 3 - k,
    {
        if program.len() - ip > 2 * k + 3 {
            match fetch_word(program, ip + 2 * k + 2) {
                Ok(w) => {
                    words[k] = w;
                },
                Err(_) => {
                    words[k] = 0;
                },
            }
        } else {
            words[k] = 0;
        }
        k = k + 1;
    }
    let (a, b, c) = (words[0], words[1], words[2]);
    let code = match op {
        0 => Code::Halt,
        1 => Code::SetReg(a, b),
        2 => Code::Push(a),
        3 => Code::Pop(a),
        4 => Code::Equals(a, b, c),
        5 => Code::GreaterThan(a, b, c),
        6 => Code::Jump(a),
        7 => Code::JumpIfTrue(a, b),
        8 => Code::JumpIfFalse(a, b),
        9 => Code::Add(a, b, c),
        10 => Code::Multiply(a, b, c),
        11 => Code::Modulo(a, b, c),
        12 => Code::And(a, b, c),
        13 => Code::Or(a, b, c),
        14 => Code::Not(a, b),
        15 => Code::ReadMemory(a, b),
        16 => Code::WriteMemory(a, b),
        17 => Code::Call(a),
        18 => Code::Return,
        19 => Code::Out(a),
        20 => Code::In(a),
        21 => Code::Noop,
        _ => Code::Unknown(op),
    };
    Ok(code)
}

/// What each operand of `code` reads in the machine `state`, in order; for
/// a trace of the step. A destination operand is listed by what it would
/// read too.
pub fn debug_op(state: &State, code: &Code) -> (r: Vec<Result<u16, Fault>>)
    ensures
        r@.len() == code.operands().len(),
        forall|i: int|
            0 <= i < r@.len() ==> r@[i] == resolved(state.register@, #[trigger] code.operands()[i]),
{
    let mut words: Vec<u16> = Vec::new();
    match code {
        Code::SetReg(a, b) | Code::JumpIfTrue(a, b) | Code::JumpIfFalse(a, b) | Code::Not(a, b)
        | Code::ReadMemory(a, b) | Code::WriteMemory(a, b) => {
            words.push(*a);
            words.push(*b);
        },
        Code::Push(a) | Code::Pop(a) | Code::Jump(a) | Code::Call(a) | Code::Out(a)
        | Code::In(a) => {
            words.push(*a);
        },
        Code::Equals(a, b, c) | Code::GreaterThan(a, b, c) | Code::Add(a, b, c)
        | Code::Multiply(a, b, c) | Code::Modulo(a, b, c) | Code::And(a, b, c)
        | Code::Or(a, b, c) => {
            words.push(*a);
            words.push(*b);
            words.push(*c);
        },
        Code::Halt | Code::Return | Code::Noop | Code::Unknown(..) => {},
    }
    assert(words@ =~= code.operands());
    let mut r: Vec<Result<u16, Fault>> = Vec::new();
    let mut i: usize = 0;
    while i < words.len()
        invariant
            words@ == code.operands(),
            i <= words@.len(),
            r@.len() == i,
            forall|j: int| 0 <= j < i ==> r@[j] == resolved(state.register@, words@[j]),
        decreases words@.len() - i,
    {
        r.push(resolve(&state.register, words[i]));
        i = i + 1;
    }
    r
}

} // verus!
