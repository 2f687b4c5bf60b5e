use vstd::prelude::*;

verus! {

/// Why an instruction could not run. The machine is left as it was.
#[derive(PartialEq, Eq, Structural, Clone, Copy, Debug)]
pub enum Fault {
    /// An operand that is neither a literal nor a register reference, or a
    /// chain of register references that never reaches a literal.
    InvalidOperand(u16),
    /// A destination operand that is not a register reference.
    InvalidWriteTarget(u16),
    /// A read past the end of memory, at the given byte offset.
    OutOfBounds(usize),
    /// The opcode byte does not name an instruction.
    UnknownOpcode(u8),
    /// `Pop` on an empty stack.
    StackUnderflow,
    /// `Mod` by zero.
    DivideByZero,
    /// A value bound for a register that is not a literal.
    NotALiteral(u16),
}

/// What one instruction did, as seen from outside the machine.
#[derive(PartialEq, Eq, Structural, Clone, Copy, Debug)]
pub enum Outcome {
    /// The instruction ran; nothing to report.
    Continue,
    /// The instruction ran and emits this value as one character.
    Output(u16),
    /// `In` found no input; nothing changed and the instruction is to be retried.
    AwaitInput,
    /// `Halt`, or `Ret` on an empty stack.
    Halted,
    /// The instruction failed; nothing changed.
    Fault(Fault),
}

/// The whole state of the machine.
pub struct State {
    /// Memory, addressed in bytes; word `a` occupies bytes `2a` (low) and `2a + 1` (high).
    pub program: Vec<u8>,
    pub register: [u16; 8],
    /// Byte offset of the next instruction.
    pub ip: usize,
    pub stack: Vec<u16>,
    /// Whether a trace of each step is wanted.
    pub debug: bool,
}

/// The mathematical state of the machine.
pub ghost struct Machine {
    pub memory: Seq<u8>,
    pub registers: Seq<u16>,
    pub ip: int,
    pub stack: Seq<u16>,
}

/// Whether every register holds a literal, 0 to 32767.
pub open spec fn registers_in_range(m: Machine) -> bool {
    forall|i: int| 0 <= i < m.registers.len() ==> m.registers[i] <= 32767
}

/// Whether every stack word is a literal, 0 to 32767.
pub open spec fn stack_in_range(m: Machine) -> bool {
    forall|i: int| 0 <= i < m.stack.len() ==> m.stack[i] <= 32767
}

impl View for State {
    type V = Machine;

    open spec fn view(&self) -> Machine {
        Machine {
            memory: self.program@,
            registers: self.register@,
            ip: self.ip as int,
            stack: self.stack@,
        }
    }
}

impl State {
    /// A machine about to run `program` from its first word.
    pub fn new(program: Vec<u8>) -> (r: State)
        ensures
            r@ == (Machine {
                memory: program@,
                registers: seq![0u16; 8],
                ip: 0,
                stack: Seq::empty(),
            }),
            !r.debug,
    {
        let r = State { program, register: [0; 8], ip: 0, stack: Vec::new(), debug: false };
        assert(r.register@ =~= seq![0u16; 8]);
        r
    }
}

} // verus!
