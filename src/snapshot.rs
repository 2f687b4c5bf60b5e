use vstd::prelude::*;
use crate::util::to_u16;
use crate::vm::{Machine, State};

verus! {

/// Leading byte of a snapshot in the current layout.
pub const TAG_CURRENT: u8 = 0x17;

/// Leading byte of a snapshot in the legacy layout.
pub const TAG_LEGACY: u8 = 0x16;

/// Largest opcode: a buffer that starts with an opcode byte is a plain program.
pub const LAST_OPCODE: u8 = 21;

/// Bytes before the stack in the current layout: tag, stack length, ip, 8 registers.
pub const CURRENT_HEADER: usize = 21;

/// Register slots in the legacy layout; the last register is not kept.
pub const LEGACY_REGISTERS: usize = 7;

/// Stack slots in the legacy layout.
pub const LEGACY_SLOTS: usize = 99;

/// Offset of the stack slots in the legacy layout.
pub const LEGACY_STACK_AT: usize = 15;

/// Offset of the live-slot count in the legacy layout.
pub const LEGACY_SP_AT: usize = 213;

/// Offset of the instruction pointer in the legacy layout.
pub const LEGACY_IP_AT: usize = 215;

/// Bytes before program memory in the legacy layout.
pub const LEGACY_HEADER: usize = 217;

/// Why a buffer could not be turned into a machine.
#[derive(PartialEq, Eq, Structural, Clone, Copy, Debug)]
pub enum RecoveryError {
    /// The leading byte is neither an opcode nor a snapshot tag.
    UnrecognizedFormat(u8),
    /// The buffer ends before the layout that its tag announces.
    TruncatedSnapshot,
    /// The saved instruction pointer is odd, so not at a word.
    UnalignedIp(u16),
}

/// The big-endian encoding of each word of `s`, in order.
pub open spec fn be_bytes(s: Seq<u16>) -> Seq<u8> {
    Seq::new(
        2 * s.len(),
        |i: int|
            if i % 2 == 0 {
                (s[i / 2] / 256) as u8
            } else {
                (s[i / 2] % 256) as u8
            },
    )
}

/// The big-endian word at byte offset `i`.
pub open spec fn be_at(b: Seq<u8>, i: int) -> u16 {
    (b[i] * 256 + b[i + 1]) as u16
}

/// The little-endian word at byte offset `i`.
pub open spec fn le_at(b: Seq<u8>, i: int) -> u16 {
    (b[i + 1] * 256 + b[i]) as u16
}

/// `n` big-endian words from byte offset `start`.
pub open spec fn be_words(b: Seq<u8>, start: int, n: nat) -> Seq<u16> {
    Seq::new(n, |k: int| be_at(b, start + 2 * k))
}

/// `n` little-endian words from byte offset `start`.
pub open spec fn le_words(b: Seq<u8>, start: int, n: nat) -> Seq<u16> {
    Seq::new(n, |k: int| le_at(b, start + 2 * k))
}

/// Whether `m` fits the current layout.
pub open spec fn encodable(m: Machine) -> bool {
    &&& m.registers.len() == 8
    &&& m.stack.len() <= 65535
    &&& 0 <= m.ip <= 65535
}

/// The current layout: tag, stack length, ip, the 8 registers and the stack,
/// all as big-endian words, then program memory.
pub open spec fn encode(m: Machine) -> Seq<u8> {
    seq![TAG_CURRENT] + be_bytes(seq![m.stack.len() as u16, m.ip as u16]) + be_bytes(m.registers)
        + be_bytes(m.stack) + m.memory
}

/// A fresh machine over the plain program `b`.
pub open spec fn fresh(b: Seq<u8>) -> Machine {
    Machine { memory: b, registers: seq![0u16; 8], ip: 0, stack: Seq::empty() }
}

/// A buffer in the current layout.
pub open spec fn decode_current(b: Seq<u8>) -> Result<Machine, RecoveryError> {
    if b.len() < CURRENT_HEADER {
        Err(RecoveryError::TruncatedSnapshot)
    } else {
        let sp = be_at(b, 1);
        let ip = be_at(b, 3);
        if b.len() < CURRENT_HEADER + 2 * sp {
            Err(RecoveryError::TruncatedSnapshot)
        } else if ip % 2 != 0 {
            Err(RecoveryError::UnalignedIp(ip))
        } else {
            Ok(
                Machine {
                    memory: b.subrange(CURRENT_HEADER + 2 * sp, b.len() as int),
                    registers: be_words(b, 5, 8),
                    ip: ip as int,
                    stack: be_words(b, CURRENT_HEADER as int, sp as nat),
                },
            )
        }
    }
}

/// Number of live stack slots that a legacy buffer announces.
pub open spec fn legacy_live(b: Seq<u8>) -> nat {
    let sp = be_at(b, LEGACY_SP_AT as int);
    if sp < LEGACY_SLOTS { sp as nat } else { LEGACY_SLOTS as nat }
}

/// A buffer in the legacy layout: tag, 7 registers and 99 stack slots as
/// little-endian words, then the number of live slots and ip as big-endian
/// words, then program memory. Register 7 is not kept and comes back zero.
pub open spec fn decode_legacy(b: Seq<u8>) -> Result<Machine, RecoveryError> {
    if b.len() < LEGACY_HEADER {
        Err(RecoveryError::TruncatedSnapshot)
    } else {
        let ip = be_at(b, LEGACY_IP_AT as int);
        if ip % 2 != 0 {
            Err(RecoveryError::UnalignedIp(ip))
        } else {
            Ok(
                Machine {
                    memory: b.subrange(LEGACY_HEADER as int, b.len() as int),
                    registers: le_words(b, 1, LEGACY_REGISTERS as nat).push(0),
                    ip: ip as int,
                    stack: le_words(b, LEGACY_STACK_AT as int, legacy_live(b)),
                },
            )
        }
    }
}

/// The machine that a buffer holds, by its leading byte: a plain program,
/// a legacy snapshot or a current snapshot.
pub open spec fn decode_snapshot(b: Seq<u8>) -> Result<Machine, RecoveryError> {
    if b.len() == 0 {
        Err(RecoveryError::TruncatedSnapshot)
    } else if b[0] <= LAST_OPCODE {
        Ok(fresh(b))
    } else if b[0] == TAG_LEGACY {
        decode_legacy(b)
    } else if b[0] == TAG_CURRENT {
        decode_current(b)
    } else {
        Err(RecoveryError::UnrecognizedFormat(b[0]))
    }
}

/// Appends the big-endian bytes of `w`.
fn push_be(out: &mut Vec<u8>, w: u16)
    ensures
        final(out)@ == old(out)@ + be_bytes(seq![w]),
{
    out.push((w / 256) as u8);
    out.push((w % 256) as u8);
    assert(final(out)@ =~= old(out)@ + be_bytes(seq![w]));
}

/// Appends the big-endian bytes of each word of `ws`.
fn push_be_all(out: &mut Vec<u8>, ws: &[u16])
    ensures
        final(out)@ == old(out)@ + be_bytes(ws@),
{
    let mut i: usize = 0;
    while i < ws.len()
        invariant
            i <= ws@.len(),
            out@ == old(out)@ + be_bytes(ws@.take(i as int)),
        decreases ws@.len() - i,
    {
        let ghost before = out@;
        push_be(out, ws[i]);
        assert(be_bytes(ws@.take(i + 1)) =~= be_bytes(ws@.take(i as int)) + be_bytes(seq![ws@[i as int]]));
        assert(out@ =~= old(out)@ + be_bytes(ws@.take(i + 1)));
        i = i + 1;
    }
    assert(ws@.take(ws@.len() as int) =~= ws@);
}

/// Reads `n` words from byte offset `start`, big-endian if `big`, else little-endian.
fn read_words(b: &Vec<u8>, start: usize, n: usize, big: bool) -> (r: Vec<u16>)
    requires
        start + 2 * n <= b@.len(),
    ensures
        big ==> r@ == be_words(b@, start as int, n as nat),
        !big ==> r@ == le_words(b@, start as int, n as nat),
{
    let size = b.len();
    let mut r: Vec<u16> = Vec::new();
    let mut k: usize = 0;
    while k < n
        invariant
            size == b@.len(),
            start + 2 * n <= b@.len(),
            k <= n,
            big ==> r@ == be_words(b@, start as int, k as nat),
            !big ==> r@ == le_words(b@, start as int, k as nat),
        decreases n - k,
    {
        let i = start + 2 * k;
        let w = if big { to_u16(b[i], b[i + 1]) } else { to_u16(b[i + 1], b[i]) };
        r.push(w);
        k = k + 1;
        assert(big ==> r@ =~= be_words(b@, start as int, k as nat));
        assert(!big ==> r@ =~= le_words(b@, start as int, k as nat));
    }
    r
}

/// Registers as an array, from a sequence of 8 words.
fn register_file(words: &Vec<u16>) -> (r: [u16; 8])
    requires
        words@.len() == 8,
    ensures
        r@ == words@,
{
    let mut r: [u16; 8] = [0; 8];
    let mut i: usize = 0;
    while i < 8
        invariant
            words@.len() == 8,
            i <= 8,
            forall|j: int| 0 <= j < i ==> r@[j] == words@[j],
        decreases 8 - i,
    {
        r[i] = words[i];
        i = i + 1;
    }
    assert(r@ =~= words@);
    r
}

/// Reading back the big-endian bytes of a sequence gives the sequence.
proof fn lemma_be_words_of_bytes(pre: Seq<u8>, s: Seq<u16>, post: Seq<u8>)
    ensures
        be_words(pre + be_bytes(s) + post, pre.len() as int, s.len()) == s,
{
    let b = pre + be_bytes(s) + post;
    assert forall|k: int| 0 <= k < s.len() implies #[trigger] be_words(b, pre.len() as int, s.len())[k]
        == s[k] by {
        let i = pre.len() + 2 * k;
        assert(b[i] == (s[k] / 256) as u8);
        assert(b[i + 1] == (s[k] % 256) as u8);
    }
    assert(be_words(b, pre.len() as int, s.len()) =~= s);
}

/// Saving a machine and restoring the bytes gives back the same registers,
/// stack, instruction pointer and memory, for every machine that the
/// current layout can hold with its instruction pointer at a word.
pub proof fn lemma_snapshot_round_trip(m: Machine)
    requires
        encodable(m),
        m.ip % 2 == 0,
    ensures
        decode_snapshot(encode(m)) == Ok::<Machine, RecoveryError>(m),
{
    let head = seq![TAG_CURRENT];
    let counts = be_bytes(seq![m.stack.len() as u16, m.ip as u16]);
    let regs = be_bytes(m.registers);
    let stack = be_bytes(m.stack);
    let b = encode(m);
    assert(b == head + counts + regs + stack + m.memory);
    assert(b[0] == TAG_CURRENT);
    lemma_be_words_of_bytes(head, seq![m.stack.len() as u16, m.ip as u16], regs + stack + m.memory);
    assert(head + counts + (regs + stack + m.memory) =~= b);
    let hdr = be_words(b, 1, 2);
    assert(hdr[0] == be_at(b, 1));
    assert(hdr[1] == be_at(b, 3));
    assert(be_at(b, 1) == m.stack.len());
    assert(be_at(b, 3) == m.ip);
    lemma_be_words_of_bytes(head + counts, m.registers, stack + m.memory);
    assert(head + counts + regs + (stack + m.memory) =~= b);
    lemma_be_words_of_bytes(head + counts + regs, m.stack, m.memory);
    assert(head + counts + regs + stack + m.memory =~= b);
    assert(b.subrange(CURRENT_HEADER + 2 * m.stack.len(), b.len() as int) =~= m.memory);
}

/// Restoring a legacy snapshot keeps registers 0 to 6 as saved, leaves
/// register 7 zero, and keeps only the first live stack slots, as many as
/// the saved count says and at most all 99.
pub proof fn lemma_legacy_restore(b: Seq<u8>)
    requires
        b.len() >= LEGACY_HEADER,
        b[0] == TAG_LEGACY,
        be_at(b, LEGACY_IP_AT as int) % 2 == 0,
    ensures
        decode_snapshot(b) is Ok,
        ({
            let m = decode_snapshot(b)->Ok_0;
            &&& m.registers.len() == 8
            &&& forall|i: int| 0 <= i < 7 ==> m.registers[i] == le_at(b, 1 + 2 * i)
            &&& m.registers[7] == 0
            &&& m.stack.len() == (if be_at(b, LEGACY_SP_AT as int) < 99 {
                be_at(b, LEGACY_SP_AT as int) as int
            } else {
                99
            })
            &&& forall|k: int| 0 <= k < m.stack.len() ==> m.stack[k] == le_at(b, 15 + 2 * k)
            &&& m.memory == b.subrange(LEGACY_HEADER as int, b.len() as int)
        }),
{
    let m = decode_snapshot(b)->Ok_0;
    assert(m.registers[7] == 0);
}

impl State {
    /// The machine in the current snapshot layout.
    pub fn save(state: &State) -> (r: Vec<u8>)
        requires
            encodable(state@),
        ensures
            r@ == encode(state@),
    {
        let mut save: Vec<u8> = Vec::new();
        save.push(TAG_CURRENT);
        push_be(&mut save, state.stack.len() as u16);
        push_be(&mut save, state.ip as u16);
        assert(be_bytes(seq![state.stack@.len() as u16]) + be_bytes(seq![state.ip as u16])
            =~= be_bytes(seq![state.stack@.len() as u16, state.ip as u16]));
        push_be_all(&mut save, state.register.as_slice());
        push_be_all(&mut save, state.stack.as_slice());
        let mut memory = state.program.clone();
        save.append(&mut memory);
        assert(save@ =~= encode(state@));
        save
    }

    /// The machine that `save` holds: a plain program when its first byte is
    /// an opcode, else a snapshot in the layout that its tag names.
    pub fn recover(save: Vec<u8>) -> (r: Result<State, RecoveryError>)
        ensures
            r matches Ok(s) ==> decode_snapshot(save@) == Ok::<Machine, RecoveryError>(s@)
                && !s.debug,
            r matches Err(e) ==> decode_snapshot(save@) == Err::<Machine, RecoveryError>(e),
    {
        if save.len() == 0 {
            return Err(RecoveryError::TruncatedSnapshot);
        }
        let tag = save[0];
        if tag <= LAST_OPCODE {
            let s = State::new(save);
            return Ok(s);
        }
        if tag == TAG_LEGACY {
            return recover_legacy(save);
        }
        if tag != TAG_CURRENT {
            return Err(RecoveryError::UnrecognizedFormat(tag));
        }
        if save.len() < CURRENT_HEADER {
            return Err(RecoveryError::TruncatedSnapshot);
        }
        let sp = to_u16(save[1], save[2]) as usize;
        let ip = to_u16(save[3], save[4]);
        if save.len() - CURRENT_HEADER < 2 * sp {
            return Err(RecoveryError::TruncatedSnapshot);
        }
        if ip % 2 != 0 {
            return Err(RecoveryError::UnalignedIp(ip));
        }
        let registers = read_words(&save, 5, 8, true);
        let stack = read_words(&save, CURRENT_HEADER, sp, true);
        let mut program = save;
        let memory = program.split_off(CURRENT_HEADER + 2 * sp);
        let s = State {
            program: memory,
            register: register_file(&registers),
            ip: ip as usize,
            stack,
            debug: false,
        };
        assert(s@ == decode_current(save@).unwrap());
        Ok(s)
    }
}

/// The machine that a legacy snapshot holds.
fn recover_legacy(save: Vec<u8>) -> (r: Result<State, RecoveryError>)
    requires
        save@.len() > 0,
    ensures
        r matches Ok(s) ==> decode_legacy(save@) == Ok::<Machine, RecoveryError>(s@) && !s.debug,
        r matches Err(e) ==> decode_legacy(save@) == Err::<Machine, RecoveryError>(e),
{
    if save.len() < LEGACY_HEADER {
        return Err(RecoveryError::TruncatedSnapshot);
    }
    let ip = to_u16(save[LEGACY_IP_AT], save[LEGACY_IP_AT + 1]);
    if ip % 2 != 0 {
        return Err(RecoveryError::UnalignedIp(ip));
    }
    let sp = to_u16(save[LEGACY_SP_AT], save[LEGACY_SP_AT + 1]) as usize;
    let live = if sp < LEGACY_SLOTS { sp } else { LEGACY_SLOTS };
    let mut registers = read_words(&save, 1, LEGACY_REGISTERS, false);
    registers.push(0);
    let stack = read_words(&save, LEGACY_STACK_AT, live, false);
    let mut program = save;
    let memory = program.split_off(LEGACY_HEADER);
    let s = State {
        program: memory,
        register: register_file(&registers),
        ip: ip as usize,
        stack,
        debug: false,
    };
    assert(s@ == decode_legacy(save@).unwrap());
    Ok(s)
}

} // verus!
