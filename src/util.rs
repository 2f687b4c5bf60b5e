use vstd::prelude::*;
use crate::vm::{Fault, State};

verus! {

/// Largest literal value of a word.
pub const WORD_MAX: u16 = 32767;

/// Words from `REG_BASE` to `REG_BASE + 7` refer to registers 0 to 7.
pub const REG_BASE: u16 = 32768;

/// Largest register reference.
pub const REG_LAST: u16 = 32775;

/// How many register references operand resolution follows at most: any
/// longer chain goes round in a cycle.
pub const MAX_HOPS: usize = 8;

/// The little-endian word at byte offset `a`.
pub open spec fn word_at(mem: Seq<u8>, a: int) -> u16 {
    (mem[a + 1] * 256 + mem[a]) as u16
}

/// Whether `w` refers to a register.
pub open spec fn is_register(w: u16) -> bool {
    REG_BASE <= w <= REG_LAST
}

/// The value that the operand `w` reads, following at most `hops` register
/// references.
pub open spec fn resolve_within(regs: Seq<u16>, w: u16, hops: nat) -> Result<u16, Fault>
    decreases hops,
{
    if w <= WORD_MAX {
        Ok(w)
    } else if !is_register(w) || hops == 0 {
        Err(Fault::InvalidOperand(w))
    } else {
        resolve_within(regs, regs[w - REG_BASE], (hops - 1) as nat)
    }
}

/// The value that the operand `w` reads with the register file `regs`.
pub open spec fn resolved(regs: Seq<u16>, w: u16) -> Result<u16, Fault> {
    resolve_within(regs, w, MAX_HOPS as nat)
}

/// The register that the destination operand `w` names.
pub open spec fn target(w: u16) -> Result<int, Fault> {
    if is_register(w) {
        Ok(w - REG_BASE)
    } else {
        Err(Fault::InvalidWriteTarget(w))
    }
}

/// A resolved value is always a literal.
pub proof fn lemma_resolved_is_literal(regs: Seq<u16>, w: u16, hops: nat)
    requires
        regs.len() == 8,
    ensures
        resolve_within(regs, w, hops) matches Ok(v) ==> v <= WORD_MAX,
    decreases hops,
{
    if w > WORD_MAX && is_register(w) && hops > 0 {
        lemma_resolved_is_literal(regs, regs[w - REG_BASE], (hops - 1) as nat);
    }
}

/// Builds a 16-bit value from its high and low byte.
pub fn to_u16(higher: u8, lower: u8) -> (r: u16)
    ensures
        r == higher * 256 + lower,
{
    let r: u16 = (higher as u16) << 8u16 | lower as u16;
    assert(((higher as u16) << 8u16 | lower as u16) == higher * 256 + lower) by (bit_vector);
    r
}

/// The little-endian word at byte offset `addr`, if both its bytes are in memory.
pub fn fetch_word(mem: &Vec<u8>, addr: usize) -> (r: Result<u16, Fault>)
    ensures
        r == (if addr + 1 < mem@.len() {
            Ok(word_at(mem@, addr as int))
        } else {
            Err(Fault::OutOfBounds(addr))
        }),
{
    if addr < mem.len() && mem.len() - addr >= 2 {
        Ok(to_u16(mem[addr + 1], mem[addr]))
    } else {
        Err(Fault::OutOfBounds(addr))
    }
}

/// `mem` grown with zero bytes to at least `n` bytes.
pub open spec fn grown(mem: Seq<u8>, n: int) -> Seq<u8> {
    if n > mem.len() {
        mem + Seq::new((n - mem.len()) as nat, |i: int| 0u8)
    } else {
        mem
    }
}

/// `mem` with the little-endian word `w` at byte offset `addr`, grown as needed.
pub open spec fn stored(mem: Seq<u8>, addr: int, w: u16) -> Seq<u8> {
    grown(mem, addr + 2).update(addr, (w % 256) as u8).update(addr + 1, (w / 256) as u8)
}

/// Writes the little-endian word `w` at byte offset `addr`, extending memory
/// with zero bytes where it is too short.
pub fn store_word(mem: &mut Vec<u8>, addr: usize, w: u16)
    requires
        addr <= 65534,
    ensures
        final(mem)@ == stored(old(mem)@, addr as int, w),
{
    if mem.len() < addr + 2 {
        mem.resize(addr + 2, 0u8);
        assert(mem@ =~= grown(old(mem)@, addr + 2));
    }
    mem.set(addr, (w % 256) as u8);
    mem.set(addr + 1, (w / 256) as u8);
}

/// Resolves the operand `word`: a literal stands for itself, a register
/// reference for the register's content, followed again while that is a
/// register reference.
pub fn resolve(register: &[u16; 8], word: u16) -> (r: Result<u16, Fault>)
    ensures
        r == resolved(register@, word),
        r matches Ok(v) ==> v <= WORD_MAX,
{
    let mut w = word;
    let mut hops: usize = MAX_HOPS;
    loop
        invariant
            hops <= MAX_HOPS,
            resolve_within(register@, w, hops as nat) == resolved(register@, word),
        decreases hops,
    {
        if w <= WORD_MAX {
            return Ok(w);
        }
        if w > REG_LAST || hops == 0 {
            return Err(Fault::InvalidOperand(w));
        }
        w = register[(w - REG_BASE) as usize];
        hops = hops - 1;
    }
}

/// The register that the destination operand `word` names.
pub fn write_target(word: u16) -> (r: Result<usize, Fault>)
    ensures
        r matches Ok(t) ==> target(word) == Ok::<int, Fault>(t as int) && t < 8,
        r matches Err(f) ==> target(word) == Err::<int, Fault>(f),
{
    if REG_BASE <= word && word <= REG_LAST {
        Ok((word - REG_BASE) as usize)
    } else {
        Err(Fault::InvalidWriteTarget(word))
    }
}

/// Resolves the operand stored at byte offset `x`.
pub fn read_x(state: &State, x: usize) -> (r: Result<u16, Fault>)
    ensures
        r == (if x + 1 < state.program@.len() {
            resolved(state.register@, word_at(state.program@, x as int))
        } else {
            Err(Fault::OutOfBounds(x))
        }),
{
    match fetch_word(&state.program, x) {
        Ok(w) => resolve(&state.register, w),
        Err(f) => Err(f),
    }
}

/// Resolves the operand stored at the instruction pointer.
pub fn read_argument(state: &State) -> (r: Result<u16, Fault>)
    ensures
        r == (if state.ip + 1 < state.program@.len() {
            resolved(state.register@, word_at(state.program@, state.ip as int))
        } else {
            Err(Fault::OutOfBounds(state.ip))
        }),
{
    read_x(state, state.ip)
}

/// The register named by the destination operand stored at the instruction pointer.
pub fn write_argument(state: &State) -> (r: Result<usize, Fault>)
    ensures
        state.ip + 1 >= state.program@.len() ==> r == Err::<usize, Fault>(Fault::OutOfBounds(state.ip)),
        state.ip + 1 < state.program@.len() ==> {
            let w = word_at(state.program@, state.ip as int);
            &&& r matches Ok(t) ==> target(w) == Ok::<int, Fault>(t as int) && t < 8
            &&& r matches Err(f) ==> target(w) == Err::<int, Fault>(f)
        },
{
    match fetch_word(&state.program, state.ip) {
        Ok(w) => write_target(w),
        Err(f) => Err(f),
    }
}

} // verus!
