use vstd::prelude::*;
use crate::debug::Command;
use vstd::string::StringSliceAdditionalSpecFns;
use vstd::utf8::{
    encode_utf8, encode_utf8_valid_utf8, is_char_boundary, is_char_boundary_iff_not_is_continuation_byte,
    is_char_boundary_start_end_of_seq, length_of_first_scalar, pop_first_scalar, valid_utf8,
    valid_utf8_split,
};

verus! {

/// Why a debugger command line was refused.
#[derive(PartialEq, Eq, Structural, Clone, Copy, Debug)]
pub enum LexError {
    /// The first word names no command.
    UnknownCommand,
    /// An argument is not a decimal number in the range the command takes.
    BadNumber,
    /// A register index above 7.
    NoSuchRegister(usize),
    /// The argument of `debug` is neither on nor off.
    BadFlag,
}

/// ASCII whitespace: space, tab, line feed, vertical tab, form feed, carriage return.
pub open spec fn is_space(b: u8) -> bool {
    b == 32 || (9 <= b && b <= 13)
}

/// The words of `s[start..]` where the word being read began at `start`
/// and reading has reached `i`.
pub open spec fn split_from(s: Seq<u8>, start: int, i: int) -> Seq<Seq<u8>>
    decreases s.len() - i,
{
    if i >= s.len() || i < start {
        if start < s.len() && 0 <= start && i >= s.len() {
            seq![s.subrange(start, s.len() as int)]
        } else {
            seq![]
        }
    } else if is_space(s[i]) {
        (if start < i { seq![s.subrange(start, i)] } else { seq![] }) + split_from(s, i + 1, i + 1)
    } else {
        split_from(s, start, i + 1)
    }
}

/// The maximal runs of non-whitespace bytes of `s`, in order.
pub open spec fn tokens(s: Seq<u8>) -> Seq<Seq<u8>> {
    split_from(s, 0, 0)
}

pub open spec fn is_digit(b: u8) -> bool {
    48 <= b && b <= 57
}

/// The value of a run of decimal digits.
pub open spec fn decimal(t: Seq<u8>) -> nat
    decreases t.len(),
{
    if t.len() == 0 {
        0
    } else {
        decimal(t.drop_last()) * 10 + (t.last() - 48) as nat
    }
}

/// Whether `t` is a decimal number no larger than `max`.
pub open spec fn is_number(t: Seq<u8>, max: nat) -> bool {
    &&& t.len() > 0
    &&& forall|i: int| 0 <= i < t.len() ==> is_digit(#[trigger] t[i])
    &&& decimal(t) <= max
}

/// Whether the word `t` is the keyword `w`.
pub open spec fn is_kw(t: Seq<u8>, w: &str) -> bool {
    t == w.spec_bytes()
}

/// Whether the word turns the trace on.
pub open spec fn is_on(t: Seq<u8>) -> bool {
    is_kw(t, "true") || is_kw(t, "1") || is_kw(t, "t") || is_kw(t, "True") || is_kw(t, "on")
        || is_kw(t, "On")
}

/// Whether the word turns the trace off.
pub open spec fn is_off(t: Seq<u8>) -> bool {
    is_kw(t, "false") || is_kw(t, "0") || is_kw(t, "f") || is_kw(t, "False") || is_kw(t, "off")
        || is_kw(t, "Off")
}

/// Whether the words form a `save` command.
pub open spec fn is_save(t: Seq<Seq<u8>>) -> bool {
    t.len() > 0 && is_kw(t[0], "save")
}

/// The command that the words `t` form, for every line but a `save`.
pub open spec fn command_of(t: Seq<Seq<u8>>) -> Result<Command, LexError> {
    if t.len() == 0 {
        Ok(Command::Null)
    } else {
        let c = t[0];
        if is_kw(c, "n") || is_kw(c, "step") {
            if t.len() < 2 {
                Ok(Command::Step(0))
            } else if is_number(t[1], usize::MAX as nat) {
                Ok(Command::Step(decimal(t[1]) as usize))
            } else {
                Err(LexError::BadNumber)
            }
        } else if is_kw(c, "m") || is_kw(c, "memory") {
            if t.len() < 2 {
                Ok(Command::PrintMemory)
            } else if !is_number(t[1], usize::MAX as nat) {
                Err(LexError::BadNumber)
            } else if t.len() < 3 {
                Ok(Command::PrintMemoryX(decimal(t[1]) as usize))
            } else if is_number(t[2], usize::MAX as nat) {
                Ok(Command::PrintMemoryRange(decimal(t[1]) as usize, decimal(t[2]) as usize))
            } else {
                Err(LexError::BadNumber)
            }
        } else if is_kw(c, "s") || is_kw(c, "stack") {
            if t.len() < 2 {
                Ok(Command::StackGet)
            } else if !is_number(t[1], usize::MAX as nat) {
                Err(LexError::BadNumber)
            } else if t.len() < 3 {
                Ok(Command::StackGetN(decimal(t[1]) as usize))
            } else if is_number(t[2], u16::MAX as nat) {
                Ok(Command::StackSet(decimal(t[1]) as usize, decimal(t[2]) as u16))
            } else {
                Err(LexError::BadNumber)
            }
        } else if is_kw(c, "run") {
            Ok(Command::Run)
        } else if is_kw(c, "op") || is_kw(c, "bp") {
            if t.len() < 2 {
                Ok(Command::BreakPointOpGet)
            } else if is_number(t[1], u8::MAX as nat) {
                Ok(Command::BreakPointOpSet(decimal(t[1]) as u8))
            } else {
                Err(LexError::BadNumber)
            }
        } else if is_kw(c, "r") || is_kw(c, "register") {
            if t.len() < 2 {
                Ok(Command::RegisterGet)
            } else if !is_number(t[1], usize::MAX as nat) {
                Err(LexError::BadNumber)
            } else if decimal(t[1]) > 7 {
                Err(LexError::NoSuchRegister(decimal(t[1]) as usize))
            } else if t.len() < 3 {
                Ok(Command::RegisterGetN(decimal(t[1]) as usize))
            } else if is_number(t[2], u16::MAX as nat) {
                Ok(Command::RegisterSet(decimal(t[1]) as usize, decimal(t[2]) as u16))
            } else {
                Err(LexError::BadNumber)
            }
        } else if is_kw(c, "debug") {
            if t.len() < 2 {
                Ok(Command::DebugGet)
            } else if is_on(t[1]) {
                Ok(Command::DebugSet(true))
            } else if is_off(t[1]) {
                Ok(Command::DebugSet(false))
            } else {
                Err(LexError::BadFlag)
            }
        } else if is_kw(c, "help") || is_kw(c, "man") || is_kw(c, "?") {
            Ok(Command::Help)
        } else if is_kw(c, "halt") {
            Ok(Command::Halt)
        } else if is_kw(c, "info") {
            Ok(Command::PrintInfo)
        } else {
            Err(LexError::UnknownCommand)
        }
    }
}

/// Whether `s[start..end]` is the keyword `w`.
pub(crate) fn is_word(s: &[u8], start: usize, end: usize, w: &str) -> (r: bool)
    requires
        start <= end <= s@.len(),
    ensures
        r == is_kw(s@.subrange(start as int, end as int), w),
{
    let wb = w.as_bytes();
    if end - start != wb.len() {
        return false;
    }
    let mut i: usize = 0;
    while i < wb.len()
        invariant
            start <= end <= s@.len(),
            end - start == wb@.len(),
            wb@ == w.spec_bytes(),
            i <= wb@.len(),
            forall|j: int| 0 <= j < i ==> s@[start + j] == wb@[j],
        decreases wb@.len() - i,
    {
        if s[start + i] != wb[i] {
            assert(s@.subrange(start as int, end as int)[i as int] != wb@[i as int]);
            return false;
        }
        i = i + 1;
    }
    assert(s@.subrange(start as int, end as int) =~= wb@);
    true
}

proof fn lemma_decimal_grows(t: Seq<u8>, k: int)
    requires
        0 <= k <= t.len(),
        forall|i: int| 0 <= i < t.len() ==> is_digit(#[trigger] t[i]),
    ensures
        decimal(t.subrange(0, k)) <= decimal(t),
    decreases t.len() - k,
{
    if k < t.len() {
        lemma_decimal_grows(t, k + 1);
        assert(t.subrange(0, k + 1).drop_last() =~= t.subrange(0, k));
    } else {
        assert(t.subrange(0, k) =~= t);
    }
}

/// The value of `s[start..end]` if it is a decimal number no larger than `max`.
fn parse_number(s: &[u8], start: usize, end: usize, max: usize) -> (r: Option<usize>)
    requires
        start <= end <= s@.len(),
    ensures
        ({
            let t = s@.subrange(start as int, end as int);
            &&& r matches Some(v) ==> is_number(t, max as nat) && v == decimal(t)
            &&& r is None ==> !is_number(t, max as nat)
        }),
{
    let ghost t = s@.subrange(start as int, end as int);
    if start == end {
        return None;
    }
    let mut i: usize = start;
    while i < end
        invariant
            start <= i <= end <= s@.len(),
            t == s@.subrange(start as int, end as int),
            forall|j: int| start <= j < i ==> is_digit(#[trigger] s@[j]),
        decreases end - i,
    {
        if s[i] < 48 || s[i] > 57 {
            assert(!is_digit(t[i - start]));
            return None;
        }
        i = i + 1;
    }
    assert forall|j: int| 0 <= j < t.len() implies is_digit(#[trigger] t[j]) by {
        assert(t[j] == s@[start + j]);
    }
    let mut acc: usize = 0;
    let mut i: usize = start;
    while i < end
        invariant
            start <= i <= end <= s@.len(),
            t == s@.subrange(start as int, end as int),
            forall|j: int| 0 <= j < t.len() ==> is_digit(#[trigger] t[j]),
            acc == decimal(t.subrange(0, i - start)),
            acc <= max,
        decreases end - i,
    {
        assert(t[i - start] == s@[i as int]);
        let d = (s[i] - 48) as usize;
        assert(t.subrange(0, i - start + 1).drop_last() =~= t.subrange(0, i - start));
        if d > max {
            proof {
                lemma_decimal_grows(t, i - start + 1);
            }
            return None;
        }
        if acc > (max - d) / 10 {
            assert(acc * 10 + d > max) by (nonlinear_arith)
                requires
                    acc > (max - d) / 10,
                    d <= max,
            ;
            proof {
                lemma_decimal_grows(t, i - start + 1);
            }
            return None;
        }
        assert(acc * 10 + d <= max) by (nonlinear_arith)
            requires
                acc <= (max - d) / 10,
                d <= max,
        ;
        acc = acc * 10 + d;
        i = i + 1;
    }
    assert(t.subrange(0, t.len() as int) =~= t);
    Some(acc)
}

/// The words of `s` that the byte ranges `spans` mark.
pub open spec fn cut(s: Seq<u8>, spans: Seq<(usize, usize)>) -> Seq<Seq<u8>> {
    Seq::new(spans.len(), |k: int| s.subrange(spans[k].0 as int, spans[k].1 as int))
}

/// Whether every range of `spans` is non-empty and lies within `s`.
pub open spec fn spans_in(s: Seq<u8>, spans: Seq<(usize, usize)>) -> bool {
    forall|k: int| 0 <= k < spans.len() ==> #[trigger] spans[k].0 < spans[k].1 <= s.len()
}

/// Whether every range of `spans` starts at the beginning of `s` or after
/// whitespace, and ends at the end of `s` or before whitespace.
pub open spec fn spans_edged(s: Seq<u8>, spans: Seq<(usize, usize)>) -> bool {
    forall|k: int|
        0 <= k < spans.len() ==> (#[trigger] spans[k].0 == 0 || is_space(s[spans[k].0 - 1])) && (
        spans[k].1 == s.len() || is_space(s[spans[k].1 as int]))
}

fn is_space_byte(b: u8) -> (r: bool)
    ensures
        r == is_space(b),
{
    b == 32 || (9 <= b && b <= 13)
}

/// The byte ranges of the words of `s`, in order.
fn split_spans(s: &[u8]) -> (r: Vec<(usize, usize)>)
    ensures
        spans_in(s@, r@),
        spans_edged(s@, r@),
        cut(s@, r@) == tokens(s@),
{
    let mut spans: Vec<(usize, usize)> = Vec::new();
    let mut start: usize = 0;
    let mut i: usize = 0;
    while i < s.len()
        invariant
            start <= i <= s@.len(),
            start == 0 || is_space(s@[start - 1]),
            spans_in(s@, spans@),
            spans_edged(s@, spans@),
            tokens(s@) == cut(s@, spans@) + split_from(s@, start as int, i as int),
        decreases s@.len() - i,
    {
        if is_space_byte(s[i]) {
            let ghost before = spans@;
            if start < i {
                spans.push((start, i));
                assert(cut(s@, spans@) =~= cut(s@, before) + seq![s@.subrange(start as int, i as int)]);
            } else {
                assert(spans@ == before);
            }
            assert(tokens(s@) =~= cut(s@, spans@) + split_from(s@, i + 1, i + 1));
            start = i + 1;
        }
        i = i + 1;
    }
    let ghost before = spans@;
    if start < s.len() {
        spans.push((start, s.len()));
        assert(cut(s@, spans@) =~= cut(s@, before) + seq![s@.subrange(start as int, s@.len() as int)]);
    }
    assert(tokens(s@) =~= cut(s@, spans@));
    spans
}

/// Whether word `k` of `s` is the keyword `w`.
fn word_is(s: &[u8], spans: &Vec<(usize, usize)>, k: usize, w: &str) -> (r: bool)
    requires
        k < spans@.len(),
        spans_in(s@, spans@),
    ensures
        r == is_kw(cut(s@, spans@)[k as int], w),
{
    let (a, b) = spans[k];
    assert(spans@[k as int].0 <= spans@[k as int].1 <= s@.len());
    is_word(s, a, b, w)
}

/// The value of word `k` of `s` if it is a decimal number no larger than `max`.
fn number_at(s: &[u8], spans: &Vec<(usize, usize)>, k: usize, max: usize) -> (r: Option<usize>)
    requires
        k < spans@.len(),
        spans_in(s@, spans@),
    ensures
        ({
            let t = cut(s@, spans@)[k as int];
            &&& r matches Some(v) ==> is_number(t, max as nat) && v == decimal(t)
            &&& r is None ==> !is_number(t, max as nat)
        }),
{
    let (a, b) = spans[k];
    assert(spans@[k as int].0 <= spans@[k as int].1 <= s@.len());
    parse_number(s, a, b, max)
}

/// In valid UTF-8, the byte after an ASCII byte that starts a character
/// starts a character too.
proof fn lemma_boundary_after_ascii(b: Seq<u8>, k: int)
    requires
        valid_utf8(b),
        0 <= k < b.len(),
        is_char_boundary(b, k),
        b[k] < 0x80,
    ensures
        is_char_boundary(b, k + 1),
    decreases b.len(),
{
    let rest = pop_first_scalar(b);
    if k == 0 {
        assert(length_of_first_scalar(b) == 1);
        assert(is_char_boundary(rest, 0));
    } else {
        let n = length_of_first_scalar(b);
        assert(valid_utf8(rest));
        assert(is_char_boundary(rest, k - n));
        assert(rest[k - n] == b[k]);
        lemma_boundary_after_ascii(rest, k - n);
    }
}

/// Where a word of the line starts and ends, the line's bytes are at
/// character boundaries.
proof fn lemma_word_on_boundaries(line: &str, c: int, d: int)
    requires
        0 <= c < d <= line.spec_bytes().len(),
        c == 0 || is_space(line.spec_bytes()[c - 1]),
        d == line.spec_bytes().len() || is_space(line.spec_bytes()[d]),
    ensures
        is_char_boundary(line.spec_bytes(), d),
        is_char_boundary(line.spec_bytes().subrange(0, d), c),
{
    let b = line.spec_bytes();
    encode_utf8_valid_utf8(line@);
    is_char_boundary_start_end_of_seq(b);
    if d < b.len() {
        is_char_boundary_iff_not_is_continuation_byte(b, d);
    }
    valid_utf8_split(b, d);
    let head = b.subrange(0, d);
    is_char_boundary_start_end_of_seq(head);
    if c > 0 {
        is_char_boundary_iff_not_is_continuation_byte(head, c - 1);
        lemma_boundary_after_ascii(head, c - 1);
    }
}

/// Reads a debugger command from a line: its first word names the command,
/// the rest are its arguments. A blank line gives `Null`.
pub fn lex(line: &str) -> (r: Result<Command, LexError>)
    ensures
        !is_save(tokens(line.spec_bytes())) ==> r == command_of(tokens(line.spec_bytes())),
        is_save(tokens(line.spec_bytes())) ==> {
            let t = tokens(line.spec_bytes());
            if t.len() < 2 {
                r matches Ok(Command::Save(p)) && p@ == "./out"@
            } else {
                r matches Ok(Command::Save(p)) && encode_utf8(p@) == t[1]
            }
        },
{
    let s = line.as_bytes();
    let spans = split_spans(s);
    let ghost t = tokens(s@);
    let n = spans.len();
    if n == 0 {
        return Ok(Command::Null);
    }
    let (a, b) = spans[0];
    assert(spans@[0].0 <= spans@[0].1 <= s@.len());
    assert(t[0] == s@.subrange(a as int, b as int));
    if is_word(s, a, b, "save") {
        if n < 2 {
            return Ok(Command::Save("./out".to_owned()));
        }
        let (c, d) = spans[1];
        assert(spans@[1].0 < spans@[1].1 <= s@.len());
        assert(t[1] == s@.subrange(c as int, d as int));
        proof {
            lemma_word_on_boundaries(line, c as int, d as int);
        }
        let (head, _) = line.split_at(d);
        assert(head.spec_bytes() =~= s@.subrange(0, d as int));
        let (_, word) = head.split_at(c);
        assert(word.spec_bytes() =~= s@.subrange(c as int, d as int));
        return Ok(Command::Save(word.to_owned()));
    }
    let sp = &spans;
    if word_is(s, sp, 0, "n") || word_is(s, sp, 0, "step") {
        if n < 2 {
            return Ok(Command::Step(0));
        }
        return match number_at(s, sp, 1, usize::MAX) {
            Some(v) => Ok(Command::Step(v)),
            None => Err(LexError::BadNumber),
        };
    }
    if word_is(s, sp, 0, "m") || word_is(s, sp, 0, "memory") {
        if n < 2 {
            return Ok(Command::PrintMemory);
        }
        let x = match number_at(s, sp, 1, usize::MAX) {
            Some(v) => v,
            None => return Err(LexError::BadNumber),
        };
        if n < 3 {
            return Ok(Command::PrintMemoryX(x));
        }
        return match number_at(s, sp, 2, usize::MAX) {
            Some(y) => Ok(Command::PrintMemoryRange(x, y)),
            None => Err(LexError::BadNumber),
        };
    }
    if word_is(s, sp, 0, "s") || word_is(s, sp, 0, "stack") {
        if n < 2 {
            return Ok(Command::StackGet);
        }
        let x = match number_at(s, sp, 1, usize::MAX) {
            Some(v) => v,
            None => return Err(LexError::BadNumber),
        };
        if n < 3 {
            return Ok(Command::StackGetN(x));
        }
        return match number_at(s, sp, 2, u16::MAX as usize) {
            Some(y) => Ok(Command::StackSet(x, y as u16)),
            None => Err(LexError::BadNumber),
        };
    }
    if word_is(s, sp, 0, "run") {
        return Ok(Command::Run);
    }
    if word_is(s, sp, 0, "op") || word_is(s, sp, 0, "bp") {
        if n < 2 {
            return Ok(Command::BreakPointOpGet);
        }
        return match number_at(s, sp, 1, u8::MAX as usize) {
            Some(v) => Ok(Command::BreakPointOpSet(v as u8)),
            None => Err(LexError::BadNumber),
        };
    }
    if word_is(s, sp, 0, "r") || word_is(s, sp, 0, "register") {
        if n < 2 {
            return Ok(Command::RegisterGet);
        }
        let x = match number_at(s, sp, 1, usize::MAX) {
            Some(v) => v,
            None => return Err(LexError::BadNumber),
        };
        if x > 7 {
            return Err(LexError::NoSuchRegister(x));
        }
        if n < 3 {
            return Ok(Command::RegisterGetN(x));
        }
        return match number_at(s, sp, 2, u16::MAX as usize) {
            Some(y) => Ok(Command::RegisterSet(x, y as u16)),
            None => Err(LexError::BadNumber),
        };
    }
    if word_is(s, sp, 0, "debug") {
        if n < 2 {
            return Ok(Command::DebugGet);
        }
        if word_is(s, sp, 1, "true") || word_is(s, sp, 1, "1") || word_is(s, sp, 1, "t")
            || word_is(s, sp, 1, "True") || word_is(s, sp, 1, "on") || word_is(s, sp, 1, "On") {
            return Ok(Command::DebugSet(true));
        }
        if word_is(s, sp, 1, "false") || word_is(s, sp, 1, "0") || word_is(s, sp, 1, "f")
            || word_is(s, sp, 1, "False") || word_is(s, sp, 1, "off") || word_is(s, sp, 1, "Off") {
            return Ok(Command::DebugSet(false));
        }
        return Err(LexError::BadFlag);
    }
    if word_is(s, sp, 0, "help") || word_is(s, sp, 0, "man") || word_is(s, sp, 0, "?") {
        return Ok(Command::Help);
    }
    if word_is(s, sp, 0, "halt") {
        return Ok(Command::Halt);
    }
    if word_is(s, sp, 0, "info") {
        return Ok(Command::PrintInfo);
    }
    Err(LexError::UnknownCommand)
}

} // verus!
