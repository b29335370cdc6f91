//! FIX message framing: finding where a message starts and ends in a byte stream.
use vstd::prelude::*;

verus! {

/// Where the message that starts at the front of a buffer ends.
#[derive(Debug, Clone, Copy, PartialEq, Eq, Structural)]
pub enum MessageEnd {
    /// The index of the last byte of the message, its closing delimiter.
    Complete(usize),
    /// More bytes are needed before the message can be framed.
    Incomplete,
    /// No continuation of the buffer can make this a message.
    Invalid,
}

/// The five bytes `8=FIX` that open every message.
pub open spec fn fix_begin() -> Seq<u8> {
    seq![0x38u8, 0x3du8, 0x46u8, 0x49u8, 0x58u8]
}

/// A message may start at position `at`.
pub open spec fn begins_at(bytes: Seq<u8>, at: int) -> bool {
    &&& 0 <= at
    &&& at + 5 <= bytes.len()
    &&& bytes[at] == 0x38
    &&& bytes[at + 1] == 0x3d
    &&& bytes[at + 2] == 0x46
    &&& bytes[at + 3] == 0x49
    &&& bytes[at + 4] == 0x58
}

/// The first position at or after `from` that holds `wanted`, or the length.
pub open spec fn next_byte(bytes: Seq<u8>, from: int, wanted: u8) -> int
    decreases bytes.len() - from,
{
    if from >= bytes.len() {
        bytes.len() as int
    } else if bytes[from] == wanted {
        from
    } else {
        next_byte(bytes, from + 1, wanted)
    }
}

/// The first position at or after `from` where a message may start, or the length.
pub open spec fn next_begin(bytes: Seq<u8>, from: int) -> int
    decreases bytes.len() - from,
{
    if from >= bytes.len() {
        bytes.len() as int
    } else if begins_at(bytes, from) {
        from
    } else {
        next_begin(bytes, from + 1)
    }
}

pub open spec fn is_digit(b: u8) -> bool {
    0x30 <= b <= 0x39
}

pub open spec fn all_digits(bytes: Seq<u8>) -> bool {
    forall|i: int| 0 <= i < bytes.len() ==> is_digit(#[trigger] bytes[i])
}

/// The number that a run of decimal digits stands for.
pub open spec fn decimal_value(bytes: Seq<u8>) -> nat
    decreases bytes.len(),
{
    if bytes.len() == 0 {
        0
    } else {
        decimal_value(bytes.drop_last()) * 10 + (bytes.last() - 0x30) as nat
    }
}

/// How the buffer's leading message is framed: `8=..d 9=<length>d <length bytes> 10=ddd d`.
pub open spec fn message_end(bytes: Seq<u8>, d: u8) -> MessageEnd {
    let begin_end = next_byte(bytes, 0, d);
    let length_start = begin_end + 1;
    let length_end = next_byte(bytes, length_start, d);
    let digits = bytes.subrange(length_start + 2, length_end);
    let body_end = length_end + 1 + decimal_value(digits);
    if bytes.len() < 16 || begin_end == bytes.len() || length_end == bytes.len() {
        MessageEnd::Incomplete
    } else if length_end <= length_start + 1 || bytes[length_start] != 0x39
        || bytes[length_start + 1] != 0x3d || !all_digits(digits) || body_end > usize::MAX {
        MessageEnd::Invalid
    } else if body_end + 7 > bytes.len() {
        MessageEnd::Incomplete
    } else if trailer_at(bytes, body_end, d) {
        MessageEnd::Complete((body_end + 6) as usize)
    } else {
        MessageEnd::Invalid
    }
}

/// A checksum field `10=ddd` with its delimiter stands at position `at`.
pub open spec fn trailer_at(bytes: Seq<u8>, at: int, d: u8) -> bool {
    &&& 0 <= at
    &&& at + 7 <= bytes.len()
    &&& bytes[at] == 0x31
    &&& bytes[at + 1] == 0x30
    &&& bytes[at + 2] == 0x3d
    &&& is_digit(bytes[at + 3])
    &&& is_digit(bytes[at + 4])
    &&& is_digit(bytes[at + 5])
    &&& bytes[at + 6] == d
}

pub proof fn lemma_next_byte(bytes: Seq<u8>, from: int, wanted: u8)
    requires
        0 <= from <= bytes.len(),
    ensures
        from <= next_byte(bytes, from, wanted) <= bytes.len(),
        next_byte(bytes, from, wanted) < bytes.len() ==> bytes[next_byte(bytes, from, wanted)]
            == wanted,
        forall|i: int| from <= i < next_byte(bytes, from, wanted) ==> bytes[i] != wanted,
    decreases bytes.len() - from,
{
    if from < bytes.len() && bytes[from] != wanted {
        lemma_next_byte(bytes, from + 1, wanted);
    }
}

pub proof fn lemma_next_begin(bytes: Seq<u8>, from: int)
    requires
        0 <= from <= bytes.len(),
    ensures
        from <= next_begin(bytes, from) <= bytes.len(),
        next_begin(bytes, from) < bytes.len() ==> begins_at(bytes, next_begin(bytes, from)),
        forall|i: int| from <= i < next_begin(bytes, from) ==> !begins_at(bytes, i),
    decreases bytes.len() - from,
{
    if from < bytes.len() && !begins_at(bytes, from) {
        lemma_next_begin(bytes, from + 1);
    }
}

/// The first position of `wanted` in `buffer` at or after `from`.
fn position_of(buffer: &[u8], from: usize, wanted: u8) -> (found: Option<usize>)
    requires
        from <= buffer@.len(),
    ensures
        found is Some ==> found->0 == next_byte(buffer@, from as int, wanted) && found->0
            < buffer@.len(),
        found is None ==> next_byte(buffer@, from as int, wanted) == buffer@.len(),
{
    let mut i: usize = from;
    while i < buffer.len()
        invariant
            from <= i <= buffer@.len(),
            next_byte(buffer@, from as int, wanted) == next_byte(buffer@, i as int, wanted),
        decreases buffer@.len() - i,
    {
        if buffer[i] == wanted {
            return Some(i);
        }
        i += 1;
    }
    None
}

/// The first position at or after `from` where `8=FIX` stands.
fn begin_from(buffer: &[u8], from: usize) -> (found: Option<usize>)
    requires
        from <= buffer@.len(),
    ensures
        found is Some ==> found->0 == next_begin(buffer@, from as int) && found->0 < buffer@.len(),
        found is None ==> next_begin(buffer@, from as int) == buffer@.len(),
{
    let mut i: usize = from;
    while i < buffer.len()
        invariant
            from <= i <= buffer@.len(),
            next_begin(buffer@, from as int) == next_begin(buffer@, i as int),
        decreases buffer@.len() - i,
    {
        if buffer.len() - i >= 5 && buffer[i] == 0x38 && buffer[i + 1] == 0x3d && buffer[i + 2]
            == 0x46 && buffer[i + 3] == 0x49 && buffer[i + 4] == 0x58 {
            return Some(i);
        }
        i += 1;
    }
    None
}

/// The first position where a message may start.
pub fn find_message_start(buffer: &[u8]) -> (found: Option<usize>)
    ensures
        match found {
            Some(at) => begins_at(buffer@, at as int) && forall|i: int|
                0 <= i < at ==> !begins_at(buffer@, i),
            None => forall|i: int| !begins_at(buffer@, i),
        },
{
    let found = begin_from(buffer, 0);
    proof {
        lemma_next_begin(buffer@, 0);
    }
    found
}

pub proof fn lemma_decimal_step(bytes: Seq<u8>, n: int)
    requires
        0 <= n < bytes.len(),
    ensures
        decimal_value(bytes.take(n + 1)) == decimal_value(bytes.take(n)) * 10 + (bytes[n]
            - 0x30) as nat,
{
    assert(bytes.take(n + 1).drop_last() =~= bytes.take(n));
    assert(bytes.take(n + 1).last() == bytes[n]);
}

pub proof fn lemma_decimal_monotonic(bytes: Seq<u8>, n: int)
    requires
        0 <= n <= bytes.len(),
        all_digits(bytes),
    ensures
        decimal_value(bytes.take(n)) <= decimal_value(bytes),
    decreases bytes.len() - n,
{
    if n < bytes.len() {
        lemma_decimal_step(bytes, n);
        assert(is_digit(bytes[n]));
        lemma_decimal_monotonic(bytes, n + 1);
    } else {
        assert(bytes.take(n) =~= bytes);
    }
}

fn digit(b: u8) -> (yes: bool)
    ensures
        yes == is_digit(b),
{
    b >= 0x30 && b <= 0x39
}

/// Reads a run of decimal digits; `None` for any other byte or a value past `usize`.
pub fn parse_decimal(bytes: &[u8]) -> (value: Option<usize>)
    ensures
        value is Some <==> all_digits(bytes@) && decimal_value(bytes@) <= usize::MAX,
        value is Some ==> value->0 == decimal_value(bytes@),
{
    let mut val: usize = 0;
    let mut i: usize = 0;
    while i < bytes.len()
        invariant
            0 <= i <= bytes@.len(),
            all_digits(bytes@.take(i as int)),
            val == decimal_value(bytes@.take(i as int)),
        decreases bytes@.len() - i,
    {
        let b: u8 = bytes[i];
        proof {
            lemma_decimal_step(bytes@, i as int);
        }
        if !digit(b) {
            assert(!is_digit(bytes@[i as int]));
            return None;
        }
        assert forall|k: int| 0 <= k < i + 1 implies is_digit(
            #[trigger] bytes@.take(i + 1)[k],
        ) by {
            if k < i {
                assert(bytes@.take(i as int)[k] == bytes@[k]);
            }
        }
        let digit: usize = (b - 0x30) as usize;
        if val > (usize::MAX - digit) / 10 {
            proof {
                if all_digits(bytes@) {
                    lemma_decimal_monotonic(bytes@, i + 1);
                }
            }
            return None;
        }
        val = val * 10 + digit;
        i += 1;
    }
    assert(bytes@.take(bytes@.len() as int) =~= bytes@);
    Some(val)
}

/// Finds the end of the message at the front of `buffer`.
pub fn find_message_end(buffer: &[u8], delimiter: u8) -> (end: MessageEnd)
    ensures
        end == message_end(buffer@, delimiter),
        end is Complete ==> end->Complete_0 < buffer@.len(),
{
    // Need at least "8=..|9=..|" plus checksum ("10=000|")
    if buffer.len() < 16 {
        return MessageEnd::Incomplete;
    }
    let begin_end: usize = match position_of(buffer, 0, delimiter) {
        Some(at) => at,
        None => {
            return MessageEnd::Incomplete;
        },
    };
    let length_start: usize = begin_end + 1;
    let length_end: usize = match position_of(buffer, length_start, delimiter) {
        Some(at) => at,
        None => {
            return MessageEnd::Incomplete;
        },
    };
    proof {
        lemma_next_byte(buffer@, length_start as int, delimiter);
    }
    if length_end <= length_start + 1 {
        return MessageEnd::Invalid;
    }
    if buffer[length_start] != 0x39 || buffer[length_start + 1] != 0x3d {
        return MessageEnd::Invalid;
    }
    let digits = vstd::slice::slice_subrange(buffer, length_start + 2, length_end);
    let body_len: usize = match parse_decimal(digits) {
        Some(value) => value,
        None => {
            return MessageEnd::Invalid;
        },
    };
    let body_start: usize = length_end + 1;
    let body_end: usize = match body_start.checked_add(body_len) {
        Some(value) => value,
        None => {
            return MessageEnd::Invalid;
        },
    };
    // checksum starts immediately after body
    if body_end > buffer.len() || buffer.len() - body_end < 7 {
        return MessageEnd::Incomplete;
    }
    if buffer[body_end] != 0x31 || buffer[body_end + 1] != 0x30 || buffer[body_end + 2] != 0x3d {
        return MessageEnd::Invalid;
    }
    if !digit(buffer[body_end + 3]) || !digit(buffer[body_end + 4]) || !digit(
        buffer[body_end + 5],
    ) {
        return MessageEnd::Invalid;
    }
    if buffer[body_end + 6] != delimiter {
        return MessageEnd::Invalid;
    }
    MessageEnd::Complete(body_end + 6)
}

/// `bytes` ends with the first `n` bytes of `8=FIX`.
pub open spec fn ends_with_begin_prefix(bytes: Seq<u8>, n: int) -> bool {
    n <= bytes.len() && bytes.skip(bytes.len() - n) == fix_begin().take(n)
}

/// The length of the longest proper prefix of `8=FIX` that `bytes` ends with.
pub open spec fn partial_begin(bytes: Seq<u8>) -> int {
    if ends_with_begin_prefix(bytes, 4) {
        4
    } else if ends_with_begin_prefix(bytes, 3) {
        3
    } else if ends_with_begin_prefix(bytes, 2) {
        2
    } else if ends_with_begin_prefix(bytes, 1) {
        1
    } else {
        0
    }
}

/// Keeps of `buffer` only the partial `8=FIX` that it ends with.
pub fn retain_partial_begin_string(buffer: &mut Vec<u8>)
    ensures
        final(buffer)@ == old(buffer)@.skip(old(buffer)@.len() - partial_begin(old(buffer)@)),
{
    let n: usize = buffer.len();
    let ghost b = buffer@;
    let ghost f = fix_begin();
    let keep: usize = if n >= 4 && buffer[n - 4] == 0x38 && buffer[n - 3] == 0x3d && buffer[n - 2]
        == 0x46 && buffer[n - 1] == 0x49 {
        4
    } else if n >= 3 && buffer[n - 3] == 0x38 && buffer[n - 2] == 0x3d && buffer[n - 1] == 0x46 {
        3
    } else if n >= 2 && buffer[n - 2] == 0x38 && buffer[n - 1] == 0x3d {
        2
    } else if n >= 1 && buffer[n - 1] == 0x38 {
        1
    } else {
        0
    };
    proof {
        lemma_partial_begin(b);
    }
    drop_front(buffer, n - keep);
}

/// Spells out what ending with a partial `8=FIX` means byte by byte.
pub proof fn lemma_partial_begin(b: Seq<u8>)
    ensures
        ends_with_begin_prefix(b, 4) <==> b.len() >= 4 && b[b.len() - 4] == 0x38 && b[b.len() - 3]
            == 0x3d && b[b.len() - 2] == 0x46 && b[b.len() - 1] == 0x49,
        ends_with_begin_prefix(b, 3) <==> b.len() >= 3 && b[b.len() - 3] == 0x38 && b[b.len() - 2]
            == 0x3d && b[b.len() - 1] == 0x46,
        ends_with_begin_prefix(b, 2) <==> b.len() >= 2 && b[b.len() - 2] == 0x38 && b[b.len() - 1]
            == 0x3d,
        ends_with_begin_prefix(b, 1) <==> b.len() >= 1 && b[b.len() - 1] == 0x38,
{
    let n = b.len() as int;
    let f = fix_begin();
    assert forall|k: int| 1 <= k <= 4 && k <= n implies #[trigger] ends_with_begin_prefix(b, k)
        == (forall|i: int| 0 <= i < k ==> b[n - k + i] == f[i]) by {
        let tail = b.skip(n - k);
        if ends_with_begin_prefix(b, k) {
            assert forall|i: int| 0 <= i < k implies b[n - k + i] == f[i] by {
                assert(tail[i] == f.take(k)[i]);
            }
        }
        if forall|i: int| 0 <= i < k ==> b[n - k + i] == f[i] {
            assert(tail =~= f.take(k));
        }
    }
    if n >= 4 {
        let k = 4int;
        assert(ends_with_begin_prefix(b, 4) == (forall|i: int| 0 <= i < k ==> b[n - k + i] == f[i]));
        if ends_with_begin_prefix(b, 4) {
            assert(b[n - k + 0] == f[0] && b[n - k + 1] == f[1] && b[n - k + 2] == f[2] && b[n - k
                + 3] == f[3]);
        }
    }
    if n >= 3 {
        let k = 3int;
        assert(ends_with_begin_prefix(b, 3) == (forall|i: int| 0 <= i < k ==> b[n - k + i] == f[i]));
        if ends_with_begin_prefix(b, 3) {
            assert(b[n - k + 0] == f[0] && b[n - k + 1] == f[1] && b[n - k + 2] == f[2]);
        }
    }
    if n >= 2 {
        let k = 2int;
        assert(ends_with_begin_prefix(b, 2) == (forall|i: int| 0 <= i < k ==> b[n - k + i] == f[i]));
        if ends_with_begin_prefix(b, 2) {
            assert(b[n - k + 0] == f[0] && b[n - k + 1] == f[1]);
        }
    }
    if n >= 1 {
        let k = 1int;
        assert(ends_with_begin_prefix(b, 1) == (forall|i: int| 0 <= i < k ==> b[n - k + i] == f[i]));
        if ends_with_begin_prefix(b, 1) {
            assert(b[n - k + 0] == f[0]);
        }
    }
}

/// Removes the first `count` bytes.
pub(crate) fn drop_front(buffer: &mut Vec<u8>, count: usize)
    requires
        count <= old(buffer)@.len(),
    ensures
        final(buffer)@ == old(buffer)@.skip(count as int),
{
    let rest = buffer.split_off(count);
    *buffer = rest;
}

/// What framing a buffer gives: the bytes written out, the bytes kept for later, and the
/// message that was written last.
pub struct Flushed {
    pub out: Seq<u8>,
    pub rest: Seq<u8>,
    pub last: Seq<u8>,
}

/// Frames `bytes` from `cursor` on: every complete message is written with a newline,
/// bytes before a message are skipped, and an unfinished message is kept.
pub open spec fn flushed(bytes: Seq<u8>, cursor: int, d: u8, last: Seq<u8>) -> Flushed
    decreases bytes.len() - cursor,
    when 0 <= cursor <= bytes.len() <= usize::MAX
    via flushed_terminates
{
    let start = next_begin(bytes, cursor);
    if cursor >= bytes.len() {
        Flushed { out: seq![], rest: seq![], last }
    } else if start == bytes.len() {
        let tail = bytes.skip(cursor);
        Flushed { out: seq![], rest: tail.skip(tail.len() - partial_begin(tail)), last }
    } else {
        match message_end(bytes.skip(start), d) {
            MessageEnd::Complete(end) => {
                let line = bytes.subrange(start, start + end + 1).push(0x0a);
                let later = flushed(bytes, start + end + 1, d, line);
                Flushed { out: line + later.out, rest: later.rest, last: later.last }
            },
            MessageEnd::Incomplete => Flushed { out: seq![], rest: bytes.skip(start), last },
            MessageEnd::Invalid => flushed(bytes, start + 1, d, last),
        }
    }
}

#[via_fn]
proof fn flushed_terminates(bytes: Seq<u8>, cursor: int, d: u8, last: Seq<u8>) {
    lemma_next_begin(bytes, cursor);
    let start = next_begin(bytes, cursor);
    if start < bytes.len() {
        lemma_message_end(bytes.skip(start), d);
    }
}

/// A framed message lies inside the buffer.
pub proof fn lemma_message_end(bytes: Seq<u8>, d: u8)
    requires
        bytes.len() <= usize::MAX,
    ensures
        message_end(bytes, d) matches MessageEnd::Complete(end) ==> 7 <= end < bytes.len(),
{
    lemma_next_byte(bytes, 0, d);
    let begin_end = next_byte(bytes, 0, d);
    if begin_end < bytes.len() {
        lemma_next_byte(bytes, begin_end + 1, d);
    }
}

/// What framing keeps is a tail of the buffer.
pub proof fn lemma_flushed_rest(bytes: Seq<u8>, cursor: int, d: u8, last: Seq<u8>)
    requires
        0 <= cursor <= bytes.len() <= usize::MAX,
    ensures
        flushed(bytes, cursor, d, last).rest.len() <= bytes.len() - cursor,
        flushed(bytes, cursor, d, last).rest == bytes.skip(
            bytes.len() - flushed(bytes, cursor, d, last).rest.len(),
        ),
    decreases bytes.len() - cursor,
{
    lemma_next_begin(bytes, cursor);
    let start = next_begin(bytes, cursor);
    let rest = flushed(bytes, cursor, d, last).rest;
    if cursor >= bytes.len() {
        assert(rest =~= bytes.skip(bytes.len() as int));
    } else if start == bytes.len() {
        let tail = bytes.skip(cursor);
        lemma_partial_begin(tail);
        assert(tail.skip(tail.len() - partial_begin(tail)) =~= bytes.skip(
            bytes.len() - partial_begin(tail),
        ));
    } else {
        lemma_message_end(bytes.skip(start), d);
        match message_end(bytes.skip(start), d) {
            MessageEnd::Complete(end) => {
                let line = bytes.subrange(start, start + end + 1).push(0x0a);
                lemma_flushed_rest(bytes, start + end + 1, d, line);
            },
            MessageEnd::Incomplete => {},
            MessageEnd::Invalid => {
                lemma_flushed_rest(bytes, start + 1, d, last);
            },
        }
    }
}

/// Writes every complete message of `buffer` to `out`, each followed by a newline, and keeps
/// only what may still become a message.
pub fn flush_complete_messages(
    buffer: &mut Vec<u8>,
    delimiter: u8,
    scratch: &mut Vec<u8>,
    out: &mut Vec<u8>,
)
    ensures
        final(out)@ == old(out)@ + flushed(old(buffer)@, 0, delimiter, old(scratch)@).out,
        final(buffer)@ == flushed(old(buffer)@, 0, delimiter, old(scratch)@).rest,
        final(scratch)@ == flushed(old(buffer)@, 0, delimiter, old(scratch)@).last,
{
    let total: usize = buffer.len();
    let ghost whole = buffer@;
    assert(whole.len() == total);
    let ghost goal = flushed(whole, 0, delimiter, scratch@);
    let ghost out0 = out@;
    let mut cursor: usize = 0;
    assert(out@ + goal.out =~= out0 + goal.out);
    while cursor < buffer.len()
        invariant
            buffer@ == whole,
            whole == old(buffer)@,
            whole.len() <= usize::MAX,
            out0 == old(out)@,
            goal == flushed(whole, 0, delimiter, old(scratch)@),
            0 <= cursor <= whole.len(),
            goal.rest == flushed(whole, cursor as int, delimiter, scratch@).rest,
            goal.last == flushed(whole, cursor as int, delimiter, scratch@).last,
            out@ + flushed(whole, cursor as int, delimiter, scratch@).out == out0 + goal.out,
        decreases whole.len() - cursor,
    {
        proof {
            lemma_next_begin(whole, cursor as int);
        }
        let start: usize = match begin_from(buffer.as_slice(), cursor) {
            Some(at) => at,
            None => {
                drop_front(buffer, cursor);
                retain_partial_begin_string(buffer);
                assert(out@ + Seq::<u8>::empty() =~= out@);
                return ;
            },
        };
        let tail = vstd::slice::slice_subrange(buffer.as_slice(), start, buffer.len());
        assert(tail@ =~= whole.skip(start as int));
        match find_message_end(tail, delimiter) {
            MessageEnd::Complete(rel_end) => {
                let end: usize = start + rel_end;
                scratch.clear();
                let message = vstd::slice::slice_subrange(buffer.as_slice(), start, end + 1);
                scratch.extend_from_slice(message);
                scratch.push(0x0a);  // newline so each FIX message prints on its own line
                assert(scratch@ =~= whole.subrange(start as int, end + 1).push(0x0a));
                let ghost before = out@;
                out.extend_from_slice(scratch.as_slice());
                assert(out@ =~= before + scratch@);
                cursor = end + 1;
                assert(out@ + flushed(whole, cursor as int, delimiter, scratch@).out =~= before + (
                scratch@ + flushed(whole, cursor as int, delimiter, scratch@).out));
            },
            MessageEnd::Incomplete => {
                drop_front(buffer, start);
                assert(out@ + Seq::<u8>::empty() =~= out@);
                return ;
            },
            MessageEnd::Invalid => {
                cursor = start + 1;
            },
        }
    }
    assert(out@ + Seq::<u8>::empty() =~= out@);
    buffer.clear();
}

proof fn lemma_next_byte_extend(x: Seq<u8>, b: Seq<u8>, from: int, d: u8)
    requires
        0 <= from <= x.len(),
        next_byte(x, from, d) < x.len(),
    ensures
        next_byte(x + b, from, d) == next_byte(x, from, d),
    decreases x.len() - from,
{
    if from < x.len() && x[from] != d {
        lemma_next_byte_extend(x, b, from + 1, d);
    }
}

/// Once a message is framed or refused, more bytes behind it change nothing.
pub proof fn lemma_message_end_extend(x: Seq<u8>, b: Seq<u8>, d: u8)
    requires
        x.len() + b.len() <= usize::MAX,
        message_end(x, d) != MessageEnd::Incomplete,
    ensures
        message_end(x + b, d) == message_end(x, d),
{
    lemma_next_byte(x, 0, d);
    let begin_end = next_byte(x, 0, d);
    lemma_next_byte_extend(x, b, 0, d);
    lemma_next_byte(x, begin_end + 1, d);
    lemma_next_byte_extend(x, b, begin_end + 1, d);
    let length_end = next_byte(x, begin_end + 1, d);
    if length_end > begin_end + 2 {
        assert((x + b).subrange(begin_end + 3, length_end) =~= x.subrange(
            begin_end + 3,
            length_end,
        ));
    }
}

proof fn lemma_next_begin_shift(w: Seq<u8>, c: int, j: int)
    requires
        0 <= c,
        0 <= j,
        c + j <= w.len(),
    ensures
        next_begin(w, c + j) == c + next_begin(w.skip(c), j),
    decreases w.len() - c - j,
{
    let t = w.skip(c);
    if j < t.len() {
        assert(begins_at(t, j) == begins_at(w, c + j));
        if !begins_at(t, j) {
            lemma_next_begin_shift(w, c, j + 1);
        }
    }
}

/// Framing from a position sees only the bytes from there on.
pub proof fn lemma_flushed_shift(w: Seq<u8>, c: int, j: int, d: u8, last: Seq<u8>)
    requires
        0 <= c,
        0 <= j,
        c + j <= w.len() <= usize::MAX,
    ensures
        flushed(w, c + j, d, last) == flushed(w.skip(c), j, d, last),
    decreases w.len() - c - j,
{
    let t = w.skip(c);
    lemma_next_begin_shift(w, c, j);
    lemma_next_begin(t, j);
    let start = next_begin(t, j);
    if j < t.len() {
        if start == t.len() {
            assert(w.skip(c + j) =~= t.skip(j));
        } else {
            assert(w.skip(c + start) =~= t.skip(start));
            lemma_message_end(t.skip(start), d);
            match message_end(t.skip(start), d) {
                MessageEnd::Complete(end) => {
                    assert(w.subrange(c + start, c + start + end + 1) =~= t.subrange(
                        start,
                        start + end + 1,
                    ));
                    let line = t.subrange(start, start + end + 1).push(0x0a);
                    lemma_flushed_shift(w, c, start + end + 1, d, line);
                },
                MessageEnd::Incomplete => {},
                MessageEnd::Invalid => {
                    lemma_flushed_shift(w, c, start + 1, d, last);
                },
            }
        }
    }
}

/// Skipping bytes where no message can start changes nothing, as long as a partial `8=FIX`
/// at the end stays in view.
pub proof fn lemma_flushed_skip(w: Seq<u8>, c: int, k: int, d: u8, last: Seq<u8>)
    requires
        0 <= c <= k <= w.len() <= usize::MAX,
        forall|i: int| c <= i < k ==> !begins_at(w, i),
        forall|n: int| 1 <= n <= 4 && c <= w.len() - n < k ==> !ends_with_begin_prefix(w, n),
    ensures
        flushed(w, c, d, last) == flushed(w, k, d, last),
{
    lemma_next_begin(w, c);
    lemma_next_begin(w, k);
    let start = next_begin(w, c);
    assert(next_begin(w, k) == start) by {
        if start < k && start < w.len() {
            assert(!begins_at(w, start));
        }
        if start < w.len() && next_begin(w, k) != start {
            assert(begins_at(w, start));
        }
        if next_begin(w, k) < w.len() && next_begin(w, k) != start {
            assert(begins_at(w, next_begin(w, k)));
        }
    }
    if start == w.len() && c < w.len() {
        let tc = w.skip(c);
        let tk = w.skip(k);
        lemma_partial_begin(w);
        lemma_partial_begin(tc);
        lemma_partial_begin(tk);
        assert(forall|n: int|
            1 <= n <= 4 && w.len() - n < k ==> !(#[trigger] ends_with_begin_prefix(tk, n)));
        assert(partial_begin(tc) == partial_begin(tk));
        assert(tc.skip(tc.len() - partial_begin(tc)) =~= tk.skip(tk.len() - partial_begin(tk)));
        if k == w.len() {
            assert(tk.skip(tk.len() - partial_begin(tk)) =~= seq![]);
        }
    }
}

/// A start that `a` leaves open behind `c` is part of the partial start that it ends with.
proof fn lemma_open_start(a: Seq<u8>, c: int, n: int)
    requires
        0 <= c <= a.len() - n,
        1 <= n <= 4,
        ends_with_begin_prefix(a, n),
    ensures
        n <= partial_begin(a.skip(c)),
{
    let tail = a.skip(c);
    assert(tail.skip(tail.len() - n) =~= a.skip(a.len() - n));
    assert(ends_with_begin_prefix(tail, n));
}

/// No message starts at `i`, whatever follows, unless `a` ends with a part of its start.
proof fn lemma_no_begin_at(a: Seq<u8>, b: Seq<u8>, c: int, i: int)
    requires
        0 <= c <= i < a.len() - partial_begin(a.skip(c)),
        !begins_at(a, i),
    ensures
        !begins_at(a + b, i),
{
    let w = a + b;
    lemma_partial_begin(a);
    assert(forall|m: int| 0 <= m < a.len() ==> #[trigger] w[m] == a[m]);
    if begins_at(w, i) {
        if i + 5 <= a.len() {
            assert(begins_at(a, i));
        } else {
            let n = a.len() - i;
            assert(w[i] == 0x38 && w[i + 1] == 0x3d && w[i + 2] == 0x46 && w[i + 3] == 0x49);
            assert(ends_with_begin_prefix(a, n));
            lemma_open_start(a, c, n);
        }
    }
}

/// A partial start at the end of `a` and what follows does not begin in `a` ahead of the one
/// that `a` ends with.
proof fn lemma_no_partial_at(a: Seq<u8>, b: Seq<u8>, c: int, n: int)
    requires
        1 <= n <= 4,
        0 <= c <= (a + b).len() - n < a.len() - partial_begin(a.skip(c)),
    ensures
        !ends_with_begin_prefix(a + b, n),
{
    let w = a + b;
    let i = w.len() - n;
    if ends_with_begin_prefix(w, n) {
        let k = a.len() - i;
        let f = fix_begin();
        assert(w.skip(i).take(k) =~= a.skip(i));
        assert(f.take(n).take(k) =~= f.take(k));
        assert(ends_with_begin_prefix(a, k));
        lemma_open_start(a, c, k);
    }
}

/// Where `a` holds no start from `c` on, none begins before the partial start that it ends
/// with, whatever follows.
proof fn lemma_no_begin_across(a: Seq<u8>, b: Seq<u8>, c: int)
    requires
        0 <= c < a.len(),
        forall|i: int| c <= i < a.len() ==> !begins_at(a, i),
    ensures
        forall|i: int|
            c <= i < a.len() - partial_begin(a.skip(c)) ==> !begins_at(a + b, i),
        forall|n: int|
            1 <= n <= 4 && c <= (a + b).len() - n < a.len() - partial_begin(a.skip(c))
                ==> !ends_with_begin_prefix(a + b, n),
{
    let w = a + b;
    let k = a.len() - partial_begin(a.skip(c));
    assert forall|i: int| c <= i < k implies !begins_at(w, i) by {
        lemma_no_begin_at(a, b, c, i);
    }
    assert forall|n: int| 1 <= n <= 4 && c <= w.len() - n < k implies !ends_with_begin_prefix(
        w,
        n,
    ) by {
        lemma_no_partial_at(a, b, c, n);
    }
}

/// Framing `a` from `c` on and then what is left of it with `b` is framing the whole.
spec fn splits(a: Seq<u8>, b: Seq<u8>, c: int, d: u8, last: Seq<u8>) -> bool {
    let first = flushed(a, c, d, last);
    let second = flushed(first.rest + b, 0, d, first.last);
    flushed(a + b, c, d, last) == (Flushed {
        out: first.out + second.out,
        rest: second.rest,
        last: second.last,
    })
}

proof fn lemma_start_stays(a: Seq<u8>, b: Seq<u8>, c: int)
    requires
        0 <= c < a.len(),
        next_begin(a, c) < a.len(),
    ensures
        next_begin(a + b, c) == next_begin(a, c),
{
    let w = a + b;
    lemma_next_begin(a, c);
    lemma_next_begin(w, c);
    let start = next_begin(a, c);
    assert(begins_at(w, start));
    if next_begin(w, c) < start {
        let i = next_begin(w, c);
        assert(begins_at(w, i));
        assert(begins_at(a, i));
    }
}

proof fn lemma_split_at_end(a: Seq<u8>, b: Seq<u8>, d: u8, last: Seq<u8>)
    requires
        a.len() + b.len() <= usize::MAX,
    ensures
        splits(a, b, a.len() as int, d, last),
{
    let w = a + b;
    let c = a.len() as int;
    let first = flushed(a, c, d, last);
    let second = flushed(first.rest + b, 0, d, first.last);
    lemma_flushed_shift(w, c, 0, d, last);
    assert(w.skip(c) =~= b);
    assert(first.rest + b =~= b);
    assert(first.out + second.out =~= second.out);
}

proof fn lemma_split_without_start(a: Seq<u8>, b: Seq<u8>, c: int, d: u8, last: Seq<u8>)
    requires
        0 <= c < a.len(),
        a.len() + b.len() <= usize::MAX,
        next_begin(a, c) == a.len(),
    ensures
        splits(a, b, c, d, last),
{
    let w = a + b;
    let first = flushed(a, c, d, last);
    let second = flushed(first.rest + b, 0, d, first.last);
    lemma_next_begin(a, c);
    let tail = a.skip(c);
    lemma_partial_begin(tail);
    let k = a.len() - partial_begin(tail);
    assert(first.rest + b =~= w.skip(k));
    lemma_flushed_shift(w, k, 0, d, last);
    assert(first.out + second.out =~= second.out);
    lemma_no_begin_across(a, b, c);
    lemma_flushed_skip(w, c, k, d, last);
}

proof fn lemma_split_in_message(a: Seq<u8>, b: Seq<u8>, c: int, d: u8, last: Seq<u8>)
    requires
        0 <= c < a.len(),
        a.len() + b.len() <= usize::MAX,
        next_begin(a, c) < a.len(),
        message_end(a.skip(next_begin(a, c)), d) is Incomplete,
    ensures
        splits(a, b, c, d, last),
{
    let w = a + b;
    let first = flushed(a, c, d, last);
    let second = flushed(first.rest + b, 0, d, first.last);
    lemma_next_begin(a, c);
    lemma_start_stays(a, b, c);
    let start = next_begin(a, c);
    lemma_flushed_shift(w, start, 0, d, last);
    assert(first.rest + b =~= w.skip(start));
    lemma_next_begin(w, start);
    lemma_next_begin(w, c);
    assert(next_begin(w, start) == start);
    assert(first.out + second.out =~= second.out);
    assert(flushed(w, c, d, last) == flushed(w, start, d, last));
}

proof fn lemma_split_after_message(
    a: Seq<u8>,
    b: Seq<u8>,
    c: int,
    d: u8,
    last: Seq<u8>,
    end: usize,
)
    requires
        0 <= c < a.len(),
        a.len() + b.len() <= usize::MAX,
        next_begin(a, c) < a.len(),
        message_end(a.skip(next_begin(a, c)), d) == MessageEnd::Complete(end),
        ({
            let start = next_begin(a, c);
            splits(a, b, start + end + 1, d, a.subrange(start, start + end + 1).push(0x0a))
        }),
    ensures
        splits(a, b, c, d, last),
{
    let w = a + b;
    lemma_next_begin(a, c);
    lemma_start_stays(a, b, c);
    let start = next_begin(a, c);
    assert(w.skip(start) =~= a.skip(start) + b);
    lemma_message_end(a.skip(start), d);
    lemma_message_end_extend(a.skip(start), b, d);
    assert(w.subrange(start, start + end + 1) =~= a.subrange(start, start + end + 1));
    let line = a.subrange(start, start + end + 1).push(0x0a);
    let later = flushed(a, start + end + 1, d, line);
    let second = flushed(later.rest + b, 0, d, later.last);
    assert(line + later.out + second.out =~= line + (later.out + second.out));
}

proof fn lemma_split_after_false_start(a: Seq<u8>, b: Seq<u8>, c: int, d: u8, last: Seq<u8>)
    requires
        0 <= c < a.len(),
        a.len() + b.len() <= usize::MAX,
        next_begin(a, c) < a.len(),
        message_end(a.skip(next_begin(a, c)), d) is Invalid,
        splits(a, b, next_begin(a, c) + 1, d, last),
    ensures
        splits(a, b, c, d, last),
{
    let w = a + b;
    lemma_next_begin(a, c);
    lemma_start_stays(a, b, c);
    let start = next_begin(a, c);
    assert(w.skip(start) =~= a.skip(start) + b);
    lemma_message_end_extend(a.skip(start), b, d);
}

proof fn lemma_split_from(a: Seq<u8>, b: Seq<u8>, c: int, d: u8, last: Seq<u8>)
    requires
        0 <= c <= a.len(),
        a.len() + b.len() <= usize::MAX,
    ensures
        splits(a, b, c, d, last),
    decreases a.len() - c,
{
    lemma_next_begin(a, c);
    let start = next_begin(a, c);
    if c == a.len() {
        lemma_split_at_end(a, b, d, last);
    } else if start < a.len() {
        lemma_message_end(a.skip(start), d);
        match message_end(a.skip(start), d) {
            MessageEnd::Complete(end) => {
                let line = a.subrange(start, start + end + 1).push(0x0a);
                lemma_split_from(a, b, start + end + 1, d, line);
                lemma_split_after_message(a, b, c, d, last, end);
            },
            MessageEnd::Incomplete => {
                lemma_split_in_message(a, b, c, d, last);
            },
            MessageEnd::Invalid => {
                lemma_split_from(a, b, start + 1, d, last);
                lemma_split_after_false_start(a, b, c, d, last);
            },
        }
    } else {
        lemma_split_without_start(a, b, c, d, last);
    }
}

/// However a stream is cut in two, framing the parts one after the other writes the same
/// messages and keeps the same bytes as framing the whole at once.
pub proof fn law_framing_ignores_cuts(a: Seq<u8>, b: Seq<u8>, d: u8, last: Seq<u8>)
    requires
        a.len() + b.len() <= usize::MAX,
    ensures
        ({
            let first = flushed(a, 0, d, last);
            let second = flushed(first.rest + b, 0, d, first.last);
            &&& flushed(a + b, 0, d, last).out == first.out + second.out
            &&& flushed(a + b, 0, d, last).rest == second.rest
            &&& flushed(a + b, 0, d, last).last == second.last
        }),
{
    lemma_split_from(a, b, 0, d, last);
}

} // verus!
