//! Body length and checksum of a message.
use vstd::prelude::*;
use vstd::utf8::encode_utf8;

verus! {

/// The sum of the bytes.
pub open spec fn byte_sum(bytes: Seq<u8>) -> nat
    decreases bytes.len(),
{
    if bytes.len() == 0 {
        0
    } else {
        byte_sum(bytes.drop_last()) + bytes.last() as nat
    }
}

pub proof fn lemma_byte_sum_add(a: Seq<u8>, b: Seq<u8>)
    ensures
        byte_sum(a + b) == byte_sum(a) + byte_sum(b),
    decreases b.len(),
{
    if b.len() == 0 {
        assert(a + b =~= a);
    } else {
        assert((a + b).drop_last() =~= a + b.drop_last());
        lemma_byte_sum_add(a, b.drop_last());
    }
}

/// A checksum field starts behind the delimiter at `i`.
pub open spec fn mark_at(bytes: Seq<u8>, i: int) -> bool {
    0 <= i && i + 3 < bytes.len() && bytes[i] == 1u8 && bytes[i + 1] == 49u8 && bytes[i + 2]
        == 48u8 && bytes[i + 3] == 61u8
}

/// The last delimiter before `n` that a checksum field follows.
pub open spec fn last_mark(bytes: Seq<u8>, n: int) -> Option<int>
    decreases n,
{
    if n <= 0 {
        None
    } else if mark_at(bytes, n - 1) {
        Some(n - 1)
    } else {
        last_mark(bytes, n - 1)
    }
}

/// The checksum that the bytes before the last checksum field give; -1 without such a field.
pub open spec fn checksum(bytes: Seq<u8>) -> int {
    match last_mark(bytes, bytes.len() as int) {
        Some(at) => (byte_sum(bytes.take(at + 1)) % 256) as int,
        None => -1,
    }
}

/// The first position at or after `from` where `9=` stands.
pub open spec fn length_field(bytes: Seq<u8>, from: int) -> Option<int>
    decreases bytes.len() - from,
{
    if from < 0 || from + 1 >= bytes.len() {
        None
    } else if bytes[from] == 57u8 && bytes[from + 1] == 61u8 {
        Some(from)
    } else {
        length_field(bytes, from + 1)
    }
}

/// The first delimiter at or after `from`.
pub open spec fn next_delimiter(bytes: Seq<u8>, from: int) -> Option<int>
    decreases bytes.len() - from,
{
    if from < 0 || from >= bytes.len() {
        None
    } else if bytes[from] == 1u8 {
        Some(from)
    } else {
        next_delimiter(bytes, from + 1)
    }
}

/// Where the body starts: behind the field that gives its length.
pub open spec fn body_start(bytes: Seq<u8>) -> Option<int> {
    match length_field(bytes, 0) {
        Some(at) => match next_delimiter(bytes, at) {
            Some(end) => Some(end + 1),
            None => None,
        },
        None => None,
    }
}

/// How many bytes stand between the body length field and the last checksum field.
pub open spec fn body_length(bytes: Seq<u8>) -> Option<int> {
    match (body_start(bytes), last_mark(bytes, bytes.len() as int)) {
        (Some(start), Some(end)) => if end >= start {
            Some(end - start + 1)
        } else {
            None
        },
        _ => None,
    }
}

fn find_last_mark(bytes: &[u8]) -> (at: Option<usize>)
    ensures
        (match at {
            Some(i) => Some(i as int),
            None => None,
        }) == last_mark(bytes@, bytes@.len() as int),
        at matches Some(i) ==> i < bytes@.len(),
{
    let mut n: usize = bytes.len();
    while n > 0
        invariant
            n <= bytes@.len(),
            last_mark(bytes@, bytes@.len() as int) == last_mark(bytes@, n as int),
        decreases n,
    {
        n -= 1;
        if bytes.len() - n > 3 && bytes[n] == 1 && bytes[n + 1] == 49 && bytes[n + 2] == 48
            && bytes[n + 3] == 61 {
            return Some(n);
        }
    }
    None
}

/// The checksum of a message, from its bytes up to its last checksum field; -1 where it has
/// no such field.
pub fn calculate_checksum(msg: &str) -> (sum: i32)
    ensures
        sum == checksum(encode_utf8(msg@)),
        -1 <= sum < 256,
{
    let bytes = msg.as_bytes();
    match find_last_mark(bytes) {
        None => -1,
        Some(at) => {
            let mut sum: i32 = 0;
            let mut i: usize = 0;
            assert(bytes@.take(0).len() == 0);
            while i <= at
                invariant
                    i <= at + 1,
                    at < bytes@.len(),
                    sum == byte_sum(bytes@.take(i as int)) % 256,
                decreases at + 1 - i,
            {
                assert(bytes@.take(i + 1).drop_last() =~= bytes@.take(i as int));
                let byte: u8 = bytes[i];
                sum = (sum + byte as i32) % 256;
                i += 1;
            }
            sum
        },
    }
}

fn find_body_start(bytes: &[u8]) -> (start: Option<usize>)
    ensures
        (match start {
            Some(i) => Some(i as int),
            None => None,
        }) == body_start(bytes@),
        start matches Some(i) ==> 1 <= i <= bytes@.len(),
{
    let mut i: usize = 0;
    while i < bytes.len() && bytes.len() - i > 1 && !(bytes[i] == 57 && bytes[i + 1] == 61)
        invariant
            i <= bytes@.len(),
            length_field(bytes@, 0) == length_field(bytes@, i as int),
        decreases bytes@.len() - i,
    {
        i += 1;
    }
    if i >= bytes.len() || bytes.len() - i <= 1 {
        return None;
    }
    let ghost from = i as int;
    while i < bytes.len() && bytes[i] != 1
        invariant
            from <= i <= bytes@.len(),
            0 <= from,
            next_delimiter(bytes@, from) == next_delimiter(bytes@, i as int),
        decreases bytes@.len() - i,
    {
        i += 1;
    }
    if i >= bytes.len() {
        return None;
    }
    Some(i + 1)
}

/// How long the body of a message is; none where it has no length field with a delimiter
/// behind it, or no checksum field behind that.
pub fn compute_actual_body_length(msg: &str) -> (length: Option<usize>)
    ensures
        (match length {
            Some(n) => Some(n as int),
            None => None,
        }) == body_length(encode_utf8(msg@)),
{
    let bytes = msg.as_bytes();
    let start: usize = match find_body_start(bytes) {
        Some(start) => start,
        None => {
            return None;
        },
    };
    match find_last_mark(bytes) {
        Some(end) => if end >= start {
            Some(end - start + 1)
        } else {
            None
        },
        None => None,
    }
}

} // verus!
