//! Which bytes are messages, and which messages come out of a stream.
use crate::framing::{
    all_digits, begins_at, decimal_value, ends_with_begin_prefix, flushed, is_digit,
    lemma_flushed_shift, lemma_flushed_skip, lemma_message_end_extend, lemma_next_begin,
    lemma_next_byte, lemma_partial_begin, message_end, next_byte, partial_begin, trailer_at,
    MessageEnd,
};
use crate::reassembly_laws::law_messages_come_out_whole;
use vstd::prelude::*;

verus! {

/// The bytes of a number's decimal digits, without zeros in front; nothing for zero.
pub open spec fn digit_bytes(n: nat) -> Seq<u8>
    decreases n,
{
    if n == 0 {
        seq![]
    } else {
        digit_bytes(n / 10).push((0x30 + n % 10) as u8)
    }
}

/// A number as it stands in a length field: `zeros` zeros and then its digits.
pub open spec fn length_bytes(zeros: nat, n: nat) -> Seq<u8> {
    Seq::new(zeros, |i: int| 0x30u8) + digit_bytes(n)
}

/// A message in its parts. The length of the body is not among them: it is written as it is.
pub struct Parts {
    /// What stands before the first delimiter.
    pub begin: Seq<u8>,
    /// How many zeros stand in front of the length.
    pub zeros: nat,
    /// What stands between the length field and the checksum field.
    pub body: Seq<u8>,
    /// The three digits of the checksum.
    pub sum: Seq<u8>,
}

/// What stands ahead of the body: the begin string and the length field, each with its
/// delimiter.
pub open spec fn head(begin: Seq<u8>, zeros: nat, n: nat, d: u8) -> Seq<u8> {
    begin.push(d) + seq![0x39u8, 0x3du8] + length_bytes(zeros, n).push(d)
}

impl Parts {
    /// The bytes of the message: begin string, length field, body and checksum field.
    pub open spec fn bytes(self, d: u8) -> Seq<u8> {
        head(self.begin, self.zeros, self.body.len(), d) + self.body + (seq![0x31u8, 0x30u8, 0x3du8]
            + self.sum.push(d))
    }

    /// The begin string ends where it seems to, and the checksum has three digits.
    pub open spec fn sound(self, d: u8) -> bool {
        &&& !self.begin.contains(d)
        &&& self.sum.len() == 3
        &&& forall|i: int| 0 <= i < 3 ==> 0x30 <= #[trigger] self.sum[i] <= 0x39
    }
}

/// A byte that can part the fields: it is none of those in a length field.
pub open spec fn parts_fields(d: u8) -> bool {
    d != 0x3d && !(0x30 <= d <= 0x39)
}

proof fn lemma_digit_bytes(n: nat)
    ensures
        all_digits(digit_bytes(n)),
        decimal_value(digit_bytes(n)) == n,
    decreases n,
{
    if n > 0 {
        lemma_digit_bytes(n / 10);
        let text = digit_bytes(n);
        assert(text.drop_last() =~= digit_bytes(n / 10));
        assert(text.last() == (0x30 + n % 10) as u8);
        assert forall|i: int| 0 <= i < text.len() implies is_digit(#[trigger] text[i]) by {
            if i < text.len() - 1 {
                assert(text[i] == digit_bytes(n / 10)[i]);
            }
        }
    }
}

proof fn lemma_length_bytes(zeros: nat, n: nat)
    ensures
        all_digits(length_bytes(zeros, n)),
        decimal_value(length_bytes(zeros, n)) == n,
    decreases zeros, n,
{
    let text = length_bytes(zeros, n);
    lemma_digit_bytes(n);
    assert forall|i: int| 0 <= i < text.len() implies is_digit(#[trigger] text[i]) by {
        if i >= zeros {
            assert(text[i] == digit_bytes(n)[i - zeros]);
        }
    }
    if n > 0 {
        lemma_length_bytes(zeros, n / 10);
        assert(text.drop_last() =~= length_bytes(zeros, n / 10));
        assert(text.last() == (0x30 + n % 10) as u8);
    } else if zeros > 0 {
        lemma_length_bytes((zeros - 1) as nat, 0);
        assert(digit_bytes(0) =~= seq![]);
        assert(text.drop_last() =~= length_bytes((zeros - 1) as nat, 0));
        assert(text.last() == 0x30);
    } else {
        assert(text =~= seq![]);
    }
}

/// Every run of digits is a number behind some zeros.
proof fn lemma_digits_are_a_number(text: Seq<u8>) -> (zeros: nat)
    requires
        all_digits(text),
    ensures
        text == length_bytes(zeros, decimal_value(text)),
    decreases text.len(),
{
    if text.len() == 0 {
        assert(text =~= length_bytes(0, 0));
        0
    } else {
        let shorter = text.drop_last();
        assert forall|i: int| 0 <= i < shorter.len() implies is_digit(#[trigger] shorter[i]) by {
            assert(shorter[i] == text[i]);
        }
        let zeros = lemma_digits_are_a_number(shorter);
        let m = decimal_value(shorter);
        let last = text.last();
        assert(is_digit(text[text.len() - 1]));
        let n = decimal_value(text);
        assert(n == m * 10 + (last - 0x30));
        if n == 0 {
            assert(digit_bytes(0) =~= seq![]);
            assert(text =~= length_bytes(zeros + 1, 0)) by {
                assert(shorter =~= length_bytes(zeros, 0));
                assert(text =~= shorter.push(0x30));
            }
            zeros + 1
        } else {
            assert(n / 10 == m && n % 10 == last - 0x30);
            assert(digit_bytes(n) == digit_bytes(m).push(last));
            assert(text =~= length_bytes(zeros, n)) by {
                assert(text =~= shorter.push(last));
            }
            zeros
        }
    }
}

proof fn lemma_next_is(bytes: Seq<u8>, from: int, at: int, d: u8)
    requires
        0 <= from <= at < bytes.len(),
        bytes[at] == d,
        forall|i: int| from <= i < at ==> bytes[i] != d,
    ensures
        next_byte(bytes, from, d) == at,
{
    lemma_next_byte(bytes, from, d);
    let found = next_byte(bytes, from, d);
    if found < at {
        assert(bytes[found] == d);
    }
    if found > at {
        assert(bytes[at] != d);
    }
}

/// Where the first two delimiters stand behind two fields.
proof fn lemma_two_fields(bytes: Seq<u8>, begin: Seq<u8>, field: Seq<u8>, rest: Seq<u8>, d: u8)
    requires
        !begin.contains(d),
        !field.contains(d),
        bytes == begin.push(d) + field.push(d) + rest,
    ensures
        next_byte(bytes, 0, d) == begin.len(),
        next_byte(bytes, begin.len() as int + 1, d) == begin.len() + 1 + field.len(),
        bytes.subrange(begin.len() as int + 1, begin.len() as int + 1 + field.len()) == field,
        bytes.skip(begin.len() as int + field.len() + 2) == rest,
{
    let a = begin.len() as int;
    let b = a + 1 + field.len();
    assert forall|i: int| 0 <= i < a implies bytes[i] != d by {
        assert(bytes[i] == begin[i]);
        assert(begin.contains(begin[i]));
    }
    assert(bytes[a] == d);
    lemma_next_is(bytes, 0, a, d);
    assert forall|i: int| a + 1 <= i < b implies bytes[i] != d by {
        assert(bytes[i] == field[i - a - 1]);
        assert(field.contains(field[i - a - 1]));
    }
    assert(bytes[b] == d);
    lemma_next_is(bytes, a + 1, b, d);
    assert(bytes.subrange(a + 1, b) =~= field);
    assert(bytes.skip(b + 1) =~= rest);
}

/// What framing sees of a message's head, whatever follows.
proof fn lemma_head(begin: Seq<u8>, zeros: nat, n: nat, rest: Seq<u8>, d: u8)
    requires
        !begin.contains(d),
        parts_fields(d),
    ensures
        ({
            let bytes = head(begin, zeros, n, d) + rest;
            let a = next_byte(bytes, 0, d);
            let b = next_byte(bytes, a + 1, d);
            &&& a == begin.len()
            &&& b + 1 == head(begin, zeros, n, d).len()
            &&& b >= a + 3
            &&& bytes[a + 1] == 0x39
            &&& bytes[a + 2] == 0x3d
            &&& all_digits(bytes.subrange(a + 3, b))
            &&& decimal_value(bytes.subrange(a + 3, b)) == n
            &&& bytes.skip(b + 1) == rest
        }),
{
    let text = length_bytes(zeros, n);
    let field = seq![0x39u8, 0x3du8] + text;
    let bytes = head(begin, zeros, n, d) + rest;
    lemma_length_bytes(zeros, n);
    assert forall|i: int| 0 <= i < field.len() implies field[i] != d by {
        if i >= 2 {
            assert(field[i] == text[i - 2]);
            assert(is_digit(text[i - 2]));
        }
    }
    assert(bytes =~= begin.push(d) + field.push(d) + rest);
    lemma_two_fields(bytes, begin, field, rest, d);
    let a = begin.len() as int;
    let b = a + 1 + field.len();
    assert(bytes[a + 1] == field[0] && bytes[a + 2] == field[1]) by {
        assert(bytes.subrange(a + 1, b)[0] == field[0]);
        assert(bytes.subrange(a + 1, b)[1] == field[1]);
    }
    assert(bytes.subrange(a + 3, b) =~= text) by {
        assert(bytes.subrange(a + 1, b).skip(2) =~= bytes.subrange(a + 3, b));
        assert(field.skip(2) =~= text);
    }
}

/// Whole messages are complete, whatever their begin string, the length of their body and the
/// bytes in it, and whatever follows: they end with the delimiter of the checksum field. Left
/// out are those of fewer than sixteen bytes, which wait for more.
pub proof fn law_whole_messages_are_complete(m: Parts, rest: Seq<u8>, d: u8)
    requires
        m.sound(d),
        parts_fields(d),
        m.bytes(d).len() >= 16,
        m.bytes(d).len() + rest.len() <= usize::MAX,
    ensures
        message_end(m.bytes(d) + rest, d) == MessageEnd::Complete((m.bytes(d).len() - 1) as usize),
        message_end(m.bytes(d), d) == MessageEnd::Complete((m.bytes(d).len() - 1) as usize),
{
    let n = m.body.len();
    let trailer = seq![0x31u8, 0x30u8, 0x3du8] + m.sum.push(d);
    let bytes = m.bytes(d);
    let h = head(m.begin, m.zeros, n, d);
    assert(bytes =~= h + (m.body + trailer));
    lemma_head(m.begin, m.zeros, n, m.body + trailer, d);
    let end = h.len() as int + n;
    assert(forall|i: int| 0 <= i < 7 ==> bytes[end + i] == #[trigger] trailer[i]);
    assert(bytes[end] == trailer[0] && bytes[end + 1] == trailer[1] && bytes[end + 2] == trailer[2]
        && bytes[end + 3] == trailer[3] && bytes[end + 4] == trailer[4] && bytes[end + 5]
        == trailer[5] && bytes[end + 6] == trailer[6]);
    assert(trailer[3] == m.sum[0] && trailer[4] == m.sum[1] && trailer[5] == m.sum[2]);
    assert(trailer_at(bytes, end, d));
    lemma_message_end_extend(bytes, rest, d);
}

/// What is complete is a whole message: a begin string, a length field that gives the length
/// of the body to the byte, the body, and a checksum field of three digits.
pub proof fn law_complete_messages_are_whole(bytes: Seq<u8>, d: u8) -> (m: Parts)
    requires
        bytes.len() <= usize::MAX,
        message_end(bytes, d) is Complete,
    ensures
        m.sound(d),
        bytes.take(message_end(bytes, d)->Complete_0 + 1) == m.bytes(d),
{
    lemma_next_byte(bytes, 0, d);
    let a = next_byte(bytes, 0, d);
    lemma_next_byte(bytes, a + 1, d);
    let b = next_byte(bytes, a + 1, d);
    let text = bytes.subrange(a + 3, b);
    let n = decimal_value(text);
    let zeros = lemma_digits_are_a_number(text);
    let end = b + 1 + n;
    let m = Parts {
        begin: bytes.take(a),
        zeros,
        body: bytes.subrange(b + 1, end),
        sum: bytes.subrange(end + 3, end + 6),
    };
    assert forall|i: int| 0 <= i < a implies m.begin[i] != d by {
        assert(bytes[i] != d);
    }
    assert(m.body.len() == n);
    assert(bytes.take(end + 7) =~= m.bytes(d)) by {
        let w = m.bytes(d);
        assert(length_bytes(zeros, n) == text);
        assert(head(m.begin, zeros, n, d) =~= bytes.take(b + 1));
        assert(w =~= bytes.take(b + 1) + bytes.subrange(b + 1, end) + bytes.subrange(end, end + 7))
            by {
            assert(seq![0x31u8, 0x30u8, 0x3du8] + m.sum.push(d) =~= bytes.subrange(end, end + 7));
        }
    }
    m
}

/// The beginning of a message waits for the rest of it, wherever it is cut.
pub proof fn law_parts_of_messages_wait(m: Parts, k: int, d: u8)
    requires
        m.sound(d),
        parts_fields(d),
        0 <= k < m.bytes(d).len() <= usize::MAX,
    ensures
        message_end(m.bytes(d).take(k), d) is Incomplete,
{
    let bytes = m.bytes(d);
    let part = bytes.take(k);
    if message_end(part, d) !is Incomplete {
        let rest = bytes.skip(k);
        assert(part + rest =~= bytes);
        lemma_message_end_extend(part, rest, d);
        law_whole_messages_are_complete(m, seq![], d);
        let end = message_end(bytes, d)->Complete_0;
        assert(end == bytes.len() - 1);
        crate::framing::lemma_message_end(part, d);
    }
}

/// Bytes wait for more where there are fewer than sixteen, where the begin string or the
/// length field is not closed yet, or where the body and the checksum field are not all there.
pub proof fn law_unfinished_messages_wait(
    bytes: Seq<u8>,
    begin: Seq<u8>,
    zeros: nat,
    n: nat,
    rest: Seq<u8>,
    d: u8,
)
    requires
        bytes.len() <= usize::MAX,
    ensures
        bytes.len() < 16 ==> message_end(bytes, d) is Incomplete,
        (forall|i: int, j: int|
            0 <= i < j < bytes.len() ==> !(#[trigger] bytes[i] == d && #[trigger] bytes[j] == d))
            ==> message_end(bytes, d) is Incomplete,
        !begin.contains(d) && parts_fields(d) && rest.len() < n + 7 && head(
            begin,
            zeros,
            n,
            d,
        ).len() + n <= usize::MAX ==> message_end(head(begin, zeros, n, d) + rest, d)
            is Incomplete,
{
    lemma_next_byte(bytes, 0, d);
    let a = next_byte(bytes, 0, d);
    if a < bytes.len() {
        lemma_next_byte(bytes, a + 1, d);
    }
    if !begin.contains(d) && parts_fields(d) {
        lemma_head(begin, zeros, n, rest, d);
    }
}

/// Bytes are refused for good where the second field is no length, where the length is beyond
/// all bounds, or where no checksum field stands behind the body.
pub proof fn law_other_bytes_are_refused(
    begin: Seq<u8>,
    field: Seq<u8>,
    zeros: nat,
    n: nat,
    body: Seq<u8>,
    tail: Seq<u8>,
    rest: Seq<u8>,
    d: u8,
)
    requires
        !begin.contains(d),
        !field.contains(d),
        parts_fields(d),
    ensures
        ({
            let bytes = begin.push(d) + field.push(d) + rest;
            bytes.len() >= 16 && (forall|z: nat, m: nat|
                field != seq![0x39u8, 0x3du8] + #[trigger] length_bytes(z, m)) ==> message_end(
                bytes,
                d,
            ) is Invalid
        }),
        ({
            let bytes = head(begin, zeros, n, d) + rest;
            bytes.len() >= 16 && head(begin, zeros, n, d).len() + n > usize::MAX ==> message_end(
                bytes,
                d,
            ) is Invalid
        }),
        ({
            let bytes = head(begin, zeros, body.len(), d) + body + tail + rest;
            let closes = tail.take(3) == seq![0x31u8, 0x30u8, 0x3du8] && 0x30 <= tail[3] <= 0x39
                && 0x30 <= tail[4] <= 0x39 && 0x30 <= tail[5] <= 0x39 && tail[6] == d;
            tail.len() == 7 && !closes && 16 <= bytes.len() <= usize::MAX ==> message_end(bytes, d)
                is Invalid
        }),
{
    let one = begin.push(d) + field.push(d) + rest;
    lemma_two_fields(one, begin, field, rest, d);
    let a = begin.len() as int;
    let b = a + 1 + field.len();
    if one.len() >= 16 && message_end(one, d) !is Invalid && (forall|z: nat, m: nat|
        field != seq![0x39u8, 0x3du8] + #[trigger] length_bytes(z, m)) {
        let text = one.subrange(a + 3, b);
        let z = lemma_digits_are_a_number(text);
        assert(field =~= seq![0x39u8, 0x3du8] + text) by {
            assert(one.subrange(a + 1, b) == field);
            assert(field[0] == one[a + 1] && field[1] == one[a + 2]);
            assert(text =~= field.skip(2));
        }
        assert(field == seq![0x39u8, 0x3du8] + length_bytes(z, decimal_value(text)));
    }
    lemma_head(begin, zeros, n, rest, d);
    let three = head(begin, zeros, body.len(), d) + body + tail + rest;
    assert(three =~= head(begin, zeros, body.len(), d) + (body + tail + rest));
    lemma_head(begin, zeros, body.len(), body + tail + rest, d);
    if tail.len() == 7 {
        let end = head(begin, zeros, body.len(), d).len() as int + body.len();
        assert(forall|i: int| 0 <= i < 7 ==> three[end + i] == #[trigger] tail[i]);
        assert(three[end] == tail[0] && three[end + 1] == tail[1] && three[end + 2] == tail[2]
            && three[end + 3] == tail[3] && three[end + 4] == tail[4] && three[end + 5] == tail[5]
            && three[end + 6] == tail[6]);
        if trailer_at(three, end, d) {
            assert(tail.take(3) =~= seq![0x31u8, 0x30u8, 0x3du8]);
        }
    }
}

/// Bytes without the one that opens a message are passed over.
proof fn lemma_noise(noise: Seq<u8>, rest: Seq<u8>, d: u8, last: Seq<u8>)
    requires
        !noise.contains(0x38u8),
        noise.len() + rest.len() <= usize::MAX,
    ensures
        flushed(noise + rest, 0, d, last) == flushed(rest, 0, d, last),
{
    let all = noise + rest;
    let k = noise.len() as int;
    assert forall|i: int| 0 <= i < k implies all[i] != 0x38 by {
        assert(all[i] == noise[i]);
        assert(noise.contains(noise[i]));
    }
    lemma_partial_begin(all);
    assert forall|n: int| 1 <= n <= 4 && 0 <= all.len() - n < k implies !ends_with_begin_prefix(
        all,
        n,
    ) by {
        assert(all[all.len() - n] != 0x38);
    }
    lemma_flushed_skip(all, 0, k, d, last);
    lemma_flushed_shift(all, k, 0, d, last);
    assert(all.skip(k) =~= rest);
}

/// A stream: messages, and ahead of each some bytes that belong to none.
pub open spec fn stream(parts: Seq<(Seq<u8>, Parts)>, d: u8) -> Seq<u8>
    decreases parts.len(),
{
    if parts.len() == 0 {
        seq![]
    } else {
        parts[0].0 + parts[0].1.bytes(d) + stream(parts.skip(1), d)
    }
}

/// The messages of a stream, each on a line of its own.
pub open spec fn lines(parts: Seq<(Seq<u8>, Parts)>, d: u8) -> Seq<u8>
    decreases parts.len(),
{
    if parts.len() == 0 {
        seq![]
    } else {
        parts[0].1.bytes(d).push(0x0a) + lines(parts.skip(1), d)
    }
}

/// Every message of a stream comes out, as it was sent, in order and on a line of its own,
/// and nothing else does; of what follows the last one, all that may still become a message is
/// kept: all of it where it is the beginning of one.
pub proof fn law_streams_give_their_messages(
    parts: Seq<(Seq<u8>, Parts)>,
    open: Parts,
    k: int,
    d: u8,
    last: Seq<u8>,
)
    requires
        parts_fields(d),
        forall|i: int|
            0 <= i < parts.len() ==> {
                &&& !(#[trigger] parts[i]).0.contains(0x38u8)
                &&& parts[i].1.sound(d)
                &&& begins_at(parts[i].1.begin, 0)
            },
        open.sound(d),
        begins_at(open.begin, 0),
        0 <= k < open.bytes(d).len() <= usize::MAX,
        stream(parts, d).len() + k <= usize::MAX,
    ensures
        flushed(stream(parts, d) + open.bytes(d).take(k), 0, d, last).out == lines(parts, d),
        flushed(stream(parts, d) + open.bytes(d).take(k), 0, d, last).rest == open.bytes(d).take(
            k,
        ),
    decreases parts.len(),
{
    let part = open.bytes(d).take(k);
    if parts.len() == 0 {
        assert(stream(parts, d) + part =~= part);
        if k > 0 {
            law_parts_of_messages_wait(open, k, d);
            let whole = open.bytes(d);
            assert(forall|i: int| 0 <= i < open.begin.len() ==> whole[i] == open.begin[i]);
            assert(part.skip(0) =~= part);
            if k >= 5 {
                assert(begins_at(part, 0));
            } else {
                lemma_next_begin(part, 0);
                lemma_partial_begin(part);
                assert(partial_begin(part) == k);
                assert(part.skip(part.len() - k) =~= part);
            }
        }
    } else {
        let (noise, m) = parts[0];
        let later = parts.skip(1);
        let msg = m.bytes(d);
        let rest = stream(later, d) + part;
        assert(stream(parts, d) + part =~= noise + (msg + rest));
        lemma_noise(noise, msg + rest, d, last);
        assert(begins_at(msg, 0)) by {
            assert(forall|i: int| 0 <= i < m.begin.len() ==> msg[i] == m.begin[i]);
        }
        law_whole_messages_are_complete(m, seq![], d);
        law_messages_come_out_whole(msg, rest, d, last);
        assert forall|i: int| 0 <= i < later.len() implies {
            &&& !(#[trigger] later[i]).0.contains(0x38u8)
            &&& later[i].1.sound(d)
            &&& begins_at(later[i].1.begin, 0)
        } by {
            assert(later[i] == parts[i + 1]);
        }
        law_streams_give_their_messages(later, open, k, d, msg.push(0x0a));
    }
}

} // verus!
