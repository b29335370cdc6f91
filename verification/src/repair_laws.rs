//! Repaired messages: the body length and the checksum that are written are those of the
//! message.
use crate::integrity::{
    body_length, body_start, byte_sum, checksum, last_mark, lemma_byte_sum_add, length_field,
    mark_at, next_delimiter,
};
use crate::obfuscator::{
    bytes_sum, bytes_taken, checksum_fragment, first_keyed, key_of, last_keyed, length_fragment,
    refreshed,
};
use crate::text::{decimal, digit_char, is_decimal_digit, join, lemma_next_char, next_char, SOH};
use vstd::prelude::*;
use vstd::utf8::{char_u32_cast, encode_scalar, encode_utf8};

verus! {

/// What a scalar is encoded to: itself where it is ASCII, else bytes that are not.
proof fn lemma_scalar_bytes(c: char)
    ensures
        encode_scalar(c as u32).len() >= 1,
        (c as u32) < 0x80 ==> encode_scalar(c as u32).len() == 1 && encode_scalar(c as u32)[0]
            as u32 == c as u32,
        (c as u32) >= 0x80 ==> forall|i: int|
            0 <= i < encode_scalar(c as u32).len() ==> #[trigger] encode_scalar(c as u32)[i]
                >= 0x80,
{
    let v = c as u32;
    if v < 0x80 {
        assert((v & 0x7F) as u8 as u32 == v) by (bit_vector)
            requires
                v < 0x80,
        ;
    } else {
        assert((0xC0u8 | ((v >> 6) & 0x1F) as u8) >= 0x80) by (bit_vector);
        assert((0xE0u8 | ((v >> 12) & 0x0F) as u8) >= 0x80) by (bit_vector);
        assert((0xF0u8 | ((v >> 18) & 0x07) as u8) >= 0x80) by (bit_vector);
        assert((0x80u8 | (v & 0x3F) as u8) >= 0x80) by (bit_vector);
        assert((0x80u8 | ((v >> 6) & 0x3F) as u8) >= 0x80) by (bit_vector);
        assert((0x80u8 | ((v >> 12) & 0x3F) as u8) >= 0x80) by (bit_vector);
    }
}

proof fn lemma_same_code(a: char, b: char)
    requires
        a as u32 == b as u32,
    ensures
        a == b,
{
    char_u32_cast(a, a as u32);
    char_u32_cast(b, b as u32);
}

pub proof fn lemma_encode_add(a: Seq<char>, b: Seq<char>)
    ensures
        encode_utf8(a + b) == encode_utf8(a) + encode_utf8(b),
    decreases a.len(),
{
    if a.len() == 0 {
        assert(a + b =~= b);
        assert(encode_utf8(a) =~= seq![]);
    } else {
        assert((a + b).drop_first() =~= a.drop_first() + b);
        lemma_encode_add(a.drop_first(), b);
        assert((a + b)[0] == a[0]);
        assert(encode_utf8(a + b) =~= encode_utf8(a) + encode_utf8(b));
    }
}

pub proof fn lemma_encode_soh()
    ensures
        encode_utf8(seq![SOH]) == seq![1u8],
{
    lemma_scalar_bytes(SOH);
    assert(seq![SOH].drop_first() =~= seq![]);
    assert(encode_utf8(seq![]) =~= seq![]);
    assert(seq![SOH][0] == SOH);
    assert(encode_scalar(SOH as u32)[0] == 1u8);
    assert(encode_utf8(seq![SOH]) =~= seq![1u8]);
}

/// The two characters stand side by side nowhere in the text.
pub open spec fn never_beside(text: Seq<char>, a: char, b: char) -> bool {
    forall|i: int| 0 <= i < text.len() - 1 ==> !(#[trigger] text[i] == a && text[i + 1] == b)
}

/// A text without the delimiter has no such byte, and no `9=` that it does not spell.
proof fn lemma_encoded_bytes(text: Seq<char>)
    requires
        !text.contains(SOH),
    ensures
        !encode_utf8(text).contains(1u8),
        never_beside(text, '9', '=') ==> forall|i: int|
            0 <= i < encode_utf8(text).len() - 1 ==> !(#[trigger] encode_utf8(text)[i] == 57u8
                && encode_utf8(text)[i + 1] == 61u8),
        encode_utf8(text).len() >= text.len(),
        text.len() > 0 ==> (encode_utf8(text)[0] == 61u8 ==> text[0] == '='),
    decreases text.len(),
{
    if text.len() > 0 {
        let c = text[0];
        let rest = text.drop_first();
        assert(text.contains(c));
        assert forall|i: int| 0 <= i < rest.len() implies rest[i] != SOH by {
            assert(text.contains(rest[i])) by {
                assert(text[i + 1] == rest[i]);
            }
        }
        lemma_encoded_bytes(rest);
        lemma_scalar_bytes(c);
        let head = encode_scalar(c as u32);
        let tail = encode_utf8(rest);
        let all = encode_utf8(text);
        assert(all == head + tail);
        if all[0] == 61u8 {
            assert(head[0] == 61u8);
            lemma_same_code(c, '=');
        }
        assert forall|i: int| 0 <= i < all.len() implies all[i] != 1u8 by {
            if i >= head.len() {
                assert(tail.contains(tail[i - head.len()]));
                assert(all[i] == tail[i - head.len()]);
            } else {
                assert(all[i] == head[i]);
                if c as u32 == 1 {
                    lemma_same_code(c, SOH);
                }
            }
        }
        if never_beside(text, '9', '=') {
            assert(never_beside(rest, '9', '=')) by {
                assert forall|i: int| 0 <= i < rest.len() - 1 implies !(#[trigger] rest[i] == '9'
                    && rest[i + 1] == '=') by {
                    assert(text[i + 1] == rest[i]);
                    assert(text[i + 2] == rest[i + 1]);
                }
            }
            assert forall|i: int| 0 <= i < all.len() - 1 implies !(#[trigger] all[i] == 57u8
                && all[i + 1] == 61u8) by {
                if i >= head.len() {
                    assert(all[i] == tail[i - head.len()]);
                    assert(all[i + 1] == tail[i - head.len() + 1]);
                } else if all[i] == 57u8 && all[i + 1] == 61u8 {
                    assert(all[i] == head[i]);
                    assert(head.len() == 1);
                    assert(c as u32 == 57);
                    lemma_same_code(c, '9');
                    assert(tail[0] == 61u8);
                    assert(rest.len() > 0);
                    assert(rest[0] == text[1]);
                }
            }
        }
    }
}

/// The fragments on the wire: the bytes of each, with the delimiter behind it.
pub open spec fn wire(fragments: Seq<Seq<char>>) -> Seq<u8>
    decreases fragments.len(),
{
    if fragments.len() == 0 {
        seq![]
    } else {
        wire(fragments.drop_last()) + encode_utf8(fragments.last()) + seq![1u8]
    }
}

proof fn lemma_wire_add(a: Seq<Seq<char>>, b: Seq<Seq<char>>)
    ensures
        wire(a + b) == wire(a) + wire(b),
    decreases b.len(),
{
    if b.len() == 0 {
        assert(a + b =~= a);
        assert(wire(a + b) =~= wire(a) + wire(b));
    } else {
        assert((a + b).drop_last() =~= a + b.drop_last());
        assert((a + b).last() == b.last());
        lemma_wire_add(a, b.drop_last());
        assert(wire(a + b) =~= wire(a) + wire(b));
    }
}

proof fn lemma_wire_counts(fragments: Seq<Seq<char>>)
    ensures
        wire(fragments).len() == bytes_taken(fragments),
        byte_sum(wire(fragments)) == bytes_sum(fragments),
        fragments.len() > 0 ==> wire(fragments).len() > 0 && wire(fragments).last() == 1u8,
    decreases fragments.len(),
{
    if fragments.len() > 0 {
        let before = wire(fragments.drop_last());
        let here = encode_utf8(fragments.last());
        lemma_wire_counts(fragments.drop_last());
        lemma_byte_sum_add(before + here, seq![1u8]);
        lemma_byte_sum_add(before, here);
        assert(seq![1u8].drop_last() =~= seq![]);
        assert(byte_sum(seq![]) == 0);
        assert(byte_sum(seq![1u8]) == 1);
    }
}

/// A message as it is written: its fragments with delimiters between, and one at the end
/// if `closed`.
pub open spec fn message_text(fragments: Seq<Seq<char>>, closed: bool) -> Seq<char> {
    let body = join(fragments, seq![SOH]);
    if closed {
        body.push(SOH)
    } else {
        body
    }
}

proof fn lemma_closed_wire(fragments: Seq<Seq<char>>)
    requires
        fragments.len() > 0,
    ensures
        encode_utf8(message_text(fragments, true)) == wire(fragments),
        encode_utf8(message_text(fragments, false)) == wire(fragments).drop_last(),
    decreases fragments.len(),
{
    let open = message_text(fragments, false);
    let gap = seq![SOH];
    lemma_encode_soh();
    lemma_encode_add(open, gap);
    assert(message_text(fragments, true) =~= open + gap);
    if fragments.len() == 1 {
        assert(fragments.drop_last() =~= seq![]);
        assert(wire(seq![]) =~= seq![]);
        assert(wire(fragments) =~= encode_utf8(fragments[0]) + seq![1u8]);
    } else {
        let before = message_text(fragments.drop_last(), false);
        lemma_closed_wire(fragments.drop_last());
        assert(message_text(fragments.drop_last(), true) =~= before + gap);
        lemma_encode_add(before + gap, fragments.last());
        assert(wire(fragments) =~= encode_utf8(open) + seq![1u8]);
    }
    assert(wire(fragments).drop_last() =~= encode_utf8(open));
}

proof fn lemma_first_keyed(fragments: Seq<Seq<char>>, from: int, key: Seq<char>)
    requires
        0 <= from <= fragments.len(),
    ensures
        from <= first_keyed(fragments, from, key) <= fragments.len(),
        first_keyed(fragments, from, key) < fragments.len() ==> key_of(
            fragments[first_keyed(fragments, from, key)],
        ) == Some(key),
    decreases fragments.len() - from,
{
    if from < fragments.len() && key_of(fragments[from]) != Some(key) {
        lemma_first_keyed(fragments, from + 1, key);
    }
}

proof fn lemma_last_keyed(fragments: Seq<Seq<char>>, n: int, key: Seq<char>)
    requires
        0 <= n <= fragments.len(),
    ensures
        -1 <= last_keyed(fragments, n, key) < n || n == 0,
        n == 0 ==> last_keyed(fragments, n, key) == -1,
        last_keyed(fragments, n, key) >= 0 ==> key_of(fragments[last_keyed(fragments, n, key)])
            == Some(key),
        forall|i: int|
            last_keyed(fragments, n, key) < i < n ==> key_of(#[trigger] fragments[i]) != Some(key),
    decreases n,
{
    if n > 0 && key_of(fragments[n - 1]) != Some(key) {
        lemma_last_keyed(fragments, n - 1, key);
    }
}

/// A text that starts with `10=` has the key `10`.
proof fn lemma_checksum_key(text: Seq<char>)
    requires
        text.len() >= 3,
        text[0] == '1',
        text[1] == '0',
        text[2] == '=',
    ensures
        key_of(text) == Some("10"@),
{
    reveal_strlit("10");
    lemma_next_char(text, 0, '=');
    assert(next_char(text, 2, '=') == 2);
    assert(next_char(text, 1, '=') == 2);
    assert(next_char(text, 0, '=') == 2);
    assert(text.subrange(0, 2) =~= "10"@);
}

proof fn lemma_starts_with_ascii(text: Seq<char>)
    requires
        encode_utf8(text).len() >= 1,
        encode_utf8(text)[0] < 0x80,
    ensures
        text.len() > 0,
        text[0] as u32 == encode_utf8(text)[0] as u32,
        encode_utf8(text) == seq![encode_utf8(text)[0]] + encode_utf8(text.drop_first()),
{
    assert(text.len() > 0);
    lemma_scalar_bytes(text[0]);
    let head = encode_scalar(text[0] as u32);
    assert(encode_utf8(text) == head + encode_utf8(text.drop_first()));
    assert(encode_utf8(text)[0] == head[0]);
    assert(head =~= seq![head[0]]);
}

/// A fragment whose bytes start like a checksum field has its key.
proof fn lemma_marked_fragment(text: Seq<char>)
    requires
        encode_utf8(text).len() >= 3,
        encode_utf8(text)[0] == 49u8,
        encode_utf8(text)[1] == 48u8,
        encode_utf8(text)[2] == 61u8,
    ensures
        key_of(text) == Some("10"@),
{
    let one = text.drop_first();
    let two = one.drop_first();
    lemma_starts_with_ascii(text);
    lemma_starts_with_ascii(one);
    lemma_starts_with_ascii(two);
    lemma_same_code(text[0], '1');
    lemma_same_code(one[0], '0');
    lemma_same_code(two[0], '=');
    assert(text[1] == one[0]);
    assert(text[2] == two[0]);
    lemma_checksum_key(text);
}

proof fn lemma_no_marks(fragments: Seq<Seq<char>>)
    requires
        forall|i: int| 0 <= i < fragments.len() ==> !(#[trigger] fragments[i]).contains(SOH),
        forall|i: int|
            1 <= i < fragments.len() ==> key_of(#[trigger] fragments[i]) != Some("10"@),
    ensures
        forall|i: int| !#[trigger] mark_at(wire(fragments), i),
    decreases fragments.len(),
{
    if fragments.len() > 0 {
        let short = fragments.drop_last();
        let before = wire(short);
        let text = fragments.last();
        let here = encode_utf8(text);
        let all = wire(fragments);
        assert(fragments[fragments.len() - 1] == text);
        assert forall|i: int| 0 <= i < short.len() implies !(#[trigger] short[i]).contains(SOH) by {
            assert(short[i] == fragments[i]);
        }
        assert forall|i: int| 1 <= i < short.len() implies key_of(#[trigger] short[i]) != Some(
            "10"@,
        ) by {
            assert(short[i] == fragments[i]);
        }
        lemma_no_marks(short);
        lemma_wire_counts(short);
        lemma_encoded_bytes(text);
        assert(all == before + here + seq![1u8]);
        assert forall|i: int| !#[trigger] mark_at(all, i) by {
            if mark_at(all, i) {
                let p = before.len() as int;
                if i + 3 < p {
                    assert(all[i] == before[i]);
                    assert(all[i + 1] == before[i + 1]);
                    assert(all[i + 2] == before[i + 2]);
                    assert(all[i + 3] == before[i + 3]);
                    assert(mark_at(before, i));
                } else if i < p {
                    assert(all[p - 1] == 1u8);
                    assert(i == p - 1);
                    assert(here.len() >= 3) by {
                        if here.len() < 3 {
                            assert(all[p + here.len()] == 1u8);
                        }
                    }
                    assert(here[0] == all[p] && here[1] == all[p + 1] && here[2] == all[p + 2]);
                    lemma_marked_fragment(text);
                    assert(short.len() > 0);
                    assert(false);
                } else {
                    assert(all[i] == here[i - p]);
                    assert(here.contains(here[i - p]));
                }
            }
        }
    } else {
        assert(wire(fragments) =~= seq![]);
    }
}

proof fn lemma_no_length_field(fragments: Seq<Seq<char>>)
    requires
        forall|i: int| 0 <= i < fragments.len() ==> !(#[trigger] fragments[i]).contains(SOH),
        forall|i: int| 0 <= i < fragments.len() ==> never_beside(#[trigger] fragments[i], '9', '='),
    ensures
        forall|i: int|
            0 <= i < wire(fragments).len() - 1 ==> !(#[trigger] wire(fragments)[i] == 57u8 && wire(
                fragments,
            )[i + 1] == 61u8),
    decreases fragments.len(),
{
    if fragments.len() > 0 {
        let short = fragments.drop_last();
        let before = wire(short);
        let text = fragments.last();
        let here = encode_utf8(text);
        let all = wire(fragments);
        assert(fragments[fragments.len() - 1] == text);
        assert forall|i: int| 0 <= i < short.len() implies !(#[trigger] short[i]).contains(SOH)
            && never_beside(short[i], '9', '=') by {
            assert(short[i] == fragments[i]);
        }
        lemma_no_length_field(short);
        lemma_wire_counts(short);
        lemma_encoded_bytes(text);
        assert(all == before + here + seq![1u8]);
        assert forall|i: int| 0 <= i < all.len() - 1 implies !(#[trigger] all[i] == 57u8 && all[i
            + 1] == 61u8) by {
            let p = before.len() as int;
            if i + 1 < p {
                assert(all[i] == before[i] && all[i + 1] == before[i + 1]);
            } else if i + 1 == p {
                assert(all[i] == 1u8);
            } else if i + 1 - p < here.len() {
                assert(all[i] == here[i - p] && all[i + 1] == here[i - p + 1]);
            } else {
                assert(all[i + 1] == 1u8);
            }
        }
    }
}

proof fn lemma_last_mark(bytes: Seq<u8>, at: int, n: int)
    requires
        mark_at(bytes, at),
        at < n,
        forall|i: int| at < i < n ==> !#[trigger] mark_at(bytes, i),
    ensures
        last_mark(bytes, n) == Some(at),
    decreases n,
{
    if n - 1 > at {
        lemma_last_mark(bytes, at, n - 1);
    }
}

proof fn lemma_length_field(bytes: Seq<u8>, from: int, at: int)
    requires
        0 <= from <= at,
        at + 1 < bytes.len(),
        bytes[at] == 57u8,
        bytes[at + 1] == 61u8,
        forall|i: int| from <= i < at ==> !(#[trigger] bytes[i] == 57u8 && bytes[i + 1] == 61u8),
    ensures
        length_field(bytes, from) == Some(at),
    decreases at - from,
{
    if from < at {
        assert(!(bytes[from] == 57u8 && bytes[from + 1] == 61u8));
        lemma_length_field(bytes, from + 1, at);
    }
}

proof fn lemma_next_delimiter(bytes: Seq<u8>, from: int, at: int)
    requires
        0 <= from <= at < bytes.len(),
        bytes[at] == 1u8,
        forall|i: int| from <= i < at ==> #[trigger] bytes[i] != 1u8,
    ensures
        next_delimiter(bytes, from) == Some(at),
    decreases at - from,
{
    if from < at {
        lemma_next_delimiter(bytes, from + 1, at);
    }
}

proof fn lemma_decimal_plain(n: nat)
    ensures
        forall|i: int| 0 <= i < decimal(n).len() ==> is_decimal_digit(#[trigger] decimal(n)[i]),
    decreases n,
{
    let last = digit_char(n % 10);
    assert(last as nat == 0x30 + n % 10);
    if n >= 10 {
        lemma_decimal_plain(n / 10);
        assert forall|i: int| 0 <= i < decimal(n).len() implies is_decimal_digit(
            #[trigger] decimal(n)[i],
        ) by {
            if i < decimal(n).len() - 1 {
                assert(decimal(n)[i] == decimal(n / 10)[i]);
            }
        }
    }
}

/// What the two fields are on the wire: ASCII, without a delimiter.
proof fn lemma_written_fields(n: nat, sum: nat)
    ensures
        !length_fragment(n).contains(SOH),
        !checksum_fragment(sum).contains(SOH),
        ({
            let bytes = encode_utf8(length_fragment(n));
            bytes.len() >= 2 && bytes[0] == 57u8 && bytes[1] == 61u8
        }),
        ({
            let bytes = encode_utf8(checksum_fragment(sum));
            bytes.len() >= 3 && bytes[0] == 49u8 && bytes[1] == 48u8 && bytes[2] == 61u8
        }),
{
    reveal_strlit("9=");
    reveal_strlit("10=");
    lemma_decimal_plain(n);
    lemma_decimal_plain(sum % 256);
    let length = length_fragment(n);
    assert(length[0] == '9' && length[1] == '=');
    let field = checksum_fragment(sum);
    assert(field[0] == '1' && field[1] == '0' && field[2] == '=');
    lemma_scalar_bytes('9');
    lemma_scalar_bytes('=');
    lemma_scalar_bytes('1');
    lemma_scalar_bytes('0');
    let rest = length.drop_first();
    assert(rest[0] == '=');
    assert(encode_utf8(length) == encode_scalar('9' as u32) + encode_utf8(rest));
    assert(encode_utf8(rest) == encode_scalar('=' as u32) + encode_utf8(rest.drop_first()));
    let one = field.drop_first();
    let two = one.drop_first();
    assert(one[0] == '0' && two[0] == '=');
    assert(encode_utf8(field) == encode_scalar('1' as u32) + encode_utf8(one));
    assert(encode_utf8(one) == encode_scalar('0' as u32) + encode_utf8(two));
    assert(encode_utf8(two) == encode_scalar('=' as u32) + encode_utf8(two.drop_first()));
}

/// The bytes of a message start with those of its first fragments.
proof fn lemma_wire_prefix(out: Seq<Seq<char>>, k: int, closed: bool)
    requires
        0 <= k < out.len(),
    ensures
        ({
            let bytes = encode_utf8(message_text(out, closed));
            let before = wire(out.take(k));
            let here = encode_utf8(out[k]);
            let rest = wire(out.skip(k));
            &&& bytes.len() >= before.len() + here.len()
            &&& bytes.take(before.len() as int) == before
            &&& forall|i: int| 0 <= i < here.len() ==> #[trigger] here[i] == bytes[before.len() + i]
            &&& bytes.len() <= before.len() + rest.len()
            &&& forall|i: int|
                before.len() <= i < bytes.len() ==> #[trigger] bytes[i] == rest[i - before.len()]
        }),
{
    let bytes = encode_utf8(message_text(out, closed));
    let before = wire(out.take(k));
    let here = encode_utf8(out[k]);
    let tail = out.skip(k);
    lemma_closed_wire(out);
    assert(out =~= out.take(k) + tail);
    lemma_wire_add(out.take(k), tail);
    assert(tail =~= seq![out[k]] + out.skip(k + 1));
    lemma_wire_add(seq![out[k]], out.skip(k + 1));
    assert(seq![out[k]].drop_last() =~= seq![]);
    assert(wire(seq![]) =~= seq![]);
    assert(wire(seq![out[k]]) =~= here + seq![1u8]);
    let all = wire(out);
    assert(all == before + (here + seq![1u8] + wire(out.skip(k + 1))));
    assert(all.len() >= before.len() + here.len() + 1);
    assert(bytes =~= all.take(bytes.len() as int));
    assert(bytes.take(before.len() as int) =~= before);
}

/// The last checksum field of a message is its last fragment with that key.
proof fn lemma_checksum_place(out: Seq<Seq<char>>, end: int, closed: bool)
    requires
        0 < end < out.len(),
        forall|i: int| 0 <= i < out.len() ==> !(#[trigger] out[i]).contains(SOH),
        forall|i: int| end < i < out.len() ==> key_of(#[trigger] out[i]) != Some("10"@),
        ({
            let field = encode_utf8(out[end]);
            field.len() >= 3 && field[0] == 49u8 && field[1] == 48u8 && field[2] == 61u8
        }),
    ensures
        ({
            let bytes = encode_utf8(message_text(out, closed));
            last_mark(bytes, bytes.len() as int) == Some(wire(out.take(end)).len() - 1)
        }),
{
    let bytes = encode_utf8(message_text(out, closed));
    let upto = wire(out.take(end));
    let tail = out.skip(end);
    let rest = wire(tail);
    let h = upto.len() as int;
    lemma_wire_prefix(out, end, closed);
    lemma_wire_counts(out.take(end));
    let field = encode_utf8(out[end]);
    assert(upto[h - 1] == 1u8);
    assert(bytes.take(h)[h - 1] == bytes[h - 1]);
    assert(field[0] == bytes[h] && field[1] == bytes[h + 1] && field[2] == bytes[h + 2]);
    assert(mark_at(bytes, h - 1));
    assert forall|i: int| 1 <= i < tail.len() implies key_of(#[trigger] tail[i]) != Some(
        "10"@,
    ) by {
        assert(tail[i] == out[end + i]);
    }
    assert forall|i: int| 0 <= i < tail.len() implies !(#[trigger] tail[i]).contains(SOH) by {
        assert(tail[i] == out[end + i]);
    }
    lemma_no_marks(tail);
    assert forall|i: int| h - 1 < i < bytes.len() implies !#[trigger] mark_at(bytes, i) by {
        if mark_at(bytes, i) {
            let k = i - h;
            assert(bytes[i] == rest[k]);
            assert(bytes[i + 1] == rest[k + 1]);
            assert(bytes[i + 2] == rest[k + 2]);
            assert(bytes[i + 3] == rest[k + 3]);
            assert(mark_at(rest, k));
        }
    }
    lemma_last_mark(bytes, h - 1, bytes.len() as int);
}

/// The body of a message starts behind its length field.
proof fn lemma_body_place(out: Seq<Seq<char>>, body: int, closed: bool)
    requires
        0 <= body,
        body + 1 < out.len(),
        forall|i: int| 0 <= i < out.len() ==> !(#[trigger] out[i]).contains(SOH),
        forall|i: int| 0 <= i < body ==> never_beside(#[trigger] out[i], '9', '='),
        ({
            let field = encode_utf8(out[body]);
            field.len() >= 2 && field[0] == 57u8 && field[1] == 61u8
        }),
    ensures
        body_start(encode_utf8(message_text(out, closed))) == Some(
            wire(out.take(body + 1)).len() as int,
        ),
{
    let bytes = encode_utf8(message_text(out, closed));
    let head = out.take(body);
    let ahead = wire(head);
    let upto = wire(out.take(body + 1));
    let length = encode_utf8(out[body]);
    let p = ahead.len() as int;
    let q = upto.len() as int;
    lemma_wire_prefix(out, body, closed);
    lemma_wire_prefix(out, body + 1, closed);
    lemma_wire_counts(head);
    assert(out.take(body + 1).drop_last() =~= head);
    assert(upto == ahead + length + seq![1u8]);
    assert forall|i: int| 0 <= i < head.len() implies !(#[trigger] head[i]).contains(SOH)
        && never_beside(head[i], '9', '=') by {
        assert(head[i] == out[i]);
    }
    lemma_no_length_field(head);
    assert(length[0] == bytes[p] && length[1] == bytes[p + 1]);
    assert forall|i: int| 0 <= i < p implies !(#[trigger] bytes[i] == 57u8 && bytes[i + 1]
        == 61u8) by {
        assert(bytes.take(p)[i] == ahead[i]);
        if i + 1 < p {
            assert(bytes.take(p)[i + 1] == ahead[i + 1]);
        }
    }
    lemma_length_field(bytes, 0, p);
    lemma_encoded_bytes(out[body]);
    assert forall|i: int| p <= i < q - 1 implies #[trigger] bytes[i] != 1u8 by {
        assert(length[i - p] == bytes[p + (i - p)]);
        assert(length.contains(length[i - p]));
    }
    assert(bytes.take(q)[q - 1] == upto[q - 1]);
    lemma_next_delimiter(bytes, p, q - 1);
}

/// A message whose fields were refreshed is consistent: the body length and the checksum
/// that stand in it are those that its own bytes give. That holds where the two fields come
/// in this order with a body between them, and `9=` is spelled nowhere ahead of the body
/// length.
pub proof fn law_repaired_message_is_consistent(fragments: Seq<Seq<char>>, closed: bool)
    requires
        forall|i: int| 0 <= i < fragments.len() ==> !(#[trigger] fragments[i]).contains(SOH),
        first_keyed(fragments, 0, "9"@) + 1 < last_keyed(
            fragments,
            fragments.len() as int,
            "10"@,
        ),
        forall|i: int|
            0 <= i < first_keyed(fragments, 0, "9"@) ==> never_beside(
                #[trigger] fragments[i],
                '9',
                '=',
            ),
    ensures
        ({
            let written = refreshed(fragments);
            let bytes = encode_utf8(message_text(written, closed));
            let length = written[first_keyed(fragments, 0, "9"@)];
            let sum = written[last_keyed(fragments, fragments.len() as int, "10"@)];
            &&& body_length(bytes) matches Some(n) && length == length_fragment(n as nat)
            &&& checksum(bytes) >= 0 && sum == checksum_fragment(checksum(bytes) as nat)
        }),
{
    let body = first_keyed(fragments, 0, "9"@);
    let end = last_keyed(fragments, fragments.len() as int, "10"@);
    lemma_first_keyed(fragments, 0, "9"@);
    lemma_last_keyed(fragments, fragments.len() as int, "10"@);
    let taken = bytes_taken(fragments.subrange(body + 1, end));
    let sized = fragments.update(body, length_fragment(taken));
    let sum = bytes_sum(sized.take(end));
    let out = refreshed(fragments);
    let bytes = encode_utf8(message_text(out, closed));
    assert(out == sized.update(end, checksum_fragment(sum)));
    assert(out.take(end) =~= sized.take(end));
    assert(out.subrange(body + 1, end) =~= fragments.subrange(body + 1, end));
    lemma_written_fields(taken, sum);
    assert forall|i: int| 0 <= i < out.len() implies !(#[trigger] out[i]).contains(SOH) by {
        if i != body && i != end {
            assert(out[i] == fragments[i]);
        }
    }
    assert forall|i: int| end < i < out.len() implies key_of(#[trigger] out[i]) != Some("10"@) by {
        assert(out[i] == fragments[i]);
    }
    assert forall|i: int| 0 <= i < body implies never_beside(#[trigger] out[i], '9', '=') by {
        assert(out[i] == fragments[i]);
    }
    lemma_checksum_place(out, end, closed);
    lemma_body_place(out, body, closed);
    lemma_wire_prefix(out, end, closed);
    lemma_wire_counts(out.take(end));
    lemma_wire_counts(out.subrange(body + 1, end));
    assert(out.take(end) =~= out.take(body + 1) + out.subrange(body + 1, end));
    lemma_wire_add(out.take(body + 1), out.subrange(body + 1, end));
    assert(checksum(bytes) == sum % 256);
    assert((checksum(bytes) as nat) % 256 == sum % 256);
}

} // verus!
