//! Text with escape sequences: how wide it shows, padding and cutting.
use crate::repair_laws::lemma_encode_add;
use crate::text::{chars_of, copy_of, push_repeated, repeated};
use vstd::prelude::*;
use vstd::utf8::encode_utf8;

verus! {

/// The character that opens an escape sequence.
pub const ESCAPE: char = '\u{1b}';

/// A number, held below the largest that a position can have.
pub open spec fn capped(n: int) -> int {
    if n > usize::MAX {
        usize::MAX as int
    } else {
        n
    }
}

/// The sum of two widths.
pub fn plus(a: usize, b: usize) -> (sum: usize)
    ensures
        sum == capped(a + b),
{
    a.saturating_add(b)
}

/// A control character.
pub open spec fn is_control(c: char) -> bool {
    (c as u32) < 0x20 || 0x7f <= (c as u32) < 0xa0
}

pub fn control(c: char) -> (yes: bool)
    ensures
        yes == is_control(c),
{
    (c as u32) < 0x20 || (0x7f <= (c as u32) && (c as u32) < 0xa0)
}

/// How wide a character shows: nothing for a control character, else its bytes.
pub open spec fn char_width(c: char) -> nat {
    if is_control(c) {
        0
    } else if (c as u32) < 0x80 {
        1
    } else if (c as u32) < 0x800 {
        2
    } else if (c as u32) < 0x10000 {
        3
    } else {
        4
    }
}

/// How wide a character shows.
pub fn rendered_char_width(c: char) -> (width: usize)
    ensures
        width == char_width(c),
{
    if control(c) {
        0
    } else if (c as u32) < 0x80 {
        1
    } else if (c as u32) < 0x800 {
        2
    } else if (c as u32) < 0x10000 {
        3
    } else {
        4
    }
}

/// Whether an escape sequence is open behind the text.
pub open spec fn in_escape(text: Seq<char>) -> bool
    decreases text.len(),
{
    if text.len() == 0 {
        false
    } else if in_escape(text.drop_last()) {
        text.last() != 'm'
    } else {
        text.last() == ESCAPE
    }
}

/// How wide a text shows, its escape sequences left out.
pub open spec fn shown_width(text: Seq<char>) -> nat
    decreases text.len(),
{
    if text.len() == 0 {
        0
    } else if in_escape(text.drop_last()) || text.last() == ESCAPE {
        shown_width(text.drop_last())
    } else {
        shown_width(text.drop_last()) + char_width(text.last())
    }
}

/// How many characters a text has, its escape sequences left out.
pub open spec fn shown_count(text: Seq<char>) -> nat
    decreases text.len(),
{
    if text.len() == 0 {
        0
    } else if in_escape(text.drop_last()) || text.last() == ESCAPE {
        shown_count(text.drop_last())
    } else {
        shown_count(text.drop_last()) + 1
    }
}

/// A text takes at least as many bytes as it shows.
pub proof fn lemma_shown_width(text: Seq<char>)
    ensures
        shown_width(text) <= encode_utf8(text).len(),
    decreases text.len(),
{
    if text.len() > 0 {
        let short = text.drop_last();
        lemma_shown_width(short);
        assert(text =~= short + seq![text.last()]);
        lemma_encode_add(short, seq![text.last()]);
        assert(seq![text.last()].drop_first() =~= seq![]);
        assert(encode_utf8(seq![text.last()]).len() >= char_width(text.last()));
    }
}

pub proof fn lemma_prefix_bytes(text: Seq<char>, n: int)
    requires
        0 <= n <= text.len(),
    ensures
        encode_utf8(text.take(n)).len() <= encode_utf8(text).len(),
{
    assert(text =~= text.take(n) + text.skip(n));
    lemma_encode_add(text.take(n), text.skip(n));
}

/// How wide a text shows, its escape sequences left out.
pub fn visible_width(text: &str) -> (width: usize)
    ensures
        width == shown_width(text@),
{
    let total: usize = text.as_bytes().len();
    let chars = chars_of(text);
    let mut width: usize = 0;
    let mut inside: bool = false;
    let mut i: usize = 0;
    while i < chars.len()
        invariant
            i <= chars@.len(),
            chars@ == text@,
            total == encode_utf8(text@).len(),
            width == shown_width(chars@.take(i as int)),
            inside == in_escape(chars@.take(i as int)),
        decreases chars@.len() - i,
    {
        assert(chars@.take(i + 1).drop_last() =~= chars@.take(i as int));
        proof {
            lemma_shown_width(chars@.take(i + 1));
            lemma_prefix_bytes(chars@, i + 1);
        }
        let c: char = chars[i];
        if inside {
            inside = c != 'm';
        } else if c == ESCAPE {
            inside = true;
        } else {
            width += rendered_char_width(c);
        }
        i += 1;
    }
    assert(chars@.take(chars@.len() as int) =~= chars@);
    width
}

/// How many characters a text has, its escape sequences left out.
pub fn visible_len(text: &str) -> (count: usize)
    ensures
        count == shown_count(text@),
{
    let chars = chars_of(text);
    let mut count: usize = 0;
    let mut inside: bool = false;
    let mut i: usize = 0;
    while i < chars.len()
        invariant
            i <= chars@.len(),
            chars@ == text@,
            count <= i,
            count == shown_count(chars@.take(i as int)),
            inside == in_escape(chars@.take(i as int)),
        decreases chars@.len() - i,
    {
        assert(chars@.take(i + 1).drop_last() =~= chars@.take(i as int));
        let c: char = chars[i];
        if inside {
            inside = c != 'm';
        } else if c == ESCAPE {
            inside = true;
        } else {
            count += 1;
        }
        i += 1;
    }
    assert(chars@.take(chars@.len() as int) =~= chars@);
    count
}

/// A text with blanks behind it, up to a width.
pub open spec fn padded(text: Seq<char>, width: nat) -> Seq<char> {
    if shown_width(text) >= width {
        text
    } else {
        text + repeated(' ', (width - shown_width(text)) as nat)
    }
}

/// Pads a text with blanks up to a width.
pub fn pad_ansi(text: &str, width: usize) -> (wide: String)
    ensures
        wide@ == padded(text@, width as nat),
{
    let visible: usize = visible_width(text);
    let mut wide = copy_of(text);
    if visible < width {
        push_repeated(&mut wide, ' ', width - visible);
    }
    wide
}

/// A text with blanks up to a width; how wide the text shows is given.
pub fn write_with_padding(text: &str, visible_len: usize, width: usize) -> (wide: String)
    ensures
        wide@ == text@ + repeated(
            ' ',
            (if width > visible_len {
                width - visible_len
            } else {
                0
            }) as nat,
        ),
{
    let mut wide = copy_of(text);
    push_repeated(&mut wide, ' ', width.saturating_sub(visible_len));
    wide
}

} // verus!
