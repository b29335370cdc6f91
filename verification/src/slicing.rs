//! Cutting text with escape sequences, and splitting it into lines.
use crate::ansi::{
    capped, char_width, in_escape, plus, rendered_char_width, shown_width, ESCAPE,
};
use crate::text::{
    chars_of, copy_of, find_char, next_char, push_char, same, split, split_from, split_text,
    text_between, texts,
};
use vstd::prelude::*;

verus! {

broadcast use vstd::seq_lib::group_seq_properties;

/// The sequence that ends all styles.
pub const STYLE_RESET: &'static str = "\u{1b}[0m";

/// Where an escape sequence that starts at `at` ends: behind the next `m`.
pub open spec fn sequence_end(text: Seq<char>, at: int) -> int {
    let mark = next_char(text, at, 'm');
    if mark < text.len() {
        mark + 1
    } else {
        text.len() as int
    }
}

/// How far a text is cut: what was taken, the style in force, whether there was one, and how
/// wide the text so far shows.
pub struct Cut {
    pub taken: Seq<char>,
    pub style: Seq<char>,
    pub styled: bool,
    pub shown: nat,
}

/// A cut taken past an escape sequence.
pub open spec fn past_sequence(cut: Cut, sequence: Seq<char>, offset: nat) -> Cut {
    Cut {
        taken: if cut.shown >= offset {
            cut.taken + sequence
        } else {
            cut.taken
        },
        style: if sequence == STYLE_RESET@ {
            seq![]
        } else {
            sequence
        },
        styled: true,
        shown: cut.shown,
    }
}

/// A cut taken past a character.
pub open spec fn past_char(cut: Cut, c: char, offset: nat) -> Cut {
    Cut {
        taken: if cut.shown >= offset {
            if cut.taken.len() == 0 {
                (cut.style + seq![c])
            } else {
                cut.taken.push(c)
            }
        } else {
            cut.taken
        },
        shown: capped(cut.shown + char_width(c) as int) as nat,
        ..cut
    }
}

/// A cut taken to the end of the text, or until it shows `end` in all.
pub open spec fn cut_from(text: Seq<char>, at: int, cut: Cut, offset: nat, end: int) -> Cut
    decreases text.len() - at,
{
    if at < 0 || at >= text.len() || cut.shown >= end {
        cut
    } else if text[at] == ESCAPE {
        let next = sequence_end(text, at);
        if next <= at {
            cut
        } else {
            cut_from(
                text,
                next,
                past_sequence(cut, text.subrange(at, next), offset),
                offset,
                end,
            )
        }
    } else {
        cut_from(text, at + 1, past_char(cut, text[at], offset), offset, end)
    }
}

/// A text ends with another.
pub open spec fn ends_with(text: Seq<char>, end: Seq<char>) -> bool {
    text.len() >= end.len() && text.skip(text.len() - end.len()) == end
}

/// What of a text shows between `offset` and `offset + width`, in the style that is in force
/// there. Styles do not leak out of it.
pub open spec fn slice(text: Seq<char>, offset: nat, width: nat) -> Seq<char> {
    if width == 0 {
        seq![]
    } else {
        let cut = cut_from(
            text,
            0,
            Cut { taken: seq![], style: seq![], styled: false, shown: 0 },
            offset,
            capped(offset + width as int),
        );
        if cut.taken.len() > 0 && cut.styled && !ends_with(cut.taken, STYLE_RESET@) {
            cut.taken + STYLE_RESET@
        } else {
            cut.taken
        }
    }
}

fn text_ends_with(text: &str, end: &str) -> (yes: bool)
    ensures
        yes == ends_with(text@, end@),
{
    let chars = chars_of(text);
    let tail = chars_of(end);
    if chars.len() < tail.len() {
        return false;
    }
    let last = text_between(&chars, chars.len() - tail.len(), chars.len());
    assert(last@ =~= text@.skip(text@.len() - end@.len()));
    same(last.as_str(), end)
}

/// What of a text shows between `offset` and `offset + width`, in the style that is in force
/// there.
pub fn slice_ansi(text: &str, offset: usize, width: usize) -> (output: String)
    ensures
        output@ == slice(text@, offset as nat, width as nat),
{
    if width == 0 {
        return String::new();
    }
    let end: usize = plus(offset, width);
    let chars = chars_of(text);
    let mut taken = String::new();
    let mut style = String::new();
    let mut styled: bool = false;
    let mut shown: usize = 0;
    let mut at: usize = 0;
    let ghost whole = cut_from(
        text@,
        0,
        Cut { taken: seq![], style: seq![], styled: false, shown: 0 },
        offset as nat,
        end as int,
    );
    assert(taken@ =~= seq![]);
    assert(style@ =~= seq![]);
    while at < chars.len() && shown < end
        invariant
            at <= chars@.len(),
            chars@ == text@,
            whole == cut_from(
                text@,
                at as int,
                Cut { taken: taken@, style: style@, styled, shown: shown as nat },
                offset as nat,
                end as int,
            ),
        decreases chars@.len() - at,
    {
        let ghost before = Cut { taken: taken@, style: style@, styled, shown: shown as nat };
        if chars[at] == ESCAPE {
            let mark: usize = find_char(&chars, at, 'm');
            proof {
                crate::text::lemma_next_char(text@, at as int, 'm');
            }
            let next: usize = if mark < chars.len() {
                mark + 1
            } else {
                chars.len()
            };
            let sequence = text_between(&chars, at, next);
            styled = true;
            if shown >= offset {
                taken.append(sequence.as_str());
            }
            if same(sequence.as_str(), STYLE_RESET) {
                style = String::new();
                assert(style@ =~= seq![]);
            } else {
                style = sequence;
            }
            at = next;
        } else {
            let c: char = chars[at];
            if shown >= offset {
                if taken.as_str().unicode_len() == 0 {
                    taken.append(style.as_str());
                    assert(taken@ =~= style@);
                }
                push_char(&mut taken, c);
                assert(taken@ =~= past_char(before, c, offset as nat).taken);
            }
            let wide: usize = rendered_char_width(c);
            shown = plus(shown, wide);
            at += 1;
        }
    }
    if taken.as_str().unicode_len() > 0 && styled && !text_ends_with(taken.as_str(), STYLE_RESET) {
        taken.append(STYLE_RESET);
    }
    taken
}

// ---------------------------------------------------------------------------
// How wide a slice shows

proof fn lemma_shown_add(a: Seq<char>, b: Seq<char>)
    requires
        !in_escape(a),
    ensures
        in_escape(a + b) == in_escape(b),
        shown_width(a + b) == shown_width(a) + shown_width(b),
    decreases b.len(),
{
    if b.len() == 0 {
        assert(a + b =~= a);
    } else {
        lemma_shown_add(a, b.drop_last());
        assert((a + b).drop_last() =~= a + b.drop_last());
    }
}

proof fn lemma_in_sequence(text: Seq<char>, at: int, to: int)
    requires
        0 <= at < to <= text.len(),
        text[at] == ESCAPE,
        forall|i: int| at < i < to ==> text[i] != 'm',
    ensures
        in_escape(text.subrange(at, to)),
        shown_width(text.subrange(at, to)) == 0,
    decreases to - at,
{
    let part = text.subrange(at, to);
    if to == at + 1 {
        assert(part.drop_last() =~= Seq::<char>::empty());
        assert(shown_width(Seq::<char>::empty()) == 0);
    } else {
        lemma_in_sequence(text, at, to - 1);
        assert(part.drop_last() =~= text.subrange(at, to - 1));
    }
}

proof fn lemma_sequence(text: Seq<char>, at: int)
    requires
        0 <= at < text.len(),
        text[at] == ESCAPE,
    ensures
        at < sequence_end(text, at) <= text.len(),
        shown_width(text.subrange(at, sequence_end(text, at))) == 0,
        in_escape(text.subrange(at, sequence_end(text, at))) ==> sequence_end(text, at)
            == text.len(),
{
    crate::text::lemma_next_char(text, at, 'm');
    let mark = next_char(text, at, 'm');
    lemma_in_sequence(text, at, mark);
    if mark < text.len() {
        let part = text.subrange(at, mark + 1);
        assert(part.drop_last() =~= text.subrange(at, mark));
        assert(part.last() == 'm');
    }
}

/// A cut shows no more than lies behind the offset, and no escape sequence is open in it.
spec fn fits(cut: Cut, offset: nat) -> bool {
    &&& shown_width(cut.taken) + offset <= cut.shown || shown_width(cut.taken) == 0
    &&& !in_escape(cut.taken)
    &&& !in_escape(cut.style)
    &&& shown_width(cut.style) == 0
}

proof fn lemma_cut_fits(text: Seq<char>, at: int, cut: Cut, offset: nat, end: int, widest: nat)
    requires
        0 <= at <= text.len(),
        fits(cut, offset),
        cut.shown < end + widest,
        offset < end <= usize::MAX - widest,
        forall|i: int| 0 <= i < text.len() ==> char_width(#[trigger] text[i]) <= widest,
    ensures
        shown_width(cut_from(text, at, cut, offset, end).taken) == 0 || shown_width(
            cut_from(text, at, cut, offset, end).taken,
        ) + offset < end + widest,
    decreases text.len() - at,
{
    if at < text.len() && cut.shown < end {
        if text[at] == ESCAPE {
            lemma_sequence(text, at);
            let next = sequence_end(text, at);
            let sequence = text.subrange(at, next);
            let after = past_sequence(cut, sequence, offset);
            lemma_shown_add(cut.taken, sequence);
            assert(after.style.len() == 0 || after.style == sequence);
            if next < text.len() {
                lemma_cut_fits(text, next, after, offset, end, widest);
            } else {
                assert(cut_from(text, next, after, offset, end) == after);
            }
        } else {
            let after = past_char(cut, text[at], offset);
            lemma_shown_add(cut.taken, seq![text[at]]);
            lemma_shown_add(cut.style, seq![text[at]]);
            assert(seq![text[at]].drop_last() =~= seq![]);
            assert(cut.taken + seq![text[at]] =~= cut.taken.push(text[at]));
            assert(shown_width(seq![text[at]]) == char_width(text[at]));
            lemma_cut_fits(text, at + 1, after, offset, end, widest);
        }
    }
}

/// A slice shows no more than its width; only where characters are wider than one may the
/// last of them stick out.
pub proof fn law_slice_fits(text: Seq<char>, offset: nat, width: nat, widest: nat)
    requires
        1 <= widest,
        forall|i: int| 0 <= i < text.len() ==> char_width(#[trigger] text[i]) <= widest,
        offset + width + widest <= usize::MAX,
    ensures
        shown_width(slice(text, offset, width)) <= width + widest - 1,
{
    if width > 0 {
        let start = Cut { taken: seq![], style: seq![], styled: false, shown: 0 };
        let end = (offset + width) as int;
        lemma_cut_fits(text, 0, start, offset, end, widest);
        let cut = cut_from(text, 0, start, offset, end);
        lemma_reset_is_unseen(cut.taken);
    }
}

proof fn lemma_reset_is_unseen(text: Seq<char>)
    ensures
        shown_width(text + STYLE_RESET@) == shown_width(text),
{
    reveal_strlit("\u{1b}[0m");
    let r = STYLE_RESET@;
    let one = text.push(r[0]);
    let two = one.push(r[1]);
    let three = two.push(r[2]);
    assert(one.drop_last() =~= text);
    assert(two.drop_last() =~= one);
    assert(three.drop_last() =~= two);
    assert((text + r).drop_last() =~= three);
    assert(in_escape(one) && shown_width(one) == shown_width(text));
    assert(in_escape(two) && shown_width(two) == shown_width(text));
    assert(in_escape(three) && shown_width(three) == shown_width(text));
}

// ---------------------------------------------------------------------------
// Lines

/// A line without the carriage return at its end.
pub open spec fn without_return(line: Seq<char>) -> Seq<char> {
    if line.len() > 0 && line.last() == '\r' {
        line.drop_last()
    } else {
        line
    }
}

/// The lines of a text: an end of line closes one and does not open another.
pub open spec fn lines_of(text: Seq<char>) -> Seq<Seq<char>> {
    let pieces = split(text, '\n');
    let closed = pieces.drop_last().map_values(|line: Seq<char>| without_return(line));
    if pieces.last().len() == 0 {
        closed
    } else {
        closed.push(pieces.last())
    }
}

/// The lines of a text: an end of line closes one and does not open another.
pub fn split_lines(text: &str) -> (lines: Vec<String>)
    ensures
        texts(lines@) == lines_of(text@),
{
    let pieces = split_text(text, '\n');
    let ghost all = texts(pieces@);
    proof {
        lemma_split_len(text@, 0, '\n');
    }
    let ghost closed = all.drop_last().map_values(|line: Seq<char>| without_return(line));
    let mut lines: Vec<String> = Vec::new();
    let total: usize = pieces.len();
    let mut i: usize = 0;
    assert(texts(lines@) =~= closed.take(0));
    while i + 1 < total
        invariant
            i + 1 <= total,
            total == pieces@.len(),
            all == texts(pieces@),
            closed == all.drop_last().map_values(|line: Seq<char>| without_return(line)),
            texts(lines@) == closed.take(i as int),
        decreases total - i,
    {
        assert(all[i as int] == pieces@[i as int]@);
        assert(closed[i as int] == without_return(all[i as int]));
        let line = pieces[i].as_str();
        let chars = chars_of(line);
        let kept: usize = if chars.len() > 0 && chars[chars.len() - 1] == '\r' {
            chars.len() - 1
        } else {
            chars.len()
        };
        let text = text_between(&chars, 0, kept);
        assert(text@ =~= without_return(line@));
        let ghost before = texts(lines@);
        let ghost taken = text@;
        lines.push(text);
        assert(texts(lines@) =~= before.push(taken));
        assert(closed.take(i + 1) =~= closed.take(i as int).push(closed[i as int]));
        i += 1;
    }
    assert(closed.take(i as int) =~= closed);
    assert(all.last() == pieces@[total - 1]@);
    if pieces[total - 1].as_str().unicode_len() > 0 {
        let ghost before = texts(lines@);
        lines.push(copy_of(pieces[total - 1].as_str()));
        assert(texts(lines@) =~= before.push(all.last()));
    }
    lines
}

proof fn lemma_split_len(text: Seq<char>, from: int, c: char)
    requires
        0 <= from <= text.len(),
    ensures
        split_from(text, from, c).len() >= 1,
    decreases text.len() - from,
{
    crate::text::lemma_next_char(text, from, c);
}

} // verus!
