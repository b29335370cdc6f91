//! What holds of text on a screen: how wide it shows, what of it is cut out, and how a view
//! of it moves.
use crate::ansi::{char_width, in_escape, padded, shown_width, ESCAPE};
use crate::colours::ColourPalette;
use crate::order_record::EventView;
use crate::slicing::{cut_from, ends_with, lines_of, slice, Cut, STYLE_RESET};
use crate::summary_pager::{
    detail_lines, done_count, moved, pager_of, quits, PagerKey, PagerView, SummaryPagerContent,
    SummaryPagerSection,
};
use crate::summary_render::{timeline_cells, timeline_headers};
use crate::text::split;
use vstd::prelude::*;
use vstd::utf8::encode_utf8;

verus! {

/// The text is plain: characters that take one place each.
pub open spec fn is_plain(text: Seq<char>) -> bool {
    forall|i: int| 0 <= i < text.len() ==> ' ' <= #[trigger] text[i] <= '~'
}

/// A sequence that sets a style: it opens with the escape character and closes with `m`.
pub open spec fn is_style(text: Seq<char>) -> bool {
    &&& text.len() >= 2
    &&& text[0] == '\u{1b}'
    &&& text.last() == 'm'
    &&& forall|i: int| 1 <= i < text.len() - 1 ==> #[trigger] text[i] != 'm'
}

proof fn lemma_plain(text: Seq<char>)
    requires
        is_plain(text),
    ensures
        !in_escape(text),
        shown_width(text) == text.len(),
    decreases text.len(),
{
    if text.len() > 0 {
        let shorter = text.drop_last();
        assert forall|i: int| 0 <= i < shorter.len() implies ' ' <= #[trigger] shorter[i]
            <= '~' by {
            assert(shorter[i] == text[i]);
        }
        lemma_plain(shorter);
        assert(' ' <= text[text.len() - 1] <= '~');
    }
}

proof fn lemma_widths_add(a: Seq<char>, b: Seq<char>)
    requires
        !in_escape(a),
    ensures
        shown_width(a + b) == shown_width(a) + shown_width(b),
        in_escape(a + b) == in_escape(b),
    decreases b.len(),
{
    if b.len() == 0 {
        assert(a + b =~= a);
    } else {
        lemma_widths_add(a, b.drop_last());
        assert((a + b).drop_last() =~= a + b.drop_last());
        assert((a + b).last() == b.last());
    }
}

proof fn lemma_style(text: Seq<char>, n: int)
    requires
        is_style(text),
        1 <= n <= text.len(),
    ensures
        shown_width(text.take(n)) == 0,
        in_escape(text.take(n)) == (n < text.len()),
    decreases n,
{
    let part = text.take(n);
    assert(part.drop_last() =~= text.take(n - 1));
    if n > 1 {
        lemma_style(text, n - 1);
        assert(part.last() == text[n - 1]);
    } else {
        assert(text.take(0).len() == 0);
        assert(shown_width(text.take(0)) == 0);
        assert(part.last() == text[0]);
    }
}

/// Widths add up, styles take no room, and plain text takes one place for each character. A
/// character that is no control character takes as many places as it has bytes.
pub proof fn law_widths_add_up(a: Seq<char>, style: Seq<char>, b: Seq<char>, c: char)
    requires
        is_plain(a),
        is_style(style),
    ensures
        shown_width(a) == a.len(),
        shown_width(a + style + b) == a.len() + shown_width(b),
        shown_width(style) == 0,
        c >= ' ' && !('\u{7f}' <= c < '\u{a0}') ==> shown_width(seq![c]) == encode_utf8(
            seq![c],
        ).len(),
        c < ' ' || '\u{7f}' <= c < '\u{a0}' ==> shown_width(seq![c]) == 0,
{
    lemma_plain(a);
    lemma_style(style, style.len() as int);
    assert(style.take(style.len() as int) =~= style);
    lemma_widths_add(a, style);
    lemma_widths_add(a + style, b);
    let one = seq![c];
    assert(one.drop_last() =~= seq![]);
    assert(shown_width(one.drop_last()) == 0);
    assert(!in_escape(one.drop_last()));
    assert(one.drop_first() =~= seq![]);
    assert(encode_utf8(seq![]) =~= seq![]);
    assert(one[0] == c);
    assert(encode_utf8(one) =~= vstd::utf8::encode_scalar(c as u32));
}

/// A padded text starts with the text and goes on with blanks, and shows as wide as asked, or
/// as the text where that is wider.
pub proof fn law_padding_fills_up(text: Seq<char>, width: nat)
    requires
        !in_escape(text),
    ensures
        padded(text, width).len() >= text.len(),
        padded(text, width).take(text.len() as int) == text,
        forall|i: int|
            text.len() <= i < padded(text, width).len() ==> #[trigger] padded(text, width)[i]
                == ' ',
        shown_width(padded(text, width)) == if shown_width(text) > width {
            shown_width(text)
        } else {
            width
        },
{
    let wide = padded(text, width);
    assert(wide.take(text.len() as int) =~= text);
    if shown_width(text) < width {
        let blanks = crate::text::repeated(' ', (width - shown_width(text)) as nat);
        assert(is_plain(blanks));
        lemma_plain(blanks);
        lemma_widths_add(text, blanks);
    }
}

proof fn lemma_cut_plain(
    text: Seq<char>,
    at: int,
    offset: nat,
    end: int,
    style: Seq<char>,
    head: int,
    styled: bool,
)
    requires
        0 <= head <= at <= text.len(),
        text.len() < usize::MAX,
        forall|i: int| head <= i < text.len() ==> ' ' <= #[trigger] text[i] <= '~',
        0 < end,
        offset < end,
        at - head <= end,
    ensures
        ({
            let shown = text.skip(head);
            let low = if offset < shown.len() {
                offset as int
            } else {
                shown.len() as int
            };
            let high = if end < shown.len() {
                end
            } else {
                shown.len() as int
            };
            let before = if at - head <= offset {
                seq![]
            } else {
                style + shown.subrange(offset as int, at - head)
            };
            cut_from(
                text,
                at,
                Cut { taken: before, style, styled, shown: (at - head) as nat },
                offset,
                end,
            ).taken == (if low < high {
                style + shown.subrange(low, high)
            } else {
                seq![]
            })
        }),
        ({
            let shown = text.skip(head);
            let before = if at - head <= offset {
                seq![]
            } else {
                style + shown.subrange(offset as int, at - head)
            };
            cut_from(
                text,
                at,
                Cut { taken: before, style, styled, shown: (at - head) as nat },
                offset,
                end,
            ).styled == styled
        }),
    decreases text.len() - at,
{
    let shown = text.skip(head);
    let before = if at - head <= offset {
        seq![]
    } else {
        style + shown.subrange(offset as int, at - head)
    };
    let cut = Cut { taken: before, style, styled, shown: (at - head) as nat };
    if at < text.len() && at - head < end {
        let c = text[at];
        assert(' ' <= c <= '~');
        assert(char_width(c) == 1);
        assert(c != ESCAPE);
        let next = crate::slicing::past_char(cut, c, offset);
        let after = if at + 1 - head <= offset {
            seq![]
        } else {
            style + shown.subrange(offset as int, at + 1 - head)
        };
        assert(shown[at - head] == c);
        if at - head >= offset {
            assert(shown.subrange(offset as int, at + 1 - head) =~= shown.subrange(
                offset as int,
                at - head,
            ).push(c));
            if at - head == offset {
                assert(shown.subrange(offset as int, at - head) =~= seq![]);
            }
            assert(next.taken =~= after);
        }
        assert(next == (Cut { taken: after, style, styled, shown: (at + 1 - head) as nat }));
        lemma_cut_plain(text, at + 1, offset, end, style, head, styled);
    } else {
        let low = if offset < shown.len() {
            offset as int
        } else {
            shown.len() as int
        };
        if at - head <= offset {
            if at == text.len() {
                assert(low == shown.len());
            }
        }
    }
}

/// Of plain text the characters from the offset on are cut out, as many as are asked for and
/// there.
pub proof fn law_plain_text_is_cut(text: Seq<char>, offset: nat, width: nat)
    requires
        is_plain(text),
        text.len() < usize::MAX,
        offset + width <= usize::MAX,
    ensures
        slice(text, offset, width) == text.subrange(
            if offset < text.len() {
                offset as int
            } else {
                text.len() as int
            },
            if offset + width < text.len() {
                (offset + width) as int
            } else {
                text.len() as int
            },
        ),
{
    let low = if offset < text.len() {
        offset as int
    } else {
        text.len() as int
    };
    let high = if offset + width < text.len() {
        (offset + width) as int
    } else {
        text.len() as int
    };
    assert(text.skip(0) =~= text);
    if width > 0 {
        lemma_cut_plain(text, 0, offset, (offset + width) as int, seq![], 0, false);
        if low < high {
            assert(Seq::<char>::empty() + text.subrange(low, high) =~= text.subrange(low, high));
        } else {
            assert(text.subrange(low, high) =~= seq![]);
        }
    } else {
        assert(text.subrange(low, high) =~= seq![]);
    }
}

/// Text cut out of a style keeps it: the style goes ahead of what is cut out, and is reset
/// behind it. Where nothing is cut out, nothing is left of it.
pub proof fn law_styles_are_kept_and_closed(
    style: Seq<char>,
    text: Seq<char>,
    offset: nat,
    width: nat,
)
    requires
        is_style(style),
        style != seq!['\u{1b}', '[', '0', 'm'],
        is_plain(text),
        text.len() > 0,
        style.len() + text.len() < usize::MAX,
        offset + width <= usize::MAX,
        width > 0,
        0 < offset,
    ensures
        offset < text.len() ==> slice(style + text, offset, width) == style + text.subrange(
            offset as int,
            if offset + width < text.len() {
                (offset + width) as int
            } else {
                text.len() as int
            },
        ) + seq!['\u{1b}', '[', '0', 'm'],
        offset >= text.len() ==> slice(style + text, offset, width).len() == 0,
{
    let whole = style + text;
    let head = style.len() as int;
    let end = (offset + width) as int;
    let start = Cut { taken: Seq::<char>::empty(), style: seq![], styled: false, shown: 0 };
    reveal_strlit("\u{1b}[0m");
    let reset = seq!['\u{1b}', '[', '0', 'm'];
    assert(STYLE_RESET@ =~= reset);
    assert(whole[0] == ESCAPE);
    assert(whole.take(head) =~= style);
    lemma_mark(whole, style);
    assert(crate::slicing::sequence_end(whole, 0) == head);
    assert(whole.subrange(0, head) =~= style);
    let opened = crate::slicing::past_sequence(start, style, offset);
    assert(opened == (Cut { taken: seq![], style, styled: true, shown: 0 }));
    assert forall|i: int| head <= i < whole.len() implies ' ' <= #[trigger] whole[i] <= '~' by {
        assert(whole[i] == text[i - head]);
    }
    assert(whole.skip(head) =~= text);
    lemma_cut_plain(whole, head, offset, end, style, head, true);
    let cut = cut_from(whole, 0, start, offset, end);
    assert(cut == cut_from(whole, head, opened, offset, end));
    let high = if end < text.len() {
        end
    } else {
        text.len() as int
    };
    if offset < text.len() {
        let taken = style + text.subrange(offset as int, high);
        assert(cut.taken == taken);
        assert(taken.last() == text[high - 1]);
        assert(' ' <= text[high - 1] <= '~');
        if ends_with(taken, reset) {
            let n = high - offset;
            assert(taken.skip(taken.len() - 4)[3] == 'm');
            assert(taken.skip(taken.len() - 4)[0] == ESCAPE);
            assert(taken[taken.len() - 4] == ESCAPE);
            if n < 4 {
                assert(taken[head - 1] == style.last());
                assert(taken.skip(taken.len() - 4)[3 - n] == taken[head - 1]);
            } else {
                assert(taken[taken.len() - 4] == text[high - 4]);
                assert(' ' <= text[high - 4] <= '~');
            }
        }
    }
}

proof fn lemma_mark(whole: Seq<char>, style: Seq<char>)
    requires
        is_style(style),
        whole.len() >= style.len(),
        whole.take(style.len() as int) == style,
    ensures
        crate::text::next_char(whole, 0, 'm') == style.len() - 1,
{
    let at = style.len() - 1;
    assert(whole.take(style.len() as int)[at] == whole[at]);
    assert forall|i: int| 0 <= i < at implies whole[i] != 'm' by {
        assert(whole.take(style.len() as int)[i] == whole[i]);
        if i == 0 {
            assert(whole[0] == ESCAPE);
        }
    }
    crate::message_laws::lemma_first_place(whole, at, 'm');
}

/// Keys move the view by a line, a column or a page, to its start or its end, and never beyond
/// them. A line down and a line up again is where it was; letters do as the arrows.
pub proof fn law_keys_move_the_view(x: nat, y: nat, max_y: nat, page: nat)
    requires
        y <= max_y,
        max_y + page < usize::MAX,
        x < usize::MAX,
    ensures
        moved(PagerKey::Up, x, y, max_y, page) == (x, if y > 0 {
            (y - 1) as nat
        } else {
            0
        }),
        moved(PagerKey::Down, x, y, max_y, page) == (x, if y < max_y {
            y + 1
        } else {
            max_y
        }),
        moved(PagerKey::Left, x, y, max_y, page) == (if x > 0 {
            (x - 1) as nat
        } else {
            0
        }, y),
        moved(PagerKey::Right, x, y, max_y, page) == (x + 1, y),
        moved(PagerKey::PageUp, x, y, max_y, page) == (x, if y > page {
            (y - page) as nat
        } else {
            0
        }),
        moved(PagerKey::PageDown, x, y, max_y, page) == (x, if y + page < max_y {
            y + page
        } else {
            max_y
        }),
        moved(PagerKey::Home, x, y, max_y, page) == (0nat, 0nat),
        moved(PagerKey::End, x, y, max_y, page) == (x, max_y),
        moved(PagerKey::Char('k'), x, y, max_y, page) == moved(PagerKey::Up, x, y, max_y, page),
        moved(PagerKey::Char('j'), x, y, max_y, page) == moved(PagerKey::Down, x, y, max_y, page),
        moved(PagerKey::Char('h'), x, y, max_y, page) == moved(PagerKey::Left, x, y, max_y, page),
        moved(PagerKey::Char('l'), x, y, max_y, page) == moved(PagerKey::Right, x, y, max_y, page),
        moved(PagerKey::Char(' '), x, y, max_y, page) == moved(
            PagerKey::PageDown,
            x,
            y,
            max_y,
            page,
        ),
        quits(PagerKey::Esc) && quits(PagerKey::Char('q')),
        !quits(PagerKey::Up) && !quits(PagerKey::Down) && !quits(PagerKey::Home) && !quits(
            PagerKey::End,
        ),
{
}

/// The last line is in view at the end, and the view cannot go beyond.
pub proof fn law_view_ends_with_the_last_line(view: PagerView, height: nat)
    ensures
        view.right.len() >= height ==> view.max_y(height) + height == view.right.len(),
        view.right.len() < height ==> view.max_y(height) == 0,
{
}

proof fn lemma_reached(view: PagerView, at: int, line: int)
    requires
        0 <= at <= view.sections.len(),
        forall|i: int, j: int|
            0 <= i <= j < view.sections.len() ==> (#[trigger] view.sections[i]).start <= (
            #[trigger] view.sections[j]).start,
    ensures
        ({
            let n = view.reached(at, line);
            &&& at <= n <= view.sections.len()
            &&& forall|i: int| at <= i < n ==> (#[trigger] view.sections[i]).start <= line
            &&& forall|i: int| n <= i < view.sections.len() ==> (#[trigger] view.sections[i]).start
                > line
        }),
    decreases view.sections.len() - at,
{
    if at < view.sections.len() && view.sections[at].start <= line {
        lemma_reached(view, at + 1, line);
    }
}

/// A line belongs to the order whose details start last at or above it.
pub proof fn law_lines_belong_to_orders(view: PagerView, line: int, i: int)
    requires
        forall|i: int, j: int|
            0 <= i <= j < view.sections.len() ==> (#[trigger] view.sections[i]).start <= (
            #[trigger] view.sections[j]).start,
        0 <= i < view.sections.len(),
        view.sections[i].start <= line,
        i + 1 < view.sections.len() ==> line < view.sections[i + 1].start,
    ensures
        view.section_of(line) == Some(i),
{
    lemma_reached(view, 0, line);
    let n = view.reached(0, line);
    if i + 1 < view.sections.len() {
        assert(view.sections[i + 1].start > line);
        assert(n <= i + 1);
    }
    assert(n > i);
}

proof fn lemma_details(sections: Seq<SummaryPagerSection>, i: int, n: int)
    requires
        0 <= i < n <= sections.len(),
    ensures
        ({
            let start = detail_lines(sections, i).len() as int;
            let own = lines_of(sections[i].detail@);
            let all = detail_lines(sections, n);
            &&& start + own.len() <= all.len()
            &&& all.subrange(start, start + own.len()) == own
        }),
    decreases n,
{
    let start = detail_lines(sections, i).len() as int;
    let own = lines_of(sections[i].detail@);
    let all = detail_lines(sections, n);
    if n == i + 1 {
        assert(all.subrange(start, start + own.len()) =~= own);
    } else {
        lemma_details(sections, i, n - 1);
        let before = detail_lines(sections, n - 1);
        assert(all.subrange(start, start + own.len()) =~= before.subrange(
            start,
            start + own.len(),
        ));
    }
}

/// The split view shows every order: its details stand on the right from its start on, and the
/// orders up to it are counted, with those that are not done yet.
pub proof fn law_orders_have_their_details(content: SummaryPagerContent, c: ColourPalette, i: int)
    requires
        0 <= i < content.sections@.len(),
    ensures
        ({
            let view = pager_of(content, c);
            let section = content.sections@[i];
            let own = lines_of(section.detail@);
            &&& view.sections.len() == content.sections@.len()
            &&& view.sections[i].summary == lines_of(section.summary@)
            &&& own.len() > 0 ==> view.sections[i].start + own.len() <= view.right.len()
                && view.right.subrange(
                view.sections[i].start,
                view.sections[i].start + own.len(),
            ) == own
        }),
{
    let all = content.sections@;
    lemma_details(all, i, all.len() as int);
}

/// The orders that are done are counted: one more for each.
pub proof fn law_done_orders_are_counted(sections: Seq<SummaryPagerSection>)
    ensures
        done_count(sections) == sections.filter(|s: SummaryPagerSection| s.terminal).len(),
    decreases sections.len(),
{
    reveal(Seq::filter);
    if sections.len() > 0 {
        law_done_orders_are_counted(sections.drop_last());
    }
}

/// The text starts with another.
pub open spec fn opens_with(text: Seq<char>, start: Seq<char>) -> bool {
    text.len() >= start.len() && text.take(start.len() as int) == start
}

/// The cell under the title starts with a text in a colour.
pub open spec fn shows_under(
    block: bool,
    event: EventView,
    cell: Seq<char>,
    width: nat,
    c: ColourPalette,
    title: Seq<char>,
    start: Seq<char>,
) -> bool {
    exists|i: int|
        0 <= i < timeline_headers(block, width).len() && i < timeline_cells(
            block,
            event,
            cell,
            width,
            c,
        ).len() && (#[trigger] timeline_headers(block, width)[i]).0 == title && opens_with(
            timeline_cells(block, event, cell, width, c)[i],
            start,
        )
}

/// The value, or a dash.
pub open spec fn or_a_dash(value: Option<Seq<char>>) -> Seq<char> {
    if value is Some {
        value->0
    } else {
        seq!['-']
    }
}

/// An event has a cell under each title of the timeline: its time, its message, what was done
/// and is left to do, the last fill and its price, and the average price.
pub proof fn law_events_stand_under_their_titles(
    block: bool,
    event: EventView,
    cell: Seq<char>,
    width: nat,
    c: ColourPalette,
)
    ensures
        timeline_headers(block, width).len() == timeline_cells(block, event, cell, width, c).len(),
        shows_under(
            block,
            event,
            cell,
            width,
            c,
            "time"@,
            c.value@ + or_a_dash(event.time) + c.reset@,
        ),
        shows_under(block, event, cell, width, c, "msg"@, cell),
        shows_under(
            block,
            event,
            cell,
            width,
            c,
            "cum/leaves"@,
            c.value@ + or_a_dash(event.cum_qty) + seq!['/'] + or_a_dash(event.leaves_qty) + c.reset@,
        ),
        shows_under(
            block,
            event,
            cell,
            width,
            c,
            "last@price"@,
            c.value@ + or_a_dash(event.last_qty) + seq!['@'] + or_a_dash(event.last_px) + c.reset@,
        ),
        shows_under(
            block,
            event,
            cell,
            width,
            c,
            "avgPx"@,
            c.value@ + or_a_dash(event.avg_px) + c.reset@,
        ),
        event.text matches Some(text) && text.len() > 0 ==> shows_under(
            block,
            event,
            cell,
            width,
            c,
            "text"@,
            c.name@ + event.text->0 + c.reset@,
        ),
{
    reveal_strlit("-");
    reveal_strlit("/");
    reveal_strlit("@");
    assert("-"@ =~= seq!['-']);
    assert("/"@ =~= seq!['/']);
    assert("@"@ =~= seq!['@']);
    let titles = timeline_headers(block, width);
    let cells = timeline_cells(block, event, cell, width, c);
    let k: int = if block {
        1
    } else {
        0
    };
    let time = c.value@ + or_a_dash(event.time) + c.reset@;
    let done = c.value@ + or_a_dash(event.cum_qty) + seq!['/'] + or_a_dash(event.leaves_qty)
        + c.reset@;
    let last = c.value@ + or_a_dash(event.last_qty) + seq!['@'] + or_a_dash(event.last_px)
        + c.reset@;
    let average = c.value@ + or_a_dash(event.avg_px) + c.reset@;
    lemma_padded_opens(time, 22);
    lemma_padded_opens(cell, width);
    lemma_padded_opens(done, 18);
    lemma_padded_opens(last, 18);
    lemma_padded_opens(average, 10);
    assert(titles[0].0 == "time"@ && cells[0] == padded(time, 22));
    assert(titles[1].0 == "msg"@ && cells[1] == padded(cell, width));
    assert(titles[4 + k].0 == "cum/leaves"@ && cells[4 + k] == padded(done, 18));
    assert(titles[5 + k].0 == "last@price"@ && cells[5 + k] == padded(last, 18));
    assert(titles[6 + k].0 == "avgPx"@ && cells[6 + k] == padded(average, 10));
    assert(titles[7 + k].0 == "text"@);
    if let Some(text) = event.text {
        if text.len() > 0 {
            let note = c.name@ + text + c.reset@;
            let remark = crate::summary_render::remark_cell(event, c);
            lemma_padded_opens(remark, 0);
            assert(opens_with(remark, note)) by {
                assert(remark.take(note.len() as int) =~= note);
            }
            assert(cells[7 + k] == padded(remark, 0));
            assert(cells[7 + k].take(note.len() as int) =~= note) by {
                assert(remark.take(note.len() as int) == note);
                assert(cells[7 + k].take(remark.len() as int) == remark);
                assert(cells[7 + k].take(note.len() as int) =~= cells[7 + k].take(
                    remark.len() as int,
                ).take(note.len() as int));
            }
        }
    }
}

proof fn lemma_padded_opens(text: Seq<char>, width: nat)
    ensures
        opens_with(padded(text, width), text),
{
    assert(padded(text, width).take(text.len() as int) =~= text);
}

/// Lines come apart at their ends, with or without a carriage return; the last needs no end.
pub proof fn law_lines_come_apart(line: Seq<char>, rest: Seq<char>)
    requires
        !line.contains('\n'),
        !line.contains('\r'),
    ensures
        lines_of(line + seq!['\n'] + rest) == seq![line] + lines_of(rest),
        lines_of(line + seq!['\r', '\n'] + rest) == seq![line] + lines_of(rest),
        line.len() > 0 ==> lines_of(line) == seq![line],
        lines_of(seq![]).len() == 0,
{
    let bare = line + seq!['\n'] + rest;
    crate::message_laws::lemma_split_first(line, rest, '\n');
    lemma_split_len(rest);
    let pieces = split(rest, '\n');
    lemma_line_first(line, line, pieces);
    assert(lines_of(bare) =~= seq![line] + lines_of(rest));
    let returned = line.push('\r');
    assert(!returned.contains('\n')) by {
        assert forall|i: int| 0 <= i < returned.len() implies returned[i] != '\n' by {
            if i < line.len() {
                assert(line.contains(line[i]));
            }
        }
    }
    crate::message_laws::lemma_split_first(returned, rest, '\n');
    assert(returned + seq!['\n'] + rest =~= line + seq!['\r', '\n'] + rest);
    assert(returned.drop_last() =~= line);
    lemma_line_first(returned, line, pieces);
    assert(lines_of(line + seq!['\r', '\n'] + rest) =~= seq![line] + lines_of(rest));
    assert forall|i: int| 0 <= i < line.len() implies line[i] != '\n' by {
        assert(line.contains(line[i]));
    }
    crate::message_laws::lemma_first_place(line, line.len() as int, '\n');
    assert(split(line, '\n') =~= seq![line]) by {
        assert(line.subrange(0, line.len() as int) =~= line);
    }
    let empty = Seq::<char>::empty();
    crate::message_laws::lemma_first_place(empty, 0, '\n');
    assert(split(empty, '\n') =~= seq![empty]) by {
        assert(empty.subrange(0, 0) =~= empty);
    }
}

proof fn lemma_split_len(text: Seq<char>)
    ensures
        split(text, '\n').len() > 0,
{
}

proof fn lemma_line_first(piece: Seq<char>, line: Seq<char>, pieces: Seq<Seq<char>>)
    requires
        pieces.len() > 0,
        !line.contains('\r'),
        piece == line || piece == line.push('\r'),
    ensures
        ({
            let trim = |l: Seq<char>| crate::slicing::without_return(l);
            let all = seq![piece] + pieces;
            &&& all.drop_last().map_values(trim) == seq![line] + pieces.drop_last().map_values(trim)
            &&& all.last() == pieces.last()
        }),
{
    let trim = |l: Seq<char>| crate::slicing::without_return(l);
    let all = seq![piece] + pieces;
    assert(all.drop_last() =~= seq![piece] + pieces.drop_last());
    if piece == line {
        if line.len() > 0 {
            assert(line.contains(line[line.len() - 1]));
        }
    } else {
        assert(piece.drop_last() =~= line);
    }
    assert(trim(piece) == line);
    assert(all.drop_last().map_values(trim) =~= seq![line] + pieces.drop_last().map_values(trim));
}

} // verus!
