//! How source lines and the rules between them are written.
use crate::ansi::{capped, in_escape, plus, shown_width, visible_width, ESCAPE};
use crate::colours::ColourPalette;
use crate::dictionaries::opt_str;
use crate::outside::{utc_date_text, utc_text, UTC_FORMAT};
use crate::text::{
    chars_of, copy_of, decimal, decimal_text, push_repeated, push_right_aligned, repeated,
    right_aligned, split, split_text, text_between, text_view, texts, SOH,
};
use vstd::prelude::*;

verus! {

broadcast use vstd::seq_lib::group_seq_properties;

/// What is written besides the messages: line numbers, a header for each source, and rules.
#[derive(Clone, Copy, Debug, PartialEq, Eq, Structural)]
pub struct OutputStyle {
    pub show_numbers: bool,
    pub show_header: bool,
    pub show_grid: bool,
}

impl OutputStyle {
    pub fn plain() -> (style: OutputStyle)
        ensures
            style == (OutputStyle { show_numbers: false, show_header: false, show_grid: false }),
    {
        OutputStyle { show_numbers: false, show_header: false, show_grid: false }
    }

    pub fn full() -> (style: OutputStyle)
        ensures
            style == (OutputStyle { show_numbers: true, show_header: true, show_grid: true }),
    {
        OutputStyle { show_numbers: true, show_header: true, show_grid: true }
    }

    /// Header and rules on a terminal, nothing elsewhere.
    pub fn default_for_terminal(is_terminal: bool) -> (style: OutputStyle)
        ensures
            style == (OutputStyle {
                show_numbers: false,
                show_header: is_terminal,
                show_grid: is_terminal,
            }),
    {
        if is_terminal {
            OutputStyle { show_numbers: false, show_header: true, show_grid: true }
        } else {
            OutputStyle::plain()
        }
    }
}

// ---------------------------------------------------------------------------
// Rules

/// How wide a rule is: the terminal, or where it is fitted to its content, no narrower than
/// that.
pub open spec fn rule_width(content_width: nat, wide_grid: bool, terminal_width: nat) -> nat {
    if !wide_grid {
        terminal_width
    } else if content_width > terminal_width {
        content_width
    } else if terminal_width > 1 {
        terminal_width
    } else {
        1
    }
}

/// What stands between messages.
pub open spec fn separator(
    style: OutputStyle,
    content_width: nat,
    wide_grid: bool,
    terminal_width: nat,
    c: ColourPalette,
) -> Seq<char> {
    if !style.show_grid {
        "\n"@
    } else {
        c.title@ + repeated('=', rule_width(content_width, wide_grid, terminal_width)) + c.reset@
            + "\n"@
    }
}

/// What stands between messages: a rule, or an empty line where there are none.
pub fn render_separator(
    style: OutputStyle,
    content_width: usize,
    wide_grid: bool,
    terminal_width: usize,
    colours: ColourPalette,
) -> (text: String)
    ensures
        text@ == separator(
            style,
            content_width as nat,
            wide_grid,
            terminal_width as nat,
            colours,
        ),
{
    if !style.show_grid {
        return copy_of("\n");
    }
    let width: usize = if !wide_grid {
        terminal_width
    } else if content_width > terminal_width {
        content_width
    } else if terminal_width > 1 {
        terminal_width
    } else {
        1
    };
    let mut text = copy_of(colours.title);
    push_repeated(&mut text, '=', width);
    text.append(colours.reset);
    text.append("\n");
    text
}

/// How wide the widest of some lines shows.
pub open spec fn widest(lines: Seq<Seq<char>>) -> nat
    decreases lines.len(),
{
    if lines.len() == 0 {
        0
    } else {
        let rest = widest(lines.drop_last());
        let last = shown_width(lines.last());
        if last > rest {
            last
        } else {
            rest
        }
    }
}

/// How wide the widest line of a text shows.
pub fn max_visible_line_width(text: &str) -> (width: usize)
    ensures
        width == widest(split(text@, '\n')),
{
    let lines = split_text(text, '\n');
    let ghost all = texts(lines@);
    let mut width: usize = 0;
    let mut i: usize = 0;
    assert(all.take(0) =~= seq![]);
    while i < lines.len()
        invariant
            i <= lines@.len(),
            all == texts(lines@),
            width == widest(all.take(i as int)),
        decreases lines@.len() - i,
    {
        assert(all[i as int] == lines@[i as int]@);
        assert(all.take(i + 1).drop_last() =~= all.take(i as int));
        let shown: usize = visible_width(lines[i].as_str());
        if shown > width {
            width = shown;
        }
        i += 1;
    }
    assert(all.take(i as int) =~= all);
    width
}

// ---------------------------------------------------------------------------
// Source lines

/// How wide a character shows where control characters have a width of their own: two for a
/// field separator, else one for each byte.
pub open spec fn marked_char_width(c: char) -> nat {
    if c == SOH {
        2
    } else if (c as u32) < 0x80 {
        1
    } else if (c as u32) < 0x800 {
        2
    } else if (c as u32) < 0x10000 {
        3
    } else {
        4
    }
}

/// How wide a text shows with marks for its field separators, its escape sequences left out.
pub open spec fn marked_width(text: Seq<char>) -> int
    decreases text.len(),
{
    if text.len() == 0 {
        0
    } else if in_escape(text.drop_last()) || text.last() == ESCAPE {
        marked_width(text.drop_last())
    } else {
        capped(marked_width(text.drop_last()) + marked_char_width(text.last()))
    }
}

/// How wide a text shows with marks for its field separators, its escape sequences left out.
pub fn visible_width_with_soh_markers(text: &str) -> (width: usize)
    ensures
        width == marked_width(text@),
{
    let chars = chars_of(text);
    let mut width: usize = 0;
    let mut inside: bool = false;
    let mut i: usize = 0;
    assert(chars@.take(0) =~= seq![]);
    while i < chars.len()
        invariant
            i <= chars@.len(),
            width == marked_width(chars@.take(i as int)),
            inside == in_escape(chars@.take(i as int)),
        decreases chars@.len() - i,
    {
        assert(chars@.take(i + 1).drop_last() =~= chars@.take(i as int));
        let c: char = chars[i];
        if inside {
            inside = c != 'm';
        } else if c == ESCAPE {
            inside = true;
        } else {
            let shown: usize = if c == SOH {
                2
            } else if (c as u32) < 0x80 {
                1
            } else if (c as u32) < 0x800 {
                2
            } else if (c as u32) < 0x10000 {
                3
            } else {
                4
            };
            width = plus(width, shown);
        }
        i += 1;
    }
    assert(chars@.take(chars@.len() as int) =~= chars@);
    width
}

/// How wide a source line shows, its number included where numbers are shown.
pub open spec fn source_width(number: nat, content: Seq<char>, show_numbers: bool) -> int {
    let prefix = if show_numbers {
        shown_width(right_aligned(decimal(number), 6, ' ') + " | "@)
    } else {
        0
    };
    capped(prefix + marked_width(content))
}

/// How wide a source line shows, its number included where numbers are shown.
pub fn source_line_visible_width(line_number: usize, content: &str, show_numbers: bool) -> (width:
    usize)
    ensures
        width == source_width(line_number as nat, content@, show_numbers),
{
    let mut prefix = String::new();
    if show_numbers {
        push_right_aligned(&mut prefix, decimal_text(line_number as u64).as_str(), 6, ' ');
        prefix.append(" | ");
    }
    plus(visible_width(prefix.as_str()), visible_width_with_soh_markers(content))
}

/// A source line as it is written.
pub open spec fn source_line(
    number: nat,
    content: Seq<char>,
    style: OutputStyle,
    c: ColourPalette,
) -> Seq<char> {
    let prefix = if style.show_numbers {
        c.file@ + right_aligned(decimal(number), 6, ' ') + c.reset@ + " | "@
    } else {
        seq![]
    };
    prefix + content + "\n"@
}

/// A source line as it is written.
pub fn write_source_line(
    line_number: usize,
    content: &str,
    style: OutputStyle,
    colours: ColourPalette,
) -> (text: String)
    ensures
        text@ == source_line(line_number as nat, content@, style, colours),
{
    let mut text = String::new();
    if style.show_numbers {
        text.append(colours.file);
        push_right_aligned(&mut text, decimal_text(line_number as u64).as_str(), 6, ' ');
        text.append(colours.reset);
        text.append(" | ");
        assert(text@ =~= colours.file@ + right_aligned(decimal(line_number as nat), 6, ' ')
            + colours.reset@ + " | "@);
    }
    text.append(content);
    text.append("\n");
    text
}

/// A line without its end.
pub open spec fn without_line_end(line: Seq<char>) -> Seq<char> {
    if line.len() > 0 && line.last() == '\n' {
        let short = line.drop_last();
        if short.len() > 0 && short.last() == '\r' {
            short.drop_last()
        } else {
            short
        }
    } else {
        line
    }
}

/// A line without its end: a line feed, and a carriage return before it.
pub fn trim_line_endings(line: &str) -> (text: String)
    ensures
        text@ == without_line_end(line@),
{
    let chars = chars_of(line);
    let mut end: usize = chars.len();
    if end > 0 && chars[end - 1] == '\n' {
        end -= 1;
        if end > 0 && chars[end - 1] == '\r' {
            end -= 1;
        }
    }
    let text = text_between(&chars, 0, end);
    assert(text@ =~= without_line_end(line@));
    text
}

// ---------------------------------------------------------------------------
// Headers

/// The header over what is read from standard input.
pub open spec fn stdin_header(style: OutputStyle, terminal_width: nat, c: ColourPalette) -> Seq<
    char,
> {
    if !style.show_header {
        seq![]
    } else {
        let fill = if terminal_width >= 15 {
            (terminal_width - 11) as nat
        } else {
            4
        };
        c.file@ + "-- (stdin) "@ + repeated('-', fill) + c.reset@ + "\n\n"@
    }
}

/// The header over what is read from standard input.
pub fn announce_stdin_source(style: OutputStyle, terminal_width: usize, colours: ColourPalette) -> (
    text: String)
    ensures
        text@ == stdin_header(style, terminal_width as nat, colours),
{
    if !style.show_header {
        return String::new();
    }
    let fill: usize = if terminal_width >= 15 {
        terminal_width - 11
    } else {
        4
    };
    let mut text = copy_of(colours.file);
    text.append("-- (stdin) ");
    push_repeated(&mut text, '-', fill);
    text.append(colours.reset);
    text.append("\n\n");
    text
}

/// The time of a file's last change.
pub open spec fn change_time(seconds: i64, nanos: u32) -> Option<Seq<char>> {
    match utc_date_text(seconds, nanos, UTC_FORMAT@) {
        Some(text) => Some(
            text + "."@ + right_aligned(decimal((nanos / 1000000) as nat), 3, '0') + "Z"@,
        ),
        None => None,
    }
}

/// The time of a file's last change, from the seconds and nanoseconds since 1970.
pub fn format_last_modified(seconds: i64, nanos: u32) -> (text: Option<String>)
    ensures
        text_view(text) == change_time(seconds, nanos),
{
    match utc_text(seconds, nanos, UTC_FORMAT) {
        Some(date) => {
            let mut text = date;
            text.append(".");
            push_right_aligned(&mut text, decimal_text((nanos / 1000000) as u64).as_str(), 3, '0');
            text.append("Z");
            Some(text)
        },
        None => None,
    }
}

/// The larger of two widths.
pub open spec fn larger(a: nat, b: nat) -> nat {
    if a > b {
        a
    } else {
        b
    }
}

/// A line in the colour of sources.
pub open spec fn header_line(text: Seq<char>, c: ColourPalette) -> Seq<char> {
    c.file@ + text + c.reset@ + "\n"@
}

/// The header over a file.
pub open spec fn file_header(
    filename: Seq<char>,
    modified: Option<Seq<char>>,
    c: ColourPalette,
) -> Seq<char> {
    let name = "Filename: "@ + filename;
    let time = "Last Modified: "@ + match modified {
        Some(text) => text,
        None => "unavailable"@,
    };
    let rule = repeated('-', larger(larger(46, shown_width(name)), shown_width(time)));
    header_line(rule, c) + header_line(name, c) + header_line(time, c) + header_line(rule, c)
        + "\n"@
}

fn push_header_line(out: &mut String, text: &str, colours: ColourPalette)
    ensures
        final(out)@ == old(out)@ + header_line(text@, colours),
{
    let mut line = copy_of(colours.file);
    line.append(text);
    line.append(colours.reset);
    line.append("\n");
    out.append(line.as_str());
}

/// The header over a file: its name and the time of its last change, where that is known.
pub fn announce_file_source(filename: &str, modified: Option<&str>, colours: ColourPalette) -> (
    text: String)
    ensures
        text@ == file_header(filename@, opt_str(modified), colours),
{
    let mut name = copy_of("Filename: ");
    name.append(filename);
    let mut time = copy_of("Last Modified: ");
    time.append(
        match modified {
            Some(text) => text,
            None => "unavailable",
        },
    );
    let name_width: usize = visible_width(name.as_str());
    let time_width: usize = visible_width(time.as_str());
    let mut width: usize = 46;
    if name_width >= width {
        width = name_width;
    }
    if time_width >= width {
        width = time_width;
    }
    let mut rule = String::new();
    push_repeated(&mut rule, '-', width);
    assert(rule@ =~= repeated('-', width as nat));
    let mut text = String::new();
    push_header_line(&mut text, rule.as_str(), colours);
    push_header_line(&mut text, name.as_str(), colours);
    push_header_line(&mut text, time.as_str(), colours);
    push_header_line(&mut text, rule.as_str(), colours);
    text.append("\n");
    assert(text@ =~= file_header(filename@, opt_str(modified), colours));
    text
}

} // verus!
