//! Messages of a line: taken out, shown in the line, and decoded one by one.
use crate::ansi::{capped, plus};
use crate::colours::ColourPalette;
use crate::decoded::{prettified, prettify_with_report, DecodeEnv};
use crate::obfuscator::{message_spans, MESSAGE_PATTERN};
use crate::output_style::{
    max_visible_line_width, render_separator, separator, widest, OutputStyle,
};
use crate::outside::{find_spans, in_order};
use crate::report::{report_of, ReportView, ValidationReport};
use crate::summary::{display_with_delimiter, with_delimiter};
use crate::tag_lookup::{FixTagLookup, LookupModel};
use crate::text::{chars_of, copy_of, split, text_between, texts};
use crate::validator::{findings, validate_fix_message};
use vstd::prelude::*;
use vstd::utf8::encode_utf8;

verus! {

broadcast use vstd::seq_lib::group_seq_properties;

/// How lines are decoded and shown.
#[derive(Clone, Copy, Debug)]
pub struct DecodeSettings {
    pub display_delimiter: char,
    pub style: OutputStyle,
    pub wide_grid: bool,
    pub follow: bool,
    pub live_status_enabled: bool,
    pub validation_enabled: bool,
    pub no_counts: bool,
    pub colours: ColourPalette,
    pub terminal_width: usize,
}

/// Where the messages stand in a line, in characters.
pub fn find_fix_message_indices(line: &str) -> (spans: Vec<(usize, usize)>)
    ensures
        spans@ == message_spans(line@),
        in_order(spans@, line@.len()),
{
    match find_spans(MESSAGE_PATTERN, line) {
        Some(spans) => spans,
        None => Vec::new(),
    }
}

/// The parts of a line under spans.
pub open spec fn parts_at(line: Seq<char>, spans: Seq<(usize, usize)>) -> Seq<Seq<char>> {
    spans.map_values(|s: (usize, usize)| line.subrange(s.0 as int, s.1 as int))
}

/// Where the last of some spans ends.
pub open spec fn last_end(spans: Seq<(usize, usize)>) -> int {
    if spans.len() == 0 {
        0
    } else {
        spans.last().1 as int
    }
}

/// A line up to the end of its last message, with the messages in their colour.
pub open spec fn coloured_parts(
    line: Seq<char>,
    spans: Seq<(usize, usize)>,
    delimiter: char,
    c: ColourPalette,
) -> Seq<char>
    decreases spans.len(),
{
    if spans.len() == 0 {
        seq![]
    } else {
        let earlier = spans.drop_last();
        let at = spans.last();
        coloured_parts(line, earlier, delimiter, c) + (c.line@ + with_delimiter(
            line.subrange(last_end(earlier), at.0 as int),
            delimiter,
        ) + c.message@ + with_delimiter(line.subrange(at.0 as int, at.1 as int), delimiter))
    }
}

/// A line with its messages in their colour.
pub open spec fn coloured_line(
    line: Seq<char>,
    spans: Seq<(usize, usize)>,
    delimiter: char,
    c: ColourPalette,
) -> Seq<char> {
    coloured_parts(line, spans, delimiter, c) + c.line@ + with_delimiter(
        line.subrange(last_end(spans), line.len() as int),
        delimiter,
    ) + c.reset@
}

/// The messages of a line, and the line with its messages in their colour.
pub fn extract_messages_and_format(
    line: &str,
    matches: &Vec<(usize, usize)>,
    display_delimiter: char,
    colours: ColourPalette,
) -> (parts: (Vec<String>, String))
    requires
        in_order(matches@, line@.len()),
    ensures
        texts(parts.0@) == parts_at(line@, matches@),
        parts.1@ == coloured_line(line@, matches@, display_delimiter, colours),
{
    let chars = chars_of(line);
    let ghost all = matches@;
    let mut messages: Vec<String> = Vec::new();
    let mut output = String::new();
    let mut last: usize = 0;
    let mut i: usize = 0;
    assert(texts(messages@) =~= parts_at(line@, all.take(0)));
    assert(all.take(0) =~= seq![]);
    while i < matches.len()
        invariant
            i <= matches@.len(),
            all == matches@,
            chars@ == line@,
            in_order(all, line@.len()),
            last == last_end(all.take(i as int)),
            last <= line@.len(),
            texts(messages@) == parts_at(line@, all.take(i as int)),
            output@ == coloured_parts(line@, all.take(i as int), display_delimiter, colours),
        decreases matches@.len() - i,
    {
        let (from, to) = matches[i];
        assert(all.take(i + 1).drop_last() =~= all.take(i as int));
        if i > 0 {
            assert(all[i - 1].1 <= all[i as int].0);
        }
        assert(all[i as int].0 <= all[i as int].1);
        let gap = text_between(&chars, last, from);
        let message = text_between(&chars, from, to);
        let mut part = copy_of(colours.line);
        part.append(display_with_delimiter(gap.as_str(), display_delimiter).as_str());
        part.append(colours.message);
        part.append(display_with_delimiter(message.as_str(), display_delimiter).as_str());
        output.append(part.as_str());
        let ghost before = texts(messages@);
        let ghost taken = message@;
        messages.push(message);
        assert(texts(messages@) =~= before.push(taken));
        assert(parts_at(line@, all.take(i + 1)) =~= parts_at(line@, all.take(i as int)).push(
            line@.subrange(from as int, to as int),
        ));
        last = to;
        i += 1;
    }
    assert(all.take(i as int) =~= all);
    let tail = text_between(&chars, last, chars.len());
    output.append(colours.line);
    output.append(display_with_delimiter(tail.as_str(), display_delimiter).as_str());
    output.append(colours.reset);
    (messages, output)
}

// ---------------------------------------------------------------------------
// Decoded messages

/// A message decoded, with the errors of a report in their places where there is one.
pub open spec fn pretty(
    msg: Seq<char>,
    dict: LookupModel,
    report: Option<ReportView>,
    c: ColourPalette,
) -> Seq<char> {
    prettified(
        msg,
        DecodeEnv {
            dict,
            notes: match report {
                Some(report) => Some(report.tag_errors),
                None => None,
            },
            colours: c,
        },
    )
}

/// What validating a message reports.
pub open spec fn checked(msg: Seq<char>, dict: LookupModel) -> ReportView {
    report_of(findings(msg, dict))
}

/// How wide errors show.
pub open spec fn errors_width(errors: Seq<Seq<char>>, least: nat) -> nat
    decreases errors.len(),
{
    if errors.len() == 0 {
        least
    } else {
        let rest = errors_width(errors.drop_last(), least);
        let last = capped(encode_utf8(errors.last()).len() + 3int) as nat;
        if last > rest {
            last
        } else {
            rest
        }
    }
}

/// How wide a decoded message shows, its errors behind it included.
pub open spec fn block_width(text: Seq<char>, report: Option<ReportView>) -> nat {
    let width = widest(split(text, '\n'));
    match report {
        Some(report) => errors_width(report.errors, width),
        None => width,
    }
}

pub open spec fn report_view(report: Option<&ValidationReport>) -> Option<ReportView> {
    match report {
        Some(report) => Some(report@),
        None => None,
    }
}

/// How wide a decoded message shows, its errors behind it included.
pub fn separator_width_for_pretty(pretty: &str, report: Option<&ValidationReport>) -> (width: usize)
    ensures
        width == block_width(pretty@, report_view(report)),
{
    let least: usize = max_visible_line_width(pretty);
    let mut width: usize = least;
    if let Some(report) = report {
        let ghost all = report@.errors;
        let mut i: usize = 0;
        assert(all.take(0) =~= seq![]);
        while i < report.errors.len()
            invariant
                i <= report.errors@.len(),
                all == report@.errors,
                all.len() == report.errors@.len(),
                width == errors_width(all.take(i as int), least as nat),
            decreases report.errors@.len() - i,
        {
            assert(all[i as int] == report.errors@[i as int]@);
            assert(all.take(i + 1).drop_last() =~= all.take(i as int));
            let shown: usize = plus(report.errors[i].as_str().as_bytes().len(), 3);
            if shown > width {
                width = shown;
            }
            i += 1;
        }
        assert(all.take(i as int) =~= all);
    }
    width
}

/// The report of a message, where messages are validated.
pub open spec fn report_where(msg: Seq<char>, dict: LookupModel, validated: bool) -> Option<
    ReportView,
> {
    if validated {
        Some(checked(msg, dict))
    } else {
        None
    }
}

/// How wide a message shows once decoded.
pub fn separator_width_for_message(
    msg: &str,
    dict: &FixTagLookup,
    validation_enabled: bool,
    colours: ColourPalette,
) -> (width: usize)
    ensures
        width == block_width(
            pretty(msg@, dict.model(), None, colours),
            report_where(msg@, dict.model(), validation_enabled),
        ),
{
    let text = prettify_with_report(msg, dict, None, &colours);
    if validation_enabled {
        let report = validate_fix_message(msg, dict);
        return separator_width_for_pretty(text.as_str(), Some(&report));
    }
    separator_width_for_pretty(text.as_str(), None)
}

/// A line for each error.
pub open spec fn error_lines(errors: Seq<Seq<char>>, c: ColourPalette) -> Seq<char>
    decreases errors.len(),
{
    if errors.len() == 0 {
        seq![]
    } else {
        error_lines(errors.drop_last(), c) + (c.error@ + "== "@ + errors.last() + c.reset@ + "\n"@)
    }
}

/// A decoded message, its errors behind it, and what stands before the next one.
pub open spec fn message_block(msg: Seq<char>, dict: LookupModel, s: DecodeSettings) -> Seq<char> {
    let text = pretty(msg, dict, None, s.colours);
    let report = report_where(msg, dict, s.validation_enabled);
    let rule = separator(
        s.style,
        block_width(text, report),
        s.wide_grid,
        s.terminal_width as nat,
        s.colours,
    );
    let errors = match report {
        Some(report) => if report.errors.len() > 0 {
            rule + error_lines(report.errors, s.colours)
        } else {
            seq![]
        },
        None => seq![],
    };
    text + errors + if s.style.show_grid {
        seq![]
    } else {
        rule
    }
}

fn write_errors(report: &ValidationReport, colours: ColourPalette) -> (text: String)
    ensures
        text@ == error_lines(report@.errors, colours),
{
    let ghost all = report@.errors;
    let mut text = String::new();
    let mut i: usize = 0;
    assert(all.take(0) =~= seq![]);
    while i < report.errors.len()
        invariant
            i <= report.errors@.len(),
            all == report@.errors,
            all.len() == report.errors@.len(),
            text@ == error_lines(all.take(i as int), colours),
        decreases report.errors@.len() - i,
    {
        assert(all[i as int] == report.errors@[i as int]@);
        assert(all.take(i + 1).drop_last() =~= all.take(i as int));
        let mut line = copy_of(colours.error);
        line.append("== ");
        line.append(report.errors[i].as_str());
        line.append(colours.reset);
        line.append("\n");
        text.append(line.as_str());
        i += 1;
    }
    assert(all.take(i as int) =~= all);
    text
}

/// A decoded message, with its errors behind it where messages are validated.
pub fn process_fix_message(msg: &str, dict: &FixTagLookup, settings: DecodeSettings) -> (text:
    String)
    ensures
        text@ == message_block(msg@, dict.model(), settings),
{
    let pretty = prettify_with_report(msg, dict, None, &settings.colours);
    let report: Option<ValidationReport> = if settings.validation_enabled {
        Some(validate_fix_message(msg, dict))
    } else {
        None
    };
    let width: usize = separator_width_for_pretty(
        pretty.as_str(),
        match &report {
            Some(report) => Some(report),
            None => None,
        },
    );
    let rule = render_separator(
        settings.style,
        width,
        settings.wide_grid,
        settings.terminal_width,
        settings.colours,
    );
    let mut errors = String::new();
    if let Some(report) = &report {
        if !report.is_clean() {
            errors.append(rule.as_str());
            errors.append(write_errors(report, settings.colours).as_str());
        }
    }
    let mut text = pretty;
    text.append(errors.as_str());
    if !settings.style.show_grid {
        text.append(rule.as_str());
    }
    assert(text@ =~= message_block(msg@, dict.model(), settings));
    text
}

/// A message that failed validation, with its errors in their places.
pub fn stream_invalid_message(
    msg: &str,
    dict: &FixTagLookup,
    report: &ValidationReport,
    colours: ColourPalette,
) -> (text: String)
    ensures
        text@ == pretty(msg@, dict.model(), Some(report@), colours) + "\n"@,
{
    let mut text = prettify_with_report(msg, dict, Some(report), &colours);
    text.append("\n");
    text
}

} // verus!
