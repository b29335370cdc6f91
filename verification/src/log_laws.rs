//! What holds of the lines of a log, and of the dictionaries and copies that go with it.
use crate::catalogue::{dictionary_for, has_entries, key_of, taken_up, with_session, CustomMap};
use crate::colours::ColourPalette;
use crate::counts::count_for;
use crate::decoded_laws::stands_in;
use crate::dictionaries::{needs_session, tag_value, Lookups};
use crate::log_lines::{any_invalid, invalid_blocks, message_blocks, ContextModel};
use crate::message_view::{checked, coloured_line, message_block, parts_at, pretty, DecodeSettings};
use crate::obfuscator::message_spans;
use crate::schema::DictionaryView;
use crate::secret_files::{plan_for, secret_path};
use crate::summary::with_delimiter;
use crate::tag_lookup::LookupModel;
use vstd::prelude::*;

verus! {

proof fn lemma_stands(a: Seq<char>, b: Seq<char>, c: Seq<char>)
    ensures
        stands_in(b, a + b + c),
{
    let i = a.len() as int;
    assert((a + b + c).subrange(i, i + b.len()) =~= b);
}

proof fn lemma_stands_further(part: Seq<char>, a: Seq<char>, b: Seq<char>, c: Seq<char>)
    requires
        stands_in(part, b),
    ensures
        stands_in(part, a + b + c),
{
    let i = choose|i: int|
        0 <= i <= b.len() - part.len() && #[trigger] b.subrange(i, i + part.len()) == part;
    let whole = a + b + c;
    assert(whole.subrange(a.len() + i, a.len() + i + part.len()) =~= b.subrange(
        i,
        i + part.len(),
    ));
}

proof fn lemma_stands_last(before: Seq<char>, last: Seq<char>)
    ensures
        stands_in(last, before + last),
{
    lemma_stands(before, last, seq![]);
    assert(before + last + seq![] =~= before + last);
}

proof fn lemma_stands_earlier(part: Seq<char>, before: Seq<char>, last: Seq<char>)
    requires
        stands_in(part, before),
    ensures
        stands_in(part, before + last),
{
    lemma_stands_further(part, seq![], before, last);
    assert(Seq::<char>::empty() + before + last =~= before + last);
}

#[verifier::spinoff_prover]
#[verifier::rlimit(80)]
proof fn lemma_block_stands(
    msgs: Seq<Seq<char>>,
    dicts: Seq<LookupModel>,
    s: DecodeSettings,
    i: int,
)
    requires
        msgs.len() == dicts.len(),
        0 <= i < msgs.len(),
    ensures
        stands_in(message_block(msgs[i], dicts[i], s), message_blocks(msgs, dicts, s)),
    decreases msgs.len(),
{
    let before = message_blocks(msgs.drop_last(), dicts.drop_last(), s);
    let last = message_block(msgs.last(), dicts.last(), s);
    if i < msgs.len() - 1 {
        lemma_block_stands(msgs.drop_last(), dicts.drop_last(), s, i);
        lemma_stands_earlier(message_block(msgs[i], dicts[i], s), before, last);
    } else {
        lemma_stands_last(before, last);
    }
}

proof fn lemma_resolved_len(ctx: ContextModel, msgs: Seq<Seq<char>>)
    ensures
        ctx.resolving_all(msgs).1 matches Some(dicts) ==> dicts.len() == msgs.len(),
        ctx.resolving_all(msgs).0.settings == ctx.settings,
        ctx.resolving_all(msgs).0.summary == ctx.summary,
        ctx.resolving_all(msgs).0.counts == ctx.counts,
    decreases msgs.len(),
{
    if msgs.len() > 0 {
        lemma_resolved_len(ctx, msgs.drop_last());
    }
}

/// A line shows all its messages decoded. With a summary nothing is shown of it; a line without
/// messages is shown as it is.
#[verifier::spinoff_prover]
#[verifier::rlimit(100)]
pub proof fn law_lines_show_their_messages(ctx: ContextModel, line: Seq<char>, number: nat, i: int)
    requires
        !ctx.settings.validation_enabled,
    ensures
        ({
            let spans = message_spans(line);
            let msgs = parts_at(line, spans);
            let (found, dicts) = ctx.resolving_all(msgs);
            let (after, text) = ctx.logged(line, number);
            &&& spans.len() > 0 && ctx.summary is None && dicts is Some && 0 <= i < msgs.len() ==> (
            text matches Some(shown) && stands_in(
                message_block(msgs[i], dicts->0[i], ctx.settings),
                shown,
            ) && stands_in(
                coloured_line(
                    line,
                    spans,
                    ctx.settings.display_delimiter,
                    ctx.settings.colours,
                ),
                shown,
            ))
            &&& spans.len() > 0 && dicts is None ==> text is None
            &&& spans.len() == 0 && ctx.summary is None ==> (text matches Some(shown) && stands_in(
                line,
                shown,
            ))
            &&& spans.len() == 0 && ctx.summary is Some ==> text == Some(Seq::<char>::empty())
            &&& ctx.summary is Some && !ctx.settings.live_status_enabled && dicts is Some
                ==> text == Some(Seq::<char>::empty())
        }),
{
    let s = ctx.settings;
    let spans = message_spans(line);
    let msgs = parts_at(line, spans);
    let (found, dicts) = ctx.resolving_all(msgs);
    lemma_resolved_len(ctx, msgs);
    if spans.len() == 0 && ctx.summary is None {
        let shown = s.colours.line@ + line + s.colours.reset@;
        lemma_stands(s.colours.line@, line, s.colours.reset@);
        lemma_source(number, shown, line, s);
    }
    if spans.len() > 0 && dicts is Some {
        let head = if ctx.summary is None {
            crate::log_lines::framed_source(
                ctx,
                number,
                coloured_line(line, spans, s.display_delimiter, s.colours),
                msgs,
                dicts->0,
            )
        } else {
            seq![]
        };
        let body = if ctx.summary is None {
            message_blocks(msgs, dicts->0, s)
        } else {
            seq![]
        };
        let (last, status) = found.tracking_all(msgs, dicts->0).footer();
        if ctx.summary is None && 0 <= i < msgs.len() {
            lemma_block_stands(msgs, dicts->0, s, i);
            lemma_stands_further(message_block(msgs[i], dicts->0[i], s), head, body, status);
            let shown = coloured_line(line, spans, s.display_delimiter, s.colours);
            lemma_stands_whole(shown);
            lemma_source(number, shown, shown, s);
            lemma_framed(ctx, number, shown, msgs, dicts->0);
            lemma_stands_further(shown, seq![], head, body + status);
            assert(Seq::<char>::empty() + head + (body + status) =~= head + body + status);
        }
        if ctx.summary is Some && !s.live_status_enabled {
            lemma_tracking_settings(found, msgs, dicts->0);
            assert(head + body + status =~= seq![]);
        }
    }
}

proof fn lemma_tracking_settings(ctx: ContextModel, msgs: Seq<Seq<char>>, dicts: Seq<LookupModel>)
    ensures
        ctx.tracking_all(msgs, dicts).settings == ctx.settings,
    decreases msgs.len(),
{
    if msgs.len() > 0 && dicts.len() > 0 {
        lemma_tracking_settings(ctx, msgs.drop_last(), dicts.drop_last());
    }
}

proof fn lemma_stands_whole(text: Seq<char>)
    ensures
        stands_in(text, text),
{
    lemma_stands(seq![], text, seq![]);
    assert(Seq::<char>::empty() + text + seq![] =~= text);
}

proof fn lemma_framed(
    ctx: ContextModel,
    number: nat,
    shown: Seq<char>,
    msgs: Seq<Seq<char>>,
    dicts: Seq<LookupModel>,
)
    requires
        stands_in(
            shown,
            crate::output_style::source_line(number, shown, ctx.settings.style, ctx.settings.colours),
        ),
    ensures
        stands_in(shown, crate::log_lines::framed_source(ctx, number, shown, msgs, dicts)),
{
    let s = ctx.settings;
    let own = match ctx.separator_width {
        Some(width) => width as nat,
        None => crate::output_style::source_width(number, shown, s.style.show_numbers) as nat,
    };
    let width = if s.style.show_grid {
        own
    } else {
        crate::log_lines::blocks_width(msgs, dicts, own, s)
    };
    let rule = crate::output_style::separator(
        s.style,
        width,
        s.wide_grid,
        s.terminal_width as nat,
        s.colours,
    );
    let row = crate::output_style::source_line(number, shown, s.style, s.colours);
    if s.style.show_grid {
        lemma_stands_further(shown, rule, row, rule);
    } else {
        lemma_stands_further(shown, seq![], row, rule);
        assert(Seq::<char>::empty() + row + rule =~= row + rule);
    }
}

/// A valid message brings nothing where messages are checked; one that is not valid is shown.
#[verifier::spinoff_prover]
#[verifier::rlimit(100)]
pub proof fn law_invalid_messages_are_shown(
    msgs: Seq<Seq<char>>,
    dicts: Seq<LookupModel>,
    number: nat,
    line: Seq<char>,
    s: DecodeSettings,
    i: int,
)
    requires
        msgs.len() == dicts.len(),
    ensures
        (forall|k: int|
            0 <= k < msgs.len() ==> checked(#[trigger] msgs[k], dicts[k]).errors.len() == 0)
            ==> invalid_blocks(msgs, dicts, number, line, s).len() == 0 && !any_invalid(msgs, dicts),
        0 <= i < msgs.len() && checked(msgs[i], dicts[i]).errors.len() > 0 ==> stands_in(
            pretty(msgs[i], dicts[i], Some(checked(msgs[i], dicts[i])), s.colours),
            invalid_blocks(msgs, dicts, number, line, s),
        ) && any_invalid(msgs, dicts),
    decreases msgs.len(),
{
    if msgs.len() > 0 {
        let few = msgs.drop_last();
        let less = dicts.drop_last();
        law_invalid_messages_are_shown(few, less, number, line, s, i);
        let earlier = invalid_blocks(few, less, number, line, s);
        let report = checked(msgs.last(), dicts.last());
        assert(msgs[msgs.len() - 1] == msgs.last());
        if forall|k: int|
            0 <= k < msgs.len() ==> checked(#[trigger] msgs[k], dicts[k]).errors.len() == 0 {
            assert forall|k: int| 0 <= k < few.len() implies checked(
                #[trigger] few[k],
                less[k],
            ).errors.len() == 0 by {
                assert(few[k] == msgs[k]);
            }
        }
        if 0 <= i < msgs.len() && checked(msgs[i], dicts[i]).errors.len() > 0 {
            let part = pretty(msgs[i], dicts[i], Some(checked(msgs[i], dicts[i])), s.colours);
            if report.errors.len() > 0 {
                let header = if any_invalid(few, less) {
                    seq![]
                } else {
                    crate::log_lines::invalid_header(number, line, s)
                };
                let text = pretty(msgs.last(), dicts.last(), Some(report), s.colours);
                let whole = earlier + header + (text + "\n"@);
                if i < few.len() {
                    assert(few[i] == msgs[i] && less[i] == dicts[i]);
                    lemma_stands_earlier(part, earlier, header);
                    lemma_stands_earlier(part, earlier + header, text + "\n"@);
                } else {
                    lemma_stands(earlier + header, text, "\n"@);
                    assert(earlier + header + text + "\n"@ =~= whole);
                }
            } else {
                assert(few[i] == msgs[i] && less[i] == dicts[i]);
            }
        }
    }
}

proof fn lemma_source(number: nat, shown: Seq<char>, part: Seq<char>, s: DecodeSettings)
    requires
        stands_in(part, shown),
    ensures
        stands_in(
            part,
            crate::output_style::source_line(number, shown, s.style, s.colours),
        ),
{
    let c = s.colours;
    let prefix = if s.style.show_numbers {
        c.file@ + crate::text::right_aligned(crate::text::decimal(number), 6, ' ') + c.reset@
            + " | "@
    } else {
        seq![]
    };
    lemma_stands_further(part, prefix, shown, "\n"@);
}

/// Each message of a line is counted once under its type, unless messages are only checked.
pub proof fn law_messages_are_counted(ctx: ContextModel, msg: Seq<char>, dict: LookupModel)
    ensures
        ({
            let after = ctx.tracking(msg, dict);
            let kind = tag_value(msg, "35"@);
            &&& ctx.settings.validation_enabled || kind is None ==> after.counts == ctx.counts
            &&& !ctx.settings.validation_enabled && kind is Some && count_for(
                ctx.counts,
                kind->0,
            ).count < usize::MAX ==> after.counts.contains_key(kind->0)
                && after.counts[kind->0].count == count_for(ctx.counts, kind->0).count + 1
            &&& ctx.summary is None ==> after.summary is None
            &&& ctx.summary matches Some(summary) ==> after.summary == Some(
                summary.recorded(msg, dict, ctx.override_key),
            )
        }),
{
}

/// A line is shown with every character, its delimiters replaced: what stands around its
/// messages in one colour and the messages in another.
pub proof fn law_messages_stand_out(
    before: Seq<char>,
    msg: Seq<char>,
    behind: Seq<char>,
    delimiter: char,
    c: ColourPalette,
)
    requires
        before.len() + msg.len() <= usize::MAX,
    ensures
        ({
            let span = (before.len() as usize, (before.len() + msg.len()) as usize);
            coloured_line(before + msg + behind, seq![span], delimiter, c) == c.line@
                + with_delimiter(before, delimiter) + c.message@ + with_delimiter(msg, delimiter)
                + c.line@ + with_delimiter(behind, delimiter) + c.reset@
        }),
        with_delimiter(msg, delimiter).len() == msg.len(),
        forall|i: int|
            0 <= i < msg.len() ==> #[trigger] with_delimiter(msg, delimiter)[i] == if msg[i]
                == '\u{1}' {
                delimiter
            } else {
                msg[i]
            },
{
    let line = before + msg + behind;
    let span = (before.len() as usize, (before.len() + msg.len()) as usize);
    let spans = seq![span];
    assert(spans.drop_last() =~= seq![]);
    assert(spans.last() == span);
    assert(line.subrange(0, before.len() as int) =~= before);
    assert(line.subrange(span.0 as int, span.1 as int) =~= msg);
    assert(line.subrange(span.1 as int, line.len() as int) =~= behind);
    assert(crate::message_view::coloured_parts(line, spans.drop_last(), delimiter, c) =~= seq![]);
    assert(coloured_line(line, spans, delimiter, c) =~= c.line@ + with_delimiter(before, delimiter)
        + c.message@ + with_delimiter(msg, delimiter) + c.line@ + with_delimiter(behind, delimiter)
        + c.reset@);
}

/// The header and the trailer of the session layer fill in where a dictionary of that family
/// leaves them out, and only there; its fields, messages and components stay.
pub proof fn law_session_layer_fills_in(
    key: Seq<char>,
    dict: DictionaryView,
    session: DictionaryView,
)
    ensures
        ({
            let filled = with_session(key, dict, Ok(session));
            &&& filled.fields == dict.fields && filled.messages == dict.messages
                && filled.components == dict.components
            &&& dict.header.parts.fields.len() > 0 ==> filled.header == dict.header
            &&& dict.trailer.parts.fields.len() > 0 ==> filled.trailer == dict.trailer
            &&& needs_session(key) && !has_entries(dict.header) ==> filled.header == session.header
            &&& needs_session(key) && !has_entries(dict.trailer) ==> filled.trailer
                == session.trailer
            &&& !needs_session(key) ==> filled == dict
        }),
{
}

/// A dictionary that is loaded is taken up under its own key, in place of any other with that
/// key; the others stay.
pub proof fn law_loaded_dictionaries_are_taken_up(
    custom: CustomMap,
    lookups: Lookups,
    dict: DictionaryView,
    path: Seq<char>,
    other: Seq<char>,
)
    ensures
        ({
            let taken = taken_up(custom, lookups, dict, path);
            let key = key_of(dict);
            &&& taken.dicts.contains_key(key) && taken.dicts[key].path == path
                && taken.dicts[key].dict.fields == dict.fields && taken.dicts[key].dict.messages
                == dict.messages
            &&& other != key ==> taken.dicts.contains_key(other) == custom.contains_key(other)
                && (custom.contains_key(other) ==> taken.dicts[other] == custom[other])
        }),
{
}

/// A dictionary that was loaded goes before the one that is built in.
pub proof fn law_loaded_dictionaries_go_first(custom: CustomMap, key: Seq<char>)
    ensures
        custom.contains_key(key) ==> dictionary_for(custom, key) == Ok::<
            DictionaryView,
            crate::cli_error::CliErrorView,
        >(custom[key].dict),
        !custom.contains_key(key) ==> dictionary_for(custom, key) == dictionary_for(
            Map::empty(),
            key,
        ),
{
}

/// Every file has a copy of its own, none of them over an existing one.
pub proof fn law_copies_are_apart(
    inputs: Seq<Seq<char>>,
    dir: Option<Seq<char>>,
    existing: Seq<Seq<char>>,
)
    ensures
        plan_for(inputs, dir, existing) matches Ok(plan) ==> {
            &&& plan.len() == inputs.len()
            &&& forall|i: int|
                0 <= i < plan.len() ==> (#[trigger] plan[i]).0 == inputs[i] && secret_path(
                    inputs[i],
                    dir,
                ) == Ok::<Seq<char>, crate::cli_error::CliErrorView>(plan[i].1)
                    && !existing.contains(plan[i].1)
            &&& forall|i: int, j: int|
                0 <= i < j < plan.len() ==> (#[trigger] plan[i]).1 != (#[trigger] plan[j]).1
        },
    decreases inputs.len(),
{
    if inputs.len() > 0 {
        law_copies_are_apart(inputs.drop_last(), dir, existing);
        if let Ok(plan) = plan_for(inputs, dir, existing) {
            let earlier = plan_for(inputs.drop_last(), dir, existing)->Ok_0;
            let outputs = earlier.map_values(|p: (Seq<char>, Seq<char>)| p.1);
            assert forall|i: int, j: int| 0 <= i < j < plan.len() implies (#[trigger] plan[i]).1
                != (#[trigger] plan[j]).1 by {
                if j == earlier.len() {
                    assert(outputs[i] == plan[i].1);
                    assert(outputs.contains(plan[i].1));
                } else {
                    assert(earlier[i] == plan[i] && earlier[j] == plan[j]);
                }
            }
            assert forall|i: int| 0 <= i < plan.len() implies (#[trigger] plan[i]).0 == inputs[i]
                && secret_path(inputs[i], dir) == Ok::<Seq<char>, crate::cli_error::CliErrorView>(
                plan[i].1,
            ) && !existing.contains(plan[i].1) by {
                if i < earlier.len() {
                    assert(earlier[i] == plan[i]);
                    assert(inputs.drop_last()[i] == inputs[i]);
                }
            }
        }
    }
}

} // verus!
