//! Lines of a log, decoded one after the other.
use crate::counts::{
    count_message, count_views, counted_once, counts_text, merge_message_counts, merged,
    render_message_counts, Counts, MsgTypeCount,
};
use crate::dictionaries::{
    appl_ver_schema, default_appl_ver_key, get_tag_value, resolved, tag_value, DictionaryStore,
    Lookups,
};
use crate::message_view::{
    block_width, checked, coloured_line, extract_messages_and_format, find_fix_message_indices,
    message_block, parts_at, pretty, process_fix_message, separator_width_for_message,
    stream_invalid_message, DecodeSettings,
};
use crate::obfuscator::{message_spans, obfuscated_line, Obfuscator, ObfuscatorModel};
use crate::order_record::borrowed;
use crate::output_style::{
    render_separator, separator, source_line, source_line_visible_width, source_width,
    trim_line_endings, without_line_end, write_source_line,
};
use crate::sessions::{fixt_session_key, session_of, SessionDefaults, SessionView};
use crate::summary::{
    display_with_delimiter, with_delimiter, OrderSummary, SummaryView,
};
use crate::summary_output::without_override;
use crate::tag_lookup::{FixTagLookup, LookupModel};
use crate::text::{copy_of, decimal, push_decimal, text_view, texts};
use crate::textmap::TextMap;
use crate::validator::validate_fix_message;
use std::sync::Arc;
use vstd::prelude::*;

verus! {

broadcast use vstd::seq_lib::group_seq_properties;

/// How the sources are worked on.
#[derive(Clone, Copy, Debug, PartialEq, Eq, Structural)]
pub enum FileProcessingMode {
    Sequential,
    Parallel,
}

impl FileProcessingMode {
    /// Several files are worked on side by side, unless they are followed or summarised, or
    /// standard input is among them.
    pub fn select(sources: &Vec<String>, follow: bool, summarised: bool) -> (mode:
        FileProcessingMode)
        ensures
            mode == if follow || summarised || sources@.len() < 2 || texts(sources@).contains("-"@) {
                FileProcessingMode::Sequential
            } else {
                FileProcessingMode::Parallel
            },
    {
        if follow || summarised || sources.len() < 2 || crate::text::contains_text(sources, "-") {
            return FileProcessingMode::Sequential;
        }
        FileProcessingMode::Parallel
    }
}

/// What comes once a source was read to its end.
#[derive(Clone, Copy, Debug, PartialEq, Eq, Structural)]
pub enum StreamStep {
    /// The source is done.
    Stop,
    /// The source is read on, after a pause and after the counts are written where they are
    /// asked for.
    Again { pause: bool, counts: bool },
}

/// What is kept from line to line while a log is decoded.
#[derive(Debug)]
pub struct PrettifyContext {
    pub settings: DecodeSettings,
    pub source_separator_width: Option<usize>,
    pub summary: Option<OrderSummary>,
    pub fix_override: Option<String>,
    pub message_counts: TextMap<MsgTypeCount>,
    pub fixt_session_defaults: SessionDefaults,
    pub counts_dirty: bool,
    pub dictionaries: DictionaryStore,
}

/// The mathematical content of a `PrettifyContext`.
pub struct ContextModel {
    pub settings: DecodeSettings,
    pub separator_width: Option<usize>,
    pub summary: Option<SummaryView>,
    pub override_key: Option<Seq<char>>,
    pub counts: Counts,
    pub defaults: Map<SessionView, Seq<char>>,
    pub dirty: bool,
    pub lookups: Lookups,
    pub missed: bool,
}

impl View for PrettifyContext {
    type V = ContextModel;

    open spec fn view(&self) -> ContextModel {
        ContextModel {
            settings: self.settings,
            separator_width: self.source_separator_width,
            summary: match self.summary {
                Some(summary) => Some(summary@),
                None => None,
            },
            override_key: text_view(self.fix_override),
            counts: count_views(self.message_counts@),
            defaults: self.fixt_session_defaults@,
            dirty: self.counts_dirty,
            lookups: self.dictionaries.lookups(),
            missed: self.dictionaries.missed(),
        }
    }
}

/// The category under which a message type is counted.
pub open spec fn category_of(dict: LookupModel, msg_type: Seq<char>) -> Option<Seq<char>> {
    match dict.message_def(msg_type) {
        Some(def) => if def.is_admin {
            Some("admin"@)
        } else {
            Some("app"@)
        },
        None => None,
    }
}

impl ContextModel {
    /// The default version of the session that a message belongs to.
    pub open spec fn session_default(self, msg: Seq<char>) -> Option<Seq<char>> {
        match session_of(msg) {
            Some(session) => if self.defaults.contains_key(session) {
                Some(self.defaults[session])
            } else {
                None
            },
            None => None,
        }
    }

    /// The dictionary of a message; a logon that names a default version sets it for its
    /// session.
    pub open spec fn resolving(self, msg: Seq<char>) -> (ContextModel, Option<LookupModel>) {
        let found = resolved(self.lookups, msg, self.override_key, self.session_default(msg));
        let named = match tag_value(msg, "1137"@) {
            Some(version) => appl_ver_schema(version),
            None => None,
        };
        let defaults = match (named, session_of(msg)) {
            (Some(version), Some(session)) => self.defaults.insert(session, version),
            _ => self.defaults,
        };
        (
            ContextModel {
                lookups: found.lookups,
                missed: self.missed || found.missed,
                defaults,
                ..self
            },
            found.lookup,
        )
    }

    /// The dictionaries of messages, up to the first for which there is none.
    pub open spec fn resolving_all(self, msgs: Seq<Seq<char>>) -> (
        ContextModel,
        Option<Seq<LookupModel>>,
    )
        decreases msgs.len(),
    {
        if msgs.len() == 0 {
            (self, Some(seq![]))
        } else {
            let (before, earlier) = self.resolving_all(msgs.drop_last());
            match earlier {
                None => (before, None),
                Some(dicts) => {
                    let (after, last) = before.resolving(msgs.last());
                    match last {
                        Some(dict) => (after, Some(dicts.push(dict))),
                        None => (after, None),
                    }
                },
            }
        }
    }

    /// A message counted, unless messages are validated, and recorded in the summary.
    pub open spec fn tracking(self, msg: Seq<char>, dict: LookupModel) -> ContextModel {
        let msg_type = tag_value(msg, "35"@);
        let counted = !self.settings.validation_enabled && msg_type is Some;
        ContextModel {
            counts: if counted {
                counted_once(
                    self.counts,
                    msg_type->0,
                    dict.enum_description(35, msg_type->0),
                    category_of(dict, msg_type->0),
                )
            } else {
                self.counts
            },
            dirty: self.dirty || counted,
            summary: match self.summary {
                Some(summary) => Some(summary.recorded(msg, dict, self.override_key)),
                None => None,
            },
            ..self
        }
    }

    /// Messages counted and recorded.
    pub open spec fn tracking_all(self, msgs: Seq<Seq<char>>, dicts: Seq<LookupModel>) -> ContextModel
        decreases msgs.len(),
    {
        if msgs.len() == 0 || dicts.len() == 0 {
            self
        } else {
            self.tracking_all(msgs.drop_last(), dicts.drop_last()).tracking(
                msgs.last(),
                dicts.last(),
            )
        }
    }

    /// The orders completed while a log is followed, written and forgotten.
    pub open spec fn flushed(self) -> (ContextModel, Seq<char>) {
        match self.summary {
            Some(summary) => if summary.completed.len() > 0 {
                (
                    ContextModel {
                        summary: Some(SummaryView { completed: seq![], ..summary }),
                        lookups: without_override(self.lookups, summary.override_key),
                        ..self
                    },
                    summary.completed_report(self.settings.colours),
                )
            } else {
                (self, seq![])
            },
            None => (self, seq![]),
        }
    }

    /// The status line of the summary.
    pub open spec fn with_status(self) -> (ContextModel, Seq<char>) {
        match self.summary {
            Some(summary) => (
                ContextModel {
                    summary: Some(
                        SummaryView {
                            footer_width: summary.status_width() as usize,
                            ..summary
                        },
                    ),
                    ..self
                },
                summary.status_line(),
            ),
            None => (self, seq![]),
        }
    }

    /// What is written of the summary after each line, where the status is shown.
    pub open spec fn footer(self) -> (ContextModel, Seq<char>) {
        if !self.settings.live_status_enabled {
            (self, seq![])
        } else if self.settings.follow {
            let (after, orders) = self.flushed();
            let (last, status) = after.with_status();
            (last, orders + status)
        } else {
            self.with_status()
        }
    }
}

/// Messages decoded one after the other.
pub open spec fn message_blocks(
    msgs: Seq<Seq<char>>,
    dicts: Seq<LookupModel>,
    s: DecodeSettings,
) -> Seq<char>
    decreases msgs.len(),
{
    if msgs.len() == 0 || dicts.len() == 0 {
        seq![]
    } else {
        message_blocks(msgs.drop_last(), dicts.drop_last(), s) + message_block(
            msgs.last(),
            dicts.last(),
            s,
        )
    }
}

/// How wide the widest of some messages shows, and no less than `least`.
pub open spec fn blocks_width(
    msgs: Seq<Seq<char>>,
    dicts: Seq<LookupModel>,
    least: nat,
    s: DecodeSettings,
) -> nat
    decreases msgs.len(),
{
    if msgs.len() == 0 || dicts.len() == 0 {
        least
    } else {
        let rest = blocks_width(msgs.drop_last(), dicts.drop_last(), least, s);
        let last = block_width(pretty(msgs.last(), dicts.last(), None, s.colours), None);
        if last > rest {
            last
        } else {
            rest
        }
    }
}

/// A source line with the rules around it.
pub open spec fn framed_source(
    ctx: ContextModel,
    number: nat,
    shown: Seq<char>,
    msgs: Seq<Seq<char>>,
    dicts: Seq<LookupModel>,
) -> Seq<char> {
    let s = ctx.settings;
    let own = match ctx.separator_width {
        Some(width) => width as nat,
        None => source_width(number, shown, s.style.show_numbers) as nat,
    };
    let width = if s.style.show_grid {
        own
    } else {
        blocks_width(msgs, dicts, own, s)
    };
    let rule = separator(s.style, width, s.wide_grid, s.terminal_width as nat, s.colours);
    let line = source_line(number, shown, s.style, s.colours);
    if s.style.show_grid {
        rule + line + rule
    } else {
        line + rule
    }
}

impl ContextModel {
    /// A line shown with its messages decoded behind it. With a summary the messages are
    /// only recorded. Nothing is written where a message has no dictionary.
    pub open spec fn shown_line(self, line: Seq<char>, number: nat) -> (
        ContextModel,
        Option<Seq<char>>,
    ) {
        let s = self.settings;
        let spans = message_spans(line);
        if spans.len() == 0 {
            let text = if self.summary is None {
                source_line(number, s.colours.line@ + line + s.colours.reset@, s.style, s.colours)
            } else {
                seq![]
            };
            (self, Some(text))
        } else {
            let msgs = parts_at(line, spans);
            let shown = coloured_line(line, spans, s.display_delimiter, s.colours);
            let (found, dicts) = self.resolving_all(msgs);
            match dicts {
                None => (found, None),
                Some(dicts) => {
                    let head = if self.summary is None {
                        framed_source(self, number, shown, msgs, dicts)
                    } else {
                        seq![]
                    };
                    let body = if self.summary is None {
                        message_blocks(msgs, dicts, s)
                    } else {
                        seq![]
                    };
                    let (last, status) = found.tracking_all(msgs, dicts).footer();
                    (last, Some(head + body + status))
                },
            }
        }
    }
}

/// The line over the first message of a source line that failed validation.
pub open spec fn invalid_header(number: nat, line: Seq<char>, s: DecodeSettings) -> Seq<char> {
    let shown = s.colours.line@ + with_delimiter(line, s.display_delimiter) + s.colours.reset@;
    if s.style.show_numbers {
        source_line(number, shown, s.style, s.colours)
    } else {
        "Line "@ + decimal(number) + ": "@ + shown + "\n"@
    }
}

/// Whether any of the messages fails validation.
pub open spec fn any_invalid(msgs: Seq<Seq<char>>, dicts: Seq<LookupModel>) -> bool
    decreases msgs.len(),
{
    msgs.len() > 0 && dicts.len() > 0 && (any_invalid(msgs.drop_last(), dicts.drop_last())
        || checked(msgs.last(), dicts.last()).errors.len() > 0)
}

/// The messages that fail validation, under the line that they stand in.
pub open spec fn invalid_blocks(
    msgs: Seq<Seq<char>>,
    dicts: Seq<LookupModel>,
    number: nat,
    line: Seq<char>,
    s: DecodeSettings,
) -> Seq<char>
    decreases msgs.len(),
{
    if msgs.len() == 0 || dicts.len() == 0 {
        seq![]
    } else {
        let earlier = invalid_blocks(msgs.drop_last(), dicts.drop_last(), number, line, s);
        let report = checked(msgs.last(), dicts.last());
        if report.errors.len() == 0 {
            earlier
        } else {
            let header = if any_invalid(msgs.drop_last(), dicts.drop_last()) {
                seq![]
            } else {
                invalid_header(number, line, s)
            };
            earlier + header + (pretty(msgs.last(), dicts.last(), Some(report), s.colours) + "\n"@)
        }
    }
}

impl ContextModel {
    /// The messages of a line that fail validation.
    pub open spec fn checked_line(self, line: Seq<char>, number: nat) -> (
        ContextModel,
        Option<Seq<char>>,
    ) {
        let spans = message_spans(line);
        if spans.len() == 0 {
            (self, Some(seq![]))
        } else {
            let msgs = parts_at(line, spans);
            let (found, dicts) = self.resolving_all(msgs);
            match dicts {
                None => (found, None),
                Some(dicts) => {
                    let (last, status) = found.tracking_all(msgs, dicts).footer();
                    (
                        last,
                        Some(status + invalid_blocks(msgs, dicts, number, line, self.settings)),
                    )
                },
            }
        }
    }

    /// What a line of the log brings.
    pub open spec fn logged(self, line: Seq<char>, number: nat) -> (
        ContextModel,
        Option<Seq<char>>,
    ) {
        if self.settings.validation_enabled {
            self.checked_line(line, number)
        } else {
            self.shown_line(line, number)
        }
    }
}

pub open spec fn arc_models(dicts: Seq<Arc<FixTagLookup>>) -> Seq<LookupModel> {
    dicts.map_values(|d: Arc<FixTagLookup>| d.model())
}

impl PrettifyContext {
    /// A context at the start of a log.
    pub fn new(
        settings: DecodeSettings,
        summary: Option<OrderSummary>,
        fix_override: Option<String>,
        dictionaries: DictionaryStore,
    ) -> (ctx: PrettifyContext)
        ensures
            ctx@ == (ContextModel {
                settings,
                separator_width: None,
                summary: match summary {
                    Some(summary) => Some(summary@),
                    None => None,
                },
                override_key: text_view(fix_override),
                counts: Map::empty(),
                defaults: Map::empty(),
                dirty: false,
                lookups: dictionaries.lookups(),
                missed: dictionaries.missed(),
            }),
    {
        let ctx = PrettifyContext {
            settings,
            source_separator_width: None,
            summary,
            fix_override,
            message_counts: TextMap::new(),
            fixt_session_defaults: SessionDefaults::new(),
            counts_dirty: false,
            dictionaries,
        };
        assert(ctx@.counts =~= Map::empty());
        ctx
    }

    /// The dictionary of a message. A logon that names a default version sets it for its
    /// session.
    pub fn resolve_dictionary(&mut self, msg: &str) -> (dict: Option<Arc<FixTagLookup>>)
        ensures
            ({
                let (after, found) = old(self)@.resolving(msg@);
                &&& final(self)@ == after
                &&& (match dict {
                    Some(d) => Some(d.model()),
                    None => None,
                }) == found
            }),
    {
        let session = fixt_session_key(msg);
        let default: Option<String> = match &session {
            Some(key) => match self.fixt_session_defaults.get(key) {
                Some(version) => Some(copy_of(version)),
                None => None,
            },
            None => None,
        };
        let dict = self.dictionaries.load_dictionary_with_session_default(
            msg,
            borrowed(&self.fix_override),
            borrowed(&default),
        );
        if let Some(version) = default_appl_ver_key(msg) {
            if let Some(key) = session {
                self.fixt_session_defaults.insert(key, version);
            }
        }
        dict
    }

    fn resolve_all(&mut self, msgs: &Vec<String>) -> (dicts: Option<Vec<Arc<FixTagLookup>>>)
        ensures
            ({
                let (after, found) = old(self)@.resolving_all(texts(msgs@));
                &&& final(self)@ == after
                &&& (match dicts {
                    Some(d) => Some(arc_models(d@)),
                    None => None,
                }) == found
            }),
            dicts matches Some(d) ==> d@.len() == msgs@.len(),
    {
        let ghost start = self@;
        let ghost all = texts(msgs@);
        let mut dicts: Vec<Arc<FixTagLookup>> = Vec::new();
        let mut i: usize = 0;
        assert(all.take(0) =~= seq![]);
        assert(arc_models(dicts@) =~= seq![]);
        while i < msgs.len()
            invariant
                i <= msgs@.len(),
                all == texts(msgs@),
                dicts@.len() == i,
                start == old(self)@,
                start.resolving_all(all.take(i as int)) == (self@, Some(arc_models(dicts@))),
            decreases msgs@.len() - i,
        {
            assert(all[i as int] == msgs@[i as int]@);
            assert(all.take(i + 1).drop_last() =~= all.take(i as int));
            match self.resolve_dictionary(msgs[i].as_str()) {
                Some(dict) => {
                    let ghost before = arc_models(dicts@);
                    dicts.push(dict);
                    assert(arc_models(dicts@) =~= before.push(dicts@[i as int].model()));
                },
                None => {
                    proof {
                        lemma_resolving_stops(start, all, i + 1);
                    }
                    return None;
                },
            }
            i += 1;
        }
        assert(all.take(i as int) =~= all);
        Some(dicts)
    }

    /// Counts a message under its type.
    fn record_msg_type(&mut self, msg: &str, dict: &FixTagLookup)
        ensures
            ({
                let msg_type = tag_value(msg@, "35"@);
                final(self)@ == match msg_type {
                    Some(msg_type) => ContextModel {
                        counts: counted_once(
                            old(self)@.counts,
                            msg_type,
                            dict.model().enum_description(35, msg_type),
                            category_of(dict.model(), msg_type),
                        ),
                        dirty: true,
                        ..old(self)@
                    },
                    None => old(self)@,
                }
            }),
    {
        if let Some(msg_type) = get_tag_value(msg, "35") {
            let label = dict.enum_description(35, msg_type.as_str());
            let category: Option<&str> = match dict.message_def(msg_type.as_str()) {
                Some(def) => if def.is_admin {
                    Some("admin")
                } else {
                    Some("app")
                },
                None => None,
            };
            count_message(&mut self.message_counts, msg_type.as_str(), label, category);
            self.counts_dirty = true;
        }
    }

    /// Counts a message, unless messages are validated, and records it in the summary.
    pub fn track_message(&mut self, msg: &str, dict: &FixTagLookup)
        ensures
            final(self)@ == old(self)@.tracking(msg@, dict.model()),
    {
        if !self.settings.validation_enabled {
            self.record_msg_type(msg, dict);
        }
        if let Some(summary) = &mut self.summary {
            summary.record_message_with_lookup(msg, dict, borrowed(&self.fix_override));
        }
    }

    fn record_messages(&mut self, msgs: &Vec<String>, dicts: &Vec<Arc<FixTagLookup>>)
        requires
            msgs@.len() == dicts@.len(),
        ensures
            final(self)@ == old(self)@.tracking_all(texts(msgs@), arc_models(dicts@)),
    {
        let ghost start = self@;
        let ghost all = texts(msgs@);
        let ghost models = arc_models(dicts@);
        let mut i: usize = 0;
        assert(all.take(0) =~= seq![]);
        while i < msgs.len()
            invariant
                i <= msgs@.len(),
                msgs@.len() == dicts@.len(),
                all == texts(msgs@),
                models == arc_models(dicts@),
                self@ == start.tracking_all(all.take(i as int), models.take(i as int)),
            decreases msgs@.len() - i,
        {
            assert(all[i as int] == msgs@[i as int]@);
            assert(models[i as int] == dicts@[i as int].model());
            assert(all.take(i + 1).drop_last() =~= all.take(i as int));
            assert(models.take(i + 1).drop_last() =~= models.take(i as int));
            self.track_message(msgs[i].as_str(), &dicts[i]);
            i += 1;
        }
        assert(all.take(i as int) =~= all);
        assert(models.take(i as int) =~= models);
    }

    fn render_flushed(&mut self) -> (text: String)
        ensures
            (final(self)@, text@) == old(self)@.flushed(),
    {
        if let Some(summary) = &mut self.summary {
            if let Some(text) = summary.render_completed(
                self.settings.colours,
                &mut self.dictionaries,
            ) {
                return text;
            }
        }
        String::new()
    }

    fn render_status(&mut self) -> (text: String)
        ensures
            (final(self)@, text@) == old(self)@.with_status(),
    {
        if let Some(summary) = &mut self.summary {
            return summary.render_footer();
        }
        String::new()
    }

    /// What is written of the summary after each line, where the status is shown.
    pub fn render_summary_footer(&mut self) -> (text: String)
        ensures
            (final(self)@, text@) == old(self)@.footer(),
    {
        if !self.settings.live_status_enabled {
            return String::new();
        }
        if self.settings.follow {
            let mut text = self.render_flushed();
            text.append(self.render_status().as_str());
            return text;
        }
        self.render_status()
    }

    fn emit_messages(&self, msgs: &Vec<String>, dicts: &Vec<Arc<FixTagLookup>>) -> (text: String)
        requires
            msgs@.len() == dicts@.len(),
        ensures
            text@ == message_blocks(texts(msgs@), arc_models(dicts@), self@.settings),
    {
        let ghost all = texts(msgs@);
        let ghost models = arc_models(dicts@);
        let mut text = String::new();
        let mut i: usize = 0;
        assert(all.take(0) =~= seq![]);
        while i < msgs.len()
            invariant
                i <= msgs@.len(),
                msgs@.len() == dicts@.len(),
                all == texts(msgs@),
                models == arc_models(dicts@),
                text@ == message_blocks(
                    all.take(i as int),
                    models.take(i as int),
                    self@.settings,
                ),
            decreases msgs@.len() - i,
        {
            assert(all[i as int] == msgs@[i as int]@);
            assert(models[i as int] == dicts@[i as int].model());
            assert(all.take(i + 1).drop_last() =~= all.take(i as int));
            assert(models.take(i + 1).drop_last() =~= models.take(i as int));
            text.append(
                process_fix_message(msgs[i].as_str(), &dicts[i], self.settings).as_str(),
            );
            i += 1;
        }
        assert(all.take(i as int) =~= all);
        assert(models.take(i as int) =~= models);
        text
    }

    fn widest_block(&self, msgs: &Vec<String>, dicts: &Vec<Arc<FixTagLookup>>, least: usize) -> (
        width: usize)
        requires
            msgs@.len() == dicts@.len(),
        ensures
            width == blocks_width(
                texts(msgs@),
                arc_models(dicts@),
                least as nat,
                self@.settings,
            ),
    {
        let ghost all = texts(msgs@);
        let ghost models = arc_models(dicts@);
        let mut width: usize = least;
        let mut i: usize = 0;
        assert(all.take(0) =~= seq![]);
        while i < msgs.len()
            invariant
                i <= msgs@.len(),
                msgs@.len() == dicts@.len(),
                all == texts(msgs@),
                models == arc_models(dicts@),
                width == blocks_width(
                    all.take(i as int),
                    models.take(i as int),
                    least as nat,
                    self@.settings,
                ),
            decreases msgs@.len() - i,
        {
            assert(all[i as int] == msgs@[i as int]@);
            assert(models[i as int] == dicts@[i as int].model());
            assert(all.take(i + 1).drop_last() =~= all.take(i as int));
            assert(models.take(i + 1).drop_last() =~= models.take(i as int));
            let shown: usize = separator_width_for_message(
                msgs[i].as_str(),
                &dicts[i],
                false,
                self.settings.colours,
            );
            if shown > width {
                width = shown;
            }
            i += 1;
        }
        assert(all.take(i as int) =~= all);
        assert(models.take(i as int) =~= models);
        width
    }

    fn write_framed_source(
        &self,
        line_number: usize,
        shown: &str,
        msgs: &Vec<String>,
        dicts: &Vec<Arc<FixTagLookup>>,
    ) -> (text: String)
        requires
            msgs@.len() == dicts@.len(),
        ensures
            text@ == framed_source(
                self@,
                line_number as nat,
                shown@,
                texts(msgs@),
                arc_models(dicts@),
            ),
    {
        let settings = self.settings;
        let own: usize = match self.source_separator_width {
            Some(width) => width,
            None => source_line_visible_width(line_number, shown, settings.style.show_numbers),
        };
        let width: usize = if settings.style.show_grid {
            own
        } else {
            self.widest_block(msgs, dicts, own)
        };
        let rule = render_separator(
            settings.style,
            width,
            settings.wide_grid,
            settings.terminal_width,
            settings.colours,
        );
        let line = write_source_line(line_number, shown, settings.style, settings.colours);
        if settings.style.show_grid {
            let mut text = copy_of(rule.as_str());
            text.append(line.as_str());
            text.append(rule.as_str());
            text
        } else {
            let mut text = line;
            text.append(rule.as_str());
            text
        }
    }

    /// A line shown with its messages decoded behind it; with a summary, recorded only.
    /// `None` where a message has no dictionary.
    pub fn process_without_validation(&mut self, line: &str, line_number: usize) -> (text: Option<
        String,
    >)
        ensures
            ({
                let (after, shown) = old(self)@.shown_line(line@, line_number as nat);
                final(self)@ == after && text_view(text) == shown
            }),
    {
        let matches = find_fix_message_indices(line);
        let settings = self.settings;
        let ghost start = self@;
        if matches.len() == 0 {
            if self.summary.is_none() {
                let mut shown = copy_of(settings.colours.line);
                shown.append(line);
                shown.append(settings.colours.reset);
                return Some(
                    write_source_line(
                        line_number,
                        shown.as_str(),
                        settings.style,
                        settings.colours,
                    ),
                );
            }
            return Some(String::new());
        }
        let (msgs, shown) = extract_messages_and_format(
            line,
            &matches,
            settings.display_delimiter,
            settings.colours,
        );
        let dicts = match self.resolve_all(&msgs) {
            Some(dicts) => dicts,
            None => {
                return None;
            },
        };
        proof {
            lemma_resolving_keeps_settings(start, texts(msgs@));
        }
        let mut text = String::new();
        if self.summary.is_none() {
            text.append(
                self.write_framed_source(
                    line_number,
                    shown.as_str(),
                    &msgs,
                    &dicts,
                ).as_str(),
            );
            text.append(self.emit_messages(&msgs, &dicts).as_str());
        }
        self.record_messages(&msgs, &dicts);
        text.append(self.render_summary_footer().as_str());
        Some(text)
    }

    fn write_invalid_header(&self, line: &str, line_number: usize) -> (text: String)
        ensures
            text@ == invalid_header(line_number as nat, line@, self@.settings),
    {
        let settings = self.settings;
        let mut shown = copy_of(settings.colours.line);
        shown.append(display_with_delimiter(line, settings.display_delimiter).as_str());
        shown.append(settings.colours.reset);
        if settings.style.show_numbers {
            return write_source_line(
                line_number,
                shown.as_str(),
                settings.style,
                settings.colours,
            );
        }
        let mut text = copy_of("Line ");
        push_decimal(&mut text, line_number as u64);
        text.append(": ");
        text.append(shown.as_str());
        text.append("\n");
        text
    }

    fn emit_invalid(
        &self,
        msgs: &Vec<String>,
        dicts: &Vec<Arc<FixTagLookup>>,
        line: &str,
        line_number: usize,
    ) -> (text: String)
        requires
            msgs@.len() == dicts@.len(),
        ensures
            text@ == invalid_blocks(
                texts(msgs@),
                arc_models(dicts@),
                line_number as nat,
                line@,
                self@.settings,
            ),
    {
        let ghost all = texts(msgs@);
        let ghost models = arc_models(dicts@);
        let mut text = String::new();
        let mut header_emitted: bool = false;
        let mut i: usize = 0;
        assert(all.take(0) =~= seq![]);
        while i < msgs.len()
            invariant
                i <= msgs@.len(),
                msgs@.len() == dicts@.len(),
                all == texts(msgs@),
                models == arc_models(dicts@),
                header_emitted == any_invalid(all.take(i as int), models.take(i as int)),
                text@ == invalid_blocks(
                    all.take(i as int),
                    models.take(i as int),
                    line_number as nat,
                    line@,
                    self@.settings,
                ),
            decreases msgs@.len() - i,
        {
            assert(all[i as int] == msgs@[i as int]@);
            assert(models[i as int] == dicts@[i as int].model());
            assert(all.take(i + 1).drop_last() =~= all.take(i as int));
            assert(models.take(i + 1).drop_last() =~= models.take(i as int));
            let report = validate_fix_message(msgs[i].as_str(), &dicts[i]);
            if !report.is_clean() {
                if !header_emitted {
                    text.append(self.write_invalid_header(line, line_number).as_str());
                    header_emitted = true;
                }
                text.append(
                    stream_invalid_message(
                        msgs[i].as_str(),
                        &dicts[i],
                        &report,
                        self.settings.colours,
                    ).as_str(),
                );
            }
            i += 1;
        }
        assert(all.take(i as int) =~= all);
        assert(models.take(i as int) =~= models);
        text
    }

    /// The messages of a line that fail validation. `None` where a message has no dictionary.
    pub fn process_with_validation(&mut self, line: &str, line_number: usize) -> (text: Option<
        String,
    >)
        ensures
            ({
                let (after, shown) = old(self)@.checked_line(line@, line_number as nat);
                final(self)@ == after && text_view(text) == shown
            }),
    {
        let matches = find_fix_message_indices(line);
        let settings = self.settings;
        let ghost start = self@;
        if matches.len() == 0 {
            return Some(String::new());
        }
        let (msgs, _) = extract_messages_and_format(
            line,
            &matches,
            settings.display_delimiter,
            settings.colours,
        );
        let dicts = match self.resolve_all(&msgs) {
            Some(dicts) => dicts,
            None => {
                return None;
            },
        };
        proof {
            lemma_resolving_keeps_settings(start, texts(msgs@));
            lemma_tracking_keeps_settings(self@, texts(msgs@), arc_models(dicts@));
        }
        self.record_messages(&msgs, &dicts);
        let mut text = self.render_summary_footer();
        text.append(self.emit_invalid(&msgs, &dicts, line, line_number).as_str());
        Some(text)
    }

    /// What a line of the log brings. `None` where a message has no dictionary.
    pub fn handle_log_line(&mut self, line: &str, line_number: usize) -> (text: Option<String>)
        ensures
            ({
                let (after, shown) = old(self)@.logged(line@, line_number as nat);
                final(self)@ == after && text_view(text) == shown
            }),
    {
        if !self.settings.validation_enabled {
            return self.process_without_validation(line, line_number);
        }
        self.process_with_validation(line, line_number)
    }

    /// What a line brings as it was read: its end is cut off, and its sensitive values are
    /// replaced where the obfuscator is enabled.
    pub fn stream_line(
        &mut self,
        obfuscator: &mut Obfuscator,
        line: &str,
        line_number: usize,
    ) -> (text: Option<String>)
        ensures
            ({
                let trimmed = without_line_end(line@);
                let hidden = hidden_line(trimmed, old(obfuscator).model());
                let (after, shown) = old(self)@.logged(hidden.0, line_number as nat);
                &&& final(self)@ == after
                &&& text_view(text) == shown
                &&& final(obfuscator).model() == hidden.1
            }),
    {
        let trimmed = trim_line_endings(line);
        let processed = obfuscator.enabled_line(trimmed.as_str());
        self.handle_log_line(processed.as_str(), line_number)
    }

    /// The counts as text, where messages were counted since they were last written and the
    /// counts are wanted.
    pub fn print_message_counts(&mut self) -> (text: String)
        ensures
            (final(self)@, text@) == old(self)@.with_counts(),
    {
        let ghost before = self@;
        assert(self@.counts.dom() =~= self.message_counts@.dom());
        if self.message_counts.len() == 0 || !self.counts_dirty || self.settings.no_counts {
            return String::new();
        }
        self.counts_dirty = false;
        render_message_counts(&self.message_counts, self.settings.colours)
    }

    /// What comes once a source was read to its end: it is done unless it is followed. One
    /// that brought nothing is given time, and counts that changed are written where the
    /// status is shown.
    pub fn after_reading(&self, interrupted: bool, read_any: bool) -> (step: StreamStep)
        ensures
            step == if interrupted || !self@.settings.follow {
                StreamStep::Stop
            } else {
                StreamStep::Again {
                    pause: !read_any,
                    counts: self@.dirty && self@.settings.live_status_enabled,
                }
            },
    {
        if interrupted || !self.settings.follow {
            return StreamStep::Stop;
        }
        StreamStep::Again {
            pause: !read_any,
            counts: self.counts_dirty && self.settings.live_status_enabled,
        }
    }

    /// What is written once all sources are read: the summary, and the counts.
    pub fn finish(&mut self) -> (text: String)
        ensures
            (final(self)@, text@) == old(self)@.finished(),
    {
        let mut text = String::new();
        if let Some(summary) = &self.summary {
            text = summary.render(self.settings.colours, &mut self.dictionaries);
        }
        text.append(self.print_message_counts().as_str());
        text
    }

    /// Takes over what another context counted.
    pub fn absorb_counts(&mut self, counts: &TextMap<MsgTypeCount>, dirty: bool)
        ensures
            final(self)@ == (ContextModel {
                counts: merged(old(self)@.counts, count_views(counts@)),
                dirty: old(self)@.dirty || dirty,
                ..old(self)@
            }),
    {
        merge_message_counts(&mut self.message_counts, counts);
        self.counts_dirty = self.counts_dirty || dirty;
    }

    /// Whether the rules are as wide as the widest line with a message, which then has to be
    /// looked for first.
    pub fn measures_source(&self) -> (yes: bool)
        ensures
            yes == self@.measures(),
    {
        self.settings.wide_grid && self.settings.style.show_grid && !self.settings.follow
            && !self.settings.validation_enabled
    }

    /// The width found so far, with one more line of the source.
    pub fn measure_source_line(&self, found: Option<usize>, line: &str, line_number: usize) -> (
        width: Option<usize>)
        ensures
            width == self@.measured(found, line@, line_number as nat),
    {
        let trimmed = trim_line_endings(line);
        if find_fix_message_indices(trimmed.as_str()).len() == 0 {
            return found;
        }
        let shown = display_with_delimiter(trimmed.as_str(), self.settings.display_delimiter);
        let width: usize = source_line_visible_width(
            line_number,
            shown.as_str(),
            self.settings.style.show_numbers,
        );
        match found {
            Some(current) => if current > width {
                Some(current)
            } else {
                Some(width)
            },
            None => Some(width),
        }
    }
}

/// A line as it may be shown, and the obfuscator afterwards.
pub open spec fn hidden_line(line: Seq<char>, model: ObfuscatorModel) -> (
    Seq<char>,
    ObfuscatorModel,
) {
    if model.enabled {
        let written = obfuscated_line(line, message_spans(line), model.tags, model.state);
        (written.text, ObfuscatorModel { state: written.state, ..model })
    } else {
        (line, model)
    }
}

impl ContextModel {
    /// The counts written, where messages were counted since they were last written.
    pub open spec fn with_counts(self) -> (ContextModel, Seq<char>) {
        if self.counts.dom().len() == 0 || !self.dirty || self.settings.no_counts {
            (self, seq![])
        } else {
            (
                ContextModel { dirty: false, ..self },
                counts_text(self.counts, self.settings.colours),
            )
        }
    }

    /// What is written once all sources are read.
    pub open spec fn finished(self) -> (ContextModel, Seq<char>) {
        let (reported, report) = match self.summary {
            Some(summary) => (
                ContextModel {
                    lookups: if summary.completed.len() > 0 {
                        without_override(self.lookups, summary.override_key)
                    } else {
                        self.lookups
                    },
                    ..self
                },
                summary.report(self.settings.colours),
            ),
            None => (self, seq![]),
        };
        let (last, counts) = reported.with_counts();
        (last, report + counts)
    }

    /// Whether the rules are as wide as the widest line with a message.
    pub open spec fn measures(self) -> bool {
        self.settings.wide_grid && self.settings.style.show_grid && !self.settings.follow
            && !self.settings.validation_enabled
    }

    /// The width found so far, with one more line; lines without messages do not count.
    pub open spec fn measured(self, found: Option<usize>, line: Seq<char>, number: nat) -> Option<
        usize,
    > {
        let trimmed = without_line_end(line);
        let width = source_width(
            number,
            with_delimiter(trimmed, self.settings.display_delimiter),
            self.settings.style.show_numbers,
        ) as usize;
        if message_spans(trimmed).len() == 0 {
            found
        } else {
            match found {
                Some(current) => if current > width {
                    Some(current)
                } else {
                    Some(width)
                },
                None => Some(width),
            }
        }
    }
}

proof fn lemma_tracking_keeps_settings(
    ctx: ContextModel,
    msgs: Seq<Seq<char>>,
    dicts: Seq<LookupModel>,
)
    ensures
        ctx.tracking_all(msgs, dicts).settings == ctx.settings,
    decreases msgs.len(),
{
    if msgs.len() > 0 && dicts.len() > 0 {
        lemma_tracking_keeps_settings(ctx, msgs.drop_last(), dicts.drop_last());
    }
}

/// Validation is silent on a line all of whose messages are valid: only the status of the
/// summary is written.
pub proof fn law_valid_messages_are_silent(ctx: ContextModel, line: Seq<char>, number: nat)
    requires
        ctx.settings.validation_enabled,
        ctx.resolving_all(parts_at(line, message_spans(line))).1 matches Some(dicts) ==> forall|
            i: int,
        |
            0 <= i < dicts.len() ==> checked(
                parts_at(line, message_spans(line))[i],
                #[trigger] dicts[i],
            ).errors.len() == 0,
    ensures
        ctx.logged(line, number).1 matches Some(text) ==> text.len() == 0 || text == ctx.resolving_all(
            parts_at(line, message_spans(line)),
        ).0.tracking_all(
            parts_at(line, message_spans(line)),
            ctx.resolving_all(parts_at(line, message_spans(line))).1->0,
        ).footer().1,
{
    let msgs = parts_at(line, message_spans(line));
    if let Some(dicts) = ctx.resolving_all(msgs).1 {
        lemma_resolving_len(ctx, msgs);
        lemma_no_invalid(msgs, dicts, number, line, ctx.settings);
    }
}

proof fn lemma_resolving_len(ctx: ContextModel, msgs: Seq<Seq<char>>)
    ensures
        ctx.resolving_all(msgs).1 matches Some(dicts) ==> dicts.len() == msgs.len(),
    decreases msgs.len(),
{
    if msgs.len() > 0 {
        lemma_resolving_len(ctx, msgs.drop_last());
    }
}

proof fn lemma_no_invalid(
    msgs: Seq<Seq<char>>,
    dicts: Seq<LookupModel>,
    number: nat,
    line: Seq<char>,
    s: DecodeSettings,
)
    requires
        msgs.len() == dicts.len(),
        forall|i: int|
            0 <= i < dicts.len() ==> checked(msgs[i], #[trigger] dicts[i]).errors.len() == 0,
    ensures
        invalid_blocks(msgs, dicts, number, line, s).len() == 0,
    decreases msgs.len(),
{
    if msgs.len() > 0 {
        assert forall|i: int| 0 <= i < dicts.drop_last().len() implies checked(
            msgs.drop_last()[i],
            #[trigger] dicts.drop_last()[i],
        ).errors.len() == 0 by {
            assert(dicts.drop_last()[i] == dicts[i]);
        }
        lemma_no_invalid(msgs.drop_last(), dicts.drop_last(), number, line, s);
        assert(dicts.last() == dicts[dicts.len() - 1]);
    }
}

proof fn lemma_resolving_stops(ctx: ContextModel, msgs: Seq<Seq<char>>, n: int)
    requires
        0 <= n <= msgs.len(),
        ctx.resolving_all(msgs.take(n)).1 is None,
    ensures
        ctx.resolving_all(msgs) == ctx.resolving_all(msgs.take(n)),
    decreases msgs.len() - n,
{
    if n < msgs.len() {
        assert(msgs.take(n + 1).drop_last() =~= msgs.take(n));
        lemma_resolving_stops(ctx, msgs, n + 1);
    } else {
        assert(msgs.take(n) =~= msgs);
    }
}

proof fn lemma_resolving_keeps_settings(ctx: ContextModel, msgs: Seq<Seq<char>>)
    ensures
        ctx.resolving_all(msgs).0.settings == ctx.settings,
        ctx.resolving_all(msgs).0.summary == ctx.summary,
        ctx.resolving_all(msgs).0.separator_width == ctx.separator_width,
    decreases msgs.len(),
{
    if msgs.len() > 0 {
        lemma_resolving_keeps_settings(ctx, msgs.drop_last());
    }
}

} // verus!
