//! The split view of a summary: orders on the right, what they add up to on the left.
use crate::ansi::{capped, pad_ansi, padded, plus, visible_width};
use crate::colours::ColourPalette;
use crate::counts::{
    copy_label, count_views, counts_text, render_message_counts, CountView, Counts, MsgTypeCount,
};
use crate::message_groups::MessageBucket;
use crate::output_style::{larger, widest};
use crate::slicing::{lines_of, slice, slice_ansi, split_lines};
use crate::text::{copy_of, decimal, push_decimal, push_repeated, repeated, text_view, texts};
use crate::textmap::TextMap;
use vstd::prelude::*;

verus! {

broadcast use vstd::seq_lib::group_seq_properties;

const MIN_LEFT_WIDTH: usize = 28;

const MIN_RIGHT_WIDTH: usize = 48;

const DIVIDER_WIDTH: usize = 3;

/// How often a message type occurred.
#[derive(Debug)]
pub struct SummaryPagerMessageCount {
    pub msg_type: String,
    pub label: Option<String>,
    pub count: usize,
    pub bucket: MessageBucket,
}

/// An order in the split view: its headline, its details, whether it is done, and the counts
/// of messages by then.
#[derive(Debug)]
pub struct SummaryPagerSection {
    pub summary: String,
    pub detail: String,
    pub terminal: bool,
    pub message_counts: Vec<SummaryPagerMessageCount>,
}

/// What the split view shows.
#[derive(Debug)]
pub struct SummaryPagerContent {
    pub sections: Vec<SummaryPagerSection>,
    pub message_counts: Vec<SummaryPagerMessageCount>,
}

/// Counts by message type; of two for one type, the later counts.
pub open spec fn counts_in(counts: Seq<SummaryPagerMessageCount>) -> Counts
    decreases counts.len(),
{
    if counts.len() == 0 {
        Map::empty()
    } else {
        let last = counts.last();
        counts_in(counts.drop_last()).insert(
            last.msg_type@,
            CountView { count: last.count, label: text_view(last.label), bucket: last.bucket },
        )
    }
}

/// The counts of messages, line by line.
pub open spec fn count_lines(counts: Seq<SummaryPagerMessageCount>, c: ColourPalette) -> Seq<
    Seq<char>,
> {
    if counts.len() == 0 {
        seq![]
    } else {
        lines_of(counts_text(counts_in(counts), c))
    }
}

/// The counts of messages, line by line.
pub fn render_message_count_lines(
    message_counts: &Vec<SummaryPagerMessageCount>,
    colours: ColourPalette,
) -> (lines: Vec<String>)
    ensures
        texts(lines@) == count_lines(message_counts@, colours),
{
    if message_counts.len() == 0 {
        let none: Vec<String> = Vec::new();
        assert(texts(none@) =~= seq![]);
        return none;
    }
    let ghost all = message_counts@;
    let mut grouped: TextMap<MsgTypeCount> = TextMap::new();
    let mut i: usize = 0;
    assert(all.take(0) =~= seq![]);
    assert(count_views(grouped@) =~= Map::empty());
    while i < message_counts.len()
        invariant
            i <= message_counts@.len(),
            all == message_counts@,
            count_views(grouped@) == counts_in(all.take(i as int)),
        decreases message_counts@.len() - i,
    {
        assert(all.take(i + 1).drop_last() =~= all.take(i as int));
        let entry = &message_counts[i];
        let count = MsgTypeCount {
            count: entry.count,
            label: copy_label(&entry.label),
            bucket: entry.bucket,
        };
        let ghost before = grouped@;
        let ghost view = count@;
        grouped.insert(entry.msg_type.as_str(), count);
        assert(count_views(grouped@) =~= count_views(before).insert(entry.msg_type@, view));
        i += 1;
    }
    assert(all.take(i as int) =~= all);
    split_lines(render_message_counts(&grouped, colours).as_str())
}

/// The line that counts the orders.
pub open spec fn overview_line(total: nat, open: nat, c: ColourPalette) -> Seq<char> {
    c.title@ + "Order Summary"@ + c.reset@ + " ("@ + decimal(open) + " open, "@ + decimal(total)
        + " total, to fill: "@ + decimal(open) + "/"@ + decimal(total) + ")"@
}

/// The line that counts the orders.
pub fn render_overview_lines(total_orders: usize, open_orders: usize, colours: ColourPalette) -> (
    lines: Vec<String>)
    ensures
        texts(lines@) == seq![overview_line(total_orders as nat, open_orders as nat, colours)],
{
    let mut line = copy_of(colours.title);
    line.append("Order Summary");
    line.append(colours.reset);
    line.append(" (");
    push_decimal(&mut line, open_orders as u64);
    line.append(" open, ");
    push_decimal(&mut line, total_orders as u64);
    line.append(" total, to fill: ");
    push_decimal(&mut line, open_orders as u64);
    line.append("/");
    push_decimal(&mut line, total_orders as u64);
    line.append(")");
    let mut lines: Vec<String> = Vec::new();
    let ghost view = line@;
    lines.push(line);
    assert(texts(lines@) =~= seq![view]);
    lines
}

// ---------------------------------------------------------------------------
// What is shown

/// An order as it is shown, and where its details start on the right.
#[derive(Debug)]
pub struct SectionView {
    pub summary_lines: Vec<String>,
    pub overview_lines: Vec<String>,
    pub message_count_lines: Vec<String>,
    pub detail_start: usize,
}

/// The mathematical content of a `SectionView`.
pub struct SectionModel {
    pub summary: Seq<Seq<char>>,
    pub overview: Seq<Seq<char>>,
    pub counts: Seq<Seq<char>>,
    pub start: int,
}

impl View for SectionView {
    type V = SectionModel;

    open spec fn view(&self) -> SectionModel {
        SectionModel {
            summary: texts(self.summary_lines@),
            overview: texts(self.overview_lines@),
            counts: texts(self.message_count_lines@),
            start: self.detail_start as int,
        }
    }
}

pub open spec fn section_models(sections: Seq<SectionView>) -> Seq<SectionModel> {
    sections.map_values(|s: SectionView| s@)
}

/// Everything that the split view shows.
#[derive(Debug)]
pub struct PagerModel {
    pub empty_overview_lines: Vec<String>,
    pub fallback_message_count_lines: Vec<String>,
    pub sections: Vec<SectionView>,
    pub right_lines: Vec<String>,
    pub left_width_hint: usize,
    pub max_right_width: usize,
}

/// The mathematical content of a `PagerModel`.
pub struct PagerView {
    pub empty_overview: Seq<Seq<char>>,
    pub fallback_counts: Seq<Seq<char>>,
    pub sections: Seq<SectionModel>,
    pub right: Seq<Seq<char>>,
    pub left_hint: nat,
    pub max_right: nat,
}

impl View for PagerModel {
    type V = PagerView;

    open spec fn view(&self) -> PagerView {
        PagerView {
            empty_overview: texts(self.empty_overview_lines@),
            fallback_counts: texts(self.fallback_message_count_lines@),
            sections: section_models(self.sections@),
            right: texts(self.right_lines@),
            left_hint: self.left_width_hint as nat,
            max_right: self.max_right_width as nat,
        }
    }
}

/// How many of the orders are done.
pub open spec fn done_count(sections: Seq<SummaryPagerSection>) -> nat
    decreases sections.len(),
{
    if sections.len() == 0 {
        0
    } else {
        done_count(sections.drop_last()) + if sections.last().terminal {
            1nat
        } else {
            0nat
        }
    }
}

/// The lines on the right for the first `n` orders: their details, with an empty line
/// between one order and the next.
pub open spec fn detail_lines(sections: Seq<SummaryPagerSection>, n: int) -> Seq<Seq<char>>
    decreases n,
{
    if n <= 0 || n > sections.len() {
        seq![]
    } else {
        let own = detail_lines(sections, n - 1) + lines_of(sections[n - 1].detail@);
        if n < sections.len() {
            own.push(seq![])
        } else {
            own
        }
    }
}

/// The `i`-th order as it is shown: the orders and messages up to it are counted.
pub open spec fn section_at(sections: Seq<SummaryPagerSection>, i: int, c: ColourPalette)
    -> SectionModel {
    let open = (i + 1 - done_count(sections.take(i + 1))) as nat;
    SectionModel {
        summary: lines_of(sections[i].summary@),
        overview: seq![overview_line((i + 1) as nat, open, c)],
        counts: count_lines(sections[i].message_counts@, c),
        start: detail_lines(sections, i).len() as int,
    }
}

/// How wide the left side of the first `n` orders shows, and no less than `least`.
pub open spec fn left_hint(
    sections: Seq<SummaryPagerSection>,
    n: int,
    least: nat,
    c: ColourPalette,
) -> nat
    decreases n,
{
    if n <= 0 || n > sections.len() {
        least
    } else {
        let own = section_at(sections, n - 1, c);
        larger(
            larger(
                larger(left_hint(sections, n - 1, least, c), widest(own.summary)),
                widest(own.overview),
            ),
            widest(own.counts),
        )
    }
}

/// What the split view shows of a content.
pub open spec fn pager_of(content: SummaryPagerContent, c: ColourPalette) -> PagerView {
    let all = content.sections@;
    let count = all.len() as int;
    let empty_overview = seq![overview_line(0, 0, c)];
    let fallback_counts = count_lines(content.message_counts@, c);
    let lines = detail_lines(all, count);
    let right = if lines.len() == 0 {
        seq![c.name@ + "No order-flow messages captured."@ + c.reset@]
    } else {
        lines
    };
    PagerView {
        empty_overview,
        fallback_counts,
        sections: Seq::new(all.len(), |i: int| section_at(all, i, c)),
        right,
        left_hint: left_hint(all, count, larger(widest(empty_overview), widest(fallback_counts)), c),
        max_right: widest(right),
    }
}

fn widest_line(lines: &Vec<String>) -> (width: usize)
    ensures
        width == widest(texts(lines@)),
{
    let ghost all = texts(lines@);
    let mut width: usize = 0;
    let mut i: usize = 0;
    assert(all.take(0) =~= seq![]);
    while i < lines.len()
        invariant
            i <= lines@.len(),
            all == texts(lines@),
            width == widest(all.take(i as int)),
        decreases lines@.len() - i,
    {
        assert(all[i as int] == lines@[i as int]@);
        assert(all.take(i + 1).drop_last() =~= all.take(i as int));
        let shown: usize = visible_width(lines[i].as_str());
        if shown > width {
            width = shown;
        }
        i += 1;
    }
    assert(all.take(i as int) =~= all);
    width
}

fn wider(a: usize, b: usize) -> (width: usize)
    ensures
        width == larger(a as nat, b as nat),
{
    if a > b {
        a
    } else {
        b
    }
}

fn push_line(target: &mut Vec<String>, line: String)
    ensures
        texts(final(target)@) == texts(old(target)@).push(line@),
{
    let ghost before = texts(target@);
    let ghost view = line@;
    target.push(line);
    assert(texts(target@) =~= before.push(view));
}

impl PagerModel {
    /// What the split view shows of a content.
    pub fn from_content(content: SummaryPagerContent, colours: ColourPalette) -> (model: PagerModel)
        ensures
            model@ == pager_of(content, colours),
    {
        let ghost all = content.sections@;
        let empty_overview_lines = render_overview_lines(0, 0, colours);
        let fallback_message_count_lines = render_message_count_lines(
            &content.message_counts,
            colours,
        );
        let mut hint: usize = wider(
            widest_line(&empty_overview_lines),
            widest_line(&fallback_message_count_lines),
        );
        let ghost least = hint as nat;
        let total: usize = content.sections.len();
        let mut right_lines: Vec<String> = Vec::new();
        let mut sections: Vec<SectionView> = Vec::new();
        let mut terminal_seen: usize = 0;
        let mut index: usize = 0;
        assert(texts(right_lines@) =~= seq![]);
        assert(all.take(0) =~= seq![]);
        while index < total
            invariant
                index <= total,
                total == all.len(),
                all == content.sections@,
                hint == left_hint(all, index as int, least, colours),
                texts(right_lines@) == detail_lines(all, index as int),
                terminal_seen == done_count(all.take(index as int)),
                terminal_seen <= index,
                sections@.len() == index,
                forall|i: int|
                    0 <= i < index ==> (#[trigger] sections@[i])@ == section_at(all, i, colours),
            decreases total - index,
        {
            let section = &content.sections[index];
            assert(all.take(index + 1).drop_last() =~= all.take(index as int));
            let summary_lines = split_lines(section.summary.as_str());
            let detail_start: usize = right_lines.len();
            copy_lines(&mut right_lines, &split_lines(section.detail.as_str()));
            if index + 1 < total {
                let empty = String::new();
                assert(empty@ =~= seq![]);
                push_line(&mut right_lines, empty);
            }
            if section.terminal {
                terminal_seen += 1;
            }
            let overview_lines = render_overview_lines(
                index + 1,
                index + 1 - terminal_seen,
                colours,
            );
            let message_count_lines = render_message_count_lines(&section.message_counts, colours);
            hint = wider(
                wider(wider(hint, widest_line(&summary_lines)), widest_line(&overview_lines)),
                widest_line(&message_count_lines),
            );
            let view = SectionView {
                summary_lines,
                overview_lines,
                message_count_lines,
                detail_start,
            };
            assert(view@ == section_at(all, index as int, colours));
            sections.push(view);
            index += 1;
        }
        if right_lines.len() == 0 {
            let mut line = copy_of(colours.name);
            line.append("No order-flow messages captured.");
            line.append(colours.reset);
            push_line(&mut right_lines, line);
            assert(texts(right_lines@) =~= seq![
                colours.name@ + "No order-flow messages captured."@ + colours.reset@,
            ]);
        }
        let max_right_width: usize = widest_line(&right_lines);
        let model = PagerModel {
            empty_overview_lines,
            fallback_message_count_lines,
            sections,
            right_lines,
            left_width_hint: hint,
            max_right_width,
        };
        assert(model@.sections =~= pager_of(content, colours).sections);
        model
    }
}

// ---------------------------------------------------------------------------
// Panes

pub open spec fn smaller(a: nat, b: nat) -> nat {
    if a < b {
        a
    } else {
        b
    }
}

/// `a - b`, and nothing where `b` is larger.
pub open spec fn over(a: nat, b: nat) -> nat {
    if a > b {
        (a - b) as nat
    } else {
        0
    }
}

impl PagerView {
    /// How wide the left side is: as its lines need, but no more than a third of the
    /// terminal; the right side keeps its least width where there is room for it, and leaves
    /// over what it does not need.
    pub open spec fn left_width(self, terminal_width: nat) -> nat {
        let available = over(terminal_width, 3);
        let cap = larger(terminal_width / 3, 28);
        let wanted = smaller(smaller(larger(self.left_hint, 28), cap), available);
        let width = if over(available, wanted) < 48 && available > 48 {
            over(available, 48)
        } else {
            wanted
        };
        larger(larger(width, over(available, self.max_right)), 1)
    }

    pub open spec fn max_x(self, right_width: nat) -> nat {
        over(self.max_right, right_width)
    }

    pub open spec fn max_y(self, height: nat) -> nat {
        over(self.right.len(), height)
    }

    /// How many of the orders from `at` on start at or above a line, one after the other.
    pub open spec fn reached(self, at: int, line: int) -> int
        decreases self.sections.len() - at,
    {
        if 0 <= at < self.sections.len() && self.sections[at].start <= line {
            self.reached(at + 1, line)
        } else {
            at
        }
    }

    /// The order that a line on the right belongs to.
    pub open spec fn section_of(self, line: int) -> Option<int> {
        if self.sections.len() == 0 {
            None
        } else if self.reached(0, line) == 0 {
            Some(0)
        } else {
            Some(self.reached(0, line) - 1)
        }
    }

    /// The last line on the right that is in view.
    pub open spec fn bottom(self, scroll_y: nat, height: nat) -> nat {
        smaller(
            capped(scroll_y + over(height, 1) as int) as nat,
            over(self.right.len(), 1),
        )
    }

    /// The order that the last line in view belongs to.
    pub open spec fn visible_section(self, scroll_y: nat, height: nat) -> Option<int> {
        if self.right.len() == 0 {
            None
        } else {
            self.section_of(self.bottom(scroll_y, height) as int)
        }
    }

    /// The lines on the left: the current order, the count of orders, and the counts of
    /// messages, with empty lines between them.
    pub open spec fn left(self, current: Option<int>, visible: Option<int>) -> Seq<Seq<char>> {
        let headline = match current {
            Some(i) => self.sections[i].summary,
            None => seq![],
        };
        let shown = visible matches Some(i) && 0 <= i < self.sections.len();
        let overview = if shown {
            self.sections[visible->0].overview
        } else {
            self.empty_overview
        };
        let counts = if shown && self.sections[visible->0].counts.len() > 0 {
            self.sections[visible->0].counts
        } else {
            self.fallback_counts
        };
        below(below(headline, overview), counts)
    }
}

/// Lines under others, with an empty line between them.
pub open spec fn below(lines: Seq<Seq<char>>, more: Seq<Seq<char>>) -> Seq<Seq<char>> {
    if more.len() == 0 {
        lines
    } else if lines.len() == 0 {
        more
    } else {
        lines.push(seq![]) + more
    }
}

fn min(a: usize, b: usize) -> (least: usize)
    ensures
        least == smaller(a as nat, b as nat),
{
    if a < b {
        a
    } else {
        b
    }
}

fn difference(a: usize, b: usize) -> (rest: usize)
    ensures
        rest == over(a as nat, b as nat),
{
    if a > b {
        a - b
    } else {
        0
    }
}

fn push_below(lines: &mut Vec<String>, more: &Vec<String>)
    ensures
        texts(final(lines)@) == below(texts(old(lines)@), texts(more@)),
{
    let ghost start = texts(lines@);
    if more.len() == 0 {
        return;
    }
    if lines.len() > 0 {
        let empty = String::new();
        assert(empty@ =~= seq![]);
        push_line(lines, empty);
    }
    copy_lines(lines, more);
    assert(texts(lines@) =~= below(start, texts(more@)));
}

fn copy_lines(target: &mut Vec<String>, lines: &Vec<String>)
    ensures
        texts(final(target)@) == texts(old(target)@) + texts(lines@),
{
    let ghost start = texts(target@);
    let ghost all = texts(lines@);
    let mut i: usize = 0;
    assert(all.take(0) =~= seq![]);
    while i < lines.len()
        invariant
            i <= lines@.len(),
            all == texts(lines@),
            texts(target@) == start + all.take(i as int),
        decreases lines@.len() - i,
    {
        assert(all[i as int] == lines@[i as int]@);
        push_line(target, copy_of(lines[i].as_str()));
        assert(all.take(i + 1) =~= all.take(i as int).push(all[i as int]));
        i += 1;
    }
    assert(all.take(i as int) =~= all);
}

pub open spec fn opt_index(index: Option<usize>) -> Option<int> {
    match index {
        Some(i) => Some(i as int),
        None => None,
    }
}

impl PagerModel {
    /// How wide the left side is.
    pub fn left_width(&self, terminal_width: usize) -> (width: usize)
        ensures
            width == self@.left_width(terminal_width as nat),
    {
        let available: usize = difference(terminal_width, DIVIDER_WIDTH);
        let cap: usize = wider(terminal_width / 3, MIN_LEFT_WIDTH);
        let mut width: usize = min(
            min(wider(self.left_width_hint, MIN_LEFT_WIDTH), cap),
            available,
        );
        if difference(available, width) < MIN_RIGHT_WIDTH && available > MIN_RIGHT_WIDTH {
            width = difference(available, MIN_RIGHT_WIDTH);
        }
        wider(wider(width, difference(available, self.max_right_width)), 1)
    }

    /// How far the right side can be moved sideways.
    pub fn max_horizontal_scroll(&self, right_width: usize) -> (most: usize)
        ensures
            most == self@.max_x(right_width as nat),
    {
        difference(self.max_right_width, right_width)
    }

    /// How far the right side can be moved down.
    pub fn max_vertical_scroll(&self, viewport_height: usize) -> (most: usize)
        ensures
            most == self@.max_y(viewport_height as nat),
    {
        difference(self.right_lines.len(), viewport_height)
    }

    /// The order that a line on the right belongs to.
    pub fn section_index_for_line(&self, line: usize) -> (index: Option<usize>)
        ensures
            opt_index(index) == self@.section_of(line as int),
            index matches Some(i) ==> i < self.sections@.len(),
    {
        if self.sections.len() == 0 {
            return None;
        }
        let mut at: usize = 0;
        while at < self.sections.len() && self.sections[at].detail_start <= line
            invariant
                at <= self.sections@.len(),
                self@.reached(0, line as int) == self@.reached(at as int, line as int),
            decreases self.sections@.len() - at,
        {
            assert(self@.sections[at as int] == self.sections@[at as int]@);
            at += 1;
        }
        if at < self.sections.len() {
            assert(self@.sections[at as int] == self.sections@[at as int]@);
        }
        if at == 0 {
            Some(0)
        } else {
            Some(at - 1)
        }
    }

    /// The order that the last line in view belongs to.
    pub fn visible_section_index(&self, scroll_y: usize, viewport_height: usize) -> (index: Option<
        usize,
    >)
        ensures
            opt_index(index) == self@.visible_section(scroll_y as nat, viewport_height as nat),
            index matches Some(i) ==> i < self.sections@.len(),
    {
        if self.right_lines.len() == 0 {
            return None;
        }
        let bottom: usize = min(
            plus(scroll_y, difference(viewport_height, 1)),
            difference(self.right_lines.len(), 1),
        );
        self.section_index_for_line(bottom)
    }

    /// The lines on the left.
    pub fn left_lines(&self, current_section: Option<usize>, visible_section: Option<usize>) -> (
        lines: Vec<String>)
        requires
            current_section matches Some(i) ==> i < self.sections@.len(),
        ensures
            texts(lines@) == self@.left(opt_index(current_section), opt_index(visible_section)),
    {
        let mut lines: Vec<String> = Vec::new();
        assert(texts(lines@) =~= seq![]);
        if let Some(index) = current_section {
            assert(self@.sections[index as int] == self.sections@[index as int]@);
            copy_lines(&mut lines, &self.sections[index].summary_lines);
            assert(texts(lines@) =~= self@.sections[index as int].summary);
        }
        let mut overview: &Vec<String> = &self.empty_overview_lines;
        let mut counts: &Vec<String> = &self.fallback_message_count_lines;
        if let Some(index) = visible_section {
            if index < self.sections.len() {
                assert(self@.sections[index as int] == self.sections@[index as int]@);
                overview = &self.sections[index].overview_lines;
                assert(texts(self.sections@[index as int].message_count_lines@).len()
                    == self.sections@[index as int].message_count_lines@.len());
                if self.sections[index].message_count_lines.len() > 0 {
                    counts = &self.sections[index].message_count_lines;
                }
            }
        }
        push_below(&mut lines, overview);
        push_below(&mut lines, counts);
        lines
    }
}

// ---------------------------------------------------------------------------
// Keys

/// A key that was pressed.
#[derive(Clone, Copy, Debug, PartialEq, Eq, Structural)]
pub enum PagerKey {
    Char(char),
    Esc,
    Up,
    Down,
    Left,
    Right,
    PageUp,
    PageDown,
    Home,
    End,
    Other,
}

/// How far the right side is moved.
#[derive(Clone, Copy, Debug, PartialEq, Eq, Structural)]
pub struct PagerState {
    pub scroll_x: usize,
    pub scroll_y: usize,
}

/// Whether a key ends the view.
pub open spec fn quits(key: PagerKey) -> bool {
    key == PagerKey::Esc || key == PagerKey::Char('q')
}

/// Where a key moves the right side to.
pub open spec fn moved(key: PagerKey, x: nat, y: nat, max_y: nat, page: nat) -> (nat, nat) {
    if key == PagerKey::Up || key == PagerKey::Char('k') {
        (x, over(y, 1))
    } else if key == PagerKey::Down || key == PagerKey::Char('j') {
        (x, smaller(capped(y + 1int) as nat, max_y))
    } else if key == PagerKey::Left || key == PagerKey::Char('h') {
        (over(x, 1), y)
    } else if key == PagerKey::Right || key == PagerKey::Char('l') {
        (capped(x + 1int) as nat, y)
    } else if key == PagerKey::PageUp {
        (x, over(y, page))
    } else if key == PagerKey::PageDown || key == PagerKey::Char(' ') {
        (x, smaller(capped(y + page as int) as nat, max_y))
    } else if key == PagerKey::Home {
        (0, 0)
    } else if key == PagerKey::End {
        (x, max_y)
    } else {
        (x, y)
    }
}

/// Moves the right side as a key says. True where the key ends the view.
pub fn handle_key(
    model: &PagerModel,
    state: &mut PagerState,
    key: PagerKey,
    viewport_height: usize,
) -> (quit: bool)
    ensures
        quit == quits(key),
        quit ==> *final(state) == *old(state),
        !quit ==> (final(state).scroll_x as nat, final(state).scroll_y as nat) == moved(
            key,
            old(state).scroll_x as nat,
            old(state).scroll_y as nat,
            model@.max_y(viewport_height as nat),
            over(viewport_height as nat, 1),
        ),
{
    let max_y: usize = model.max_vertical_scroll(viewport_height);
    let page: usize = difference(viewport_height, 1);
    match key {
        PagerKey::Char('q') | PagerKey::Esc => {
            return true;
        },
        PagerKey::Up | PagerKey::Char('k') => {
            state.scroll_y = difference(state.scroll_y, 1);
        },
        PagerKey::Down | PagerKey::Char('j') => {
            state.scroll_y = min(plus(state.scroll_y, 1), max_y);
        },
        PagerKey::Left | PagerKey::Char('h') => {
            state.scroll_x = difference(state.scroll_x, 1);
        },
        PagerKey::Right | PagerKey::Char('l') => {
            state.scroll_x = plus(state.scroll_x, 1);
        },
        PagerKey::PageUp => {
            state.scroll_y = difference(state.scroll_y, page);
        },
        PagerKey::PageDown | PagerKey::Char(' ') => {
            state.scroll_y = min(plus(state.scroll_y, page), max_y);
        },
        PagerKey::Home => {
            state.scroll_x = 0;
            state.scroll_y = 0;
        },
        PagerKey::End => {
            state.scroll_y = max_y;
        },
        _ => {},
    }
    false
}

// ---------------------------------------------------------------------------
// The screen

/// What stands on the screen: a remark that it is too small, or its rows.
#[derive(Debug)]
pub enum Screen {
    TooSmall(String),
    Rows(Vec<String>),
}

/// A screen that cannot be split.
pub open spec fn too_small(view: PagerView, width: nat, height: nat) -> bool {
    let left = view.left_width(width);
    width <= 13 || height == 0 || left < 8 || over(width, left + 3) < 16
}

/// A row of the screen.
pub open spec fn row_text(
    view: PagerView,
    left: Seq<Seq<char>>,
    x: nat,
    y: nat,
    width: nat,
    row: int,
    c: ColourPalette,
) -> Seq<char> {
    let left_width = view.left_width(width);
    let side = if row < left.len() {
        padded(slice(left[row], 0, left_width), left_width)
    } else {
        repeated(' ', left_width)
    };
    let detail = if y + row < view.right.len() {
        slice(view.right[y + row], x, over(width, left_width + 3))
    } else {
        seq![]
    };
    side + c.line@ + " | "@ + c.reset@ + detail
}

/// The rows of a screen.
pub open spec fn rows(
    view: PagerView,
    x: nat,
    y: nat,
    width: nat,
    height: nat,
    c: ColourPalette,
) -> Seq<Seq<char>> {
    let left = view.left(view.section_of(y as int), view.visible_section(y, height));
    Seq::new(height, |row: int| row_text(view, left, x, y, width, row, c))
}

fn row_line(
    model: &PagerModel,
    left: &Vec<String>,
    state: PagerState,
    width: usize,
    row: usize,
    colours: ColourPalette,
) -> (text: String)
    ensures
        text@ == row_text(
            model@,
            texts(left@),
            state.scroll_x as nat,
            state.scroll_y as nat,
            width as nat,
            row as int,
            colours,
        ),
{
    let left_width: usize = model.left_width(width);
    let right_width: usize = difference(width, plus(left_width, DIVIDER_WIDTH));
    let mut text = String::new();
    if row < left.len() {
        assert(texts(left@)[row as int] == left@[row as int]@);
        text.append(
            pad_ansi(slice_ansi(left[row].as_str(), 0, left_width).as_str(), left_width).as_str(),
        );
    } else {
        push_repeated(&mut text, ' ', left_width);
    }
    text.append(colours.line);
    text.append(" | ");
    text.append(colours.reset);
    if row < model.right_lines.len() && state.scroll_y < model.right_lines.len() - row {
        let at: usize = state.scroll_y + row;
        assert(model@.right[at as int] == model.right_lines@[at as int]@);
        text.append(
            slice_ansi(model.right_lines[at].as_str(), state.scroll_x, right_width).as_str(),
        );
    }
    assert(text@ =~= row_text(
        model@,
        texts(left@),
        state.scroll_x as nat,
        state.scroll_y as nat,
        width as nat,
        row as int,
        colours,
    ));
    text
}

/// The screen for a terminal of the given size. Where the right side was moved too far, it is
/// moved back.
pub fn render(
    model: &PagerModel,
    state: &mut PagerState,
    width: usize,
    height: usize,
    colours: ColourPalette,
) -> (screen: Screen)
    ensures
        too_small(model@, width as nat, height as nat) ==> {
            &&& *final(state) == *old(state)
            &&& screen matches Screen::TooSmall(text) && text@ == colours.error@
                + "Terminal too small for split summary pager. Resize or use --paging=never."@
                + colours.reset@
        },
        !too_small(model@, width as nat, height as nat) ==> {
            let left = model@.left_width(width as nat);
            &&& final(state).scroll_x == smaller(
                old(state).scroll_x as nat,
                model@.max_x(over(width as nat, left + 3)),
            )
            &&& final(state).scroll_y == smaller(
                old(state).scroll_y as nat,
                model@.max_y(height as nat),
            )
            &&& screen matches Screen::Rows(lines) && texts(lines@) == rows(
                model@,
                final(state).scroll_x as nat,
                final(state).scroll_y as nat,
                width as nat,
                height as nat,
                colours,
            )
        },
{
    let left_width: usize = model.left_width(width);
    let right_width: usize = difference(width, plus(left_width, DIVIDER_WIDTH));
    if width <= 13 || height == 0 || left_width < 8 || right_width < 16 {
        let mut text = copy_of(colours.error);
        text.append("Terminal too small for split summary pager. Resize or use --paging=never.");
        text.append(colours.reset);
        return Screen::TooSmall(text);
    }
    state.scroll_x = min(state.scroll_x, model.max_horizontal_scroll(right_width));
    state.scroll_y = min(state.scroll_y, model.max_vertical_scroll(height));
    let current = model.section_index_for_line(state.scroll_y);
    let visible = model.visible_section_index(state.scroll_y, height);
    let left = model.left_lines(current, visible);
    let ghost expected = rows(
        model@,
        state.scroll_x as nat,
        state.scroll_y as nat,
        width as nat,
        height as nat,
        colours,
    );
    let place = PagerState { scroll_x: state.scroll_x, scroll_y: state.scroll_y };
    let mut lines: Vec<String> = Vec::new();
    let mut row: usize = 0;
    assert(texts(lines@) =~= expected.take(0));
    while row < height
        invariant
            row <= height,
            texts(left@) == model@.left(
                model@.section_of(place.scroll_y as int),
                model@.visible_section(place.scroll_y as nat, height as nat),
            ),
            expected == rows(
                model@,
                place.scroll_x as nat,
                place.scroll_y as nat,
                width as nat,
                height as nat,
                colours,
            ),
            texts(lines@) == expected.take(row as int),
        decreases height - row,
    {
        let line = row_line(model, &left, place, width, row, colours);
        assert(line@ == expected[row as int]);
        push_line(&mut lines, line);
        assert(expected.take(row + 1) =~= expected.take(row as int).push(expected[row as int]));
        row += 1;
    }
    assert(expected.take(row as int) =~= expected);
    Screen::Rows(lines)
}

// ---------------------------------------------------------------------------
// Laws

/// A key never moves the right side below its end.
pub proof fn law_scroll_stays_in_view(key: PagerKey, x: nat, y: nat, max_y: nat, page: nat)
    requires
        y <= max_y,
    ensures
        moved(key, x, y, max_y, page).1 <= max_y,
{
}

/// The two sides and the divider fit into the terminal, if it is wider than the divider.
pub proof fn law_panes_fit(view: PagerView, terminal_width: nat)
    requires
        terminal_width > 3,
    ensures
        1 <= view.left_width(terminal_width),
        view.left_width(terminal_width) + 3 <= terminal_width,
{
}

proof fn lemma_starts_ascend(sections: Seq<SummaryPagerSection>, i: int, j: int)
    requires
        0 <= i <= j <= sections.len(),
    ensures
        detail_lines(sections, i).len() <= detail_lines(sections, j).len(),
    decreases j - i,
{
    if i < j {
        lemma_starts_ascend(sections, i, j - 1);
    }
}

proof fn lemma_reached(view: PagerView, at: int, line: int)
    requires
        0 <= at <= view.sections.len(),
    ensures
        at <= view.reached(at, line) <= view.sections.len(),
        forall|i: int|
            at <= i < view.reached(at, line) ==> (#[trigger] view.sections[i]).start <= line,
        view.reached(at, line) < view.sections.len() ==> view.sections[view.reached(
            at,
            line,
        )].start > line,
    decreases view.sections.len() - at,
{
    if at < view.sections.len() && view.sections[at].start <= line {
        lemma_reached(view, at + 1, line);
    }
}

/// A line belongs to the order whose details start at or above it, and below which the next
/// one starts.
pub proof fn law_line_belongs_to_its_order(content: SummaryPagerContent, c: ColourPalette, line: nat)
    requires
        content.sections@.len() > 0,
    ensures
        pager_of(content, c).section_of(line as int) matches Some(i) && {
            let sections = pager_of(content, c).sections;
            &&& 0 <= i < sections.len()
            &&& sections[i].start <= line
            &&& forall|j: int| i < j < sections.len() ==> (#[trigger] sections[j]).start > line
        },
{
    let view = pager_of(content, c);
    let all = content.sections@;
    lemma_reached(view, 0, line as int);
    let n = view.reached(0, line as int);
    assert(view.sections[0].start == 0) by {
        assert(detail_lines(all, 0).len() == 0);
    }
    assert(n > 0);
    assert forall|j: int| n - 1 < j < view.sections.len() implies (
    #[trigger] view.sections[j]).start > line by {
        lemma_starts_ascend(all, n, j);
        assert(view.sections[n].start == detail_lines(all, n).len());
        assert(view.sections[j].start == detail_lines(all, j).len());
    }
}

} // verus!
