//! The orders of a summary as sections of the split view.
use crate::colours::ColourPalette;
use crate::counts::{copy_label, count_views, Counts, MsgTypeCount};
use crate::order_record::{OrderRecord, OrderView};
use crate::summary::{order_views, record_views, OrderSummary, SummaryView};
use crate::summary_pager::{
    counts_in, SummaryPagerContent, SummaryPagerMessageCount, SummaryPagerSection,
};
use crate::summary_render::{
    messages_text, record_header, record_text, render_messages, render_record,
    render_record_header,
};
use crate::text::copy_of;
use crate::textmap::{sorted, TextMap};
use vstd::prelude::*;
use vstd::string::StringExecFns;

verus! {

impl SummaryView {
    /// All orders: the completed ones as they ended, then the open ones by key.
    pub open spec fn all_orders(self) -> Seq<OrderView> {
        self.completed + sorted(self.orders.dom()).map_values(|k: Seq<char>| self.orders[k])
    }
}

/// The types of the rows of a list.
pub open spec fn types_in(list: Seq<SummaryPagerMessageCount>) -> Seq<Seq<char>> {
    list.map_values(|c: SummaryPagerMessageCount| c.msg_type@)
}

/// A list holds the counts: one row for each type, in the order of the types.
pub open spec fn lists(list: Seq<SummaryPagerMessageCount>, counts: Counts) -> bool {
    &&& types_in(list) == sorted(counts.dom())
    &&& counts_in(list) == counts
}

/// A section shows an order: its headline, and on the other side all that is known of it.
pub open spec fn shows(
    section: SummaryPagerSection,
    order: OrderView,
    counts: Counts,
    c: ColourPalette,
) -> bool {
    &&& section.summary@ == record_header(order, c)
    &&& section.detail@ == record_text(order, c) + messages_text(order, c)
    &&& section.terminal == order.is_terminal()
    &&& lists(section.message_counts@, counts)
}

/// The counts as a list, one row for each type, in the order of the types.
pub fn paged_message_counts(counts: &TextMap<MsgTypeCount>) -> (list: Vec<SummaryPagerMessageCount>)
    ensures
        types_in(list@) == counts.keys(),
        lists(list@, count_views(counts@)),
{
    counts.know_keys();
    let ghost keys = counts.keys();
    let ghost views = count_views(counts@);
    let total: usize = counts.len();
    let mut list: Vec<SummaryPagerMessageCount> = Vec::new();
    let mut i: usize = 0;
    while i < total
        invariant
            i <= total,
            total == keys.len(),
            keys == counts.keys(),
            views == count_views(counts@),
            types_in(list@) == keys.take(i as int),
            forall|k: Seq<char>| #[trigger]
                counts_in(list@).contains_key(k) <==> keys.take(i as int).contains(k),
            forall|k: Seq<char>| #[trigger]
                counts_in(list@).contains_key(k) ==> counts_in(list@)[k] == views[k],
        decreases total - i,
    {
        let (msg_type, info) = counts.entry(i);
        let ghost before = list@;
        let ghost done = keys.take(i as int);
        let next = SummaryPagerMessageCount {
            msg_type: copy_of(msg_type.as_str()),
            label: copy_label(&info.label),
            count: info.count,
            bucket: info.bucket,
        };
        list.push(next);
        proof {
            let longer = keys.take(i + 1);
            assert(list@.drop_last() =~= before);
            assert(longer =~= done.push(msg_type@));
            assert(types_in(list@) =~= longer);
            assert(views[msg_type@] == info@);
            assert(counts_in(list@) == counts_in(before).insert(msg_type@, info@));
            assert forall|k: Seq<char>| #[trigger]
                longer.contains(k) == (done.contains(k) || k == msg_type@) by {
                if done.contains(k) {
                    let j = done.index_of(k);
                    assert(longer[j] == k);
                }
                if k == msg_type@ {
                    assert(longer[i as int] == k);
                }
                if longer.contains(k) {
                    let j = longer.index_of(k);
                    if j < i {
                        assert(done[j] == k);
                    }
                }
            }
        }
        i += 1;
    }
    proof {
        assert(keys.take(i as int) =~= keys);
        assert(counts_in(list@) =~= views);
        assert(views.dom() =~= counts@.dom());
    }
    list
}

fn section_for(record: &OrderRecord, counts: &TextMap<MsgTypeCount>, colours: ColourPalette) -> (
    section: SummaryPagerSection)
    ensures
        shows(section, record@, count_views(counts@), colours),
{
    let mut detail = render_record(record, colours);
    detail.append(render_messages(record, colours).as_str());
    SummaryPagerSection {
        summary: render_record_header(record, colours),
        detail,
        terminal: record.is_terminal(),
        message_counts: paged_message_counts(counts),
    }
}

/// The counts that are shown: none where they are not wanted.
pub open spec fn shown_counts(counts: Counts, no_counts: bool) -> Counts {
    if no_counts {
        Map::empty()
    } else {
        counts
    }
}

impl OrderSummary {
    /// What the split view shows of the orders, beside the counts of messages where they are
    /// wanted.
    pub fn build_paged_content(
        &self,
        counts: &TextMap<MsgTypeCount>,
        no_counts: bool,
        colours: ColourPalette,
    ) -> (content: SummaryPagerContent)
        ensures
            content.sections@.len() == self@.all_orders().len(),
            forall|i: int|
                0 <= i < content.sections@.len() ==> shows(
                    #[trigger] content.sections@[i],
                    self@.all_orders()[i],
                    shown_counts(count_views(counts@), no_counts),
                    colours,
                ),
            lists(content.message_counts@, shown_counts(count_views(counts@), no_counts)),
    {
        let none: TextMap<MsgTypeCount> = TextMap::new();
        assert(count_views(none@) =~= Map::empty());
        let ghost given = count_views(counts@);
        let counts: &TextMap<MsgTypeCount> = if no_counts {
            &none
        } else {
            counts
        };
        let ghost all = self@.all_orders();
        let ghost views = count_views(counts@);
        assert(views == shown_counts(given, no_counts));
        let mut sections: Vec<SummaryPagerSection> = Vec::new();
        let mut i: usize = 0;
        while i < self.completed.len()
            invariant
                i <= self.completed@.len(),
                all == self@.all_orders(),
                views == count_views(counts@),
                sections@.len() == i,
                forall|j: int|
                    0 <= j < i ==> shows(#[trigger] sections@[j], all[j], views, colours),
            decreases self.completed@.len() - i,
        {
            assert(record_views(self.completed@)[i as int] == self.completed@[i as int]@);
            assert(all[i as int] == self.completed@[i as int]@);
            sections.push(section_for(&self.completed[i], counts, colours));
            i += 1;
        }
        self.orders.know_keys();
        let ghost keys = self.orders.keys();
        assert(self@.orders.dom() =~= self.orders@.dom());
        let done: usize = self.completed.len();
        let open: usize = self.orders.len();
        let mut k: usize = 0;
        while k < open
            invariant
                k <= open,
                open == keys.len(),
                keys == self.orders.keys(),
                keys == sorted(self@.orders.dom()),
                done == self@.completed.len(),
                all == self@.all_orders(),
                views == count_views(counts@),
                sections@.len() == done + k,
                forall|j: int|
                    0 <= j < done + k ==> shows(#[trigger] sections@[j], all[j], views, colours),
            decreases open - k,
        {
            let (_, record) = self.orders.entry(k);
            assert(order_views(self.orders@)[keys[k as int]] == record@);
            assert(all[done + k] == record@);
            sections.push(section_for(record, counts, colours));
            k += 1;
        }
        SummaryPagerContent { sections, message_counts: paged_message_counts(counts) }
    }
}

} // verus!
