//! What a summary of orders writes: completed orders, open orders and the status line.
use crate::ansi::{shown_width, visible_width};
use crate::colours::ColourPalette;
use crate::dictionaries::{without_combos, DictionaryStore, Lookups};
use crate::order_record::OrderView;
use crate::summary::{order_views, record_views, OrderSummary, SummaryView};
use crate::summary_render::{messages_text, record_text, render_messages, render_record};
use crate::text::{copy_of, decimal, push_decimal, push_repeated, repeated};
use crate::textmap::sorted;
use vstd::prelude::*;

verus! {

broadcast use vstd::seq_lib::group_seq_properties;

/// Completed orders with their messages.
pub open spec fn completed_text(orders: Seq<OrderView>, c: ColourPalette) -> Seq<char>
    decreases orders.len(),
{
    if orders.len() == 0 {
        seq![]
    } else {
        completed_text(orders.drop_last(), c) + record_text(orders.last(), c) + messages_text(
            orders.last(),
            c,
        )
    }
}

/// The orders with the given keys, in their order.
pub open spec fn open_text(
    orders: Map<Seq<char>, OrderView>,
    keys: Seq<Seq<char>>,
    c: ColourPalette,
) -> Seq<char>
    decreases keys.len(),
{
    if keys.len() == 0 {
        seq![]
    } else {
        open_text(orders, keys.drop_last(), c) + record_text(orders[keys.last()], c)
    }
}

/// A store without what an override brought into it.
pub open spec fn without_override(lookups: Lookups, key: Option<Seq<char>>) -> Lookups {
    match key {
        Some(key) => without_combos(lookups, key),
        None => lookups,
    }
}

impl SummaryView {
    /// The line that counts the orders.
    pub open spec fn count_line(self, c: ColourPalette) -> Seq<char> {
        let count = decimal(self.orders.dom().len());
        let total = decimal(self.total as nat);
        c.title@ + "Order Summary"@ + c.reset@ + " ("@ + count + " open, "@ + total
            + " total, to fill: "@ + count + "/"@ + total + ")\n"@ + "\n"@
    }

    /// The blank line that covers a status line.
    pub open spec fn covered_status(self) -> Seq<char> {
        if self.footer_width > 0 {
            "\r"@ + repeated(' ', self.footer_width as nat) + "\n"@
        } else {
            seq![]
        }
    }

    /// All orders: the completed ones as they ended, the open ones by key.
    pub open spec fn report(self, c: ColourPalette) -> Seq<char> {
        self.covered_status() + completed_text(self.completed, c) + open_text(
            self.orders,
            sorted(self.orders.dom()),
            c,
        ) + self.count_line(c)
    }

    /// The completed orders, written over a status line.
    pub open spec fn completed_report(self, c: ColourPalette) -> Seq<char> {
        let covered = if self.footer_width > 0 {
            "\r"@ + repeated(' ', self.footer_width as nat) + "\r"@
        } else {
            seq![]
        };
        covered + completed_text(self.completed, c)
    }

    pub open spec fn status(self) -> Seq<char> {
        "Status: open="@ + decimal(self.orders.dom().len()) + " filled="@ + decimal(
            self.terminal as nat,
        ) + " total="@ + decimal(self.total as nat)
    }

    /// How wide the status line is: no narrower than before.
    pub open spec fn status_width(self) -> nat {
        if shown_width(self.status()) > self.footer_width {
            shown_width(self.status())
        } else {
            self.footer_width as nat
        }
    }

    /// The status line, padded so that it covers the one before it.
    pub open spec fn status_line(self) -> Seq<char> {
        "\r"@ + self.status() + repeated(
            ' ',
            (self.status_width() - shown_width(self.status())) as nat,
        )
    }
}

fn completed_orders(summary: &OrderSummary, colours: ColourPalette) -> (text: String)
    ensures
        text@ == completed_text(summary@.completed, colours),
{
    let ghost all = record_views(summary.completed@);
    let mut text = String::new();
    let mut i: usize = 0;
    assert(all.take(0) =~= seq![]);
    while i < summary.completed.len()
        invariant
            i <= summary.completed@.len(),
            all == record_views(summary.completed@),
            text@ == completed_text(all.take(i as int), colours),
        decreases summary.completed@.len() - i,
    {
        assert(all[i as int] == summary.completed@[i as int]@);
        assert(all.take(i + 1).drop_last() =~= all.take(i as int));
        text.append(render_record(&summary.completed[i], colours).as_str());
        text.append(render_messages(&summary.completed[i], colours).as_str());
        i += 1;
    }
    assert(all.take(i as int) =~= all);
    text
}

fn open_orders(summary: &OrderSummary, colours: ColourPalette) -> (text: String)
    ensures
        text@ == open_text(summary@.orders, sorted(summary@.orders.dom()), colours),
{
    let ghost orders = summary@.orders;
    let ghost keys = summary.orders.keys();
    summary.orders.know_keys();
    assert(orders.dom() =~= summary.orders@.dom());
    let mut text = String::new();
    let mut i: usize = 0;
    assert(keys.take(0) =~= seq![]);
    while i < summary.orders.len()
        invariant
            i <= keys.len(),
            keys == summary.orders.keys(),
            orders == order_views(summary.orders@),
            text@ == open_text(orders, keys.take(i as int), colours),
        decreases keys.len() - i,
    {
        let (key, record) = summary.orders.entry(i);
        assert(orders[keys[i as int]] == record@);
        assert(keys.take(i + 1).drop_last() =~= keys.take(i as int));
        text.append(render_record(record, colours).as_str());
        i += 1;
    }
    assert(keys.take(i as int) =~= keys);
    text
}

impl OrderSummary {
    fn open_count(&self) -> (count: usize)
        ensures
            count == self@.orders.dom().len(),
    {
        assert(self@.orders.dom() =~= self.orders@.dom());
        self.orders.len()
    }

    fn clear_override_cache(&self, dictionaries: &mut DictionaryStore)
        ensures
            final(dictionaries).lookups() == without_override(
                old(dictionaries).lookups(),
                self@.override_key,
            ),
            final(dictionaries).missed() == old(dictionaries).missed(),
    {
        if let Some(key) = &self.fix_override_key {
            dictionaries.clear_override_cache_for(key.as_str());
        }
    }

    /// All orders as text. Where orders were completed, the dictionaries that an override
    /// brought up are dropped.
    pub fn render(&self, colours: ColourPalette, dictionaries: &mut DictionaryStore) -> (text:
        String)
        ensures
            text@ == self@.report(colours),
            final(dictionaries).lookups() == if self@.completed.len() > 0 {
                without_override(old(dictionaries).lookups(), self@.override_key)
            } else {
                old(dictionaries).lookups()
            },
            final(dictionaries).missed() == old(dictionaries).missed(),
    {
        let mut text = String::new();
        if self.footer_width > 0 {
            text.append("\r");
            push_repeated(&mut text, ' ', self.footer_width);
            text.append("\n");
        }
        assert(text@ =~= self@.covered_status());
        text.append(completed_orders(self, colours).as_str());
        text.append(open_orders(self, colours).as_str());
        let open: usize = self.open_count();
        let mut line = copy_of(colours.title);
        line.append("Order Summary");
        line.append(colours.reset);
        line.append(" (");
        push_decimal(&mut line, open as u64);
        line.append(" open, ");
        push_decimal(&mut line, self.total_orders as u64);
        line.append(" total, to fill: ");
        push_decimal(&mut line, open as u64);
        line.append("/");
        push_decimal(&mut line, self.total_orders as u64);
        line.append(")\n");
        line.append("\n");
        text.append(line.as_str());
        assert(self@.completed.len() == self.completed@.len());
        if self.completed.len() > 0 {
            self.clear_override_cache(dictionaries);
        }
        text
    }

    /// The orders that were completed since the last call, as text; afterwards they are
    /// forgotten. `None` where there are none.
    pub fn render_completed(
        &mut self,
        colours: ColourPalette,
        dictionaries: &mut DictionaryStore,
    ) -> (text: Option<String>)
        ensures
            old(self)@.completed.len() == 0 ==> text is None && final(self)@ == old(self)@
                && final(dictionaries).lookups() == old(dictionaries).lookups(),
            old(self)@.completed.len() > 0 ==> {
                &&& text matches Some(text) && text@ == old(self)@.completed_report(colours)
                &&& final(self)@ == (SummaryView { completed: seq![], ..old(self)@ })
                &&& final(dictionaries).lookups() == without_override(
                    old(dictionaries).lookups(),
                    old(self)@.override_key,
                )
            },
            final(dictionaries).missed() == old(dictionaries).missed(),
    {
        assert(self@.completed.len() == self.completed@.len());
        if self.completed.len() == 0 {
            return None;
        }
        let mut text = String::new();
        if self.footer_width > 0 {
            text.append("\r");
            push_repeated(&mut text, ' ', self.footer_width);
            text.append("\r");
        }
        text.append(completed_orders(self, colours).as_str());
        assert(text@ =~= self@.completed_report(colours));
        self.clear_override_cache(dictionaries);
        let ghost before = self@;
        self.completed = Vec::new();
        assert(self@ =~= (SummaryView { completed: seq![], ..before }));
        Some(text)
    }

    /// The status line, padded so that it covers the one before it.
    pub fn render_footer(&mut self) -> (text: String)
        ensures
            text@ == old(self)@.status_line(),
            final(self)@ == (SummaryView {
                footer_width: old(self)@.status_width() as usize,
                ..old(self)@
            }),
    {
        let mut line = copy_of("Status: open=");
        push_decimal(&mut line, self.open_count() as u64);
        line.append(" filled=");
        push_decimal(&mut line, self.terminal_orders as u64);
        line.append(" total=");
        push_decimal(&mut line, self.total_orders as u64);
        let shown: usize = visible_width(line.as_str());
        let width: usize = if shown > self.footer_width {
            shown
        } else {
            self.footer_width
        };
        let mut text = copy_of("\r");
        text.append(line.as_str());
        push_repeated(&mut text, ' ', width - shown);
        self.footer_width = width;
        text
    }
}

} // verus!
