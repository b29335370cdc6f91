//! What holds of the reports on orders and messages.
use crate::ansi::shown_width;
use crate::colours::ColourPalette;
use crate::counts::{
    bucket_at, bucket_part, count_line, count_lines, counts_text, listed_buckets, of_bucket, CountView,
    Counts,
};
use crate::decoded_laws::stands_in;
use crate::figure_laws::law_kinds_list_their_types;
use crate::message_groups::MessageBucket;
use crate::message_laws::{digits, law_numbers_are_written};
use crate::order_record::OrderView;
use crate::summary::SummaryView;
use crate::summary_output::{completed_text, open_text};
use crate::summary_render::{column_width, messages_text, record_text};
use crate::textmap::{ascending, lemma_ascending_unique, sorted};
use vstd::prelude::*;

verus! {

proof fn lemma_in_itself(part: Seq<char>)
    ensures
        stands_in(part, part),
{
    let n = part.len() as int;
    assert(part.subrange(0, 0 + n) =~= part);
}

proof fn lemma_in_first(part: Seq<char>, a: Seq<char>, b: Seq<char>)
    requires
        stands_in(part, a),
    ensures
        stands_in(part, a + b),
{
    let i = choose|i: int|
        0 <= i <= a.len() - part.len() && #[trigger] a.subrange(i, i + part.len()) == part;
    assert((a + b).subrange(i, i + part.len()) =~= a.subrange(i, i + part.len()));
}

proof fn lemma_in_second(part: Seq<char>, a: Seq<char>, b: Seq<char>)
    requires
        stands_in(part, b),
    ensures
        stands_in(part, a + b),
{
    let i = choose|i: int|
        0 <= i <= b.len() - part.len() && #[trigger] b.subrange(i, i + part.len()) == part;
    assert((a + b).subrange(a.len() + i, a.len() + i + part.len()) =~= b.subrange(
        i,
        i + part.len(),
    ));
}

proof fn lemma_at_the_end(before: Seq<char>, a: Seq<char>, b: Seq<char>)
    ensures
        stands_in(a, before + a + b),
        stands_in(b, before + a + b),
{
    lemma_in_itself(a);
    lemma_in_second(a, before, a);
    lemma_in_first(a, before + a, b);
    lemma_in_itself(b);
    lemma_in_second(b, before + a, b);
}

proof fn lemma_still_there(part: Seq<char>, before: Seq<char>, a: Seq<char>, b: Seq<char>)
    requires
        stands_in(part, before),
    ensures
        stands_in(part, before + a + b),
{
    lemma_in_first(part, before, a);
    lemma_in_first(part, before + a, b);
}

#[verifier::spinoff_prover]
#[verifier::rlimit(40)]
proof fn lemma_completed(orders: Seq<OrderView>, c: ColourPalette, i: int)
    requires
        0 <= i < orders.len(),
    ensures
        stands_in(record_text(orders[i], c), completed_text(orders, c)),
        stands_in(messages_text(orders[i], c), completed_text(orders, c)),
    decreases orders.len(),
{
    let shorter = orders.drop_last();
    let before = completed_text(shorter, c);
    let record = record_text(orders.last(), c);
    let messages = messages_text(orders.last(), c);
    if i < shorter.len() {
        lemma_completed(shorter, c, i);
        lemma_still_there(record_text(orders[i], c), before, record, messages);
        lemma_still_there(messages_text(orders[i], c), before, record, messages);
    } else {
        lemma_at_the_end(before, record, messages);
    }
}

proof fn lemma_open(
    orders: Map<Seq<char>, OrderView>,
    keys: Seq<Seq<char>>,
    c: ColourPalette,
    i: int,
)
    requires
        0 <= i < keys.len(),
    ensures
        stands_in(record_text(orders[keys[i]], c), open_text(orders, keys, c)),
    decreases keys.len(),
{
    let shorter = keys.drop_last();
    let before = open_text(orders, shorter, c);
    let record = record_text(orders[keys.last()], c);
    if i < shorter.len() {
        lemma_open(orders, shorter, c, i);
        assert(shorter[i] == keys[i]);
        lemma_in_first(record_text(orders[keys[i]], c), before, record);
    } else {
        lemma_in_itself(record);
        lemma_in_second(record, before, record);
    }
}

/// A report has all orders: those that are completed, with their messages, and those that are
/// open. `keys` are the keys of the open orders in their order.
pub proof fn law_reports_have_all_orders(
    v: SummaryView,
    c: ColourPalette,
    keys: Seq<Seq<char>>,
    i: int,
    key: Seq<char>,
)
    requires
        ascending(keys),
        keys.to_set() == v.orders.dom(),
    ensures
        0 <= i < v.completed.len() ==> stands_in(record_text(v.completed[i], c), v.report(c))
            && stands_in(messages_text(v.completed[i], c), v.report(c)) && stands_in(
            record_text(v.completed[i], c),
            v.completed_report(c),
        ),
        v.orders.contains_key(key) ==> stands_in(record_text(v.orders[key], c), v.report(c)),
{
    lemma_ascending_unique(keys, sorted(v.orders.dom()));
    let covered = v.covered_status();
    let done = completed_text(v.completed, c);
    let open = open_text(v.orders, keys, c);
    let count = v.count_line(c);
    if 0 <= i < v.completed.len() {
        lemma_completed(v.completed, c, i);
        let record = record_text(v.completed[i], c);
        let messages = messages_text(v.completed[i], c);
        lemma_in_second(record, covered, done);
        lemma_in_first(record, covered + done, open);
        lemma_in_first(record, covered + done + open, count);
        lemma_in_second(messages, covered, done);
        lemma_in_first(messages, covered + done, open);
        lemma_in_first(messages, covered + done + open, count);
        let other = if v.footer_width > 0 {
            "\r"@ + crate::text::repeated(' ', v.footer_width as nat) + "\r"@
        } else {
            seq![]
        };
        lemma_in_second(record, other, done);
    }
    if v.orders.contains_key(key) {
        assert(keys.to_set().contains(key));
        assert(keys.contains(key));
        let k = keys.index_of(key);
        assert(keys[k] == key);
        lemma_open(v.orders, keys, c, k);
        let record = record_text(v.orders[key], c);
        lemma_in_second(record, covered + done, open);
        lemma_in_first(record, covered + done + open, count);
    }
}

/// A number as it is written.
pub open spec fn in_digits(n: nat) -> Seq<char> {
    if n == 0 {
        seq!['0']
    } else {
        digits(n)
    }
}

/// The status names the orders that are open, those that came to their end, and all of them.
pub proof fn law_status_counts_the_orders(v: SummaryView)
    ensures
        v.status() == "Status: open="@ + in_digits(v.orders.dom().len()) + " filled="@ + in_digits(
            v.terminal as nat,
        ) + " total="@ + in_digits(v.total as nat),
        v.status_width() >= v.footer_width,
        v.status_width() >= shown_width(v.status()),
{
    law_numbers_are_written(v.orders.dom().len());
    law_numbers_are_written(v.terminal as nat);
    law_numbers_are_written(v.total as nat);
}

/// The messages of an order are listed once it has come to its end, and not before.
pub proof fn law_messages_follow_the_end(order: OrderView, c: ColourPalette)
    ensures
        !order.is_terminal() ==> messages_text(order, c).len() == 0,
        order.is_terminal() && order.messages.len() > 0 ==> stands_in(
            "Raw FIX messages:"@,
            messages_text(order, c),
        ),
{
    if order.is_terminal() && order.messages.len() > 0 {
        let title = "Raw FIX messages:"@;
        let head = "    "@ + c.tag@;
        let body = crate::summary_render::message_lines(
            order,
            crate::order_record::chronology(order.events),
            c,
        );
        lemma_in_itself(title);
        lemma_in_second(title, head, title);
        lemma_in_first(title, head + title, c.reset@);
        lemma_in_first(title, head + title + c.reset@, "\n"@);
        lemma_in_first(title, head + title + c.reset@ + "\n"@, body);
        lemma_in_first(title, head + title + c.reset@ + "\n"@ + body, "\n"@);
    }
}

/// A column has room for its title and for its value, and two places more.
pub proof fn law_columns_have_room(headers: Seq<Seq<char>>, values: Seq<Seq<char>>, i: int)
    requires
        0 <= i < 12,
        i < headers.len(),
        i < values.len(),
        shown_width(headers[i]) + 2 <= usize::MAX,
        shown_width(values[i]) + 2 <= usize::MAX,
    ensures
        column_width(headers, values, i) >= shown_width(headers[i]) + 2,
        column_width(headers, values, i) >= shown_width(values[i]) + 2,
{
}

proof fn lemma_line_stands(
    keys: Seq<Seq<char>>,
    counts: Counts,
    width: nat,
    business: bool,
    c: ColourPalette,
    i: int,
)
    requires
        0 <= i < keys.len(),
    ensures
        stands_in(
            count_line(keys[i], counts[keys[i]], width, business, c),
            count_lines(keys, counts, width, business, c),
        ),
    decreases keys.len(),
{
    let shorter = keys.drop_last();
    let before = count_lines(shorter, counts, width, business, c);
    let line = count_line(keys.last(), counts[keys.last()], width, business, c);
    if i < shorter.len() {
        lemma_line_stands(shorter, counts, width, business, c, i);
        assert(shorter[i] == keys[i]);
        lemma_in_first(count_line(keys[i], counts[keys[i]], width, business, c), before, line);
    } else {
        lemma_in_itself(line);
        lemma_in_second(line, before, line);
    }
}

/// The count, in six places or more, in the colour of values.
pub open spec fn count_cell(count: nat, c: ColourPalette) -> Seq<char> {
    let number = in_digits(count);
    c.value@ + Seq::new(
        (if number.len() < 6 {
            6 - number.len()
        } else {
            0
        }) as nat,
        |i: int| ' ',
    ) + number + c.reset@
}

/// The type of a message, in three places or more, in the colour of values.
pub open spec fn type_cell(msg_type: Seq<char>, c: ColourPalette) -> Seq<char> {
    c.value@ + msg_type + Seq::new(
        (if msg_type.len() < 3 {
            3 - msg_type.len()
        } else {
            0
        }) as nat,
        |i: int| ' ',
    ) + c.reset@
}

proof fn lemma_cells_stand(
    msg_type: Seq<char>,
    info: CountView,
    width: nat,
    business: bool,
    c: ColourPalette,
)
    ensures
        stands_in(
            count_cell(info.count as nat, c),
            count_line(msg_type, info, width, business, c),
        ),
        stands_in(type_cell(msg_type, c), count_line(msg_type, info, width, business, c)),
        info.label matches Some(label) ==> stands_in(
            label,
            count_line(msg_type, info, width, business, c),
        ),
{
    let n = info.count as nat;
    law_numbers_are_written(n);
    let indent = crate::counts::row_indent(business);
    let name = crate::counts::label_text(info, c);
    let label = crate::ansi::padded(name, width);
    let first = indent + c.value@ + crate::text::left_aligned(msg_type, 3) + c.reset@;
    let second = first + "   "@ + label + "   "@;
    let third = second + c.value@ + crate::text::right_aligned(crate::text::decimal(n), 6, ' ')
        + c.reset@;
    let whole = count_line(msg_type, info, width, business, c);
    assert(whole == third + "\n"@);
    let kind = type_cell(msg_type, c);
    assert(indent + kind =~= first);
    lemma_in_itself(kind);
    lemma_in_second(kind, indent, kind);
    lemma_in_first(kind, first, "   "@);
    lemma_in_first(kind, first + "   "@, label);
    lemma_in_first(kind, first + "   "@ + label, "   "@);
    let cell = count_cell(n, c);
    assert(second + cell =~= third);
    lemma_in_first(kind, second, cell);
    lemma_in_first(kind, third, "\n"@);
    lemma_in_itself(cell);
    lemma_in_second(cell, second, cell);
    lemma_in_first(cell, third, "\n"@);
    if let Some(text) = info.label {
        let open = c.reset@ + "("@ + c.enumeration@;
        lemma_in_itself(text);
        lemma_in_second(text, open, text);
        lemma_in_first(text, open + text, ")"@);
        lemma_in_first(text, open + text + ")"@, c.reset@);
        assert(label.take(name.len() as int) =~= name);
        assert(label =~= name + label.skip(name.len() as int));
        lemma_in_first(text, name, label.skip(name.len() as int));
        lemma_in_second(text, first + "   "@, label);
        lemma_in_first(text, first + "   "@ + label, "   "@);
        lemma_in_first(text, second, cell);
        lemma_in_first(text, third, "\n"@);
    }
}

proof fn lemma_listed(keys: Seq<Seq<char>>, counts: Counts, n: int, c: ColourPalette, k: int)
    requires
        0 <= k < keys.len(),
        0 < n <= 4,
        exists|b: int| 0 <= b < n && #[trigger] bucket_at(b) == counts[keys[k]].bucket,
    ensures
        exists|width: nat, business: bool|
            stands_in(
                #[trigger] count_line(keys[k], counts[keys[k]], width, business, c),
                listed_buckets(keys, counts, n, c).text,
            ),
    decreases n,
{
    let key = keys[k];
    let before = listed_buckets(keys, counts, n - 1, c);
    let bucket = bucket_at(n - 1);
    let members = of_bucket(keys, counts, bucket);
    let business = bucket != MessageBucket::SessionAdmin;
    law_kinds_list_their_types(keys, counts, bucket);
    let keep = |key: Seq<char>| counts[key].bucket == bucket;
    lemma_member(keys, keep, k);
    if bucket == counts[key].bucket {
        assert(members.contains(key));
        let i = members.index_of(key);
        assert(members[i] == key);
        let width = crate::counts::widest_label(members, counts, c);
        lemma_line_stands(members, counts, width, business, c, i);
        let line = count_line(key, counts[key], width, business, c);
        let lines = count_lines(members, counts, width, business, c);
        let heading = crate::counts::count_heading(bucket, width, business, c);
        lemma_in_second(line, heading, lines);
        let part = bucket_part(before.any, before.business, bucket, members, counts, c);
        let head = (if before.any {
            "\n"@
        } else {
            ""@
        }) + (if bucket != MessageBucket::SessionAdmin && !before.business {
            c.title@ + "Business:"@ + c.reset@ + "\n"@
        } else {
            ""@
        });
        assert(part == head + (heading + lines));
        lemma_in_second(line, head, heading + lines);
        lemma_in_second(line, before.text, part);
    } else {
        let b = choose|b: int| 0 <= b < n && #[trigger] bucket_at(b) == counts[key].bucket;
        assert(b < n - 1);
        lemma_listed(keys, counts, n - 1, c, k);
        let (width, kind) = choose|width: nat, business: bool|
            stands_in(
                #[trigger] count_line(key, counts[key], width, business, c),
                before.text,
            );
        if members.len() > 0 {
            lemma_in_first(
                count_line(key, counts[key], width, kind, c),
                before.text,
                bucket_part(before.any, before.business, bucket, members, counts, c),
            );
        }
    }
}

proof fn lemma_member(keys: Seq<Seq<char>>, keep: spec_fn(Seq<char>) -> bool, k: int)
    requires
        0 <= k < keys.len(),
    ensures
        keep(keys[k]) ==> keys.filter(keep).contains(keys[k]),
    decreases keys.len(),
{
    reveal(Seq::filter);
    let shorter = keys.drop_last();
    if keep(keys[k]) {
        if k < shorter.len() {
            lemma_member(shorter, keep, k);
            assert(shorter[k] == keys[k]);
            let i = shorter.filter(keep).index_of(keys[k]);
            assert(keys.filter(keep)[i] == keys[k]);
        } else {
            let all = keys.filter(keep);
            assert(all[all.len() - 1] == keys[k]);
        }
    }
}

/// Every type of message that was counted is listed, with its name and its count. `keys` are
/// the types in their order.
pub proof fn law_counts_are_listed(
    counts: Counts,
    keys: Seq<Seq<char>>,
    msg_type: Seq<char>,
    c: ColourPalette,
)
    requires
        ascending(keys),
        keys.to_set() == counts.dom(),
        counts.contains_key(msg_type),
    ensures
        exists|line: Seq<char>|
            {
                &&& #[trigger] stands_in(line, counts_text(counts, c))
                &&& stands_in(count_cell(counts[msg_type].count as nat, c), line)
                &&& stands_in(type_cell(msg_type, c), line)
                &&& counts[msg_type].label matches Some(label) ==> stands_in(label, line)
            },
{
    lemma_ascending_unique(keys, sorted(counts.dom()));
    assert(keys.to_set().contains(msg_type));
    assert(keys.contains(msg_type));
    let k = keys.index_of(msg_type);
    assert(keys[k] == msg_type);
    let bucket = counts[msg_type].bucket;
    assert(bucket_at(0) == MessageBucket::SessionAdmin && bucket_at(1) == MessageBucket::OrderFlow
        && bucket_at(2) == MessageBucket::MarketData && bucket_at(3)
        == MessageBucket::BusinessOther);
    assert(exists|b: int| 0 <= b < 4 && #[trigger] bucket_at(b) == bucket);
    lemma_listed(keys, counts, 4, c, k);
    let listed = listed_buckets(keys, counts, 4, c).text;
    let (width, business) = choose|width: nat, business: bool|
        stands_in(#[trigger] count_line(msg_type, counts[msg_type], width, business, c), listed);
    let line = count_line(msg_type, counts[msg_type], width, business, c);
    lemma_cells_stand(msg_type, counts[msg_type], width, business, c);
    let head = c.title@ + "Message Counts:"@ + c.reset@ + "\n"@;
    lemma_in_second(line, head, listed);
    assert(counts_text(counts, c) == head + listed);
}

} // verus!
