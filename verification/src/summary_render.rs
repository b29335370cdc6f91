//! Orders as text: headline, table of values, timeline and messages.
use crate::ansi::{capped, pad_ansi, padded, plus, shown_width, visible_width};
use crate::colours::ColourPalette;
use crate::dictionaries::opt_str;
use crate::order_labels::{
    date_diff_days, exec_ack_name, exec_type_name, label_exec_ack_status, label_exec_type,
    label_ord_status, ord_status_name, preferred_settl_date, side_label, side_name, tenor_days,
};
use crate::order_record::{
    borrowed, chronology, dash, or_dash, EventView, OrderEvent, OrderRecord, OrderView,
};
use crate::text::{
    copy_of, decimal, join, join_texts, joined, push_decimal, same, text_view, texts, to_upper, uppered,
};
use vstd::prelude::*;

verus! {

broadcast use vstd::seq_lib::group_seq_properties;

/// A text between a colour and its end.
pub open spec fn in_colour(colour: Seq<char>, text: Seq<char>, c: ColourPalette) -> Seq<char> {
    colour + text + c.reset@
}

fn coloured(colour: &str, text: &str, colours: ColourPalette) -> (shown: String)
    ensures
        shown@ == in_colour(colour@, text@, colours),
{
    let mut shown = copy_of(colour);
    shown.append(text);
    shown.append(colours.reset);
    shown
}

/// The states of an order in a row; one that is not known is left out at the start.
pub open spec fn flow(path: Seq<Seq<char>>) -> Seq<char> {
    if path.len() == 0 {
        "Unknown"@
    } else if path.len() > 1 && path[0] == "Unknown"@ {
        join(path.skip(1), " -> "@)
    } else {
        join(path, " -> "@)
    }
}

/// The states of an order in a row; one that is not known is left out at the start.
pub fn flow_label(states: &Vec<String>) -> (text: String)
    ensures
        text@ == flow(texts(states@)),
{
    if states.len() == 0 {
        return copy_of("Unknown");
    }
    assert(texts(states@)[0] == states@[0]@);
    if states.len() > 1 && same(states[0].as_str(), "Unknown") {
        let mut rest: Vec<String> = Vec::new();
        let mut i: usize = 1;
        assert(texts(rest@) =~= texts(states@).subrange(1, 1));
        while i < states.len()
            invariant
                1 <= i <= states@.len(),
                texts(rest@) == texts(states@).subrange(1, i as int),
            decreases states@.len() - i,
        {
            assert(texts(states@)[i as int] == states@[i as int]@);
            let ghost before = texts(rest@);
            rest.push(copy_of(states[i].as_str()));
            i += 1;
            assert(texts(rest@) =~= before.push(texts(states@)[i - 1]));
            assert(texts(rest@) =~= texts(states@).subrange(1, i as int));
        }
        assert(texts(rest@) =~= texts(states@).skip(1));
        return join_texts(&rest, " -> ");
    }
    join_texts(states, " -> ")
}

/// The headline of an order.
pub open spec fn record_header(order: OrderView, c: ColourPalette) -> Seq<char> {
    "  "@ + c.file@ + order.shown_id() + c.reset@ + " ["@ + c.name@ + flow(order.path())
        + c.reset@ + "] "@ + in_colour(c.value@, order.shown_instrument(), c) + "\n"@
}

/// The headline of an order: identifier, states, side and symbol.
pub fn render_record_header(record: &OrderRecord, colours: ColourPalette) -> (text: String)
    ensures
        text@ == record_header(record@, colours),
{
    let mut text = copy_of("  ");
    text.append(colours.file);
    text.append(record.display_id().as_str());
    text.append(colours.reset);
    text.append(" [");
    text.append(colours.name);
    text.append(flow_label(&record.state_path()).as_str());
    text.append(colours.reset);
    text.append("] ");
    text.append(coloured(colours.value, record.display_instrument().as_str(), colours).as_str());
    text.append("\n");
    text
}

/// A price, with its currency where it is known.
pub open spec fn price_text(
    price: Option<Seq<char>>,
    currency: Option<Seq<char>>,
    c: ColourPalette,
) -> Seq<char> {
    match price {
        None => in_colour(c.value@, "-"@, c),
        Some(price) => match currency {
            Some(currency) => c.value@ + price + c.reset@ + " ("@ + c.enumeration@ + currency
                + c.reset@ + ")"@,
            None => in_colour(c.value@, price, c),
        },
    }
}

/// A price, with its currency where it is known.
pub fn format_price(colours: ColourPalette, price: Option<&str>, currency: Option<&str>) -> (text:
    String)
    ensures
        text@ == price_text(opt_str(price), opt_str(currency), colours),
{
    match price {
        None => coloured(colours.value, "-", colours),
        Some(price) => match currency {
            Some(currency) => {
                let mut text = copy_of(colours.value);
                text.append(price);
                text.append(colours.reset);
                text.append(" (");
                text.append(colours.enumeration);
                text.append(currency);
                text.append(colours.reset);
                text.append(")");
                text
            },
            None => coloured(colours.value, price, colours),
        },
    }
}

/// The name of a number of days to settlement.
pub open spec fn tenor_name(days: int) -> Seq<char> {
    if days == 0 {
        "TOD"@
    } else if days == 1 {
        "TOM"@
    } else if days == 2 {
        "SPOT"@
    } else {
        "FWD"@
    }
}

/// A number in decimal, with its sign where it is below zero.
pub open spec fn signed_decimal(n: int) -> Seq<char> {
    if n < 0 {
        "-"@ + decimal((-n) as nat)
    } else {
        decimal(n as nat)
    }
}

fn push_signed_decimal(text: &mut String, n: i64)
    ensures
        final(text)@ == old(text)@ + signed_decimal(n as int),
{
    let ghost before = text@;
    if n < 0 {
        text.append("-");
        push_decimal(text, (-(n + 1)) as u64 + 1);
        assert(text@ =~= before + signed_decimal(n as int));
    } else {
        push_decimal(text, n as u64);
    }
}

/// The days to settlement.
pub open spec fn tenor_text(days: Option<int>, c: ColourPalette) -> Seq<char> {
    match days {
        None => in_colour(c.value@, "-"@, c),
        Some(days) => c.value@ + "T+"@ + signed_decimal(days) + c.reset@ + " ("@ + c.enumeration@
            + tenor_name(days) + c.reset@ + ")"@,
    }
}

/// The days to settlement, with their name.
pub fn format_tenor(colours: ColourPalette, diff: Option<i64>) -> (text: String)
    ensures
        text@ == tenor_text(
            match diff {
                Some(days) => Some(days as int),
                None => None,
            },
            colours,
        ),
{
    let days: i64 = match diff {
        Some(days) => days,
        None => {
            return coloured(colours.value, "-", colours);
        },
    };
    let mut text = copy_of(colours.value);
    text.append("T+");
    push_signed_decimal(&mut text, days);
    text.append(colours.reset);
    text.append(" (");
    text.append(colours.enumeration);
    text.append(
        if days == 0 {
            "TOD"
        } else if days == 1 {
            "TOM"
        } else if days == 2 {
            "SPOT"
        } else {
            "FWD"
        },
    );
    text.append(colours.reset);
    text.append(")");
    text
}

/// A name, or another one.
pub open spec fn or_name(name: Option<Seq<char>>, other: Seq<char>) -> Seq<char> {
    match name {
        Some(name) => name,
        None => other,
    }
}

fn name_or(name: &Option<String>, other: &str) -> (text: String)
    ensures
        text@ == or_name(text_view(*name), other@),
{
    match name {
        Some(name) => copy_of(name.as_str()),
        None => copy_of(other),
    }
}

/// The settlement date in use.
pub open spec fn value_date(order: OrderView) -> Option<Seq<char>> {
    if order.settl_date2 is Some {
        order.settl_date2
    } else {
        order.settl_date
    }
}

/// The title of the settlement date.
pub open spec fn settlement_title(order: OrderView) -> Seq<char> {
    if order.settl_date2 is Some {
        or_name(order.settl_date2_name, "SettlDate2"@)
    } else if order.settl_date is Some {
        or_name(order.settl_date_name, "SettlDate"@)
    } else if order.settl_date2_name is Some {
        or_name(order.settl_date2_name, "ValueDate"@)
    } else {
        or_name(order.settl_date_name, "ValueDate"@)
    }
}

fn settlement_header(record: &OrderRecord) -> (text: String)
    ensures
        text@ == settlement_title(record@),
{
    if record.settl_date2.is_some() {
        name_or(&record.settl_date2_name, "SettlDate2")
    } else if record.settl_date.is_some() {
        name_or(&record.settl_date_name, "SettlDate")
    } else if record.settl_date2_name.is_some() {
        name_or(&record.settl_date2_name, "ValueDate")
    } else {
        name_or(&record.settl_date_name, "ValueDate")
    }
}

/// The titles of an order's values.
pub open spec fn summary_headers(order: OrderView) -> Seq<Seq<char>> {
    let first = seq![
        "Side"@,
        "Symbol"@,
        or_name(order.order_qty_name, "qty"@),
        "Price"@,
        or_name(order.trade_date_name, "TradeDate"@),
        "Tenor"@,
        or_name(order.tif_name, "TimeInForce"@),
        or_name(order.ord_type_name, "OrdType"@),
    ];
    let block = if order.bn_seen {
        seq![or_name(order.spot_rate_name, "SpotPrice"@), "ExecAmt"@]
    } else {
        seq![]
    };
    (first + block).push(settlement_title(order))
}

/// The values of an order.
pub open spec fn summary_values(order: OrderView, c: ColourPalette) -> Seq<Seq<char>> {
    let side = match order.side {
        Some(code) => Some(uppered(side_name(code))),
        None => None,
    };
    let first = seq![
        in_colour(c.enumeration@, or_dash(side), c),
        in_colour(c.value@, or_dash(order.symbol), c),
        in_colour(c.value@, or_dash(order.qty), c),
        price_text(order.price, order.currency, c),
        in_colour(c.value@, or_dash(order.trade_date), c),
        tenor_text(
            match tenor_days(order.trade_date, value_date(order)) {
                Some(days) => Some(days as int),
                None => None,
            },
            c,
        ),
        in_colour(c.enumeration@, or_dash(order.tif_desc), c),
        in_colour(c.enumeration@, or_dash(order.ord_type_desc), c),
    ];
    let block = if order.bn_seen {
        seq![
            in_colour(c.value@, or_dash(order.spot_rate), c),
            in_colour(c.value@, or_dash(order.bn_exec_amt), c),
        ]
    } else {
        seq![]
    };
    (first + block).push(in_colour(c.value@, or_dash(value_date(order)), c))
}

fn build_summary_headers(record: &OrderRecord) -> (headers: Vec<String>)
    ensures
        texts(headers@) == summary_headers(record@),
{
    let mut headers: Vec<String> = Vec::new();
    headers.push(copy_of("Side"));
    headers.push(copy_of("Symbol"));
    headers.push(name_or(&record.order_qty_name, "qty"));
    headers.push(copy_of("Price"));
    headers.push(name_or(&record.trade_date_name, "TradeDate"));
    headers.push(copy_of("Tenor"));
    headers.push(name_or(&record.tif_name, "TimeInForce"));
    headers.push(name_or(&record.ord_type_name, "OrdType"));
    if record.bn_seen {
        headers.push(name_or(&record.spot_rate_name, "SpotPrice"));
        headers.push(copy_of("ExecAmt"));
    }
    headers.push(settlement_header(record));
    assert(texts(headers@) =~= summary_headers(record@));
    headers
}

fn build_summary_values(record: &OrderRecord, colours: ColourPalette) -> (values: Vec<String>)
    ensures
        texts(values@) == summary_values(record@, colours),
{
    let date = preferred_settl_date(borrowed(&record.settl_date), borrowed(&record.settl_date2));
    assert(opt_str(date) == value_date(record@));
    let diff = date_diff_days(borrowed(&record.trade_date), date);
    let side: Option<String> = match &record.side {
        Some(code) => Some(to_upper(side_label(code.as_str()))),
        None => None,
    };
    let mut values: Vec<String> = Vec::new();
    values.push(coloured(colours.enumeration, dash(&side), colours));
    values.push(coloured(colours.value, dash(&record.symbol), colours));
    values.push(coloured(colours.value, dash(&record.qty), colours));
    values.push(format_price(colours, borrowed(&record.price), borrowed(&record.currency)));
    values.push(coloured(colours.value, dash(&record.trade_date), colours));
    values.push(format_tenor(colours, diff));
    values.push(coloured(colours.enumeration, dash(&record.tif_desc), colours));
    values.push(coloured(colours.enumeration, dash(&record.ord_type_desc), colours));
    if record.bn_seen {
        values.push(coloured(colours.value, dash(&record.spot_rate), colours));
        values.push(coloured(colours.value, dash(&record.bn_exec_amt), colours));
    }
    let shown_date = match date {
        Some(date) => date,
        None => "-",
    };
    values.push(coloured(colours.value, shown_date, colours));
    assert(texts(values@) =~= summary_values(record@, colours));
    values
}

/// The titles and the values of an order.
pub fn build_summary_row(record: &OrderRecord, colours: ColourPalette) -> (row: (
    Vec<String>,
    Vec<String>,
))
    ensures
        texts(row.0@) == summary_headers(record@),
        texts(row.1@) == summary_values(record@, colours),
{
    (build_summary_headers(record), build_summary_values(record, colours))
}

/// How wide a column of the table is at least.
pub open spec fn least_width(i: int) -> int {
    if i == 0 {
        8
    } else if i == 1 {
        16
    } else if i == 2 || i == 3 {
        14
    } else if i == 4 || i == 8 || i == 9 || i == 10 {
        12
    } else if i == 6 {
        18
    } else if i == 7 {
        16
    } else {
        10
    }
}

/// How wide a column of the table is: two more than its value and its title. Only the first
/// twelve columns are fitted.
pub open spec fn column_width(
    headers: Seq<Seq<char>>,
    values: Seq<Seq<char>>,
    i: int,
) -> int {
    let least = least_width(i);
    if i >= 12 || i >= values.len() {
        least
    } else {
        let value = capped(shown_width(values[i]) + 2int);
        let fitted = if value > least {
            value
        } else {
            least
        };
        if i < headers.len() && capped(shown_width(headers[i]) + 2int) > fitted {
            capped(shown_width(headers[i]) + 2int)
        } else {
            fitted
        }
    }
}

/// The first `n` titles.
pub open spec fn title_cells(
    headers: Seq<Seq<char>>,
    values: Seq<Seq<char>>,
    n: int,
    c: ColourPalette,
) -> Seq<char>
    decreases n,
{
    if n <= 0 || n > headers.len() {
        seq![]
    } else {
        title_cells(headers, values, n - 1, c) + padded(
            in_colour(c.name@, headers[n - 1], c),
            column_width(headers, values, n - 1) as nat,
        ) + " "@
    }
}

/// The first `n` values.
pub open spec fn value_cells(headers: Seq<Seq<char>>, values: Seq<Seq<char>>, n: int) -> Seq<char>
    decreases n,
{
    if n <= 0 || n > values.len() {
        seq![]
    } else {
        value_cells(headers, values, n - 1) + padded(
            values[n - 1],
            column_width(headers, values, n - 1) as nat,
        ) + " "@
    }
}

/// A line of titles over a line of values.
pub open spec fn table_text(
    headers: Seq<Seq<char>>,
    values: Seq<Seq<char>>,
    c: ColourPalette,
) -> Seq<char> {
    "    "@ + title_cells(headers, values, headers.len() as int, c) + "\n"@ + "    "@ + value_cells(
        headers,
        values,
        values.len() as int,
    ) + "\n"@
}

fn fitted_width(headers: &Vec<String>, values: &Vec<String>, i: usize) -> (width: usize)
    ensures
        width == column_width(texts(headers@), texts(values@), i as int),
{
    let least: usize = if i == 0 {
        8
    } else if i == 1 {
        16
    } else if i == 2 || i == 3 {
        14
    } else if i == 4 || i == 8 || i == 9 || i == 10 {
        12
    } else if i == 6 {
        18
    } else if i == 7 {
        16
    } else {
        10
    };
    if i >= 12 || i >= values.len() {
        return least;
    }
    assert(texts(values@)[i as int] == values@[i as int]@);
    let value: usize = plus(visible_width(values[i].as_str()), 2);
    let mut width: usize = if value > least {
        value
    } else {
        least
    };
    if i < headers.len() {
        assert(texts(headers@)[i as int] == headers@[i as int]@);
        let title: usize = plus(visible_width(headers[i].as_str()), 2);
        if title > width {
            width = title;
        }
    }
    width
}

/// A line of titles over a line of values.
pub fn render_table_row(headers: &Vec<String>, values: &Vec<String>, colours: ColourPalette) -> (
    text: String)
    ensures
        text@ == table_text(texts(headers@), texts(values@), colours),
{
    let ghost h = texts(headers@);
    let ghost v = texts(values@);
    let mut titles = String::new();
    let mut i: usize = 0;
    while i < headers.len()
        invariant
            i <= headers@.len(),
            h == texts(headers@),
            v == texts(values@),
            titles@ == title_cells(h, v, i as int, colours),
        decreases headers@.len() - i,
    {
        assert(h[i as int] == headers@[i as int]@);
        let width: usize = fitted_width(headers, values, i);
        let title = coloured(colours.name, headers[i].as_str(), colours);
        titles.append(pad_ansi(title.as_str(), width).as_str());
        titles.append(" ");
        i += 1;
    }
    let mut cells = String::new();
    let mut k: usize = 0;
    while k < values.len()
        invariant
            k <= values@.len(),
            h == texts(headers@),
            v == texts(values@),
            cells@ == value_cells(h, v, k as int),
        decreases values@.len() - k,
    {
        assert(v[k as int] == values@[k as int]@);
        let width: usize = fitted_width(headers, values, k);
        cells.append(pad_ansi(values[k].as_str(), width).as_str());
        cells.append(" ");
        k += 1;
    }
    let mut text = copy_of("    ");
    text.append(titles.as_str());
    text.append("\n");
    text.append("    ");
    text.append(cells.as_str());
    text.append("\n");
    text
}

/// A label where there is one, or the code.
pub open spec fn label_or_code(
    label: Seq<char>,
    code: Option<Seq<char>>,
    c: ColourPalette,
) -> Seq<char> {
    if label != "Unknown"@ {
        in_colour(c.enumeration@, label, c)
    } else {
        in_colour(c.error@, or_dash(code), c)
    }
}

/// A label where there is one, or the code.
pub fn colour_label_code(colours: ColourPalette, label: &str, code: Option<&str>) -> (text: String)
    ensures
        text@ == label_or_code(label@, opt_str(code), colours),
{
    if !same(label, "Unknown") {
        return coloured(colours.enumeration, label, colours);
    }
    match code {
        Some(code) => coloured(colours.error, code, colours),
        None => coloured(colours.error, "-", colours),
    }
}

/// The kind of message that an event comes from.
pub open spec fn message_kind(event: EventView, c: ColourPalette) -> Seq<char> {
    match event.msg_type_desc {
        Some(desc) => in_colour(c.enumeration@, desc, c),
        None => in_colour(c.error@, or_dash(event.msg_type), c),
    }
}

/// An event's message, with the client order identifiers that it carries.
pub open spec fn message_cell(event: EventView, c: ColourPalette) -> Seq<char> {
    let base = message_kind(event, c);
    let ids = match (event.cl_ord_id, event.orig_cl_ord_id) {
        (Some(id), Some(orig)) => Some(
            in_colour(c.value@, id, c) + c.reset@ + ","@ + c.reset@ + in_colour(c.value@, orig, c),
        ),
        (Some(id), None) => Some(in_colour(c.value@, id, c)),
        (None, Some(orig)) => Some(in_colour(c.value@, orig, c)),
        (None, None) => None,
    };
    match ids {
        None => base,
        Some(ids) => base + " ["@ + c.reset@ + ids + c.reset@ + "]"@,
    }
}

/// An event's message, with the client order identifiers that it carries.
pub fn format_msg_cell(colours: ColourPalette, ev: &OrderEvent) -> (text: String)
    ensures
        text@ == message_cell(ev@, colours),
{
    let mut text = match &ev.msg_type_desc {
        Some(desc) => coloured(colours.enumeration, desc.as_str(), colours),
        None => coloured(colours.error, dash(&ev.msg_type), colours),
    };
    let ids: String = match (&ev.cl_ord_id, &ev.orig_cl_ord_id) {
        (Some(id), Some(orig)) => {
            let mut ids = coloured(colours.value, id.as_str(), colours);
            ids.append(colours.reset);
            ids.append(",");
            ids.append(colours.reset);
            ids.append(coloured(colours.value, orig.as_str(), colours).as_str());
            ids
        },
        (Some(id), None) => coloured(colours.value, id.as_str(), colours),
        (None, Some(orig)) => coloured(colours.value, orig.as_str(), colours),
        (None, None) => {
            return text;
        },
    };
    text.append(" [");
    text.append(colours.reset);
    text.append(ids.as_str());
    text.append(colours.reset);
    text.append("]");
    text
}

/// How wide the message column is: as its widest cell, and no less than 42.
pub open spec fn message_width(events: Seq<EventView>, c: ColourPalette) -> nat
    decreases events.len(),
{
    if events.len() == 0 {
        42
    } else {
        let rest = message_width(events.drop_last(), c);
        let last = shown_width(message_cell(events.last(), c));
        if last > rest {
            last
        } else {
            rest
        }
    }
}

/// The titles of the timeline and their widths.
pub open spec fn timeline_headers(block: bool, width: nat) -> Seq<(Seq<char>, nat)> {
    let first = seq![("time"@, 22nat), ("msg"@, width)];
    let ack = if block {
        seq![("ExecAckStatus"@, 18nat)]
    } else {
        seq![]
    };
    first + ack + seq![
        ("ExecType"@, 18nat),
        ("OrdStatus"@, 18nat),
        ("cum/leaves"@, 18nat),
        ("last@price"@, 18nat),
        ("avgPx"@, 10nat),
        ("text"@, 6nat),
    ]
}

pub open spec fn header_views(headers: Seq<(&'static str, usize)>) -> Seq<(Seq<char>, nat)> {
    headers.map_values(|h: (&'static str, usize)| (h.0@, h.1 as nat))
}

/// The titles of the timeline and their widths.
pub fn build_timeline_headers(record: &OrderRecord, msg_width: usize) -> (headers: Vec<
    (&'static str, usize),
>)
    ensures
        header_views(headers@) == timeline_headers(record@.bn_seen, msg_width as nat),
{
    let mut headers: Vec<(&'static str, usize)> = Vec::new();
    headers.push(("time", 22));
    headers.push(("msg", msg_width));
    if record.bn_seen {
        headers.push(("ExecAckStatus", 18));
    }
    headers.push(("ExecType", 18));
    headers.push(("OrdStatus", 18));
    headers.push(("cum/leaves", 18));
    headers.push(("last@price", 18));
    headers.push(("avgPx", 10));
    headers.push(("text", 6));
    assert(header_views(headers@) =~= timeline_headers(record@.bn_seen, msg_width as nat));
    headers
}

/// Titles in a row.
pub open spec fn header_cells(headers: Seq<(Seq<char>, nat)>, c: ColourPalette) -> Seq<char>
    decreases headers.len(),
{
    if headers.len() == 0 {
        seq![]
    } else {
        header_cells(headers.drop_last(), c) + padded(
            in_colour(c.name@, headers.last().0, c),
            headers.last().1,
        ) + " "@
    }
}

/// The line of titles.
pub fn render_timeline_headers(headers: &Vec<(&'static str, usize)>, colours: ColourPalette) -> (
    text: String)
    ensures
        text@ == "      "@ + header_cells(header_views(headers@), colours) + "\n"@,
{
    let ghost all = header_views(headers@);
    let mut cells = String::new();
    let mut i: usize = 0;
    assert(all.take(0) =~= seq![]);
    while i < headers.len()
        invariant
            i <= headers@.len(),
            all == header_views(headers@),
            cells@ == header_cells(all.take(i as int), colours),
        decreases headers@.len() - i,
    {
        assert(all[i as int] == (headers@[i as int].0@, headers@[i as int].1 as nat));
        assert(all.take(i + 1).drop_last() =~= all.take(i as int));
        let title = coloured(colours.name, headers[i].0, colours);
        cells.append(pad_ansi(title.as_str(), headers[i].1).as_str());
        cells.append(" ");
        i += 1;
    }
    assert(all.take(i as int) =~= all);
    let mut text = copy_of("      ");
    text.append(cells.as_str());
    text.append("\n");
    text
}

/// A free text, or a dash.
pub open spec fn note_cell(text: Option<Seq<char>>, c: ColourPalette) -> Seq<char> {
    match text {
        Some(text) => if text.len() == 0 {
            in_colour(c.name@, "-"@, c)
        } else {
            in_colour(c.name@, text, c)
        },
        None => in_colour(c.name@, "-"@, c),
    }
}

/// The free text of an event and, behind it, why its message is not valid.
pub open spec fn remark_cell(event: EventView, c: ColourPalette) -> Seq<char> {
    match event.fault {
        Some(fault) => note_cell(event.text, c) + " | "@ + in_colour(
            c.error@,
            "Invalid: "@ + fault,
            c,
        ),
        None => note_cell(event.text, c),
    }
}

/// Two values around a mark.
pub open spec fn value_pair(
    a: Option<Seq<char>>,
    mark: Seq<char>,
    b: Option<Seq<char>>,
    c: ColourPalette,
) -> Seq<char> {
    c.value@ + or_dash(a) + mark + or_dash(b) + c.reset@
}

/// The cells of an event whose message cell is given.
pub open spec fn timeline_cells(
    block: bool,
    event: EventView,
    cell: Seq<char>,
    width: nat,
    c: ColourPalette,
) -> Seq<Seq<char>> {
    let first = seq![
        padded(in_colour(c.value@, or_dash(event.time), c), 22),
        padded(cell, width),
    ];
    let ack = if block {
        seq![
            padded(
                label_or_code(exec_ack_name(event.exec_ack_status), event.exec_ack_status, c),
                18,
            ),
        ]
    } else {
        seq![]
    };
    first + ack + seq![
        padded(label_or_code(exec_type_name(event.exec_type), event.exec_type, c), 18),
        padded(label_or_code(ord_status_name(event.ord_status), event.ord_status, c), 18),
        padded(value_pair(event.cum_qty, "/"@, event.leaves_qty, c), 18),
        padded(value_pair(event.last_qty, "@"@, event.last_px, c), 18),
        padded(in_colour(c.value@, or_dash(event.avg_px), c), 10),
        padded(remark_cell(event, c), 0),
    ]
}

fn pair_text(a: &Option<String>, mark: &str, b: &Option<String>, colours: ColourPalette) -> (text:
    String)
    ensures
        text@ == value_pair(text_view(*a), mark@, text_view(*b), colours),
{
    let mut text = copy_of(colours.value);
    text.append(dash(a));
    text.append(mark);
    text.append(dash(b));
    text.append(colours.reset);
    text
}

/// A free text, or a dash.
pub fn colour_text(colours: ColourPalette, value: Option<&str>) -> (text: String)
    ensures
        text@ == note_cell(opt_str(value), colours),
{
    match value {
        Some(value) => if value.unicode_len() == 0 {
            coloured(colours.name, "-", colours)
        } else {
            coloured(colours.name, value, colours)
        },
        None => coloured(colours.name, "-", colours),
    }
}

fn remark_text(event: &OrderEvent, colours: ColourPalette) -> (text: String)
    ensures
        text@ == remark_cell(event@, colours),
{
    let mut text = colour_text(colours, borrowed(&event.text));
    if let Some(fault) = &event.fault {
        let reason = joined("Invalid: ", fault.as_str());
        text.append(" | ");
        text.append(coloured(colours.error, reason.as_str(), colours).as_str());
    }
    text
}

/// The cells of an event whose message cell is given.
pub fn build_timeline_cells(
    record: &OrderRecord,
    event: &OrderEvent,
    msg_cell: &str,
    msg_width: usize,
    colours: ColourPalette,
) -> (cells: Vec<String>)
    ensures
        texts(cells@) == timeline_cells(
            record@.bn_seen,
            event@,
            msg_cell@,
            msg_width as nat,
            colours,
        ),
{
    let exec_code = borrowed(&event.exec_type);
    let ord_code = borrowed(&event.ord_status);
    let ack_code = borrowed(&event.exec_ack_status);
    let time = coloured(colours.value, dash(&event.time), colours);
    let exec = colour_label_code(colours, label_exec_type(exec_code), exec_code);
    let ord = colour_label_code(colours, label_ord_status(ord_code), ord_code);
    let ack = colour_label_code(colours, label_exec_ack_status(ack_code), ack_code);
    let cum = pair_text(&event.cum_qty, "/", &event.leaves_qty, colours);
    let last = pair_text(&event.last_qty, "@", &event.last_px, colours);
    let average = coloured(colours.value, dash(&event.avg_px), colours);
    let note = remark_text(event, colours);
    let mut cells: Vec<String> = Vec::new();
    cells.push(pad_ansi(time.as_str(), 22));
    cells.push(pad_ansi(msg_cell, msg_width));
    if record.bn_seen {
        cells.push(pad_ansi(ack.as_str(), 18));
    }
    cells.push(pad_ansi(exec.as_str(), 18));
    cells.push(pad_ansi(ord.as_str(), 18));
    cells.push(pad_ansi(cum.as_str(), 18));
    cells.push(pad_ansi(last.as_str(), 18));
    cells.push(pad_ansi(average.as_str(), 10));
    cells.push(pad_ansi(note.as_str(), 0));
    assert(texts(cells@) =~= timeline_cells(
        record@.bn_seen,
        event@,
        msg_cell@,
        msg_width as nat,
        colours,
    ));
    cells
}

/// A line for each event.
pub open spec fn timeline_lines(
    block: bool,
    events: Seq<EventView>,
    width: nat,
    c: ColourPalette,
) -> Seq<char>
    decreases events.len(),
{
    if events.len() == 0 {
        seq![]
    } else {
        timeline_lines(block, events.drop_last(), width, c) + ("      "@ + c.line@ + join(
            timeline_cells(block, events.last(), message_cell(events.last(), c), width, c),
            " "@,
        ) + "\n"@)
    }
}

/// The timeline of an order.
pub open spec fn timeline(order: OrderView, c: ColourPalette) -> Seq<char> {
    let width = message_width(order.ordered_events(), c);
    "    "@ + c.tag@ + "Timeline:"@ + c.reset@ + "\n"@ + ("      "@ + header_cells(
        timeline_headers(order.bn_seen, width),
        c,
    ) + "\n"@) + timeline_lines(order.bn_seen, order.ordered_events(), width, c)
}

fn widest_message(record: &OrderRecord, colours: ColourPalette) -> (width: usize)
    ensures
        width == message_width(record@.ordered_events(), colours),
{
    let positions = record.chronology();
    let ghost all = record@.ordered_events();
    let mut width: usize = 42;
    let mut i: usize = 0;
    assert(all.take(0) =~= seq![]);
    while i < positions.len()
        invariant
            i <= positions@.len(),
            positions@ == chronology(record@.events),
            forall|j: int|
                0 <= j < positions@.len() ==> (#[trigger] positions@[j]) < record.events@.len(),
            all == record@.ordered_events(),
            all.len() == positions@.len(),
            width == message_width(all.take(i as int), colours),
        decreases positions@.len() - i,
    {
        let event = &record.events[positions[i]];
        assert(all[i as int] == event@);
        assert(all.take(i + 1).drop_last() =~= all.take(i as int));
        let cell = format_msg_cell(colours, event);
        let shown: usize = visible_width(cell.as_str());
        if shown > width {
            width = shown;
        }
        i += 1;
    }
    assert(all.take(i as int) =~= all);
    width
}

/// The timeline of an order.
pub fn render_timeline(record: &OrderRecord, colours: ColourPalette) -> (text: String)
    ensures
        text@ == timeline(record@, colours),
{
    let width: usize = widest_message(record, colours);
    let headers = build_timeline_headers(record, width);
    let positions = record.chronology();
    let ghost all = record@.ordered_events();
    let ghost block = record@.bn_seen;
    let mut lines = String::new();
    let mut i: usize = 0;
    assert(all.take(0) =~= seq![]);
    while i < positions.len()
        invariant
            i <= positions@.len(),
            positions@ == chronology(record@.events),
            forall|j: int|
                0 <= j < positions@.len() ==> (#[trigger] positions@[j]) < record.events@.len(),
            all == record@.ordered_events(),
            block == record@.bn_seen,
            all.len() == positions@.len(),
            lines@ == timeline_lines(block, all.take(i as int), width as nat, colours),
        decreases positions@.len() - i,
    {
        let event = &record.events[positions[i]];
        assert(all[i as int] == event@);
        assert(all.take(i + 1).drop_last() =~= all.take(i as int));
        let cell = format_msg_cell(colours, event);
        let cells = build_timeline_cells(
            record,
            event,
            cell.as_str(),
            width,
            colours,
        );
        let mut line = copy_of("      ");
        line.append(colours.line);
        line.append(join_texts(&cells, " ").as_str());
        line.append("\n");
        lines.append(line.as_str());
        i += 1;
    }
    assert(all.take(i as int) =~= all);
    let mut text = copy_of("    ");
    text.append(colours.tag);
    text.append("Timeline:");
    text.append(colours.reset);
    text.append("\n");
    text.append(render_timeline_headers(&headers, colours).as_str());
    text.append(lines.as_str());
    text
}

/// An order as text.
pub open spec fn record_text(order: OrderView, c: ColourPalette) -> Seq<char> {
    record_header(order, c) + table_text(summary_headers(order), summary_values(order, c), c)
        + "\n"@ + timeline(order, c) + "\n"@
}

/// An order as text: headline, table of values and timeline.
pub fn render_record(record: &OrderRecord, colours: ColourPalette) -> (text: String)
    ensures
        text@ == record_text(record@, colours),
{
    let (headers, values) = build_summary_row(record, colours);
    let mut text = render_record_header(record, colours);
    text.append(render_table_row(&headers, &values, colours).as_str());
    text.append("\n");
    text.append(render_timeline(record, colours).as_str());
    text.append("\n");
    text
}

/// A line for each message at the given positions; one that is not valid stands out.
pub open spec fn message_lines(order: OrderView, positions: Seq<usize>, c: ColourPalette) -> Seq<
    char,
>
    decreases positions.len(),
{
    if positions.len() == 0 {
        seq![]
    } else {
        let at = positions.last() as int;
        let before = message_lines(order, positions.drop_last(), c);
        if at >= order.messages.len() {
            before
        } else {
            let colour = if order.events[at].fault is Some {
                c.error@
            } else {
                c.line@
            };
            before + ("      "@ + in_colour(colour, order.messages[at], c) + "\n"@)
        }
    }
}

/// The messages of an order that has come to its end, in the order of their times.
pub open spec fn messages_text(order: OrderView, c: ColourPalette) -> Seq<char> {
    if order.messages.len() == 0 || !order.is_terminal() {
        seq![]
    } else {
        "    "@ + c.tag@ + "Raw FIX messages:"@ + c.reset@ + "\n"@ + message_lines(
            order,
            chronology(order.events),
            c,
        ) + "\n"@
    }
}

/// The messages of an order that has come to its end.
pub fn render_messages(record: &OrderRecord, colours: ColourPalette) -> (text: String)
    ensures
        text@ == messages_text(record@, colours),
{
    if record.messages.len() == 0 || !record.is_terminal() {
        return String::new();
    }
    let positions = record.chronology();
    let ghost all = positions@;
    let mut lines = String::new();
    let mut i: usize = 0;
    assert(all.take(0) =~= seq![]);
    while i < positions.len()
        invariant
            i <= positions@.len(),
            all == positions@,
            forall|j: int|
                0 <= j < positions@.len() ==> (#[trigger] positions@[j]) < record.events@.len(),
            lines@ == message_lines(record@, all.take(i as int), colours),
        decreases positions@.len() - i,
    {
        let at: usize = positions[i];
        assert(all.take(i + 1).drop_last() =~= all.take(i as int));
        assert(all.take(i + 1).last() == at);
        assert(record@.events[at as int] == record.events@[at as int]@);
        if at < record.messages.len() {
            assert(record@.messages[at as int] == record.messages@[at as int]@);
            let colour: &str = if record.events[at].fault.is_some() {
                colours.error
            } else {
                colours.line
            };
            let mut line = copy_of("      ");
            line.append(coloured(colour, record.messages[at].as_str(), colours).as_str());
            line.append("\n");
            lines.append(line.as_str());
        }
        i += 1;
    }
    assert(all.take(i as int) =~= all);
    let mut text = copy_of("    ");
    text.append(colours.tag);
    text.append("Raw FIX messages:");
    text.append(colours.reset);
    text.append("\n");
    text.append(lines.as_str());
    text.append("\n");
    text
}

} // verus!
