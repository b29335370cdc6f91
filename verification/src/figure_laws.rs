//! What holds of the figures of a summary: days to settlement, prices and counts.
use crate::colours::ColourPalette;
use crate::counts::{counted_once, merged, of_bucket, Counts};
use crate::message_groups::{bucket_of, MessageBucket};
use crate::message_laws::{digits, law_numbers_are_written};
use crate::order_labels::{business_days, date_part, tenor_days};
use crate::order_record::OrderView;
use crate::outside::parsed_day;
use crate::queries::message_for;
use crate::schema_tree::{MessageNodeView, TreeView};
use crate::summary_render::{
    flow, price_text, record_header, summary_headers, summary_values, tenor_text,
};
use crate::textmap::{ascending, lemma_ascending_unique, sorted};
use vstd::prelude::*;

verus! {

/// Business days add up: those of two spans one behind the other are those of both. A single
/// day counts where it is no Saturday and no Sunday; the days of the common era start with a
/// Monday.
pub proof fn law_business_days_add_up(from: int, between: int, to: int, day: int)
    requires
        from <= between <= to,
    ensures
        business_days(from, from) == 0,
        business_days(from, to) == business_days(from, between) + business_days(between, to),
        business_days(day - 1, day) == if day % 7 == 6 || day % 7 == 0 {
            0nat
        } else {
            1
        },
    decreases to - between,
{
    assert(business_days(day - 1, day - 1) == 0);
    assert(0 <= day % 7 < 7);
    if between < to {
        law_business_days_add_up(from, between, to - 1, day);
    }
}

/// Days to settlement are there exactly where both dates are read and the second is not the
/// earlier one; on the same day there are none.
pub proof fn law_days_to_settlement(trade: Seq<char>, settl: Seq<char>)
    ensures
        ({
            let from = parsed_day(trade, "%Y%m%d"@);
            let to = parsed_day(settl, "%Y%m%d"@);
            let days = tenor_days(Some(trade), Some(settl));
            &&& days is Some <==> (from is Some && to is Some && from->0 <= to->0)
            &&& days matches Some(n) ==> n <= to->0 - from->0 && (from->0 == to->0 ==> n == 0)
        }),
        tenor_days(None, Some(settl)) is None,
        tenor_days(Some(trade), None) is None,
{
    let from = parsed_day(trade, "%Y%m%d"@);
    let to = parsed_day(settl, "%Y%m%d"@);
    if from is Some && to is Some && from->0 <= to->0 {
        lemma_no_more_than_days(from->0 as int, to->0 as int);
    }
}

proof fn lemma_no_more_than_days(from: int, to: int)
    requires
        from <= to,
    ensures
        business_days(from, to) <= to - from,
    decreases to - from,
{
    if from < to {
        lemma_no_more_than_days(from, to - 1);
    }
}

/// The name of so many days to settlement.
pub open spec fn day_name(days: nat) -> Seq<char> {
    let names = seq!["TOD"@, "TOM"@, "SPOT"@];
    if days < names.len() {
        names[days as int]
    } else {
        "FWD"@
    }
}

/// Days to settlement are shown as `T+` and their number, with their name behind; without them
/// stands a dash.
pub proof fn law_days_are_shown(days: nat, c: ColourPalette)
    ensures
        tenor_text(Some(days as int), c) == c.value@ + seq!['T', '+'] + (if days == 0 {
            seq!['0']
        } else {
            digits(days)
        }) + c.reset@ + seq![' ', '('] + c.enumeration@ + day_name(days) + c.reset@ + seq![')'],
        tenor_text(None, c) == c.value@ + seq!['-'] + c.reset@,
{
    law_numbers_are_written(days);
    reveal_strlit("T+");
    reveal_strlit(" (");
    reveal_strlit(")");
    reveal_strlit("-");
    assert("T+"@ =~= seq!['T', '+']);
    assert(" ("@ =~= seq![' ', '(']);
    assert(")"@ =~= seq![')']);
    assert("-"@ =~= seq!['-']);
}

/// A price is shown with its currency behind it where that is known; without a price stands a
/// dash.
pub proof fn law_prices_are_shown(price: Seq<char>, currency: Option<Seq<char>>, c: ColourPalette)
    ensures
        price_text(Some(price), None, c) == c.value@ + price + c.reset@,
        currency matches Some(code) ==> price_text(Some(price), currency, c) == c.value@ + price
            + c.reset@ + seq![' ', '('] + c.enumeration@ + code + c.reset@ + seq![')'],
        price_text(None, currency, c) == c.value@ + seq!['-'] + c.reset@,
{
    reveal_strlit(" (");
    reveal_strlit(")");
    reveal_strlit("-");
    assert(" ("@ =~= seq![' ', '(']);
    assert(")"@ =~= seq![')']);
    assert("-"@ =~= seq!['-']);
}

/// The text stands in the column under the title, in some colour.
pub open spec fn stands_under(
    order: OrderView,
    c: ColourPalette,
    title: Seq<char>,
    text: Seq<char>,
    colour: Seq<char>,
) -> bool {
    exists|i: int|
        0 <= i < summary_headers(order).len() && i < summary_values(order, c).len()
            && #[trigger] summary_headers(order)[i] == title && summary_values(order, c)[i]
            == colour + text + c.reset@
}

/// A summary has a value under each of its titles: symbol, quantity, price, trade date, time in
/// force and order type each stand under their own, and the settlement date in use, which is
/// the second one where there are two, stands last.
pub proof fn law_values_stand_under_their_titles(order: OrderView, c: ColourPalette)
    ensures
        ({
            let titles = summary_headers(order);
            let values = summary_values(order, c);
            &&& titles.len() == values.len()
            &&& titles.len() == if order.bn_seen {
                11nat
            } else {
                9
            }
            &&& order.symbol matches Some(text) ==> stands_under(
                order,
                c,
                "Symbol"@,
                text,
                c.value@,
            )
            &&& order.qty matches Some(text) ==> stands_under(
                order,
                c,
                match order.order_qty_name {
                    Some(name) => name,
                    None => "qty"@,
                },
                text,
                c.value@,
            )
            &&& order.price is Some && order.currency is None ==> stands_under(
                order,
                c,
                "Price"@,
                order.price->0,
                c.value@,
            )
            &&& order.trade_date matches Some(text) ==> stands_under(
                order,
                c,
                match order.trade_date_name {
                    Some(name) => name,
                    None => "TradeDate"@,
                },
                text,
                c.value@,
            )
            &&& order.tif_desc matches Some(text) ==> stands_under(
                order,
                c,
                match order.tif_name {
                    Some(name) => name,
                    None => "TimeInForce"@,
                },
                text,
                c.enumeration@,
            )
            &&& order.ord_type_desc matches Some(text) ==> stands_under(
                order,
                c,
                match order.ord_type_name {
                    Some(name) => name,
                    None => "OrdType"@,
                },
                text,
                c.enumeration@,
            )
            &&& order.bn_seen && order.spot_rate is Some ==> stands_under(
                order,
                c,
                match order.spot_rate_name {
                    Some(name) => name,
                    None => "SpotPrice"@,
                },
                order.spot_rate->0,
                c.value@,
            )
            &&& order.bn_seen && order.bn_exec_amt is Some ==> stands_under(
                order,
                c,
                "ExecAmt"@,
                order.bn_exec_amt->0,
                c.value@,
            )
            &&& order.settl_date2 matches Some(text) ==> values.last() == c.value@ + text + c.reset@
            &&& order.settl_date2 is None && order.settl_date is Some ==> values.last() == c.value@
                + order.settl_date->0 + c.reset@
            &&& values[5] == tenor_text(
                match tenor_days(
                    order.trade_date,
                    if order.settl_date2 is Some {
                        order.settl_date2
                    } else {
                        order.settl_date
                    },
                ) {
                    Some(days) => Some(days as int),
                    None => None,
                },
                c,
            )
        }),
{
    let titles = summary_headers(order);
    let values = summary_values(order, c);
    assert(titles[1] == "Symbol"@);
    assert(titles[2] == match order.order_qty_name {
        Some(name) => name,
        None => "qty"@,
    });
    assert(titles[3] == "Price"@);
    assert(titles[4] == match order.trade_date_name {
        Some(name) => name,
        None => "TradeDate"@,
    });
    assert(titles[6] == match order.tif_name {
        Some(name) => name,
        None => "TimeInForce"@,
    });
    assert(titles[7] == match order.ord_type_name {
        Some(name) => name,
        None => "OrdType"@,
    });
    if order.bn_seen {
        assert(titles[8] == match order.spot_rate_name {
            Some(name) => name,
            None => "SpotPrice"@,
        });
        assert(titles[9] == "ExecAmt"@);
    }
}

/// The states of an order, with an arrow between each two.
pub open spec fn arrows(states: Seq<Seq<char>>) -> Seq<char>
    decreases states.len(),
{
    if states.len() == 0 {
        seq![]
    } else if states.len() == 1 {
        states[0]
    } else {
        states[0] + seq![' ', '-', '>', ' '] + arrows(states.skip(1))
    }
}

proof fn lemma_arrows(states: Seq<Seq<char>>)
    ensures
        crate::text::join(states, " -> "@) == arrows(states),
    decreases states.len(),
{
    reveal_strlit(" -> ");
    let gap = seq![' ', '-', '>', ' '];
    assert(" -> "@ =~= gap);
    if states.len() == 2 {
        let shorter = states.drop_last();
        assert(crate::text::join(shorter, gap) == states[0]);
        assert(states.skip(1)[0] == states[1]);
        assert(arrows(states.skip(1)) == states[1]);
    } else if states.len() > 2 {
        let shorter = states.drop_last();
        let rest = states.skip(1);
        lemma_arrows(shorter);
        lemma_arrows(rest);
        lemma_arrows(rest.drop_last());
        assert(shorter.skip(1) =~= rest.drop_last());
        assert(rest.last() == states.last());
        assert(crate::text::join(states, gap) =~= states[0] + gap + arrows(rest));
    }
}

/// The states of an order are shown one behind the other; an unknown one is left out at the
/// start where others follow. An order without any is unknown.
pub proof fn law_states_are_shown_in_a_row(states: Seq<Seq<char>>)
    ensures
        states.len() == 0 ==> flow(states) == "Unknown"@,
        states.len() == 1 ==> flow(states) == states[0],
        states.len() > 1 && states[0] != "Unknown"@ ==> flow(states) == arrows(states),
        states.len() > 1 && states[0] == "Unknown"@ ==> flow(states) == arrows(states.skip(1)),
{
    lemma_arrows(states);
    if states.len() > 0 {
        lemma_arrows(states.skip(1));
    }
}

/// The headline of an order names it by the identifier that was given to it, else by the one
/// of the client, else by its key.
pub proof fn law_headline_names_the_order(order: OrderView, c: ColourPalette)
    ensures
        ({
            let name = if order.order_id is Some {
                order.order_id->0
            } else if order.cl_ord_id is Some {
                order.cl_ord_id->0
            } else {
                order.key
            };
            let start = seq![' ', ' '] + c.file@ + name + c.reset@;
            &&& record_header(order, c).len() >= start.len()
            &&& record_header(order, c).take(start.len() as int) == start
        }),
{
    reveal_strlit("  ");
    assert("  "@ =~= seq![' ', ' ']);
    let name = if order.order_id is Some {
        order.order_id->0
    } else if order.cl_ord_id is Some {
        order.cl_ord_id->0
    } else {
        order.key
    };
    let start = seq![' ', ' '] + c.file@ + name + c.reset@;
    assert(record_header(order, c).take(start.len() as int) =~= start);
}

/// The date of a timestamp is its first eight characters, where those are digits.
pub proof fn law_dates_start_timestamps(date: Seq<char>, rest: Seq<char>)
    requires
        date.len() == 8,
    ensures
        (forall|i: int| 0 <= i < 8 ==> '0' <= #[trigger] date[i] <= '9') ==> date_part(date + rest)
            == Some(date),
        (exists|i: int| 0 <= i < 8 && !('0' <= #[trigger] date[i] <= '9')) ==> date_part(
            date + rest,
        ) is None,
        date_part(date.take(7)) is None,
{
    assert((date + rest).take(8) =~= date);
    if exists|i: int| 0 <= i < 8 && !('0' <= #[trigger] date[i] <= '9') {
        let i = choose|i: int| 0 <= i < 8 && !('0' <= #[trigger] date[i] <= '9');
        assert(!crate::text::is_decimal_digit(date[i]));
    }
}

/// A message counts once, for its own type; the other types keep their counts. A name stays
/// once it is known.
pub proof fn law_messages_count_once(
    counts: Counts,
    msg_type: Seq<char>,
    label: Option<Seq<char>>,
    category: Option<Seq<char>>,
    other: Seq<char>,
)
    requires
        counts.contains_key(msg_type) ==> counts[msg_type].count < usize::MAX,
    ensures
        ({
            let after = counted_once(counts, msg_type, label, category);
            &&& after.contains_key(msg_type)
            &&& after[msg_type].count == if counts.contains_key(msg_type) {
                counts[msg_type].count + 1
            } else {
                1
            }
            &&& counts.contains_key(msg_type) && counts[msg_type].label is Some
                ==> after[msg_type].label == counts[msg_type].label
            &&& !counts.contains_key(msg_type) ==> after[msg_type].label == label
            &&& other != msg_type ==> after.contains_key(other) == counts.contains_key(other) && (
            counts.contains_key(other) ==> after[other] == counts[other])
        }),
{
}

/// Counts of two sources add up, type by type; a type that one of them lacks keeps the count
/// of the other.
pub proof fn law_counts_of_sources_add_up(a: Counts, b: Counts, msg_type: Seq<char>)
    ensures
        merged(a, b).contains_key(msg_type) <==> a.contains_key(msg_type) || b.contains_key(
            msg_type,
        ),
        a.contains_key(msg_type) && b.contains_key(msg_type) && a[msg_type].count
            + b[msg_type].count <= usize::MAX ==> merged(a, b)[msg_type].count == a[msg_type].count
            + b[msg_type].count,
        a.contains_key(msg_type) && !b.contains_key(msg_type) ==> merged(a, b)[msg_type]
            == a[msg_type],
        !a.contains_key(msg_type) && b.contains_key(msg_type) ==> merged(a, b)[msg_type]
            == b[msg_type],
{
}

/// Kinds of messages: what the dictionary calls administrative belongs to the session, and
/// where it says nothing, so do the types of the session layer. Orders and reports on them are
/// a kind, market data is one, and the rest are others.
pub proof fn law_messages_have_their_kind(msg_type: Seq<char>, label: Seq<char>)
    ensures
        bucket_of(msg_type, None, Some("admin"@)) == MessageBucket::SessionAdmin,
        seq!["0"@, "1"@, "2"@, "3"@, "4"@, "5"@, "A"@].contains(msg_type) ==> bucket_of(
            msg_type,
            None,
            None,
        ) == MessageBucket::SessionAdmin,
        seq![
            "8"@,
            "9"@,
            "D"@,
            "E"@,
            "F"@,
            "G"@,
            "H"@,
            "q"@,
            "r"@,
            "s"@,
            "t"@,
            "u"@,
            "AB"@,
            "AC"@,
        ].contains(msg_type) <==> bucket_of(msg_type, None, Some("app"@))
            == MessageBucket::OrderFlow,
        seq!["V"@, "W"@, "X"@, "Y"@].contains(msg_type) <==> bucket_of(msg_type, None, Some("app"@))
            == MessageBucket::MarketData,
{
    let session = seq!["0"@, "1"@, "2"@, "3"@, "4"@, "5"@, "A"@];
    assert(session[0] == "0"@ && session[1] == "1"@ && session[2] == "2"@ && session[3] == "3"@
        && session[4] == "4"@ && session[5] == "5"@ && session[6] == "A"@);
    let orders = seq![
        "8"@,
        "9"@,
        "D"@,
        "E"@,
        "F"@,
        "G"@,
        "H"@,
        "q"@,
        "r"@,
        "s"@,
        "t"@,
        "u"@,
        "AB"@,
        "AC"@,
    ];
    assert(orders[0] == "8"@ && orders[1] == "9"@ && orders[2] == "D"@ && orders[3] == "E"@
        && orders[4] == "F"@ && orders[5] == "G"@ && orders[6] == "H"@ && orders[7] == "q"@
        && orders[8] == "r"@ && orders[9] == "s"@ && orders[10] == "t"@ && orders[11] == "u"@
        && orders[12] == "AB"@ && orders[13] == "AC"@);
    let market = seq!["V"@, "W"@, "X"@, "Y"@];
    assert(market[0] == "V"@ && market[1] == "W"@ && market[2] == "X"@ && market[3] == "Y"@);
    reveal_strlit("app");
    reveal_strlit("admin");
    assert("app"@.len() != "admin"@.len());
    reveal_strlit("V");
    reveal_strlit("W");
    reveal_strlit("X");
    reveal_strlit("Y");
    reveal_strlit("8");
    reveal_strlit("9");
    reveal_strlit("D");
    reveal_strlit("E");
    reveal_strlit("F");
    reveal_strlit("G");
    reveal_strlit("H");
    reveal_strlit("q");
    reveal_strlit("r");
    reveal_strlit("s");
    reveal_strlit("t");
    reveal_strlit("u");
    reveal_strlit("AB");
    reveal_strlit("AC");
    assert(market.contains(msg_type) ==> msg_type.len() == 1 && 'V' <= msg_type[0] <= 'Y');
    assert(orders.contains(msg_type) ==> msg_type.len() == 2 || !('V' <= msg_type[0] <= 'Y'));
}

/// The types of a kind are those of all types that are of it, in their order.
pub proof fn law_kinds_list_their_types(
    keys: Seq<Seq<char>>,
    counts: Counts,
    bucket: MessageBucket,
)
    ensures
        of_bucket(keys, counts, bucket) == keys.filter(
            |key: Seq<char>| counts[key].bucket == bucket,
        ),
    decreases keys.len(),
{
    reveal(Seq::filter);
    if keys.len() > 0 {
        law_kinds_list_their_types(keys.drop_last(), counts, bucket);
    }
}

/// A message is found by its name, else by its type; it is found wherever one has that name or
/// that type.
/// `names` are the names of all messages in their order.
pub proof fn law_messages_are_found(tree: TreeView, query: Seq<char>, names: Seq<Seq<char>>)
    requires
        ascending(names),
        names.to_set() == tree.messages.dom(),
    ensures
        tree.messages.contains_key(query) ==> message_for(tree, query) == Some(
            tree.messages[query],
        ),
        !tree.messages.contains_key(query) ==> (message_for(tree, query) matches Some(found)
            ==> found.msg_type == query && exists|name: Seq<char>| #[trigger]
            tree.messages.contains_key(name) && tree.messages[name] == found),
        (exists|name: Seq<char>| #[trigger]
            tree.messages.contains_key(name) && tree.messages[name].msg_type == query)
            ==> message_for(tree, query) is Some,
{
    lemma_ascending_unique(names, sorted(tree.messages.dom()));
    lemma_typed(names, 0, tree.messages, query);
    if exists|name: Seq<char>| #[trigger]
        tree.messages.contains_key(name) && tree.messages[name].msg_type == query {
        let name = choose|name: Seq<char>| #[trigger]
            tree.messages.contains_key(name) && tree.messages[name].msg_type == query;
        assert(names.to_set().contains(name));
        assert(names.contains(name));
    }
    if !tree.messages.contains_key(query) {
        if let Some(found) = message_for(tree, query) {
            let i = choose|i: int|
                0 <= i < names.len() && found == tree.messages[#[trigger] names[i]];
            assert(names.to_set().contains(names[i]));
            assert(tree.messages.contains_key(names[i]));
        }
    }
}

proof fn lemma_typed(
    names: Seq<Seq<char>>,
    at: int,
    messages: Map<Seq<char>, MessageNodeView>,
    msg_type: Seq<char>,
)
    requires
        0 <= at <= names.len(),
    ensures
        ({
            let found = crate::queries::typed_message(names, at, messages, msg_type);
            &&& found matches Some(node) ==> node.msg_type == msg_type && exists|i: int|
                at <= i < names.len() && node == messages[#[trigger] names[i]]
            &&& found is None ==> forall|i: int|
                at <= i < names.len() ==> messages[#[trigger] names[i]].msg_type != msg_type
        }),
    decreases names.len() - at,
{
    if at < names.len() {
        if messages[names[at]].msg_type != msg_type {
            lemma_typed(names, at + 1, messages, msg_type);
        }
    }
}

} // verus!
