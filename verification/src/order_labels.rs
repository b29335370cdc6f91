//! Names for the codes in order messages, and the dates of orders.
use crate::dictionaries::opt_str;
use crate::outside::{parse_day, parsed_day};
use crate::tag_lookup::{FixTagLookup, LookupModel};
use crate::text::{
    all_decimal, chars_of, copy_of, is_decimal_digit, lowered, same, text_between, text_view,
    to_lower, to_upper, uppered,
};
use vstd::prelude::*;

verus! {

/// The name of a code, if there is a code.
pub open spec fn labelled(
    code: Option<Seq<char>>,
    label: spec_fn(Seq<char>) -> Option<Seq<char>>,
) -> Option<Seq<char>> {
    match code {
        Some(code) => label(code),
        None => None,
    }
}

/// The name of an order status.
pub open spec fn ord_status_label(code: Seq<char>) -> Option<Seq<char>> {
    if code == "A"@ {
        Some("Pending New"@)
    } else if code == "0"@ {
        Some("New"@)
    } else if code == "1"@ {
        Some("Partially Filled"@)
    } else if code == "2"@ {
        Some("Filled"@)
    } else if code == "3"@ {
        Some("Done for Day"@)
    } else if code == "4"@ {
        Some("Canceled"@)
    } else if code == "5"@ {
        Some("Replaced"@)
    } else if code == "6"@ {
        Some("Pending Cancel"@)
    } else if code == "7"@ {
        Some("Stopped"@)
    } else if code == "8"@ {
        Some("Rejected"@)
    } else if code == "9"@ {
        Some("Suspended"@)
    } else if code == "B"@ {
        Some("Calculated"@)
    } else if code == "C"@ {
        Some("Expired"@)
    } else if code == "D"@ {
        Some("Accepted for Bidding"@)
    } else if code == "E"@ {
        Some("Pending Replace"@)
    } else {
        None
    }
}

/// The name of an execution type.
pub open spec fn exec_type_label(code: Seq<char>) -> Option<Seq<char>> {
    if code == "A"@ {
        Some("Pending New"@)
    } else if code == "0"@ {
        Some("New"@)
    } else if code == "1"@ {
        Some("Partially Filled"@)
    } else if code == "2"@ {
        Some("Filled"@)
    } else if code == "3"@ {
        Some("Done for Day"@)
    } else if code == "4"@ {
        Some("Canceled"@)
    } else if code == "5"@ {
        Some("Replaced"@)
    } else if code == "6"@ {
        Some("Pending Cancel"@)
    } else if code == "7"@ {
        Some("Stopped"@)
    } else if code == "8"@ {
        Some("Rejected"@)
    } else if code == "9"@ {
        Some("Suspended"@)
    } else if code == "C"@ {
        Some("Expired"@)
    } else if code == "E"@ {
        Some("Pending Replace"@)
    } else if code == "F"@ {
        Some("Trade"@)
    } else if code == "G"@ {
        Some("Trade Correct"@)
    } else if code == "H"@ {
        Some("Trade Cancel"@)
    } else if code == "I"@ {
        Some("Order Status"@)
    } else {
        None
    }
}

/// The name of an acknowledgement status.
pub open spec fn exec_ack_label(code: Seq<char>) -> Option<Seq<char>> {
    if code == "0"@ {
        Some("Received"@)
    } else if code == "1"@ {
        Some("Accepted"@)
    } else if code == "2"@ {
        Some("Dont Know"@)
    } else if code == "3"@ {
        Some("Rejected"@)
    } else if code == "4"@ {
        Some("Accepted With Errors"@)
    } else {
        None
    }
}

/// The name of an order status.
pub fn label_ord_status_raw(value: Option<&str>) -> (label: Option<&'static str>)
    ensures
        opt_str(label) == labelled(opt_str(value), |code: Seq<char>| ord_status_label(code)),
{
    let code = match value {
        Some(code) => code,
        None => {
            return None;
        },
    };
    if same(code, "A") {
        Some("Pending New")
    } else if same(code, "0") {
        Some("New")
    } else if same(code, "1") {
        Some("Partially Filled")
    } else if same(code, "2") {
        Some("Filled")
    } else if same(code, "3") {
        Some("Done for Day")
    } else if same(code, "4") {
        Some("Canceled")
    } else if same(code, "5") {
        Some("Replaced")
    } else if same(code, "6") {
        Some("Pending Cancel")
    } else if same(code, "7") {
        Some("Stopped")
    } else if same(code, "8") {
        Some("Rejected")
    } else if same(code, "9") {
        Some("Suspended")
    } else if same(code, "B") {
        Some("Calculated")
    } else if same(code, "C") {
        Some("Expired")
    } else if same(code, "D") {
        Some("Accepted for Bidding")
    } else if same(code, "E") {
        Some("Pending Replace")
    } else {
        None
    }
}

/// The name of an execution type.
pub fn label_exec_type_raw(value: Option<&str>) -> (label: Option<&'static str>)
    ensures
        opt_str(label) == labelled(opt_str(value), |code: Seq<char>| exec_type_label(code)),
{
    let code = match value {
        Some(code) => code,
        None => {
            return None;
        },
    };
    if same(code, "A") {
        Some("Pending New")
    } else if same(code, "0") {
        Some("New")
    } else if same(code, "1") {
        Some("Partially Filled")
    } else if same(code, "2") {
        Some("Filled")
    } else if same(code, "3") {
        Some("Done for Day")
    } else if same(code, "4") {
        Some("Canceled")
    } else if same(code, "5") {
        Some("Replaced")
    } else if same(code, "6") {
        Some("Pending Cancel")
    } else if same(code, "7") {
        Some("Stopped")
    } else if same(code, "8") {
        Some("Rejected")
    } else if same(code, "9") {
        Some("Suspended")
    } else if same(code, "C") {
        Some("Expired")
    } else if same(code, "E") {
        Some("Pending Replace")
    } else if same(code, "F") {
        Some("Trade")
    } else if same(code, "G") {
        Some("Trade Correct")
    } else if same(code, "H") {
        Some("Trade Cancel")
    } else if same(code, "I") {
        Some("Order Status")
    } else {
        None
    }
}

/// The name of an acknowledgement status.
pub fn label_exec_ack_status_raw(value: Option<&str>) -> (label: Option<&'static str>)
    ensures
        opt_str(label) == labelled(opt_str(value), |code: Seq<char>| exec_ack_label(code)),
{
    let code = match value {
        Some(code) => code,
        None => {
            return None;
        },
    };
    if same(code, "0") {
        Some("Received")
    } else if same(code, "1") {
        Some("Accepted")
    } else if same(code, "2") {
        Some("Dont Know")
    } else if same(code, "3") {
        Some("Rejected")
    } else if same(code, "4") {
        Some("Accepted With Errors")
    } else {
        None
    }
}

/// A name, or that it is not known.
pub open spec fn or_unknown(label: Option<Seq<char>>) -> Seq<char> {
    match label {
        Some(label) => label,
        None => "Unknown"@,
    }
}

pub open spec fn exec_type_name(code: Option<Seq<char>>) -> Seq<char> {
    or_unknown(labelled(code, |code: Seq<char>| exec_type_label(code)))
}

pub open spec fn ord_status_name(code: Option<Seq<char>>) -> Seq<char> {
    or_unknown(labelled(code, |code: Seq<char>| ord_status_label(code)))
}

pub open spec fn exec_ack_name(code: Option<Seq<char>>) -> Seq<char> {
    or_unknown(labelled(code, |code: Seq<char>| exec_ack_label(code)))
}

/// The name of an execution type, or that it is not known.
pub fn label_exec_type(value: Option<&str>) -> (label: &'static str)
    ensures
        label@ == exec_type_name(opt_str(value)),
{
    match label_exec_type_raw(value) {
        Some(label) => label,
        None => "Unknown",
    }
}

/// The name of an order status, or that it is not known.
pub fn label_ord_status(value: Option<&str>) -> (label: &'static str)
    ensures
        label@ == ord_status_name(opt_str(value)),
{
    match label_ord_status_raw(value) {
        Some(label) => label,
        None => "Unknown",
    }
}

/// The name of an acknowledgement status, or that it is not known.
pub fn label_exec_ack_status(value: Option<&str>) -> (label: &'static str)
    ensures
        label@ == exec_ack_name(opt_str(value)),
{
    match label_exec_ack_status_raw(value) {
        Some(label) => label,
        None => "Unknown",
    }
}

/// The state that a message puts an order in: from the order status, else the execution
/// type, else the acknowledgement, else from nothing being left to fill.
pub open spec fn derived_state(
    exec_type: Option<Seq<char>>,
    ord_status: Option<Seq<char>>,
    leaves_qty: Option<Seq<char>>,
    exec_ack: Option<Seq<char>>,
) -> Seq<char> {
    match labelled(ord_status, |code: Seq<char>| ord_status_label(code)) {
        Some(label) => label,
        None => match labelled(exec_type, |code: Seq<char>| exec_type_label(code)) {
            Some(label) => label,
            None => match labelled(exec_ack, |code: Seq<char>| exec_ack_label(code)) {
                Some(label) => label,
                None => if leaves_qty == Some("0"@) {
                    "Filled"@
                } else {
                    "Unknown"@
                },
            },
        },
    }
}

/// The state that a message puts an order in.
pub fn derive_state(
    exec_type: Option<&str>,
    ord_status: Option<&str>,
    leaves_qty: Option<&str>,
    exec_ack_status: Option<&str>,
) -> (state: &'static str)
    ensures
        state@ == derived_state(
            opt_str(exec_type),
            opt_str(ord_status),
            opt_str(leaves_qty),
            opt_str(exec_ack_status),
        ),
{
    if let Some(label) = label_ord_status_raw(ord_status) {
        return label;
    }
    if let Some(label) = label_exec_type_raw(exec_type) {
        return label;
    }
    if let Some(label) = label_exec_ack_status_raw(exec_ack_status) {
        return label;
    }
    if let Some(leaves) = leaves_qty {
        if same(leaves, "0") {
            return "Filled";
        }
    }
    "Unknown"
}

/// The name of a side.
pub open spec fn side_name(code: Seq<char>) -> Seq<char> {
    if code == "1"@ {
        "Buy"@
    } else if code == "2"@ {
        "Sell"@
    } else if code == "5"@ {
        "SellShort"@
    } else if code == "6"@ {
        "SellShortExempt"@
    } else if code == "8"@ {
        "Cross"@
    } else {
        "Side?"@
    }
}

/// The name of a side.
pub fn side_label(value: &str) -> (label: &'static str)
    ensures
        label@ == side_name(value@),
{
    if same(value, "1") {
        "Buy"
    } else if same(value, "2") {
        "Sell"
    } else if same(value, "5") {
        "SellShort"
    } else if same(value, "6") {
        "SellShortExempt"
    } else if same(value, "8") {
        "Cross"
    } else {
        "Side?"
    }
}

/// A description with its first letter large and the others small.
pub open spec fn capitalised(text: Seq<char>) -> Seq<char> {
    if text.len() == 0 {
        seq![]
    } else {
        uppered(text.take(1)) + lowered(text.skip(1))
    }
}

/// A description with its first letter large and the others small.
pub fn normalise_enum_desc(desc: &str) -> (text: String)
    ensures
        text@ == capitalised(desc@),
{
    let chars = chars_of(desc);
    if chars.len() == 0 {
        return String::new();
    }
    let first = text_between(&chars, 0, 1);
    let rest = text_between(&chars, 1, chars.len());
    assert(first@ =~= desc@.take(1));
    assert(rest@ =~= desc@.skip(1));
    let mut text = to_upper(first.as_str());
    text.append(to_lower(rest.as_str()).as_str());
    text
}

/// The description of a value with the value behind it; the value alone without one.
pub open spec fn described(dict: LookupModel, tag: u32, value: Seq<char>) -> Seq<char> {
    match dict.enum_description(tag, value) {
        Some(text) => capitalised(text) + " ("@ + value + ")"@,
        None => value,
    }
}

/// The description of a value with the value behind it; the value alone without one.
pub fn enum_label(dict: &FixTagLookup, tag: u32, value: &str) -> (text: String)
    ensures
        text@ == described(dict.model(), tag, value@),
{
    match dict.enum_description(tag, value) {
        Some(desc) => {
            let mut text = normalise_enum_desc(desc);
            text.append(" (");
            text.append(value);
            text.append(")");
            text
        },
        None => copy_of(value),
    }
}

/// A day that is no Saturday and no Sunday; day 1 of the common era was a Monday.
pub open spec fn is_business_day(day: int) -> bool {
    1 <= day % 7 <= 5
}

/// The business days behind `from` and up to `to`.
pub open spec fn business_days(from: int, to: int) -> nat
    decreases to - from,
{
    if to <= from {
        0
    } else {
        business_days(from, to - 1) + one_if(is_business_day(to))
    }
}

pub open spec fn one_if(yes: bool) -> nat {
    if yes {
        1
    } else {
        0
    }
}

/// Any seven days in a row hold five business days.
pub proof fn law_week_has_five_business_days(from: int)
    ensures
        business_days(from, from + 7) == 5,
{
    let r = from % 7;
    assert((from + 1) % 7 == (r + 1) % 7 && (from + 2) % 7 == (r + 2) % 7 && (from + 3) % 7 == (r
        + 3) % 7 && (from + 4) % 7 == (r + 4) % 7 && (from + 5) % 7 == (r + 5) % 7 && (from + 6) % 7
        == (r + 6) % 7 && (from + 7) % 7 == r);
    assert(business_days(from, from) == 0);
    assert(business_days(from, from + 1) == one_if(is_business_day(from + 1)));
    assert(business_days(from, from + 2) == business_days(from, from + 1) + one_if(
        is_business_day(from + 2),
    ));
    assert(business_days(from, from + 3) == business_days(from, from + 2) + one_if(
        is_business_day(from + 3),
    ));
    assert(business_days(from, from + 4) == business_days(from, from + 3) + one_if(
        is_business_day(from + 4),
    ));
    assert(business_days(from, from + 5) == business_days(from, from + 4) + one_if(
        is_business_day(from + 5),
    ));
    assert(business_days(from, from + 6) == business_days(from, from + 5) + one_if(
        is_business_day(from + 6),
    ));
    assert(business_days(from, from + 7) == business_days(from, from + 6) + one_if(
        is_business_day(from + 7),
    ));
}

/// The business days between two dates; none where the second is the earlier one.
pub open spec fn day_difference(trade: int, settl: int) -> Option<nat> {
    if settl < trade {
        None
    } else {
        Some(business_days(trade, settl))
    }
}

fn business_day(day: i32) -> (yes: bool)
    ensures
        yes == is_business_day(day as int),
{
    let wide: i64 = day as i64 + 7 * 0x4000_0000;
    let rest: i64 = wide % 7;
    1 <= rest && rest <= 5
}

/// The business days between two dates, given as days of the common era.
pub fn business_days_between(trade: i32, settl: i32) -> (days: Option<i64>)
    ensures
        (match days {
            Some(n) => Some(n as nat),
            None => None,
        }) == day_difference(trade as int, settl as int),
        days matches Some(n) ==> n >= 0,
{
    if settl < trade {
        return None;
    }
    let mut days: i64 = 0;
    let mut cursor: i32 = trade;
    while cursor < settl
        invariant
            trade <= cursor <= settl,
            0 <= days <= cursor - trade,
            days == business_days(trade as int, cursor as int),
        decreases settl - cursor,
    {
        cursor += 1;
        if business_day(cursor) {
            days += 1;
        }
    }
    Some(days)
}

/// The business days between trade date and settlement date, where both are dates.
pub open spec fn tenor_days(trade: Option<Seq<char>>, settl: Option<Seq<char>>) -> Option<nat> {
    match (trade, settl) {
        (Some(trade), Some(settl)) => match (
            parsed_day(trade, "%Y%m%d"@),
            parsed_day(settl, "%Y%m%d"@),
        ) {
            (Some(from), Some(to)) => day_difference(from as int, to as int),
            _ => None,
        },
        _ => None,
    }
}

/// The business days between trade date and settlement date, where both are dates.
pub fn date_diff_days(trade: Option<&str>, settl: Option<&str>) -> (days: Option<i64>)
    ensures
        (match days {
            Some(n) => Some(n as nat),
            None => None,
        }) == tenor_days(opt_str(trade), opt_str(settl)),
        days matches Some(n) ==> n >= 0,
{
    match trade {
        Some(trade) => match settl {
            Some(settl) => match parse_day(trade, "%Y%m%d") {
                Some(from) => match parse_day(settl, "%Y%m%d") {
                    Some(to) => business_days_between(from, to),
                    None => None,
                },
                None => None,
            },
            None => None,
        },
        None => None,
    }
}

/// The settlement date in use: the second one, where it is there.
pub fn preferred_settl_date<'a>(s64: Option<&'a str>, s193: Option<&'a str>) -> (date: Option<
    &'a str,
>)
    ensures
        date == if s193 is Some {
            s193
        } else {
            s64
        },
{
    match s193 {
        Some(date) => Some(date),
        None => s64,
    }
}

/// The date that a timestamp starts with.
pub open spec fn date_part(text: Seq<char>) -> Option<Seq<char>> {
    if text.len() >= 8 && all_decimal(text.take(8)) {
        Some(text.take(8))
    } else {
        None
    }
}

/// The date that a timestamp starts with.
pub fn extract_date_part(ts: &str) -> (date: Option<String>)
    ensures
        text_view(date) == date_part(ts@),
{
    let chars = chars_of(ts);
    if chars.len() < 8 {
        return None;
    }
    let mut i: usize = 0;
    while i < 8
        invariant
            i <= 8,
            chars@ == ts@,
            chars@.len() >= 8,
            forall|j: int| 0 <= j < i ==> is_decimal_digit(#[trigger] chars@[j]),
        decreases 8 - i,
    {
        if !(chars[i] >= '0' && chars[i] <= '9') {
            assert(!is_decimal_digit(ts@.take(8)[i as int]));
            return None;
        }
        i += 1;
    }
    let date = text_between(&chars, 0, 8);
    assert(date@ =~= ts@.take(8));
    assert forall|j: int| 0 <= j < 8 implies is_decimal_digit(#[trigger] ts@.take(8)[j]) by {
        assert(chars@[j] == ts@.take(8)[j]);
    }
    Some(date)
}

} // verus!
