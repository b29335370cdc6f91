//! Orders and what their messages say of them.
use crate::counts::copy_label;
use crate::dictionaries::opt_str;
use crate::order_labels::{
    date_part, derive_state, derived_state, described, enum_label, extract_date_part, side_label,
    side_name,
};
use crate::sorting::{arranged, borrowed_texts, each_once, order_by_text, text_order};
use crate::tag_lookup::{string_values, FixTagLookup, LookupModel};
use crate::text::{copy_of, same, text_view, texts, to_upper, uppered};
use std::collections::HashMap;
use vstd::prelude::*;

verus! {

broadcast use {vstd::std_specs::hash::group_hash_axioms, vstd::seq_lib::group_seq_properties};

/// What one message says of an order.
#[derive(Debug)]
pub struct OrderEvent {
    pub time: Option<String>,
    pub msg_type: Option<String>,
    pub msg_type_desc: Option<String>,
    pub exec_type: Option<String>,
    pub ord_status: Option<String>,
    pub exec_ack_status: Option<String>,
    pub cum_qty: Option<String>,
    pub leaves_qty: Option<String>,
    pub last_qty: Option<String>,
    pub last_px: Option<String>,
    pub avg_px: Option<String>,
    pub text: Option<String>,
    pub cl_ord_id: Option<String>,
    pub orig_cl_ord_id: Option<String>,
    pub state: String,
    /// What validation found wrong with the message.
    pub fault: Option<String>,
}

/// The mathematical content of an `OrderEvent`.
pub struct EventView {
    pub time: Option<Seq<char>>,
    pub msg_type: Option<Seq<char>>,
    pub msg_type_desc: Option<Seq<char>>,
    pub exec_type: Option<Seq<char>>,
    pub ord_status: Option<Seq<char>>,
    pub exec_ack_status: Option<Seq<char>>,
    pub cum_qty: Option<Seq<char>>,
    pub leaves_qty: Option<Seq<char>>,
    pub last_qty: Option<Seq<char>>,
    pub last_px: Option<Seq<char>>,
    pub avg_px: Option<Seq<char>>,
    pub text: Option<Seq<char>>,
    pub cl_ord_id: Option<Seq<char>>,
    pub orig_cl_ord_id: Option<Seq<char>>,
    pub state: Seq<char>,
    pub fault: Option<Seq<char>>,
}

impl View for OrderEvent {
    type V = EventView;

    open spec fn view(&self) -> EventView {
        EventView {
            time: text_view(self.time),
            msg_type: text_view(self.msg_type),
            msg_type_desc: text_view(self.msg_type_desc),
            exec_type: text_view(self.exec_type),
            ord_status: text_view(self.ord_status),
            exec_ack_status: text_view(self.exec_ack_status),
            cum_qty: text_view(self.cum_qty),
            leaves_qty: text_view(self.leaves_qty),
            last_qty: text_view(self.last_qty),
            last_px: text_view(self.last_px),
            avg_px: text_view(self.avg_px),
            text: text_view(self.text),
            cl_ord_id: text_view(self.cl_ord_id),
            orig_cl_ord_id: text_view(self.orig_cl_ord_id),
            state: self.state@,
            fault: text_view(self.fault),
        }
    }
}

pub open spec fn event_views(events: Seq<OrderEvent>) -> Seq<EventView> {
    events.map_values(|e: OrderEvent| e@)
}

/// An order, as far as its messages tell.
#[derive(Debug)]
pub struct OrderRecord {
    pub key: String,
    pub order_id: Option<String>,
    pub cl_ord_id: Option<String>,
    pub orig_cl_ord_id: Option<String>,
    pub symbol: Option<String>,
    pub side: Option<String>,
    pub qty: Option<String>,
    pub cum_qty: Option<String>,
    pub leaves_qty: Option<String>,
    pub avg_px: Option<String>,
    pub ord_type: Option<String>,
    pub time_in_force: Option<String>,
    pub trade_date: Option<String>,
    pub settl_date: Option<String>,
    pub settl_date2: Option<String>,
    pub currency: Option<String>,
    pub ord_type_desc: Option<String>,
    pub tif_desc: Option<String>,
    pub order_qty_name: Option<String>,
    pub cum_qty_name: Option<String>,
    pub leaves_qty_name: Option<String>,
    pub avg_px_name: Option<String>,
    pub ord_type_name: Option<String>,
    pub tif_name: Option<String>,
    pub trade_date_name: Option<String>,
    pub settl_date_name: Option<String>,
    pub settl_date2_name: Option<String>,
    pub ord_type_code: Option<String>,
    pub tif_code: Option<String>,
    pub price: Option<String>,
    pub spot_rate: Option<String>,
    pub spot_rate_name: Option<String>,
    pub last_qty: Option<String>,
    pub bn_exec_amt: Option<String>,
    pub bn_seen: bool,
    pub events: Vec<OrderEvent>,
    pub messages: Vec<String>,
}

/// The mathematical content of an `OrderRecord`.
#[verifier::ext_equal]
pub struct OrderView {
    pub key: Seq<char>,
    pub order_id: Option<Seq<char>>,
    pub cl_ord_id: Option<Seq<char>>,
    pub orig_cl_ord_id: Option<Seq<char>>,
    pub symbol: Option<Seq<char>>,
    pub side: Option<Seq<char>>,
    pub qty: Option<Seq<char>>,
    pub cum_qty: Option<Seq<char>>,
    pub leaves_qty: Option<Seq<char>>,
    pub avg_px: Option<Seq<char>>,
    pub ord_type: Option<Seq<char>>,
    pub time_in_force: Option<Seq<char>>,
    pub trade_date: Option<Seq<char>>,
    pub settl_date: Option<Seq<char>>,
    pub settl_date2: Option<Seq<char>>,
    pub currency: Option<Seq<char>>,
    pub ord_type_desc: Option<Seq<char>>,
    pub tif_desc: Option<Seq<char>>,
    pub order_qty_name: Option<Seq<char>>,
    pub cum_qty_name: Option<Seq<char>>,
    pub leaves_qty_name: Option<Seq<char>>,
    pub avg_px_name: Option<Seq<char>>,
    pub ord_type_name: Option<Seq<char>>,
    pub tif_name: Option<Seq<char>>,
    pub trade_date_name: Option<Seq<char>>,
    pub settl_date_name: Option<Seq<char>>,
    pub settl_date2_name: Option<Seq<char>>,
    pub ord_type_code: Option<Seq<char>>,
    pub tif_code: Option<Seq<char>>,
    pub price: Option<Seq<char>>,
    pub spot_rate: Option<Seq<char>>,
    pub spot_rate_name: Option<Seq<char>>,
    pub last_qty: Option<Seq<char>>,
    pub bn_exec_amt: Option<Seq<char>>,
    pub bn_seen: bool,
    pub events: Seq<EventView>,
    pub messages: Seq<Seq<char>>,
}

impl View for OrderRecord {
    type V = OrderView;

    open spec fn view(&self) -> OrderView {
        OrderView {
            key: self.key@,
            order_id: text_view(self.order_id),
            cl_ord_id: text_view(self.cl_ord_id),
            orig_cl_ord_id: text_view(self.orig_cl_ord_id),
            symbol: text_view(self.symbol),
            side: text_view(self.side),
            qty: text_view(self.qty),
            cum_qty: text_view(self.cum_qty),
            leaves_qty: text_view(self.leaves_qty),
            avg_px: text_view(self.avg_px),
            ord_type: text_view(self.ord_type),
            time_in_force: text_view(self.time_in_force),
            trade_date: text_view(self.trade_date),
            settl_date: text_view(self.settl_date),
            settl_date2: text_view(self.settl_date2),
            currency: text_view(self.currency),
            ord_type_desc: text_view(self.ord_type_desc),
            tif_desc: text_view(self.tif_desc),
            order_qty_name: text_view(self.order_qty_name),
            cum_qty_name: text_view(self.cum_qty_name),
            leaves_qty_name: text_view(self.leaves_qty_name),
            avg_px_name: text_view(self.avg_px_name),
            ord_type_name: text_view(self.ord_type_name),
            tif_name: text_view(self.tif_name),
            trade_date_name: text_view(self.trade_date_name),
            settl_date_name: text_view(self.settl_date_name),
            settl_date2_name: text_view(self.settl_date2_name),
            ord_type_code: text_view(self.ord_type_code),
            tif_code: text_view(self.tif_code),
            price: text_view(self.price),
            spot_rate: text_view(self.spot_rate),
            spot_rate_name: text_view(self.spot_rate_name),
            last_qty: text_view(self.last_qty),
            bn_exec_amt: text_view(self.bn_exec_amt),
            bn_seen: self.bn_seen,
            events: event_views(self.events@),
            messages: texts(self.messages@),
        }
    }
}

/// An order of which only the key is known.
pub open spec fn new_order(key: Seq<char>) -> OrderView {
    OrderView {
        key,
        order_id: None,
        cl_ord_id: None,
        orig_cl_ord_id: None,
        symbol: None,
        side: None,
        qty: None,
        cum_qty: None,
        leaves_qty: None,
        avg_px: None,
        ord_type: None,
        time_in_force: None,
        trade_date: None,
        settl_date: None,
        settl_date2: None,
        currency: None,
        ord_type_desc: None,
        tif_desc: None,
        order_qty_name: None,
        cum_qty_name: None,
        leaves_qty_name: None,
        avg_px_name: None,
        ord_type_name: None,
        tif_name: None,
        trade_date_name: None,
        settl_date_name: None,
        settl_date2_name: None,
        ord_type_code: None,
        tif_code: None,
        price: None,
        spot_rate: None,
        spot_rate_name: None,
        last_qty: None,
        bn_exec_amt: None,
        bn_seen: false,
        events: seq![],
        messages: seq![],
    }
}

/// The fields of a message by tag.
pub type FieldMap = Map<u32, Seq<char>>;

pub open spec fn value_in(fields: FieldMap, tag: u32) -> Option<Seq<char>> {
    if fields.contains_key(tag) {
        Some(fields[tag])
    } else {
        None
    }
}

/// The new value where there is one, else the old.
pub open spec fn latest(old: Option<Seq<char>>, new: Option<Seq<char>>) -> Option<Seq<char>> {
    if new is Some {
        new
    } else {
        old
    }
}

/// The old name where there is one; else, where the field occurs, its name.
pub open spec fn named(
    old: Option<Seq<char>>,
    fields: FieldMap,
    tag: u32,
    dict: LookupModel,
    name_tag: u32,
) -> Option<Seq<char>> {
    if old is None && fields.contains_key(tag) {
        Some(dict.field_name(name_tag))
    } else {
        old
    }
}

/// What the event of a message says; the message itself is not checked here.
pub open spec fn event_in(fields: FieldMap, dict: LookupModel) -> EventView {
    EventView {
        time: latest(value_in(fields, 52), value_in(fields, 60)),
        msg_type: value_in(fields, 35),
        msg_type_desc: match value_in(fields, 35) {
            Some(code) => dict.enum_description(35, code),
            None => None,
        },
        exec_type: value_in(fields, 150),
        ord_status: value_in(fields, 39),
        exec_ack_status: value_in(fields, 1036),
        state: derived_state(
            value_in(fields, 150),
            value_in(fields, 39),
            value_in(fields, 151),
            value_in(fields, 1036),
        ),
        cum_qty: value_in(fields, 14),
        leaves_qty: value_in(fields, 151),
        last_qty: value_in(fields, 32),
        last_px: value_in(fields, 31),
        avg_px: value_in(fields, 6),
        text: value_in(fields, 58),
        cl_ord_id: value_in(fields, 11),
        orig_cl_ord_id: value_in(fields, 41),
        fault: None,
    }
}

/// A text; nothing where there is none.
pub open spec fn or_empty(text: Option<Seq<char>>) -> Seq<char> {
    match text {
        Some(text) => text,
        None => seq![],
    }
}

/// The times of events; one without a time counts as the earliest.
pub open spec fn times(events: Seq<EventView>) -> Seq<Seq<char>> {
    events.map_values(|e: EventView| or_empty(e.time))
}

impl EventView {
    /// What tells events apart: the values that the message gives, an absent one like an
    /// empty one, and the state. Whether the message is valid does not count.
    pub open spec fn fingerprint(self) -> Seq<Seq<char>> {
        seq![
            or_empty(self.time),
            or_empty(self.msg_type),
            or_empty(self.exec_type),
            or_empty(self.ord_status),
            or_empty(self.exec_ack_status),
            or_empty(self.cum_qty),
            or_empty(self.leaves_qty),
            or_empty(self.last_qty),
            or_empty(self.last_px),
            or_empty(self.avg_px),
            or_empty(self.text),
            or_empty(self.cl_ord_id),
            or_empty(self.orig_cl_ord_id),
            self.state,
        ]
    }
}

pub open spec fn fingerprints(events: Seq<EventView>) -> Seq<Seq<Seq<char>>> {
    events.map_values(|e: EventView| e.fingerprint())
}

/// The positions in `order`, without those of events that repeat one listed already.
pub open spec fn unrepeated(events: Seq<EventView>, order: Seq<usize>) -> Seq<usize>
    decreases order.len(),
{
    if order.len() == 0 {
        seq![]
    } else {
        let before = unrepeated(events, order.drop_last());
        if arranged(fingerprints(events), before).contains(
            fingerprints(events)[order.last() as int],
        ) {
            before
        } else {
            before.push(order.last())
        }
    }
}

/// The positions of the events in the order of their times, each event once; events of one
/// time keep their order.
pub open spec fn chronology(events: Seq<EventView>) -> Seq<usize> {
    unrepeated(events, text_order(times(events)))
}

/// The states that events go through, without repetitions in a row.
pub open spec fn states(events: Seq<EventView>) -> Seq<Seq<char>>
    decreases events.len(),
{
    if events.len() == 0 {
        seq![]
    } else {
        let before = states(events.drop_last());
        if before.len() > 0 && before.last() == events.last().state {
            before
        } else {
            before.push(events.last().state)
        }
    }
}

/// The latest acknowledgement among the events.
pub open spec fn last_ack(events: Seq<EventView>) -> Option<Seq<char>>
    decreases events.len(),
{
    if events.len() == 0 {
        None
    } else if events.last().exec_ack_status is Some {
        events.last().exec_ack_status
    } else {
        last_ack(events.drop_last())
    }
}

/// A state that an order does not leave.
pub open spec fn is_final_state(state: Seq<char>) -> bool {
    state == "Filled"@ || state == "Canceled"@ || state == "Rejected"@ || state == "Done for Day"@
        || state == "Expired"@ || state == "Stopped"@ || state == "Suspended"@ || state
        == "Calculated"@
}

pub open spec fn is_final_ack(code: Seq<char>) -> bool {
    code == "1"@ || code == "3"@ || code == "4"@
}

impl OrderView {
    /// The events in the order of their times, each once.
    pub open spec fn ordered_events(self) -> Seq<EventView> {
        arranged(self.events, chronology(self.events))
    }

    /// The states that the order went through.
    pub open spec fn path(self) -> Seq<Seq<char>> {
        states(self.ordered_events())
    }

    /// The order is done: by its last state, or by its last acknowledgement.
    pub open spec fn is_terminal(self) -> bool {
        (self.path().len() > 0 && is_final_state(self.path().last())) || (last_ack(
            self.ordered_events(),
        ) matches Some(code) && is_final_ack(code))
    }

    /// The identifiers are kept once they are known.
    pub open spec fn with_ids(
        self,
        order_id: Option<Seq<char>>,
        cl_ord_id: Option<Seq<char>>,
        orig: Option<Seq<char>>,
    ) -> OrderView {
        OrderView {
            order_id: latest(order_id, self.order_id),
            cl_ord_id: latest(cl_ord_id, self.cl_ord_id),
            orig_cl_ord_id: latest(orig, self.orig_cl_ord_id),
            ..self
        }
    }

    pub open spec fn with_core(self, f: FieldMap, dict: LookupModel) -> OrderView {
        OrderView {
            symbol: latest(self.symbol, value_in(f, 55)),
            side: latest(self.side, value_in(f, 54)),
            qty: latest(self.qty, value_in(f, 38)),
            order_qty_name: named(self.order_qty_name, f, 38, dict, 38),
            currency: latest(self.currency, value_in(f, 15)),
            last_qty: latest(self.last_qty, value_in(f, 32)),
            cum_qty: latest(self.cum_qty, value_in(f, 14)),
            cum_qty_name: named(self.cum_qty_name, f, 14, dict, 14),
            leaves_qty: latest(self.leaves_qty, value_in(f, 151)),
            leaves_qty_name: named(self.leaves_qty_name, f, 151, dict, 151),
            avg_px: latest(self.avg_px, value_in(f, 6)),
            avg_px_name: named(self.avg_px_name, f, 6, dict, 6),
            price: latest(self.price, value_in(f, 44)),
            spot_rate: latest(self.spot_rate, value_in(f, 190)),
            spot_rate_name: named(self.spot_rate_name, f, 190, dict, 190),
            ..self
        }
    }

    pub open spec fn with_enums(self, f: FieldMap, dict: LookupModel) -> OrderView {
        OrderView {
            ord_type: latest(self.ord_type, described_in(f, dict, 40)),
            ord_type_code: latest(self.ord_type_code, value_in(f, 40)),
            ord_type_name: named(self.ord_type_name, f, 40, dict, 40),
            ord_type_desc: latest(self.ord_type_desc, loud_in(f, dict, 40)),
            time_in_force: latest(self.time_in_force, described_in(f, dict, 59)),
            tif_code: latest(self.tif_code, value_in(f, 59)),
            tif_name: named(self.tif_name, f, 59, dict, 59),
            tif_desc: latest(self.tif_desc, loud_in(f, dict, 59)),
            ..self
        }
    }

    /// The trade date is that of the message, or the day of its transaction time.
    pub open spec fn with_dates(self, f: FieldMap, dict: LookupModel) -> OrderView {
        let day = match value_in(f, 60) {
            Some(text) => match date_part(text) {
                Some(day) => Some(day),
                None => Some(text),
            },
            None => None,
        };
        OrderView {
            trade_date: latest(latest(self.trade_date, day), value_in(f, 75)),
            trade_date_name: if f.contains_key(75) {
                Some(dict.field_name(75))
            } else {
                named(self.trade_date_name, f, 60, dict, 75)
            },
            settl_date: latest(self.settl_date, value_in(f, 64)),
            settl_date_name: named(self.settl_date_name, f, 64, dict, 64),
            settl_date2: latest(self.settl_date2, value_in(f, 193)),
            settl_date2_name: named(self.settl_date2_name, f, 193, dict, 193),
            ..self
        }
    }

    /// What a block notice adds: the rate, and the amount that was executed.
    pub open spec fn with_block(self, f: FieldMap, dict: LookupModel) -> OrderView {
        OrderView {
            bn_seen: true,
            spot_rate: latest(self.spot_rate, value_in(f, 31)),
            spot_rate_name: named(self.spot_rate_name, f, 31, dict, 31),
            bn_exec_amt: latest(self.bn_exec_amt, value_in(f, 38)),
            ..self
        }
    }

    /// The order with what a message says of it.
    pub open spec fn absorbed(
        self,
        f: FieldMap,
        dict: LookupModel,
        msg_type: Option<Seq<char>>,
    ) -> OrderView {
        let known = self.with_core(f, dict).with_enums(f, dict).with_dates(f, dict);
        if msg_type == Some("BN"@) {
            known.with_block(f, dict)
        } else {
            known
        }
    }

    pub open spec fn shown_id(self) -> Seq<char> {
        match self.order_id {
            Some(id) => id,
            None => match self.cl_ord_id {
                Some(id) => id,
                None => self.key,
            },
        }
    }

    pub open spec fn shown_instrument(self) -> Seq<char> {
        (match self.side {
            Some(code) => side_name(code),
            None => "-"@,
        }) + " "@ + or_dash(self.symbol)
    }
}

/// A text, or a dash.
pub open spec fn or_dash(text: Option<Seq<char>>) -> Seq<char> {
    match text {
        Some(text) => text,
        None => "-"@,
    }
}

/// The value of a field with its description.
pub open spec fn described_in(f: FieldMap, dict: LookupModel, tag: u32) -> Option<Seq<char>> {
    match value_in(f, tag) {
        Some(value) => Some(described(dict, tag, value)),
        None => None,
    }
}

/// The description of a field's value in large letters, if it has one.
pub open spec fn loud_in(f: FieldMap, dict: LookupModel, tag: u32) -> Option<Seq<char>> {
    match value_in(f, tag) {
        Some(value) => match dict.enum_description(tag, value) {
            Some(text) => Some(uppered(text)),
            None => None,
        },
        None => None,
    }
}

pub(crate) fn copy_value(fields: &HashMap<u32, String>, tag: u32) -> (value: Option<String>)
    ensures
        text_view(value) == value_in(string_values(fields@), tag),
{
    match fields.get(&tag) {
        Some(text) => Some(copy_of(text.as_str())),
        None => None,
    }
}

fn set_value(target: &mut Option<String>, value: Option<String>)
    ensures
        text_view(*final(target)) == latest(text_view(*old(target)), text_view(value)),
{
    if value.is_some() {
        *target = value;
    }
}

fn set_name(
    slot: &mut Option<String>,
    fields: &HashMap<u32, String>,
    tag: u32,
    dict: &FixTagLookup,
    name_tag: u32,
)
    ensures
        text_view(*final(slot)) == named(
            text_view(*old(slot)),
            string_values(fields@),
            tag,
            dict.model(),
            name_tag,
        ),
{
    if slot.is_none() && fields.contains_key(&tag) {
        *slot = Some(dict.field_name(name_tag));
    }
}

/// A text; nothing where there is none.
fn blank(text: &Option<String>) -> (shown: &str)
    ensures
        shown@ == or_empty(text_view(*text)),
{
    proof {
        reveal_strlit("");
        assert(""@ =~= Seq::<char>::empty());
    }
    match text {
        Some(text) => text.as_str(),
        None => "",
    }
}

/// Whether two texts are the same, an absent one like an empty one.
fn same_value(a: &Option<String>, b: &Option<String>) -> (yes: bool)
    ensures
        yes == (or_empty(text_view(*a)) == or_empty(text_view(*b))),
{
    same(blank(a), blank(b))
}

impl OrderEvent {
    /// What a message with the given fields says of its order.
    pub fn from_fields(fields: &HashMap<u32, String>, dict: &FixTagLookup) -> (event: OrderEvent)
        ensures
            event@ == event_in(string_values(fields@), dict.model()),
    {
        let exec_type = copy_value(fields, 150);
        let ord_status = copy_value(fields, 39);
        let exec_ack_status = copy_value(fields, 1036);
        let leaves_qty = copy_value(fields, 151);
        let state = derive_state(
            borrowed(&exec_type),
            borrowed(&ord_status),
            borrowed(&leaves_qty),
            borrowed(&exec_ack_status),
        );
        let msg_type = copy_value(fields, 35);
        let msg_type_desc: Option<String> = match &msg_type {
            Some(code) => match dict.enum_description(35, code.as_str()) {
                Some(text) => Some(copy_of(text)),
                None => None,
            },
            None => None,
        };
        let sent = copy_value(fields, 60);
        let time = if sent.is_some() {
            sent
        } else {
            copy_value(fields, 52)
        };
        OrderEvent {
            time,
            msg_type,
            msg_type_desc,
            exec_type,
            ord_status,
            exec_ack_status,
            cum_qty: copy_value(fields, 14),
            leaves_qty,
            last_qty: copy_value(fields, 32),
            last_px: copy_value(fields, 31),
            avg_px: copy_value(fields, 6),
            text: copy_value(fields, 58),
            cl_ord_id: copy_value(fields, 11),
            orig_cl_ord_id: copy_value(fields, 41),
            state: copy_of(state),
            fault: None,
        }
    }

    /// Whether two events have the same fingerprint.
    pub fn is_repeat_of(&self, other: &OrderEvent) -> (yes: bool)
        ensures
            yes == (self@.fingerprint() == other@.fingerprint()),
    {
        let ghost a = self@.fingerprint();
        let ghost b = other@.fingerprint();
        let yes: bool = same_value(&self.time, &other.time) && same_value(
            &self.msg_type,
            &other.msg_type,
        ) && same_value(&self.exec_type, &other.exec_type) && same_value(
            &self.ord_status,
            &other.ord_status,
        ) && same_value(&self.exec_ack_status, &other.exec_ack_status) && same_value(
            &self.cum_qty,
            &other.cum_qty,
        ) && same_value(&self.leaves_qty, &other.leaves_qty) && same_value(
            &self.last_qty,
            &other.last_qty,
        ) && same_value(&self.last_px, &other.last_px) && same_value(
            &self.avg_px,
            &other.avg_px,
        ) && same_value(&self.text, &other.text) && same_value(
            &self.cl_ord_id,
            &other.cl_ord_id,
        ) && same_value(&self.orig_cl_ord_id, &other.orig_cl_ord_id) && same(
            self.state.as_str(),
            other.state.as_str(),
        );
        proof {
            if yes {
                assert(a =~= b);
            } else {
                assert(a[0] != b[0] || a[1] != b[1] || a[2] != b[2] || a[3] != b[3] || a[4] != b[4]
                    || a[5] != b[5] || a[6] != b[6] || a[7] != b[7] || a[8] != b[8] || a[9] != b[9]
                    || a[10] != b[10] || a[11] != b[11] || a[12] != b[12] || a[13] != b[13]);
            }
        }
        yes
    }

    /// The same event once more.
    pub fn duplicate(&self) -> (copy: OrderEvent)
        ensures
            copy@ == self@,
    {
        OrderEvent {
            time: copy_label(&self.time),
            msg_type: copy_label(&self.msg_type),
            msg_type_desc: copy_label(&self.msg_type_desc),
            exec_type: copy_label(&self.exec_type),
            ord_status: copy_label(&self.ord_status),
            exec_ack_status: copy_label(&self.exec_ack_status),
            cum_qty: copy_label(&self.cum_qty),
            leaves_qty: copy_label(&self.leaves_qty),
            last_qty: copy_label(&self.last_qty),
            last_px: copy_label(&self.last_px),
            avg_px: copy_label(&self.avg_px),
            text: copy_label(&self.text),
            cl_ord_id: copy_label(&self.cl_ord_id),
            orig_cl_ord_id: copy_label(&self.orig_cl_ord_id),
            state: copy_of(self.state.as_str()),
            fault: copy_label(&self.fault),
        }
    }
}

/// A text, borrowed.
pub(crate) fn borrowed(text: &Option<String>) -> (view: Option<&str>)
    ensures
        opt_str(view) == text_view(*text),
{
    match text {
        Some(text) => Some(text.as_str()),
        None => None,
    }
}

impl OrderRecord {
    pub fn new(key: String) -> (record: OrderRecord)
        ensures
            record@ == new_order(key@),
    {
        let record = OrderRecord {
            key,
            order_id: None,
            cl_ord_id: None,
            orig_cl_ord_id: None,
            symbol: None,
            side: None,
            qty: None,
            cum_qty: None,
            leaves_qty: None,
            avg_px: None,
            ord_type: None,
            time_in_force: None,
            trade_date: None,
            settl_date: None,
            settl_date2: None,
            currency: None,
            ord_type_desc: None,
            tif_desc: None,
            order_qty_name: None,
            cum_qty_name: None,
            leaves_qty_name: None,
            avg_px_name: None,
            ord_type_name: None,
            tif_name: None,
            trade_date_name: None,
            settl_date_name: None,
            settl_date2_name: None,
            ord_type_code: None,
            tif_code: None,
            price: None,
            spot_rate: None,
            spot_rate_name: None,
            last_qty: None,
            bn_exec_amt: None,
            bn_seen: false,
            events: Vec::new(),
            messages: Vec::new(),
        };
        assert(record@ =~= new_order(key@));
        record
    }

    fn timed_order(&self) -> (order: Vec<usize>)
        ensures
            order@ == text_order(times(self@.events)),
            each_once(order@, self@.events.len()),
    {
        let mut keys: Vec<&str> = Vec::new();
        let mut i: usize = 0;
        while i < self.events.len()
            invariant
                i <= self.events@.len(),
                keys@.len() == i,
                forall|j: int| 0 <= j < i ==> (#[trigger] keys@[j])@ == times(self@.events)[j],
            decreases self.events@.len() - i,
        {
            assert(self@.events[i as int] == self.events@[i as int]@);
            keys.push(blank(&self.events[i].time));
            i += 1;
        }
        assert(borrowed_texts(keys@) =~= times(self@.events));
        order_by_text(&keys)
    }

    /// Whether an event repeats one of those at the given positions.
    fn lists(&self, kept: &Vec<usize>, event: &OrderEvent) -> (yes: bool)
        requires
            forall|i: int| 0 <= i < kept@.len() ==> (#[trigger] kept@[i]) < self.events@.len(),
        ensures
            yes == arranged(fingerprints(self@.events), kept@).contains(event@.fingerprint()),
    {
        let ghost listed = arranged(fingerprints(self@.events), kept@);
        let mut i: usize = 0;
        while i < kept.len()
            invariant
                i <= kept@.len(),
                forall|i: int| 0 <= i < kept@.len() ==> (#[trigger] kept@[i]) < self.events@.len(),
                listed == arranged(fingerprints(self@.events), kept@),
                forall|j: int| 0 <= j < i ==> listed[j] != event@.fingerprint(),
            decreases kept@.len() - i,
        {
            assert(listed[i as int] == self.events@[kept@[i as int] as int]@.fingerprint());
            if self.events[kept[i]].is_repeat_of(event) {
                return true;
            }
            i += 1;
        }
        false
    }

    /// The positions of the events in the order of their times, each event once.
    pub fn chronology(&self) -> (positions: Vec<usize>)
        ensures
            positions@ == chronology(self@.events),
            forall|i: int|
                0 <= i < positions@.len() ==> (#[trigger] positions@[i]) < self.events@.len(),
    {
        let order = self.timed_order();
        let ghost all = order@;
        let mut kept: Vec<usize> = Vec::new();
        let mut i: usize = 0;
        assert(all.take(0) =~= seq![]);
        while i < order.len()
            invariant
                i <= order@.len(),
                all == order@,
                each_once(order@, self@.events.len()),
                kept@ == unrepeated(self@.events, all.take(i as int)),
                forall|j: int| 0 <= j < kept@.len() ==> (#[trigger] kept@[j]) < self.events@.len(),
            decreases order@.len() - i,
        {
            let at: usize = order[i];
            assert(all.take(i + 1).drop_last() =~= all.take(i as int));
            assert(all.take(i + 1).last() == at);
            assert(self@.events[at as int] == self.events@[at as int]@);
            if !self.lists(&kept, &self.events[at]) {
                kept.push(at);
            }
            i += 1;
        }
        assert(all.take(i as int) =~= all);
        kept
    }

    /// The states that the order went through.
    pub fn state_path(&self) -> (path: Vec<String>)
        ensures
            texts(path@) == self@.path(),
    {
        let positions = self.chronology();
        let ghost all = self@.ordered_events();
        let mut path: Vec<String> = Vec::new();
        let mut i: usize = 0;
        assert(texts(path@) =~= states(all.take(0)));
        while i < positions.len()
            invariant
                i <= positions@.len(),
                positions@ == chronology(self@.events),
                forall|j: int|
                    0 <= j < positions@.len() ==> (#[trigger] positions@[j]) < self.events@.len(),
                all == self@.ordered_events(),
                texts(path@) == states(all.take(i as int)),
            decreases positions@.len() - i,
        {
            let event = &self.events[positions[i]];
            assert(all.take(i + 1).drop_last() =~= all.take(i as int));
            assert(all.take(i + 1).last() == event@);
            let ghost before = path@;
            let again: bool = path.len() > 0 && same(
                path[path.len() - 1].as_str(),
                event.state.as_str(),
            );
            assert(path@.len() > 0 ==> texts(path@).last() == path@[path@.len() - 1]@);
            if !again {
                path.push(copy_of(event.state.as_str()));
                assert(texts(path@) =~= texts(before).push(event.state@));
            }
            i += 1;
        }
        assert(all.take(all.len() as int) =~= all);
        path
    }

    fn last_ack_status(&self) -> (code: Option<&str>)
        ensures
            opt_str(code) == last_ack(self@.ordered_events()),
    {
        let positions = self.chronology();
        let ghost all = self@.ordered_events();
        let mut n: usize = positions.len();
        assert(all.take(all.len() as int) =~= all);
        while n > 0
            invariant
                n <= positions@.len(),
                positions@ == chronology(self@.events),
                forall|j: int|
                    0 <= j < positions@.len() ==> (#[trigger] positions@[j]) < self.events@.len(),
                all == self@.ordered_events(),
                last_ack(all) == last_ack(all.take(n as int)),
            decreases n,
        {
            assert(all.take(n as int).last() == self.events@[positions@[n - 1] as int]@);
            assert(all.take(n as int).drop_last() =~= all.take(n - 1));
            n -= 1;
            if let Some(code) = &self.events[positions[n]].exec_ack_status {
                return Some(code.as_str());
            }
        }
        None
    }

    /// Whether the order is done.
    pub fn is_terminal(&self) -> (yes: bool)
        ensures
            yes == self@.is_terminal(),
    {
        let path = self.state_path();
        if path.len() > 0 {
            let state = path[path.len() - 1].as_str();
            assert(texts(path@).last() == state@);
            if same(state, "Filled") || same(state, "Canceled") || same(state, "Rejected") || same(
                state,
                "Done for Day",
            ) || same(state, "Expired") || same(state, "Stopped") || same(state, "Suspended")
                || same(state, "Calculated") {
                return true;
            }
        }
        match self.last_ack_status() {
            Some(code) => same(code, "1") || same(code, "3") || same(code, "4"),
            None => false,
        }
    }

    /// Takes the identifiers that are not known yet.
    pub fn merge_ids(
        &mut self,
        order_id: Option<String>,
        cl_ord_id: Option<String>,
        orig: Option<String>,
    )
        ensures
            final(self)@ == old(self)@.with_ids(
                text_view(order_id),
                text_view(cl_ord_id),
                text_view(orig),
            ),
    {
        if self.order_id.is_none() {
            self.order_id = order_id;
        }
        if self.cl_ord_id.is_none() {
            self.cl_ord_id = cl_ord_id;
        }
        if self.orig_cl_ord_id.is_none() {
            self.orig_cl_ord_id = orig;
        }
    }

    fn copy_core_fields(&mut self, fields: &HashMap<u32, String>, dict: &FixTagLookup)
        ensures
            final(self)@ == old(self)@.with_core(string_values(fields@), dict.model()),
    {
        set_value(&mut self.symbol, copy_value(fields, 55));
        set_value(&mut self.side, copy_value(fields, 54));
        set_value(&mut self.qty, copy_value(fields, 38));
        set_name(&mut self.order_qty_name, fields, 38, dict, 38);
        set_value(&mut self.currency, copy_value(fields, 15));
        set_value(&mut self.last_qty, copy_value(fields, 32));
        set_value(&mut self.cum_qty, copy_value(fields, 14));
        set_name(&mut self.cum_qty_name, fields, 14, dict, 14);
        set_value(&mut self.leaves_qty, copy_value(fields, 151));
        set_name(&mut self.leaves_qty_name, fields, 151, dict, 151);
        set_value(&mut self.avg_px, copy_value(fields, 6));
        set_name(&mut self.avg_px_name, fields, 6, dict, 6);
        set_value(&mut self.price, copy_value(fields, 44));
        set_value(&mut self.spot_rate, copy_value(fields, 190));
        set_name(&mut self.spot_rate_name, fields, 190, dict, 190);
    }

    fn copy_enum_fields(&mut self, fields: &HashMap<u32, String>, dict: &FixTagLookup)
        ensures
            final(self)@ == old(self)@.with_enums(string_values(fields@), dict.model()),
    {
        set_value(&mut self.ord_type, describe_field(fields, dict, 40));
        set_value(&mut self.ord_type_code, copy_value(fields, 40));
        set_name(&mut self.ord_type_name, fields, 40, dict, 40);
        set_value(&mut self.ord_type_desc, loud_description(fields, dict, 40));
        set_value(&mut self.time_in_force, describe_field(fields, dict, 59));
        set_value(&mut self.tif_code, copy_value(fields, 59));
        set_name(&mut self.tif_name, fields, 59, dict, 59);
        set_value(&mut self.tif_desc, loud_description(fields, dict, 59));
    }

    fn copy_trade_and_settlement(&mut self, fields: &HashMap<u32, String>, dict: &FixTagLookup)
        ensures
            final(self)@ == old(self)@.with_dates(string_values(fields@), dict.model()),
    {
        let day: Option<String> = match fields.get(&60) {
            Some(sent) => match extract_date_part(sent.as_str()) {
                Some(day) => Some(day),
                None => Some(copy_of(sent.as_str())),
            },
            None => None,
        };
        set_value(&mut self.trade_date, day);
        set_value(&mut self.trade_date, copy_value(fields, 75));
        if fields.contains_key(&75) {
            self.trade_date_name = Some(dict.field_name(75));
        } else {
            set_name(&mut self.trade_date_name, fields, 60, dict, 75);
        }
        set_value(&mut self.settl_date, copy_value(fields, 64));
        set_name(&mut self.settl_date_name, fields, 64, dict, 64);
        set_value(&mut self.settl_date2, copy_value(fields, 193));
        set_name(&mut self.settl_date2_name, fields, 193, dict, 193);
    }

    fn absorb_block_notice(&mut self, fields: &HashMap<u32, String>, dict: &FixTagLookup)
        ensures
            final(self)@ == old(self)@.with_block(string_values(fields@), dict.model()),
    {
        self.bn_seen = true;
        set_value(&mut self.spot_rate, copy_value(fields, 31));
        set_name(&mut self.spot_rate_name, fields, 31, dict, 31);
        set_value(&mut self.bn_exec_amt, copy_value(fields, 38));
    }

    /// Takes over what a message says of the order.
    pub fn absorb_fields(
        &mut self,
        fields: &HashMap<u32, String>,
        dict: &FixTagLookup,
        msg_type: Option<&str>,
    )
        ensures
            final(self)@ == old(self)@.absorbed(
                string_values(fields@),
                dict.model(),
                opt_str(msg_type),
            ),
    {
        self.copy_core_fields(fields, dict);
        self.copy_enum_fields(fields, dict);
        self.copy_trade_and_settlement(fields, dict);
        if let Some(code) = msg_type {
            if same(code, "BN") {
                self.absorb_block_notice(fields, dict);
            }
        }
    }

    /// The identifier that the order is shown under.
    pub fn display_id(&self) -> (id: String)
        ensures
            id@ == self@.shown_id(),
    {
        if let Some(id) = &self.order_id {
            return copy_of(id.as_str());
        }
        if let Some(id) = &self.cl_ord_id {
            return copy_of(id.as_str());
        }
        copy_of(self.key.as_str())
    }

    /// Side and symbol.
    pub fn display_instrument(&self) -> (text: String)
        ensures
            text@ == self@.shown_instrument(),
    {
        let mut text = match &self.side {
            Some(code) => copy_of(side_label(code.as_str())),
            None => copy_of("-"),
        };
        text.append(" ");
        text.append(dash(&self.symbol));
        text
    }

    /// Adds what a message said, and the message itself.
    pub(crate) fn push_event(&mut self, event: OrderEvent, message: String)
        ensures
            final(self)@ == (OrderView {
                events: old(self)@.events.push(event@),
                messages: old(self)@.messages.push(message@),
                ..old(self)@
            }),
    {
        let ghost before = *self;
        let ghost view = event@;
        let ghost text = message@;
        self.events.push(event);
        assert(event_views(self.events@) =~= event_views(before.events@).push(view));
        self.messages.push(message);
        assert(texts(self.messages@) =~= texts(before.messages@).push(text));
    }
}

fn describe_field(fields: &HashMap<u32, String>, dict: &FixTagLookup, tag: u32) -> (text: Option<
    String,
>)
    ensures
        text_view(text) == described_in(string_values(fields@), dict.model(), tag),
{
    match fields.get(&tag) {
        Some(value) => Some(enum_label(dict, tag, value.as_str())),
        None => None,
    }
}

fn loud_description(fields: &HashMap<u32, String>, dict: &FixTagLookup, tag: u32) -> (text: Option<
    String,
>)
    ensures
        text_view(text) == loud_in(string_values(fields@), dict.model(), tag),
{
    match fields.get(&tag) {
        Some(value) => match dict.enum_description(tag, value.as_str()) {
            Some(desc) => Some(to_upper(desc)),
            None => None,
        },
        None => None,
    }
}

/// A text, or a dash.
pub(crate) fn dash(text: &Option<String>) -> (shown: &str)
    ensures
        shown@ == or_dash(text_view(*text)),
{
    match text {
        Some(text) => text.as_str(),
        None => "-",
    }
}

} // verus!
