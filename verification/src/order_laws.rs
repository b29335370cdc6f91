//! What an order shows after each of its messages.
use crate::fixparser::{fields_of, FieldPair};
use crate::message_laws::{digits, law_numbers_are_written};
use crate::order_labels::{
    derived_state, exec_ack_label, exec_type_label, ord_status_label,
};
use crate::order_record::{
    last_ack, states, value_in, EventView, OrderView,
};
use crate::summary::{field_map, keyed_order, SummaryView};
use crate::summary_laws::{lemma_keyed_order, lemma_update_keeps_key};
use crate::tag_lookup::LookupModel;
use crate::text::SOH;
use vstd::prelude::*;

verus! {


/// The field at `i` is the last one with the tag.
pub open spec fn is_last(fields: Seq<FieldPair>, i: int, tag: u32) -> bool {
    &&& 0 <= i < fields.len()
    &&& fields[i].0 == tag
    &&& forall|j: int| i < j < fields.len() ==> (#[trigger] fields[j]).0 != tag
}

/// No field has the tag.
pub open spec fn silent(fields: Seq<FieldPair>, tag: u32) -> bool {
    forall|j: int| 0 <= j < fields.len() ==> (#[trigger] fields[j]).0 != tag
}

proof fn lemma_field_map(fields: Seq<FieldPair>, tag: u32)
    ensures
        silent(fields, tag) <==> value_in(field_map(fields), tag) is None,
        forall|i: int| #[trigger]
            is_last(fields, i, tag) ==> value_in(field_map(fields), tag) == Some(fields[i].1),
        !silent(fields, tag) ==> exists|i: int| is_last(fields, i, tag),
    decreases fields.len(),
{
    if fields.len() > 0 {
        let shorter = fields.drop_last();
        let n = fields.len() - 1;
        lemma_field_map(shorter, tag);
        assert(forall|j: int| 0 <= j < n ==> #[trigger] fields[j] == shorter[j]);
        if fields[n].0 == tag {
            assert(is_last(fields, n, tag));
            assert forall|i: int| #[trigger] is_last(fields, i, tag) implies i == n by {
                if i < n {
                    assert(fields[n].0 != tag);
                }
            }
        } else {
            assert forall|i: int| #[trigger] is_last(fields, i, tag) implies is_last(
                shorter,
                i,
                tag,
            ) by {}
            if !silent(shorter, tag) {
                let i = choose|i: int| is_last(shorter, i, tag);
                assert(is_last(fields, i, tag));
            }
            assert(silent(shorter, tag) ==> silent(fields, tag));
            if silent(fields, tag) {
                assert forall|j: int| 0 <= j < shorter.len() implies (#[trigger] shorter[j]).0
                    != tag by {
                    assert(fields[j].0 != tag);
                }
            }
        }
    }
}

/// What is known follows the message: it is what the last field with the tag says, and stays
/// where there is none.
pub open spec fn follows(
    fields: Seq<FieldPair>,
    tag: u32,
    before: Option<Seq<char>>,
    after: Option<Seq<char>>,
) -> bool {
    &&& silent(fields, tag) ==> after == before
    &&& forall|i: int| #[trigger] is_last(fields, i, tag) ==> after == Some(fields[i].1)
}

/// What is known is kept: the message counts only where nothing was known.
pub open spec fn kept(
    fields: Seq<FieldPair>,
    tag: u32,
    before: Option<Seq<char>>,
    after: Option<Seq<char>>,
) -> bool {
    if before is Some {
        after == before
    } else {
        follows(fields, tag, None, after)
    }
}

/// The name of a field is kept once it is known, and learnt with the field.
pub open spec fn learnt(
    fields: Seq<FieldPair>,
    tag: u32,
    before: Option<Seq<char>>,
    after: Option<Seq<char>>,
    name: Seq<char>,
) -> bool {
    after == if before is None && !silent(fields, tag) {
        Some(name)
    } else {
        before
    }
}

impl SummaryView {
    /// The order that is held under a key, open or completed.
    pub open spec fn held(self, key: Seq<char>) -> Option<OrderView> {
        if self.orders.contains_key(key) {
            Some(self.orders[key])
        } else if self.holds(key) {
            Some(
                self.completed[choose|i: int|
                    0 <= i < self.completed.len() && (#[trigger] self.completed[i]).key == key],
            )
        } else {
            None
        }
    }
}

/// What was known of an order; nothing of one that is new.
pub open spec fn known(
    order: Option<OrderView>,
    part: spec_fn(OrderView) -> Option<Seq<char>>,
) -> Option<Seq<char>> {
    match order {
        Some(order) => part(order),
        None => None,
    }
}

proof fn lemma_held_completed(v: SummaryView, key: Seq<char>, at: int)
    requires
        v.orders_apart(),
        0 <= at < v.completed.len(),
        v.completed[at].key == key,
    ensures
        v.held(key) == Some(v.completed[at]),
{
    let i = choose|i: int|
        0 <= i < v.completed.len() && (#[trigger] v.completed[i]).key == key;
    assert(v.holds(key));
    if i < at {
        assert(v.completed[i].key != v.completed[at].key);
    }
    if at < i {
        assert(v.completed[at].key != v.completed[i].key);
    }
}

/// What recording takes up is what is held, and what it puts back is held again; all other
/// orders stay as they are.
proof fn lemma_held(
    v: SummaryView,
    msg: Seq<char>,
    dict: LookupModel,
    override_key: Option<Seq<char>>,
    other: Seq<char>,
)
    requires
        v.orders_apart(),
        v.records(msg, dict),
    ensures
        ({
            let fields = field_map(fields_of(msg));
            let key = v.key_for(fields).key;
            let named = v.with_override(override_key).named(fields);
            let (rest, order) = named.taken_up(key);
            let after = v.recorded(msg, dict, override_key);
            &&& after.held(key) == Some(rest.updated(order, msg, fields, dict))
            &&& v.held(key) matches Some(before) ==> order == before
            &&& v.held(key) is None ==> order == crate::order_record::new_order(key)
            &&& other != key ==> after.held(other) == v.held(other)
        }),
{
    let fields = field_map(fields_of(msg));
    let key = v.key_for(fields).key;
    let named = v.with_override(override_key).named(fields);
    let (rest, order) = named.taken_up(key);
    let last = rest.updated(order, msg, fields, dict);
    let after = v.recorded(msg, dict, override_key);
    let at = keyed_order(named.completed, 0, key);
    lemma_keyed_order(named.completed, 0, key);
    crate::summary_laws::law_recording_keeps_orders_apart(v, msg, dict, override_key);
    lemma_update_keeps_key(rest, order, msg, fields, dict);
    if !v.orders.contains_key(key) {
        if at < v.completed.len() {
            lemma_held_completed(v, key, at);
        } else {
            assert(!v.holds(key));
        }
    }
    assert(order.key == key);
    if last.is_terminal() {
        let n = after.completed.len() - 1;
        assert(after.completed[n] == last);
        lemma_held_completed(after, key, n);
    } else {
        assert(after.orders.contains_key(key));
    }
    if other != key {
        assert(after.orders.contains_key(other) == v.orders.contains_key(other));
        if !v.orders.contains_key(other) {
            if v.holds(other) {
                let i = choose|i: int|
                    0 <= i < v.completed.len() && (#[trigger] v.completed[i]).key == other;
                lemma_held_completed(v, other, i);
                let j = if v.orders.contains_key(key) || at >= v.completed.len() || i < at {
                    i
                } else {
                    i - 1
                };
                assert(rest.completed[j] == v.completed[i]);
                assert(after.completed[j] == v.completed[i]);
                lemma_held_completed(after, other, j);
            } else if after.holds(other) {
                let j = choose|j: int|
                    0 <= j < after.completed.len() && (#[trigger] after.completed[j]).key == other;
                assert(after.completed[j] != last);
                assert(j < rest.completed.len());
                assert(rest.completed[j] == after.completed[j]);
                let i = if v.orders.contains_key(key) || at >= v.completed.len() || j < at {
                    j
                } else {
                    j + 1
                };
                assert(v.completed[i].key == other);
                assert(v.holds(other));
            }
        }
    }
}

/// An order shows the latest that its messages say: symbol, side, quantities, prices and
/// currency are those of the message wherever it gives them, whatever was known before, and
/// stay where it gives none.
pub proof fn law_order_shows_the_latest(
    v: SummaryView,
    msg: Seq<char>,
    dict: LookupModel,
    override_key: Option<Seq<char>>,
)
    requires
        v.orders_apart(),
        v.records(msg, dict),
    ensures
        ({
            let fields = fields_of(msg);
            let key = v.key_for(field_map(fields)).key;
            let old = v.held(key);
            let held = v.recorded(msg, dict, override_key).held(key);
            let new = held->0;
            &&& held is Some
            &&& new.key == key
            &&& follows(fields, 55, known(old, |o: OrderView| o.symbol), new.symbol)
            &&& follows(fields, 54, known(old, |o: OrderView| o.side), new.side)
            &&& follows(fields, 38, known(old, |o: OrderView| o.qty), new.qty)
            &&& follows(fields, 15, known(old, |o: OrderView| o.currency), new.currency)
            &&& follows(fields, 32, known(old, |o: OrderView| o.last_qty), new.last_qty)
            &&& follows(fields, 14, known(old, |o: OrderView| o.cum_qty), new.cum_qty)
            &&& follows(fields, 151, known(old, |o: OrderView| o.leaves_qty), new.leaves_qty)
            &&& follows(fields, 6, known(old, |o: OrderView| o.avg_px), new.avg_px)
            &&& follows(fields, 44, known(old, |o: OrderView| o.price), new.price)
            &&& follows(fields, 40, known(old, |o: OrderView| o.ord_type_code), new.ord_type_code)
            &&& follows(fields, 59, known(old, |o: OrderView| o.tif_code), new.tif_code)
            &&& follows(fields, 64, known(old, |o: OrderView| o.settl_date), new.settl_date)
            &&& follows(fields, 193, known(old, |o: OrderView| o.settl_date2), new.settl_date2)
        }),
{
    let fields = fields_of(msg);
    let key = v.key_for(field_map(fields)).key;
    lemma_held(v, msg, dict, override_key, key);
    lemma_field_map(fields, 55);
    lemma_field_map(fields, 54);
    lemma_field_map(fields, 38);
    lemma_field_map(fields, 15);
    lemma_field_map(fields, 32);
    lemma_field_map(fields, 14);
    lemma_field_map(fields, 151);
    lemma_field_map(fields, 6);
    lemma_field_map(fields, 44);
    lemma_field_map(fields, 40);
    lemma_field_map(fields, 59);
    lemma_field_map(fields, 64);
    lemma_field_map(fields, 193);
    let named = v.with_override(override_key).named(field_map(fields));
    let (rest, order) = named.taken_up(key);
    lemma_update_keeps_key(rest, order, msg, field_map(fields), dict);
    lemma_keyed_order(named.completed, 0, key);
}

/// The type and the time in force of an order are shown with their description where the
/// dictionary has one, and else as they are.
pub open spec fn shown_code(dict: LookupModel, tag: u32, code: Seq<char>, shown: Seq<char>) -> bool {
    match dict.enum_description(tag, code) {
        Some(text) => shown == crate::order_labels::capitalised(text) + seq![' ', '('] + code + seq![
            ')',
        ],
        None => shown == code,
    }
}

/// What a message says of the type of an order and of the time that it is in force is shown;
/// the names of the fields are those of the dictionary in which they first came.
pub proof fn law_order_shows_codes_and_names(
    v: SummaryView,
    msg: Seq<char>,
    dict: LookupModel,
    override_key: Option<Seq<char>>,
)
    requires
        v.orders_apart(),
        v.records(msg, dict),
    ensures
        ({
            let fields = fields_of(msg);
            let key = v.key_for(field_map(fields)).key;
            let old = v.held(key);
            let new = v.recorded(msg, dict, override_key).held(key)->0;
            &&& forall|i: int| #[trigger]
                is_last(fields, i, 40) ==> (new.ord_type matches Some(shown) && shown_code(
                    dict,
                    40,
                    fields[i].1,
                    shown,
                ))
            &&& forall|i: int| #[trigger]
                is_last(fields, i, 59) ==> (new.time_in_force matches Some(shown) && shown_code(
                    dict,
                    59,
                    fields[i].1,
                    shown,
                ))
            &&& silent(fields, 40) ==> new.ord_type == known(old, |o: OrderView| o.ord_type)
            &&& silent(fields, 59) ==> new.time_in_force == known(
                old,
                |o: OrderView| o.time_in_force,
            )
            &&& learnt(
                fields,
                38,
                known(old, |o: OrderView| o.order_qty_name),
                new.order_qty_name,
                dict.field_name(38),
            )
            &&& learnt(
                fields,
                14,
                known(old, |o: OrderView| o.cum_qty_name),
                new.cum_qty_name,
                dict.field_name(14),
            )
            &&& learnt(
                fields,
                151,
                known(old, |o: OrderView| o.leaves_qty_name),
                new.leaves_qty_name,
                dict.field_name(151),
            )
            &&& learnt(
                fields,
                6,
                known(old, |o: OrderView| o.avg_px_name),
                new.avg_px_name,
                dict.field_name(6),
            )
            &&& learnt(
                fields,
                40,
                known(old, |o: OrderView| o.ord_type_name),
                new.ord_type_name,
                dict.field_name(40),
            )
            &&& learnt(
                fields,
                59,
                known(old, |o: OrderView| o.tif_name),
                new.tif_name,
                dict.field_name(59),
            )
            &&& learnt(
                fields,
                64,
                known(old, |o: OrderView| o.settl_date_name),
                new.settl_date_name,
                dict.field_name(64),
            )
            &&& learnt(
                fields,
                193,
                known(old, |o: OrderView| o.settl_date2_name),
                new.settl_date2_name,
                dict.field_name(193),
            )
        }),
{
    let fields = fields_of(msg);
    let key = v.key_for(field_map(fields)).key;
    lemma_held(v, msg, dict, override_key, key);
    lemma_field_map(fields, 38);
    lemma_field_map(fields, 14);
    lemma_field_map(fields, 151);
    lemma_field_map(fields, 6);
    lemma_field_map(fields, 40);
    lemma_field_map(fields, 59);
    lemma_field_map(fields, 64);
    lemma_field_map(fields, 193);
    reveal_strlit(" (");
    reveal_strlit(")");
    assert(" ("@ =~= seq![' ', '(']);
    assert(")"@ =~= seq![')']);
}

/// The identifiers of an order are those that its messages first gave.
pub proof fn law_order_keeps_its_identifiers(
    v: SummaryView,
    msg: Seq<char>,
    dict: LookupModel,
    override_key: Option<Seq<char>>,
)
    requires
        v.orders_apart(),
        v.records(msg, dict),
    ensures
        ({
            let fields = fields_of(msg);
            let key = v.key_for(field_map(fields)).key;
            let old = v.held(key);
            let new = v.recorded(msg, dict, override_key).held(key)->0;
            &&& kept(fields, 37, known(old, |o: OrderView| o.order_id), new.order_id)
            &&& kept(fields, 11, known(old, |o: OrderView| o.cl_ord_id), new.cl_ord_id)
            &&& kept(fields, 41, known(old, |o: OrderView| o.orig_cl_ord_id), new.orig_cl_ord_id)
        }),
{
    let fields = fields_of(msg);
    let key = v.key_for(field_map(fields)).key;
    lemma_held(v, msg, dict, override_key, key);
    lemma_field_map(fields, 37);
    lemma_field_map(fields, 11);
    lemma_field_map(fields, 41);
}

/// The message is a block notice.
pub open spec fn is_notice(fields: Seq<FieldPair>) -> bool {
    exists|i: int| #[trigger] is_last(fields, i, 35) && fields[i].1 == seq!['B', 'N']
}

/// A day as a timestamp starts with it: its first eight characters where they are digits, and
/// else all of it.
pub open spec fn day_of(time: Seq<char>) -> Seq<char> {
    if time.len() >= 8 && forall|i: int| 0 <= i < 8 ==> '0' <= #[trigger] time[i] <= '9' {
        time.take(8)
    } else {
        time
    }
}

/// The trade date is the one that the message gives, else the day of its transaction. Of a
/// block notice the rate is the price, and the amount that was executed its quantity; of any
/// other message only the spot rate counts. What a message leaves out stays.
pub proof fn law_order_shows_dates_and_rates(
    v: SummaryView,
    msg: Seq<char>,
    dict: LookupModel,
    override_key: Option<Seq<char>>,
)
    requires
        v.orders_apart(),
        v.records(msg, dict),
    ensures
        ({
            let fields = fields_of(msg);
            let key = v.key_for(field_map(fields)).key;
            let old = v.held(key);
            let new = v.recorded(msg, dict, override_key).held(key)->0;
            &&& forall|i: int| #[trigger]
                is_last(fields, i, 75) ==> new.trade_date == Some(fields[i].1)
            &&& forall|i: int|
                silent(fields, 75) && #[trigger] is_last(fields, i, 60) ==> new.trade_date == Some(
                    day_of(fields[i].1),
                )
            &&& silent(fields, 75) && silent(fields, 60) ==> new.trade_date == known(
                old,
                |o: OrderView| o.trade_date,
            )
            &&& new.bn_seen == (is_notice(fields) || (old matches Some(order) && order.bn_seen))
            &&& is_notice(fields) && !silent(fields, 31) ==> follows(
                fields,
                31,
                None,
                new.spot_rate,
            )
            &&& !is_notice(fields) || silent(fields, 31) ==> follows(
                fields,
                190,
                known(old, |o: OrderView| o.spot_rate),
                new.spot_rate,
            )
            &&& is_notice(fields) ==> follows(
                fields,
                38,
                known(old, |o: OrderView| o.bn_exec_amt),
                new.bn_exec_amt,
            )
            &&& !is_notice(fields) ==> new.bn_exec_amt == known(
                old,
                |o: OrderView| o.bn_exec_amt,
            )
        }),
{
    let fields = fields_of(msg);
    let key = v.key_for(field_map(fields)).key;
    lemma_held(v, msg, dict, override_key, key);
    lemma_field_map(fields, 75);
    lemma_field_map(fields, 60);
    lemma_field_map(fields, 35);
    lemma_field_map(fields, 31);
    lemma_field_map(fields, 190);
    lemma_field_map(fields, 38);
    reveal_strlit("BN");
    assert("BN"@ =~= seq!['B', 'N']);
    if value_in(field_map(fields), 35) == Some("BN"@) {
        let i = choose|i: int| is_last(fields, i, 35);
        assert(is_last(fields, i, 35));
    }
    assert forall|i: int| #[trigger] is_last(fields, i, 60) implies {
        let time = fields[i].1;
        (match crate::order_labels::date_part(time) {
            Some(day) => day,
            None => time,
        }) == day_of(time)
    } by {
        let time = fields[i].1;
        if time.len() >= 8 {
            assert(forall|k: int| 0 <= k < 8 ==> time.take(8)[k] == #[trigger] time[k]);
        }
    }
}

/// What a message says of one thing: what its last field with the tag holds, if it has one.
pub open spec fn says(fields: Seq<FieldPair>, tag: u32, value: Option<Seq<char>>) -> bool {
    follows(fields, tag, None, value)
}

/// Each message adds one event to its order, with what the message says, and is kept itself,
/// with the delimiter that is asked for in place of its own.
pub proof fn law_each_message_is_an_event(
    v: SummaryView,
    msg: Seq<char>,
    dict: LookupModel,
    override_key: Option<Seq<char>>,
)
    requires
        v.orders_apart(),
        v.records(msg, dict),
    ensures
        ({
            let fields = fields_of(msg);
            let key = v.key_for(field_map(fields)).key;
            let old = v.held(key);
            let new = v.recorded(msg, dict, override_key).held(key)->0;
            let events = match old {
                Some(order) => order.events,
                None => seq![],
            };
            let messages = match old {
                Some(order) => order.messages,
                None => seq![],
            };
            let event = new.events.last();
            let shown = new.messages.last();
            &&& new.events.len() == events.len() + 1
            &&& new.events.drop_last() == events
            &&& new.messages.len() == messages.len() + 1
            &&& new.messages.drop_last() == messages
            &&& shown.len() == msg.len()
            &&& forall|i: int|
                0 <= i < msg.len() ==> #[trigger] shown[i] == if msg[i] == SOH {
                    v.delimiter
                } else {
                    msg[i]
                }
            &&& !silent(fields, 60) ==> says(fields, 60, event.time)
            &&& silent(fields, 60) ==> says(fields, 52, event.time)
            &&& says(fields, 35, event.msg_type)
            &&& says(fields, 150, event.exec_type)
            &&& says(fields, 39, event.ord_status)
            &&& says(fields, 1036, event.exec_ack_status)
            &&& says(fields, 14, event.cum_qty)
            &&& says(fields, 151, event.leaves_qty)
            &&& says(fields, 32, event.last_qty)
            &&& says(fields, 31, event.last_px)
            &&& says(fields, 6, event.avg_px)
            &&& says(fields, 58, event.text)
            &&& says(fields, 11, event.cl_ord_id)
            &&& says(fields, 41, event.orig_cl_ord_id)
        }),
{
    let fields = fields_of(msg);
    let key = v.key_for(field_map(fields)).key;
    lemma_held(v, msg, dict, override_key, key);
    let named = v.with_override(override_key).named(field_map(fields));
    let (rest, order) = named.taken_up(key);
    let new = v.recorded(msg, dict, override_key).held(key)->0;
    assert(new.events.drop_last() =~= order.events);
    assert(new.messages.drop_last() =~= order.messages);
    lemma_field_map(fields, 60);
    lemma_field_map(fields, 52);
    lemma_field_map(fields, 35);
    lemma_field_map(fields, 150);
    lemma_field_map(fields, 39);
    lemma_field_map(fields, 1036);
    lemma_field_map(fields, 14);
    lemma_field_map(fields, 151);
    lemma_field_map(fields, 32);
    lemma_field_map(fields, 31);
    lemma_field_map(fields, 6);
    lemma_field_map(fields, 58);
    lemma_field_map(fields, 11);
    lemma_field_map(fields, 41);
}

/// A message changes no order but its own.
pub proof fn law_other_orders_stay(
    v: SummaryView,
    msg: Seq<char>,
    dict: LookupModel,
    override_key: Option<Seq<char>>,
    other: Seq<char>,
)
    requires
        v.orders_apart(),
        v.records(msg, dict),
        other != v.key_for(field_map(fields_of(msg))).key,
    ensures
        v.recorded(msg, dict, override_key).held(other) == v.held(other),
{
    lemma_held(v, msg, dict, override_key, other);
}

/// The states of orders by their codes.
pub open spec fn order_states() -> Seq<(char, Seq<char>)> {
    seq![
        ('A', "Pending New"@),
        ('0', "New"@),
        ('1', "Partially Filled"@),
        ('2', "Filled"@),
        ('3', "Done for Day"@),
        ('4', "Canceled"@),
        ('5', "Replaced"@),
        ('6', "Pending Cancel"@),
        ('7', "Stopped"@),
        ('8', "Rejected"@),
        ('9', "Suspended"@),
        ('B', "Calculated"@),
        ('C', "Expired"@),
        ('D', "Accepted for Bidding"@),
        ('E', "Pending Replace"@),
    ]
}

/// The kinds of executions by their codes.
pub open spec fn execution_types() -> Seq<(char, Seq<char>)> {
    seq![
        ('A', "Pending New"@),
        ('0', "New"@),
        ('1', "Partially Filled"@),
        ('2', "Filled"@),
        ('3', "Done for Day"@),
        ('4', "Canceled"@),
        ('5', "Replaced"@),
        ('6', "Pending Cancel"@),
        ('7', "Stopped"@),
        ('8', "Rejected"@),
        ('9', "Suspended"@),
        ('C', "Expired"@),
        ('E', "Pending Replace"@),
        ('F', "Trade"@),
        ('G', "Trade Correct"@),
        ('H', "Trade Cancel"@),
        ('I', "Order Status"@),
    ]
}

/// The acknowledgements of executions by their codes.
pub open spec fn acknowledgements() -> Seq<(char, Seq<char>)> {
    seq![
        ('0', "Received"@),
        ('1', "Accepted"@),
        ('2', "Dont Know"@),
        ('3', "Rejected"@),
        ('4', "Accepted With Errors"@),
    ]
}

/// The text is a code of the table, and this is its name.
pub open spec fn names(table: Seq<(char, Seq<char>)>, text: Seq<char>, name: Seq<char>) -> bool {
    exists|i: int|
        0 <= i < table.len() && text == seq![(#[trigger] table[i]).0] && name == table[i].1
}

/// The text is no code of the table.
pub open spec fn nameless(table: Seq<(char, Seq<char>)>, text: Seq<char>) -> bool {
    forall|i: int| 0 <= i < table.len() ==> text != seq![(#[trigger] table[i]).0]
}

proof fn lemma_code(text: Seq<char>, literal: Seq<char>, c: char)
    requires
        literal.len() == 1,
        literal[0] == c,
    ensures
        text == literal <==> text == seq![c],
        text == seq![c] <==> text.len() == 1 && text[0] == c,
{
    assert(literal =~= seq![c]);
    if text.len() == 1 && text[0] == c {
        assert(text =~= seq![c]);
    }
}

/// A label is that of the code in its table; any other text has none.
pub proof fn law_codes_have_their_names(text: Seq<char>, name: Seq<char>)
    ensures
        ord_status_label(text) == Some(name) <==> names(order_states(), text, name),
        exec_type_label(text) == Some(name) <==> names(execution_types(), text, name),
        exec_ack_label(text) == Some(name) <==> names(acknowledgements(), text, name),
        ord_status_label(text) is None <==> nameless(order_states(), text),
        exec_type_label(text) is None <==> nameless(execution_types(), text),
        exec_ack_label(text) is None <==> nameless(acknowledgements(), text),
{
    reveal_strlit("0");
    lemma_code(text, "0"@, '0');
    reveal_strlit("1");
    lemma_code(text, "1"@, '1');
    reveal_strlit("2");
    lemma_code(text, "2"@, '2');
    reveal_strlit("3");
    lemma_code(text, "3"@, '3');
    reveal_strlit("4");
    lemma_code(text, "4"@, '4');
    reveal_strlit("5");
    lemma_code(text, "5"@, '5');
    reveal_strlit("6");
    lemma_code(text, "6"@, '6');
    reveal_strlit("7");
    lemma_code(text, "7"@, '7');
    reveal_strlit("8");
    lemma_code(text, "8"@, '8');
    reveal_strlit("9");
    lemma_code(text, "9"@, '9');
    reveal_strlit("A");
    lemma_code(text, "A"@, 'A');
    reveal_strlit("B");
    lemma_code(text, "B"@, 'B');
    reveal_strlit("C");
    lemma_code(text, "C"@, 'C');
    reveal_strlit("D");
    lemma_code(text, "D"@, 'D');
    reveal_strlit("E");
    lemma_code(text, "E"@, 'E');
    reveal_strlit("F");
    lemma_code(text, "F"@, 'F');
    reveal_strlit("G");
    lemma_code(text, "G"@, 'G');
    reveal_strlit("H");
    lemma_code(text, "H"@, 'H');
    reveal_strlit("I");
    lemma_code(text, "I"@, 'I');
    lemma_order_table(text);
    lemma_execution_table(text);
    lemma_acknowledgement_table(text);
}

proof fn lemma_order_table(text: Seq<char>)
    ensures
        nameless(order_states(), text) <==> !(text == seq!['A']
            || text == seq!['0']
            || text == seq!['1']
            || text == seq!['2']
            || text == seq!['3']
            || text == seq!['4']
            || text == seq!['5']
            || text == seq!['6']
            || text == seq!['7']
            || text == seq!['8']
            || text == seq!['9']
            || text == seq!['B']
            || text == seq!['C']
            || text == seq!['D']
            || text == seq!['E']),
        forall|name: Seq<char>| #[trigger]
            names(order_states(), text, name) <==> ((text == seq!['A'] && name == "Pending New"@)
            || (text == seq!['0'] && name == "New"@)
            || (text == seq!['1'] && name == "Partially Filled"@)
            || (text == seq!['2'] && name == "Filled"@)
            || (text == seq!['3'] && name == "Done for Day"@)
            || (text == seq!['4'] && name == "Canceled"@)
            || (text == seq!['5'] && name == "Replaced"@)
            || (text == seq!['6'] && name == "Pending Cancel"@)
            || (text == seq!['7'] && name == "Stopped"@)
            || (text == seq!['8'] && name == "Rejected"@)
            || (text == seq!['9'] && name == "Suspended"@)
            || (text == seq!['B'] && name == "Calculated"@)
            || (text == seq!['C'] && name == "Expired"@)
            || (text == seq!['D'] && name == "Accepted for Bidding"@)
            || (text == seq!['E'] && name == "Pending Replace"@)),
{
    let table = order_states();
    assert(table[0] == ('A', "Pending New"@));
    assert(table[1] == ('0', "New"@));
    assert(table[2] == ('1', "Partially Filled"@));
    assert(table[3] == ('2', "Filled"@));
    assert(table[4] == ('3', "Done for Day"@));
    assert(table[5] == ('4', "Canceled"@));
    assert(table[6] == ('5', "Replaced"@));
    assert(table[7] == ('6', "Pending Cancel"@));
    assert(table[8] == ('7', "Stopped"@));
    assert(table[9] == ('8', "Rejected"@));
    assert(table[10] == ('9', "Suspended"@));
    assert(table[11] == ('B', "Calculated"@));
    assert(table[12] == ('C', "Expired"@));
    assert(table[13] == ('D', "Accepted for Bidding"@));
    assert(table[14] == ('E', "Pending Replace"@));
}

proof fn lemma_execution_table(text: Seq<char>)
    ensures
        nameless(execution_types(), text) <==> !(text == seq!['A']
            || text == seq!['0']
            || text == seq!['1']
            || text == seq!['2']
            || text == seq!['3']
            || text == seq!['4']
            || text == seq!['5']
            || text == seq!['6']
            || text == seq!['7']
            || text == seq!['8']
            || text == seq!['9']
            || text == seq!['C']
            || text == seq!['E']
            || text == seq!['F']
            || text == seq!['G']
            || text == seq!['H']
            || text == seq!['I']),
        forall|name: Seq<char>| #[trigger]
            names(execution_types(), text, name) <==> ((text == seq!['A'] && name == "Pending New"@)
            || (text == seq!['0'] && name == "New"@)
            || (text == seq!['1'] && name == "Partially Filled"@)
            || (text == seq!['2'] && name == "Filled"@)
            || (text == seq!['3'] && name == "Done for Day"@)
            || (text == seq!['4'] && name == "Canceled"@)
            || (text == seq!['5'] && name == "Replaced"@)
            || (text == seq!['6'] && name == "Pending Cancel"@)
            || (text == seq!['7'] && name == "Stopped"@)
            || (text == seq!['8'] && name == "Rejected"@)
            || (text == seq!['9'] && name == "Suspended"@)
            || (text == seq!['C'] && name == "Expired"@)
            || (text == seq!['E'] && name == "Pending Replace"@)
            || (text == seq!['F'] && name == "Trade"@)
            || (text == seq!['G'] && name == "Trade Correct"@)
            || (text == seq!['H'] && name == "Trade Cancel"@)
            || (text == seq!['I'] && name == "Order Status"@)),
{
    let table = execution_types();
    assert(table[0] == ('A', "Pending New"@));
    assert(table[1] == ('0', "New"@));
    assert(table[2] == ('1', "Partially Filled"@));
    assert(table[3] == ('2', "Filled"@));
    assert(table[4] == ('3', "Done for Day"@));
    assert(table[5] == ('4', "Canceled"@));
    assert(table[6] == ('5', "Replaced"@));
    assert(table[7] == ('6', "Pending Cancel"@));
    assert(table[8] == ('7', "Stopped"@));
    assert(table[9] == ('8', "Rejected"@));
    assert(table[10] == ('9', "Suspended"@));
    assert(table[11] == ('C', "Expired"@));
    assert(table[12] == ('E', "Pending Replace"@));
    assert(table[13] == ('F', "Trade"@));
    assert(table[14] == ('G', "Trade Correct"@));
    assert(table[15] == ('H', "Trade Cancel"@));
    assert(table[16] == ('I', "Order Status"@));
}

proof fn lemma_acknowledgement_table(text: Seq<char>)
    ensures
        nameless(acknowledgements(), text) <==> !(text == seq!['0']
            || text == seq!['1']
            || text == seq!['2']
            || text == seq!['3']
            || text == seq!['4']),
        forall|name: Seq<char>| #[trigger]
            names(acknowledgements(), text, name) <==> ((text == seq!['0'] && name == "Received"@)
            || (text == seq!['1'] && name == "Accepted"@)
            || (text == seq!['2'] && name == "Dont Know"@)
            || (text == seq!['3'] && name == "Rejected"@)
            || (text == seq!['4'] && name == "Accepted With Errors"@)),
{
    let table = acknowledgements();
    assert(table[0] == ('0', "Received"@));
    assert(table[1] == ('1', "Accepted"@));
    assert(table[2] == ('2', "Dont Know"@));
    assert(table[3] == ('3', "Rejected"@));
    assert(table[4] == ('4', "Accepted With Errors"@));
}

/// The state that a message puts an order in is the status that it gives; where that has no
/// name, the kind of execution; where that has none, the acknowledgement. Without any of them
/// an order of which nothing is left is filled, and of any other the state is not known.
pub proof fn law_status_goes_before_execution(
    exec_type: Option<Seq<char>>,
    ord_status: Option<Seq<char>>,
    leaves: Option<Seq<char>>,
    ack: Option<Seq<char>>,
    name: Seq<char>,
)
    ensures
        ({
            let state = derived_state(exec_type, ord_status, leaves, ack);
            let no_status = ord_status matches Some(code) ==> nameless(order_states(), code);
            let no_execution = exec_type matches Some(code) ==> nameless(execution_types(), code);
            let no_ack = ack matches Some(code) ==> nameless(acknowledgements(), code);
            &&& (ord_status matches Some(code) && names(order_states(), code, name)) ==> state
                == name
            &&& no_status && (exec_type matches Some(code) && names(execution_types(), code, name))
                ==> state == name
            &&& no_status && no_execution && (ack matches Some(code) && names(
                acknowledgements(),
                code,
                name,
            )) ==> state == name
            &&& no_status && no_execution && no_ack ==> state == if leaves == Some(seq!['0']) {
                "Filled"@
            } else {
                "Unknown"@
            }
        }),
{
    if let Some(code) = ord_status {
        law_codes_have_their_names(code, name);
    }
    if let Some(code) = exec_type {
        law_codes_have_their_names(code, name);
    }
    if let Some(code) = ack {
        law_codes_have_their_names(code, name);
    }
    reveal_strlit("0");
    assert("0"@ =~= seq!['0']);
}

proof fn lemma_states_last(events: Seq<EventView>)
    ensures
        events.len() > 0 ==> states(events).len() > 0 && states(events).last()
            == events.last().state,
        events.len() == 0 ==> states(events).len() == 0,
{
}

/// Where the latest acknowledgement stands; -1 without one.
proof fn lemma_last_ack(events: Seq<EventView>) -> (at: int)
    ensures
        -1 <= at < events.len(),
        forall|j: int| at < j < events.len() ==> (#[trigger] events[j]).exec_ack_status is None,
        at >= 0 ==> events[at].exec_ack_status is Some && last_ack(events)
            == events[at].exec_ack_status,
        at < 0 ==> last_ack(events) is None,
    decreases events.len(),
{
    if events.len() == 0 {
        -1
    } else {
        let n = events.len() - 1;
        if events[n].exec_ack_status is Some {
            n
        } else {
            let shorter = events.drop_last();
            let at = lemma_last_ack(shorter);
            assert forall|j: int| at < j < events.len() implies (
            #[trigger] events[j]).exec_ack_status is None by {
                if j < n {
                    assert(shorter[j] == events[j]);
                }
            }
            at
        }
    }
}

/// An order is done by the state of its latest event, or by the latest acknowledgement among
/// its events, in the order of their times.
pub proof fn law_latest_event_decides(order: OrderView, i: int)
    ensures
        ({
            let events = order.ordered_events();
            let state = events.last().state;
            let ended = events.len() > 0 && (state == "Filled"@ || state == "Canceled"@ || state
                == "Rejected"@ || state == "Done for Day"@ || state == "Expired"@ || state
                == "Stopped"@ || state == "Suspended"@ || state == "Calculated"@);
            let latest = 0 <= i < events.len() && events[i].exec_ack_status is Some && forall|
                j: int,
            |
                i < j < events.len() ==> (#[trigger] events[j]).exec_ack_status is None;
            let none = forall|j: int|
                0 <= j < events.len() ==> (#[trigger] events[j]).exec_ack_status is None;
            &&& ended ==> order.is_terminal()
            &&& !ended && none ==> !order.is_terminal()
            &&& !ended && latest ==> (order.is_terminal() <==> (events[i].exec_ack_status == Some(
                seq!['1'],
            ) || events[i].exec_ack_status == Some(seq!['3']) || events[i].exec_ack_status == Some(
                seq!['4'],
            )))
        }),
{
    let events = order.ordered_events();
    lemma_states_last(events);
    let at = lemma_last_ack(events);
    if at >= 0 && 0 <= i < at {
        assert(events[at].exec_ack_status is Some);
    }
    reveal_strlit("1");
    reveal_strlit("3");
    reveal_strlit("4");
    assert("1"@ =~= seq!['1']);
    assert("3"@ =~= seq!['3']);
    assert("4"@ =~= seq!['4']);
}

/// The path of an order has no state twice in a row, starts with the state of its first event,
/// ends with that of its latest, and has the states that its events have and no others.
pub proof fn law_path_is_of_the_events(events: Seq<EventView>)
    ensures
        forall|i: int, j: int|
            0 <= i && j == i + 1 && j < states(events).len() ==> #[trigger] states(events)[i]
                != #[trigger] states(events)[j],
        forall|i: int|
            0 <= i < states(events).len() ==> exists|j: int|
                0 <= j < events.len() && (#[trigger] events[j]).state == #[trigger] states(
                    events,
                )[i],
        forall|j: int|
            0 <= j < events.len() ==> states(events).contains((#[trigger] events[j]).state),
        events.len() > 0 ==> states(events).len() > 0 && states(events)[0] == events[0].state
            && states(events).last() == events.last().state,
    decreases events.len(),
{
    if events.len() > 0 {
        let shorter = events.drop_last();
        let n = events.len() - 1;
        let before = states(shorter);
        let path = states(events);
        law_path_is_of_the_events(shorter);
        lemma_states_last(shorter);
        lemma_states_last(events);
        assert(forall|j: int| 0 <= j < n ==> #[trigger] events[j] == shorter[j]);
        assert(forall|i: int| 0 <= i < before.len() ==> #[trigger] path[i] == before[i]);
        assert forall|i: int, j: int|
            0 <= i && j == i + 1 && j < path.len() implies #[trigger] path[i]
            != #[trigger] path[j] by {
            if j < before.len() {
                assert(before[i] != before[j]);
            }
        }
        assert forall|i: int| 0 <= i < path.len() implies exists|j: int|
            0 <= j < events.len() && (#[trigger] events[j]).state == #[trigger] path[i] by {
            if i < before.len() {
                assert(path[i] == before[i]);
                let j = choose|j: int|
                    0 <= j < shorter.len() && (#[trigger] shorter[j]).state == before[i];
                assert(events[j].state == path[i]);
            } else {
                assert(events[n].state == path[i]);
            }
        }
        assert forall|j: int| 0 <= j < events.len() implies path.contains(
            (#[trigger] events[j]).state,
        ) by {
            if j < n {
                assert(before.contains(shorter[j].state));
                let i = before.index_of(shorter[j].state);
                assert(before[i] == shorter[j].state);
                assert(path[i] == events[j].state);
            } else {
                assert(path[path.len() - 1] == events[n].state);
            }
        }
    }
}

/// The message belongs to the session layer.
pub open spec fn is_session_message(fields: Seq<FieldPair>, dict: LookupModel) -> bool {
    exists|i: int| #[trigger]
        is_last(fields, i, 35) && (dict.message_def(fields[i].1) matches Some(def) && def.is_admin)
}

/// The message names an order by an identifier.
pub open spec fn names_an_order(fields: Seq<FieldPair>) -> bool {
    !silent(fields, 37) || !silent(fields, 11) || !silent(fields, 41)
}

/// A message that names an order is recorded, unless it is one of the session layer and the
/// order is not known. An order that is not known is kept under the identifier that was given
/// to it, else under the one of the client; the total grows by one.
pub proof fn law_new_orders_are_kept_under_their_identifier(
    v: SummaryView,
    msg: Seq<char>,
    dict: LookupModel,
    override_key: Option<Seq<char>>,
    i: int,
)
    requires
        v.orders_apart(),
        v.identifiers_lead(),
        fields_of(msg).len() > 0,
        !v.knows(field_map(fields_of(msg))),
        v.total < usize::MAX,
    ensures
        ({
            let fields = fields_of(msg);
            let after = v.recorded(msg, dict, override_key);
            &&& is_session_message(fields, dict) ==> !v.records(msg, dict)
            &&& names_an_order(fields) && !is_session_message(fields, dict) ==> v.records(msg, dict)
            &&& v.records(msg, dict) && is_last(fields, i, 37) ==> v.key_for(field_map(fields)).key
                == fields[i].1
            &&& v.records(msg, dict) && silent(fields, 37) && is_last(fields, i, 11) ==> v.key_for(
                field_map(fields),
            ).key == fields[i].1
            &&& v.records(msg, dict) && !v.holds(v.key_for(field_map(fields)).key) ==> after.total
                == v.total + 1
        }),
{
    let fields = fields_of(msg);
    lemma_field_map(fields, 37);
    lemma_field_map(fields, 11);
    lemma_field_map(fields, 41);
    lemma_field_map(fields, 35);
    if is_session_message(fields, dict) {
        let k = choose|k: int| #[trigger]
            is_last(fields, k, 35) && (dict.message_def(fields[k].1) matches Some(def)
                && def.is_admin);
        assert(value_in(field_map(fields), 35) == Some(fields[k].1));
    } else if !silent(fields, 35) {
        let k = choose|k: int| is_last(fields, k, 35);
        assert(is_last(fields, k, 35));
        assert(value_in(field_map(fields), 35) == Some(fields[k].1));
    }
    if v.records(msg, dict) {
        let key = v.key_for(field_map(fields)).key;
        let named = v.with_override(override_key).named(field_map(fields));
        lemma_keyed_order(named.completed, 0, key);
    }
}

/// A message about an order that gives no identifier opens one of its own, numbered on from
/// the one before.
pub proof fn law_unnamed_orders_are_numbered(v: SummaryView, msg: Seq<char>)
    requires
        silent(fields_of(msg), 37),
        silent(fields_of(msg), 11),
        !v.knows(field_map(fields_of(msg))),
        v.unknown < usize::MAX,
    ensures
        v.key_for(field_map(fields_of(msg))).key == "UNKNOWN-"@ + digits((v.unknown + 1) as nat),
        v.key_for(field_map(fields_of(msg))).unknown == v.unknown + 1,
{
    let fields = fields_of(msg);
    lemma_field_map(fields, 37);
    lemma_field_map(fields, 11);
    law_numbers_are_written((v.unknown + 1) as nat);
}

} // verus!
