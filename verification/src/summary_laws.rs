//! What recording messages keeps true of a summary of orders.
use crate::fixparser::fields_of;
use crate::order_labels::{derived_state, exec_ack_label, exec_type_label, ord_status_label};
use crate::order_record::{
    chronology, event_in, fingerprints, latest, or_empty, times, unrepeated, value_in, EventView,
    FieldMap, OrderView,
};
use crate::sorting::{
    arranged, in_sequence, law_text_order_is_stable_sort, lemma_text_order_lists, text_ahead,
    text_order,
};
use crate::summary::{alias_of, field_map, keyed_order, SummaryView};
use crate::tag_lookup::LookupModel;
use vstd::prelude::*;

verus! {

broadcast use vstd::seq_lib::group_seq_properties;

impl SummaryView {
    /// Each order stands once, under its own key: with the open ones while it is not done,
    /// with the completed ones once it is.
    pub open spec fn orders_apart(self) -> bool {
        &&& forall|k: Seq<char>| #[trigger]
            self.orders.contains_key(k) ==> self.orders[k].key == k && !self.orders[k].is_terminal()
        &&& forall|i: int|
            0 <= i < self.completed.len() ==> (#[trigger] self.completed[i]).is_terminal()
                && !self.orders.contains_key(self.completed[i].key)
        &&& forall|i: int, j: int|
            0 <= i < j < self.completed.len() ==> (#[trigger] self.completed[i]).key != (
            #[trigger] self.completed[j]).key
    }

    /// Every order that was counted is either open or was completed.
    pub open spec fn counts_add_up(self) -> bool {
        &&& self.orders.dom().finite()
        &&& self.total == self.orders.dom().len() + self.terminal
        &&& self.completed.len() <= self.terminal
    }
}

pub proof fn lemma_keyed_order(orders: Seq<OrderView>, at: int, key: Seq<char>)
    requires
        0 <= at <= orders.len(),
    ensures
        at <= keyed_order(orders, at, key) <= orders.len(),
        keyed_order(orders, at, key) < orders.len() ==> orders[keyed_order(orders, at, key)].key
            == key,
        forall|i: int|
            at <= i < keyed_order(orders, at, key) ==> (#[trigger] orders[i]).key != key,
    decreases orders.len() - at,
{
    if at < orders.len() && orders[at].key != key {
        lemma_keyed_order(orders, at + 1, key);
    }
}

pub proof fn lemma_update_keeps_key(
    v: SummaryView,
    order: OrderView,
    msg: Seq<char>,
    fields: FieldMap,
    dict: LookupModel,
)
    ensures
        v.updated(order, msg, fields, dict).key == order.key,
{
}

/// A summary without orders keeps them apart, and its counts add up.
pub proof fn law_empty_summary_is_sound(delimiter: char)
    ensures
        SummaryView::empty(delimiter).orders_apart(),
        SummaryView::empty(delimiter).counts_add_up(),
{
}

/// Recording a message leaves each order in one place: among the open ones while it is not
/// done, among the completed ones once it is.
pub proof fn law_recording_keeps_orders_apart(
    v: SummaryView,
    msg: Seq<char>,
    dict: LookupModel,
    override_key: Option<Seq<char>>,
)
    requires
        v.orders_apart(),
    ensures
        v.recorded(msg, dict, override_key).orders_apart(),
{
    let fields = field_map(fields_of(msg));
    if v.records(msg, dict) {
        let key = v.key_for(fields).key;
        let named = v.with_override(override_key).named(fields);
        let (rest, order) = named.taken_up(key);
        lemma_keyed_order(named.completed, 0, key);
        assert(order.key == key);
        assert(!rest.orders.contains_key(key));
        let at = keyed_order(named.completed, 0, key);
        assert forall|i: int| 0 <= i < rest.completed.len() implies (
        #[trigger] rest.completed[i]).key != key by {
            if named.orders.contains_key(key) {
                assert(rest.completed[i] == named.completed[i]);
            } else if at < named.completed.len() {
                if i < at {
                    assert(rest.completed[i] == named.completed[i]);
                } else {
                    assert(rest.completed[i] == named.completed[i + 1]);
                }
            }
        }
        assert(rest.orders_apart());
        lemma_update_keeps_key(rest, order, msg, fields, dict);
    }
}

/// After a message is recorded the open and the completed orders still make up the total,
/// as long as there is room to count one more.
pub proof fn law_counts_add_up(
    v: SummaryView,
    msg: Seq<char>,
    dict: LookupModel,
    override_key: Option<Seq<char>>,
)
    requires
        v.orders_apart(),
        v.counts_add_up(),
        v.total < usize::MAX,
    ensures
        v.recorded(msg, dict, override_key).counts_add_up(),
{
    let fields = field_map(fields_of(msg));
    if v.records(msg, dict) {
        let key = v.key_for(fields).key;
        let named = v.with_override(override_key).named(fields);
        let (rest, order) = named.taken_up(key);
        lemma_keyed_order(named.completed, 0, key);
        assert(named.orders.remove(key).dom() =~= named.orders.dom().remove(key));
        assert(rest.orders.dom().finite());
        let last = rest.updated(order, msg, fields, dict);
        assert(rest.orders.insert(key, last).dom() =~= rest.orders.dom().insert(key));
    }
}

/// What an identifier is known as never changes.
pub proof fn law_aliases_are_kept(
    v: SummaryView,
    msg: Seq<char>,
    dict: LookupModel,
    override_key: Option<Seq<char>>,
    id: Seq<char>,
)
    requires
        v.aliases.contains_key(id),
    ensures
        v.recorded(msg, dict, override_key).aliases.contains_key(id),
        v.recorded(msg, dict, override_key).aliases[id] == v.aliases[id],
{
}

/// A message without fields leaves the summary as it was. So does one about no order, but
/// that the first override is noted.
pub proof fn law_other_messages_change_nothing(
    v: SummaryView,
    msg: Seq<char>,
    dict: LookupModel,
    override_key: Option<Seq<char>>,
)
    requires
        !v.records(msg, dict),
    ensures
        v.recorded(msg, dict, override_key) == if fields_of(msg).len() == 0 {
            v
        } else {
            v.with_override(override_key)
        },
{
}

/// Every identifier of a recorded message is known afterwards; one that was not known leads
/// to the message's order.
pub proof fn law_identifiers_lead_to_order(
    v: SummaryView,
    msg: Seq<char>,
    dict: LookupModel,
    override_key: Option<Seq<char>>,
    tag: u32,
    id: Seq<char>,
)
    requires
        tag == 37 || tag == 11 || tag == 41,
        value_in(field_map(fields_of(msg)), tag) == Some(id),
        v.records(msg, dict),
    ensures
        v.recorded(msg, dict, override_key).aliases.contains_key(id),
        !v.aliases.contains_key(id) ==> v.recorded(msg, dict, override_key).aliases[id]
            == v.key_for(field_map(fields_of(msg))).key,
{
}

impl SummaryView {
    /// An order with the key is held, open or completed.
    pub open spec fn holds(self, key: Seq<char>) -> bool {
        self.orders.contains_key(key) || exists|i: int|
            0 <= i < self.completed.len() && (#[trigger] self.completed[i]).key == key
    }

    /// Every identifier that is known leads to an order that is held.
    pub open spec fn identifiers_lead(self) -> bool {
        forall|id: Seq<char>| #[trigger]
            self.aliases.contains_key(id) ==> self.holds(self.aliases[id])
    }
}

/// Taking up an order leaves all others held.
proof fn lemma_others_held(v: SummaryView, key: Seq<char>, other: Seq<char>)
    requires
        v.holds(other),
        other != key,
    ensures
        v.taken_up(key).0.holds(other),
{
    let rest = v.taken_up(key).0;
    lemma_keyed_order(v.completed, 0, key);
    if !v.orders.contains_key(other) {
        let i = choose|i: int| 0 <= i < v.completed.len() && (#[trigger] v.completed[i]).key == other;
        let at = keyed_order(v.completed, 0, key);
        if v.orders.contains_key(key) || at >= v.completed.len() || i < at {
            assert(rest.completed[i].key == other);
        } else {
            assert(rest.completed[i - 1] == v.completed[i]);
        }
    }
}

/// From the start, and with each message recorded, every identifier that is known leads to an
/// order that is held.
pub proof fn law_known_identifiers_are_held(
    v: SummaryView,
    delimiter: char,
    msg: Seq<char>,
    dict: LookupModel,
    override_key: Option<Seq<char>>,
)
    requires
        v.orders_apart(),
        v.identifiers_lead(),
    ensures
        SummaryView::empty(delimiter).identifiers_lead(),
        v.recorded(msg, dict, override_key).identifiers_lead(),
{
    let fields = field_map(fields_of(msg));
    if v.records(msg, dict) {
        let key = v.key_for(fields).key;
        let named = v.with_override(override_key).named(fields);
        let (rest, order) = named.taken_up(key);
        let last = rest.updated(order, msg, fields, dict);
        let after = rest.put_back(key, last);
        lemma_keyed_order(named.completed, 0, key);
        lemma_update_keeps_key(rest, order, msg, fields, dict);
        assert(order.key == key);
        assert(after.holds(key)) by {
            if last.is_terminal() {
                assert(after.completed[after.completed.len() - 1] == last);
            }
        }
        assert forall|id: Seq<char>| #[trigger] after.aliases.contains_key(id) implies after.holds(
            after.aliases[id],
        ) by {
            let goal = after.aliases[id];
            if goal != key {
                assert(v.aliases.contains_key(id) && v.aliases[id] == goal);
                assert(named.holds(goal)) by {
                    assert(v.holds(goal));
                    if !v.orders.contains_key(goal) {
                        let i = choose|i: int|
                            0 <= i < v.completed.len() && (#[trigger] v.completed[i]).key == goal;
                        assert(named.completed[i].key == goal);
                    }
                }
                lemma_others_held(named, key, goal);
                if !rest.orders.contains_key(goal) {
                    let i = choose|i: int|
                        0 <= i < rest.completed.len() && (#[trigger] rest.completed[i]).key == goal;
                    assert(after.completed[i].key == goal);
                }
            }
        }
    }
}

/// A message with an identifier that is known, whatever its type, is recorded and opens no
/// order: it goes to one that is held, the one that its order identifier is known as, else its client order identifier, else the
/// identifier that it replaces, and the total stays.
pub proof fn law_known_identifiers_open_no_order(
    v: SummaryView,
    msg: Seq<char>,
    dict: LookupModel,
    override_key: Option<Seq<char>>,
    tag: u32,
    id: Seq<char>,
)
    requires
        v.identifiers_lead(),
        tag == 37 || tag == 11 || tag == 41,
        value_in(field_map(fields_of(msg)), tag) == Some(id),
        v.aliases.contains_key(id),
    ensures
        v.records(msg, dict),
        ({
            let fields = field_map(fields_of(msg));
            let known = match alias_of(v.aliases, value_in(fields, 37)) {
                Some(key) => Some(key),
                None => match alias_of(v.aliases, value_in(fields, 11)) {
                    Some(key) => Some(key),
                    None => alias_of(v.aliases, value_in(fields, 41)),
                },
            };
            &&& known == Some(v.key_for(fields).key)
            &&& v.holds(v.key_for(fields).key)
        }),
        v.recorded(msg, dict, override_key).total == v.total,
{
    let fields = field_map(fields_of(msg));
    let key = v.key_for(fields).key;
    let named = v.with_override(override_key).named(fields);
    lemma_keyed_order(named.completed, 0, key);
    assert(v.holds(key));
    if !named.orders.contains_key(key) {
        let i = choose|i: int| 0 <= i < v.completed.len() && (#[trigger] v.completed[i]).key == key;
        assert(named.completed[i].key == key);
    }
}

/// What is done to a summary.
pub enum SummaryStep {
    Record(Seq<char>, LookupModel, Option<Seq<char>>),
    Render,
    RenderCompleted,
    RenderFooter,
}

impl SummaryView {
    /// The summary after one step.
    pub open spec fn stepped(self, step: SummaryStep) -> SummaryView {
        match step {
            SummaryStep::Record(msg, dict, override_key) => self.recorded(msg, dict, override_key),
            SummaryStep::Render => self,
            SummaryStep::RenderCompleted => SummaryView { completed: seq![], ..self },
            SummaryStep::RenderFooter => SummaryView {
                footer_width: self.status_width() as usize,
                ..self
            },
        }
    }

    /// The summary after several steps.
    pub open spec fn after(self, steps: Seq<SummaryStep>) -> SummaryView
        decreases steps.len(),
    {
        if steps.len() == 0 {
            self
        } else {
            self.after(steps.drop_last()).stepped(steps.last())
        }
    }
}

/// Whatever is done to a summary, each order stays in one place and the counts add up, as
/// long as the steps can be counted. The total never falls.
pub proof fn law_every_summary_is_sound(delimiter: char, steps: Seq<SummaryStep>)
    requires
        steps.len() < usize::MAX,
    ensures
        SummaryView::empty(delimiter).after(steps).orders_apart(),
        SummaryView::empty(delimiter).after(steps).counts_add_up(),
        SummaryView::empty(delimiter).after(steps).total <= steps.len(),
        steps.len() > 0 ==> SummaryView::empty(delimiter).after(steps.drop_last()).total
            <= SummaryView::empty(delimiter).after(steps).total,
    decreases steps.len(),
{
    if steps.len() == 0 {
        law_empty_summary_is_sound(delimiter);
    } else {
        law_every_summary_is_sound(delimiter, steps.drop_last());
        let before = SummaryView::empty(delimiter).after(steps.drop_last());
        if let SummaryStep::Record(msg, dict, override_key) = steps.last() {
            law_recording_keeps_orders_apart(before, msg, dict, override_key);
            law_counts_add_up(before, msg, dict, override_key);
        }
    }
}

/// What the message of an event gives, by which the event is told from others: its time, its
/// type, and what it says of the order.
pub open spec fn event_values(fields: FieldMap) -> Seq<Seq<char>> {
    seq![
        or_empty(latest(value_in(fields, 52), value_in(fields, 60))),
        or_empty(value_in(fields, 35)),
        or_empty(value_in(fields, 150)),
        or_empty(value_in(fields, 39)),
        or_empty(value_in(fields, 1036)),
        or_empty(value_in(fields, 14)),
        or_empty(value_in(fields, 151)),
        or_empty(value_in(fields, 32)),
        or_empty(value_in(fields, 31)),
        or_empty(value_in(fields, 6)),
        or_empty(value_in(fields, 58)),
        or_empty(value_in(fields, 11)),
        or_empty(value_in(fields, 41)),
    ]
}

/// No label has an empty code.
proof fn lemma_empty_codes()
    ensures
        ord_status_label(seq![]) is None,
        exec_type_label(seq![]) is None,
        exec_ack_label(seq![]) is None,
{
    reveal_strlit("0");
    assert("0"@.len() == 1);
    reveal_strlit("1");
    assert("1"@.len() == 1);
    reveal_strlit("2");
    assert("2"@.len() == 1);
    reveal_strlit("3");
    assert("3"@.len() == 1);
    reveal_strlit("4");
    assert("4"@.len() == 1);
    reveal_strlit("5");
    assert("5"@.len() == 1);
    reveal_strlit("6");
    assert("6"@.len() == 1);
    reveal_strlit("7");
    assert("7"@.len() == 1);
    reveal_strlit("8");
    assert("8"@.len() == 1);
    reveal_strlit("9");
    assert("9"@.len() == 1);
    reveal_strlit("A");
    assert("A"@.len() == 1);
    reveal_strlit("B");
    assert("B"@.len() == 1);
    reveal_strlit("C");
    assert("C"@.len() == 1);
    reveal_strlit("D");
    assert("D"@.len() == 1);
    reveal_strlit("E");
    assert("E"@.len() == 1);
    reveal_strlit("F");
    assert("F"@.len() == 1);
    reveal_strlit("G");
    assert("G"@.len() == 1);
    reveal_strlit("H");
    assert("H"@.len() == 1);
    reveal_strlit("I");
    assert("I"@.len() == 1);
}

/// The state does not tell an absent value from an empty one.
proof fn lemma_state_of_values(a: FieldMap, b: FieldMap)
    requires
        event_values(a) == event_values(b),
    ensures
        derived_state(value_in(a, 150), value_in(a, 39), value_in(a, 151), value_in(a, 1036))
            == derived_state(value_in(b, 150), value_in(b, 39), value_in(b, 151), value_in(b, 1036)),
{
    let x = event_values(a);
    let y = event_values(b);
    lemma_empty_codes();
    assert(x[2] == y[2] && x[3] == y[3] && x[4] == y[4] && x[6] == y[6]);
    reveal_strlit("0");
    assert("0"@.len() == 1);
}

/// Events repeat each other exactly where their messages give the same values, an absent one
/// like an empty one, whatever the dictionaries and whatever validation finds.
pub proof fn law_events_repeat_by_values(
    a: FieldMap,
    b: FieldMap,
    dict_a: LookupModel,
    dict_b: LookupModel,
    fault_a: Option<Seq<char>>,
    fault_b: Option<Seq<char>>,
)
    ensures
        (EventView { fault: fault_a, ..event_in(a, dict_a) }).fingerprint() == (EventView {
            fault: fault_b,
            ..event_in(b, dict_b)
        }).fingerprint() <==> event_values(a) == event_values(b),
{
    let x = (EventView { fault: fault_a, ..event_in(a, dict_a) }).fingerprint();
    let y = (EventView { fault: fault_b, ..event_in(b, dict_b) }).fingerprint();
    assert(x.drop_last() =~= event_values(a));
    assert(y.drop_last() =~= event_values(b));
    if event_values(a) == event_values(b) {
        lemma_state_of_values(a, b);
        assert(x =~= x.drop_last().push(x[13]));
        assert(y =~= y.drop_last().push(y[13]));
    }
}

proof fn lemma_unrepeated(
    events: Seq<EventView>,
    order: Seq<usize>,
    ahead: spec_fn(usize, usize) -> bool,
)
    requires
        in_sequence(order, ahead),
    ensures
        in_sequence(unrepeated(events, order), ahead),
        arranged(fingerprints(events), unrepeated(events, order)).no_duplicates(),
        forall|i: int|
            0 <= i < unrepeated(events, order).len() ==> order.contains(
                #[trigger] unrepeated(events, order)[i],
            ),
        forall|i: int|
            0 <= i < order.len() ==> arranged(fingerprints(events), unrepeated(events, order)).contains(
                fingerprints(events)[#[trigger] order[i] as int],
            ),
    decreases order.len(),
{
    if order.len() > 0 {
        let short = order.drop_last();
        let before = unrepeated(events, short);
        let kept = unrepeated(events, order);
        let last = order.last();
        assert forall|i: int, j: int| 0 <= i < j < short.len() implies ahead(
            #[trigger] short[i],
            #[trigger] short[j],
        ) by {
            assert(order[i] == short[i] && order[j] == short[j]);
        }
        lemma_unrepeated(events, short, ahead);
        assert forall|i: int| 0 <= i < kept.len() implies order.contains(#[trigger] kept[i]) by {
            if i < before.len() {
                assert(short.contains(before[i]));
                let k = short.index_of(before[i]);
                assert(order[k] == kept[i]);
            } else {
                assert(order[order.len() - 1] == kept[i]);
            }
        }
        assert forall|i: int, j: int| 0 <= i < j < kept.len() implies ahead(
            #[trigger] kept[i],
            #[trigger] kept[j],
        ) by {
            if j < before.len() {
                assert(ahead(before[i], before[j]));
            } else {
                assert(short.contains(before[i]));
                let k = short.index_of(before[i]);
                assert(ahead(order[k], order[order.len() - 1]));
            }
        }
        let shown = arranged(fingerprints(events), before);
        let listed = arranged(fingerprints(events), kept);
        assert(kept.len() > before.len() ==> listed =~= shown.push(fingerprints(events)[last as int]));
        assert forall|i: int| 0 <= i < order.len() implies listed.contains(
            fingerprints(events)[#[trigger] order[i] as int],
        ) by {
            if i < short.len() {
                assert(short[i] == order[i]);
                let k = shown.index_of(fingerprints(events)[short[i] as int]);
                assert(listed[k] == shown[k]);
            } else if kept.len() > before.len() {
                assert(listed[before.len() as int] == fingerprints(events)[last as int]);
            }
        }
    }
}

/// The timeline of an order is chronological and complete: events stand in the order of
/// their times, those of one time in the order in which they came, every event is listed or
/// repeats one that is, and none that is listed repeats another.
pub proof fn law_timeline_is_chronological(order: OrderView)
    requires
        order.events.len() <= usize::MAX,
    ensures
        in_sequence(chronology(order.events), text_ahead(times(order.events))),
        fingerprints(order.ordered_events()).no_duplicates(),
        forall|i: int|
            0 <= i < order.events.len() ==> fingerprints(order.ordered_events()).contains(
                (#[trigger] order.events[i]).fingerprint(),
            ),
        forall|i: int|
            0 <= i < order.ordered_events().len() ==> order.events.contains(
                #[trigger] order.ordered_events()[i],
            ),
{
    let events = order.events;
    let keys = times(events);
    let prints = fingerprints(order.ordered_events());
    law_text_order_is_stable_sort(keys);
    lemma_unrepeated(events, text_order(keys), text_ahead(keys));
    assert forall|i: int| 0 <= i < order.ordered_events().len() implies events.contains(
        #[trigger] order.ordered_events()[i],
    ) && prints[i] == arranged(fingerprints(events), chronology(events))[i] by {
        let at = chronology(events)[i];
        assert(text_order(keys).contains(at));
        let k = text_order(keys).index_of(at);
        assert(text_order(keys)[k] < events.len());
        assert(events[at as int] == order.ordered_events()[i]);
    }
    assert(prints =~= arranged(fingerprints(events), chronology(events)));
    assert forall|i: int| 0 <= i < events.len() implies prints.contains(
        (#[trigger] events[i]).fingerprint(),
    ) by {
        lemma_text_order_lists(keys, i);
        let k = text_order(keys).index_of(i as usize);
        assert(fingerprints(events)[text_order(keys)[k] as int] == events[i].fingerprint());
    }
}

/// A message that replaces a client order identifier goes to the order of the one replaced,
/// unless it brings an identifier that is known as something else.
pub proof fn law_replacement_joins_order(v: SummaryView, fields: FieldMap, orig: Seq<char>)
    requires
        v.aliases.contains_key(orig),
        value_in(fields, 41) == Some(orig),
        value_in(fields, 37) matches Some(id) ==> !v.aliases.contains_key(id),
        value_in(fields, 11) matches Some(id) ==> !v.aliases.contains_key(id),
    ensures
        v.key_for(fields).key == v.aliases[orig],
        v.key_for(fields).unknown == v.unknown,
{
}

} // verus!
