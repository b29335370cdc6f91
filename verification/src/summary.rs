//! The orders of a stream of messages, from their first message to their last.
use crate::ansi::{capped, plus};
use crate::dictionaries::{opt_str, resolved, DictionaryStore};
use crate::fixparser::{field_pairs, fields_of, parse_fix, FieldPair, FieldValue};
use crate::message_groups::{is_order_type, names_order_type};
use crate::order_record::{
    borrowed, copy_value, event_in, new_order, value_in, EventView, FieldMap, OrderEvent,
    OrderRecord, OrderView,
};
use crate::report::report_of;
use crate::tag_lookup::{string_values, FixTagLookup, LookupModel};
use crate::text::{
    chars_of, copy_of, decimal, join, join_texts, push_char, push_decimal, same, text_view, SOH,
};
use crate::textmap::TextMap;
use crate::validator::{findings, validate_fix_message};
use std::collections::HashMap;
use vstd::prelude::*;

verus! {

broadcast use {vstd::std_specs::hash::group_hash_axioms, vstd::seq_lib::group_seq_properties};

/// A text with another character in place of the delimiter.
pub open spec fn with_delimiter(text: Seq<char>, delimiter: char) -> Seq<char> {
    text.map_values(
        |c: char|
            if c == SOH {
                delimiter
            } else {
                c
            },
    )
}

/// A text with another character in place of the delimiter.
pub fn display_with_delimiter(msg: &str, delimiter: char) -> (text: String)
    ensures
        text@ == with_delimiter(msg@, delimiter),
{
    let chars = chars_of(msg);
    let mut text = String::new();
    let mut i: usize = 0;
    while i < chars.len()
        invariant
            i <= chars@.len(),
            chars@ == msg@,
            text@ =~= with_delimiter(msg@, delimiter).take(i as int),
        decreases chars@.len() - i,
    {
        push_char(
            &mut text,
            if chars[i] == SOH {
                delimiter
            } else {
                chars[i]
            },
        );
        i += 1;
    }
    assert(text@ =~= with_delimiter(msg@, delimiter));
    text
}

/// The fields by tag, the last one where a tag comes twice.
pub open spec fn field_map(fields: Seq<FieldPair>) -> FieldMap
    decreases fields.len(),
{
    if fields.len() == 0 {
        Map::empty()
    } else {
        field_map(fields.drop_last()).insert(fields.last().0, fields.last().1)
    }
}

fn collect_field_map(fields: &Vec<FieldValue>) -> (map: HashMap<u32, String>)
    ensures
        string_values(map@) == field_map(field_pairs(fields@)),
{
    let ghost all = field_pairs(fields@);
    let mut map: HashMap<u32, String> = HashMap::new();
    let mut i: usize = 0;
    assert(string_values(map@) =~= field_map(all.take(0)));
    while i < fields.len()
        invariant
            i <= fields@.len(),
            all == field_pairs(fields@),
            string_values(map@) == field_map(all.take(i as int)),
        decreases fields@.len() - i,
    {
        assert(all.take(i + 1).drop_last() =~= all.take(i as int));
        assert(all.take(i + 1).last() == fields@[i as int]@);
        let ghost before = map@;
        map.insert(fields[i].tag, copy_of(fields[i].value.as_str()));
        assert(string_values(map@) =~= string_values(before).insert(
            fields@[i as int].tag,
            fields@[i as int].value@,
        ));
        i += 1;
    }
    assert(all.take(all.len() as int) =~= all);
    map
}

/// The orders of a stream of messages.
#[derive(Debug)]
pub struct OrderSummary {
    pub orders: TextMap<OrderRecord>,
    pub aliases: TextMap<String>,
    pub unknown_counter: usize,
    pub completed: Vec<OrderRecord>,
    pub total_orders: usize,
    pub terminal_orders: usize,
    pub footer_width: usize,
    pub fix_override_key: Option<String>,
    pub display_delimiter: char,
}

/// The mathematical content of an `OrderSummary`.
#[verifier::ext_equal]
pub struct SummaryView {
    pub orders: Map<Seq<char>, OrderView>,
    pub aliases: Map<Seq<char>, Seq<char>>,
    pub unknown: usize,
    pub completed: Seq<OrderView>,
    pub total: usize,
    pub terminal: usize,
    pub footer_width: usize,
    pub override_key: Option<Seq<char>>,
    pub delimiter: char,
}

pub open spec fn order_views(orders: Map<Seq<char>, OrderRecord>) -> Map<Seq<char>, OrderView> {
    orders.map_values(|r: OrderRecord| r@)
}

pub open spec fn record_views(records: Seq<OrderRecord>) -> Seq<OrderView> {
    records.map_values(|r: OrderRecord| r@)
}

impl View for OrderSummary {
    type V = SummaryView;

    open spec fn view(&self) -> SummaryView {
        SummaryView {
            orders: order_views(self.orders@),
            aliases: crate::tag_lookup::text_values(self.aliases@),
            unknown: self.unknown_counter,
            completed: record_views(self.completed@),
            total: self.total_orders,
            terminal: self.terminal_orders,
            footer_width: self.footer_width,
            override_key: text_view(self.fix_override_key),
            delimiter: self.display_delimiter,
        }
    }
}

/// What an identifier is known as, if it is.
pub open spec fn alias_of(aliases: Map<Seq<char>, Seq<char>>, id: Option<Seq<char>>) -> Option<
    Seq<char>,
> {
    match id {
        Some(id) => if aliases.contains_key(id) {
            Some(aliases[id])
        } else {
            None
        },
        None => None,
    }
}

/// The aliases with an identifier added that is not known yet.
pub open spec fn noted_alias(
    aliases: Map<Seq<char>, Seq<char>>,
    id: Option<Seq<char>>,
    key: Seq<char>,
) -> Map<Seq<char>, Seq<char>> {
    match id {
        Some(id) => if aliases.contains_key(id) {
            aliases
        } else {
            aliases.insert(id, key)
        },
        None => aliases,
    }
}

/// The position of the first order with the key, from `at` on.
pub open spec fn keyed_order(orders: Seq<OrderView>, at: int, key: Seq<char>) -> int
    decreases orders.len() - at,
{
    if at < 0 || at >= orders.len() {
        orders.len() as int
    } else if orders[at].key == key {
        at
    } else {
        keyed_order(orders, at + 1, key)
    }
}

/// Why a message is not valid: all that validation finds in it.
pub open spec fn fault_of(msg: Seq<char>, dict: LookupModel) -> Option<Seq<char>> {
    let errors = report_of(findings(msg, dict)).errors;
    if errors.len() == 0 {
        None
    } else {
        Some(join(errors, "; "@))
    }
}

/// A message that is about an order even where it names none: its type is one of orders and
/// of the notices on their executions, or is not given.
pub open spec fn is_order_message(fields: FieldMap) -> bool {
    match value_in(fields, 35) {
        Some(msg_type) => is_order_type(msg_type) || msg_type == "BN"@,
        None => true,
    }
}

/// A message about an order, as far as the message itself tells: it carries an identifier of
/// one or is of an order's type, and is no session message.
pub open spec fn about_order(fields: FieldMap, dict: LookupModel) -> bool {
    let session = match value_in(fields, 35) {
        Some(msg_type) => dict.message_def(msg_type) matches Some(def) && def.is_admin,
        None => false,
    };
    let named = fields.contains_key(37) || fields.contains_key(11) || fields.contains_key(41);
    !session && (named || is_order_message(fields))
}

/// A key, and the number of unnamed orders by then.
pub struct ResolvedKey {
    pub key: Seq<char>,
    pub unknown: usize,
}

impl SummaryView {
    pub open spec fn empty(delimiter: char) -> SummaryView {
        SummaryView {
            orders: Map::empty(),
            aliases: Map::empty(),
            unknown: 0,
            completed: seq![],
            total: 0,
            terminal: 0,
            footer_width: 0,
            override_key: None,
            delimiter,
        }
    }

    /// The key of the order that a message belongs to: that of an identifier that is known,
    /// else the identifier itself, else a key of its own.
    pub open spec fn resolved_key(
        self,
        order_id: Option<Seq<char>>,
        cl_ord_id: Option<Seq<char>>,
        orig: Option<Seq<char>>,
    ) -> ResolvedKey {
        let known = match alias_of(self.aliases, order_id) {
            Some(key) => Some(key),
            None => match alias_of(self.aliases, cl_ord_id) {
                Some(key) => Some(key),
                None => alias_of(self.aliases, orig),
            },
        };
        match known {
            Some(key) => ResolvedKey { key, unknown: self.unknown },
            None => match order_id {
                Some(id) => ResolvedKey { key: id, unknown: self.unknown },
                None => match cl_ord_id {
                    Some(id) => ResolvedKey { key: id, unknown: self.unknown },
                    None => {
                        let n = capped(self.unknown + 1) as usize;
                        ResolvedKey { key: "UNKNOWN-"@ + decimal(n as nat), unknown: n }
                    },
                },
            },
        }
    }

    /// The order under a key taken up: as it stands, as it was completed, or new.
    pub open spec fn taken_up(self, key: Seq<char>) -> (SummaryView, OrderView) {
        if self.orders.contains_key(key) {
            (SummaryView { orders: self.orders.remove(key), ..self }, self.orders[key])
        } else {
            let at = keyed_order(self.completed, 0, key);
            if at < self.completed.len() {
                let order = self.completed[at];
                (
                    SummaryView {
                        completed: self.completed.remove(at),
                        terminal: if order.is_terminal() && self.terminal > 0 {
                            (self.terminal - 1) as usize
                        } else {
                            self.terminal
                        },
                        ..self
                    },
                    order,
                )
            } else {
                (
                    SummaryView { total: capped(self.total + 1) as usize, ..self },
                    new_order(key),
                )
            }
        }
    }

    /// An order put back: among the completed ones where it is done, else among the open
    /// ones.
    pub open spec fn put_back(self, key: Seq<char>, order: OrderView) -> SummaryView {
        if order.is_terminal() {
            SummaryView {
                completed: self.completed.push(order),
                terminal: capped(self.terminal + 1) as usize,
                ..self
            }
        } else {
            SummaryView { orders: self.orders.insert(key, order), ..self }
        }
    }

    /// An order with what a message says of it, and the message.
    pub open spec fn updated(
        self,
        order: OrderView,
        msg: Seq<char>,
        fields: FieldMap,
        dict: LookupModel,
    ) -> OrderView {
        let known = order.with_ids(
            value_in(fields, 37),
            value_in(fields, 11),
            value_in(fields, 41),
        ).absorbed(fields, dict, value_in(fields, 35));
        OrderView {
            events: known.events.push(
                EventView { fault: fault_of(msg, dict), ..event_in(fields, dict) },
            ),
            messages: known.messages.push(with_delimiter(msg, self.delimiter)),
            ..known
        }
    }

    /// The key of the order that a message with the given fields belongs to.
    pub open spec fn key_for(self, fields: FieldMap) -> ResolvedKey {
        self.resolved_key(value_in(fields, 37), value_in(fields, 11), value_in(fields, 41))
    }

    /// An identifier of the message is known.
    pub open spec fn knows(self, fields: FieldMap) -> bool {
        alias_of(self.aliases, value_in(fields, 37)) is Some || alias_of(
            self.aliases,
            value_in(fields, 11),
        ) is Some || alias_of(self.aliases, value_in(fields, 41)) is Some
    }

    /// A message that is recorded: it has fields, and brings an identifier that is known or
    /// is about an order.
    pub open spec fn records(self, msg: Seq<char>, dict: LookupModel) -> bool {
        let fields = field_map(fields_of(msg));
        fields_of(msg).len() > 0 && (self.knows(fields) || about_order(fields, dict))
    }

    /// The summary once the first override is noted.
    pub open spec fn with_override(self, override_key: Option<Seq<char>>) -> SummaryView {
        SummaryView {
            override_key: if self.override_key is None {
                override_key
            } else {
                self.override_key
            },
            ..self
        }
    }

    /// The summary once the identifiers of a message are noted.
    pub open spec fn named(self, fields: FieldMap) -> SummaryView {
        let found = self.key_for(fields);
        SummaryView {
            unknown: found.unknown,
            aliases: noted_alias(
                noted_alias(
                    noted_alias(self.aliases, value_in(fields, 37), found.key),
                    value_in(fields, 11),
                    found.key,
                ),
                value_in(fields, 41),
                found.key,
            ),
            ..self
        }
    }

    /// The summary with a message recorded; one without fields changes nothing, and of one
    /// about no order only the override is noted.
    pub open spec fn recorded(
        self,
        msg: Seq<char>,
        dict: LookupModel,
        override_key: Option<Seq<char>>,
    ) -> SummaryView {
        if fields_of(msg).len() == 0 {
            self
        } else if !self.records(msg, dict) {
            self.with_override(override_key)
        } else {
            let fields = field_map(fields_of(msg));
            let key = self.key_for(fields).key;
            let (rest, order) = self.with_override(override_key).named(fields).taken_up(key);
            rest.put_back(key, rest.updated(order, msg, fields, dict))
        }
    }
}

fn find_fault(msg: &str, dict: &FixTagLookup) -> (fault: Option<String>)
    ensures
        text_view(fault) == fault_of(msg@, dict.model()),
{
    let report = validate_fix_message(msg, dict);
    if report.errors.len() == 0 {
        None
    } else {
        Some(join_texts(&report.errors, "; "))
    }
}

fn tells_of_order(map: &HashMap<u32, String>, dict: &FixTagLookup) -> (yes: bool)
    ensures
        yes == about_order(string_values(map@), dict.model()),
{
    let session: bool = match map.get(&35) {
        Some(msg_type) => match dict.message_def(msg_type.as_str()) {
            Some(def) => def.is_admin,
            None => false,
        },
        None => false,
    };
    let of_order: bool = match map.get(&35) {
        Some(msg_type) => names_order_type(msg_type.as_str()) || same(msg_type.as_str(), "BN"),
        None => true,
    };
    !session && (map.contains_key(&37) || map.contains_key(&11) || map.contains_key(&41)
        || of_order)
}

impl OrderSummary {
    /// A summary without orders; messages are shown with the given delimiter.
    pub fn new(display_delimiter: char) -> (summary: OrderSummary)
        ensures
            summary@ == SummaryView::empty(display_delimiter),
    {
        let summary = OrderSummary {
            orders: TextMap::new(),
            aliases: TextMap::new(),
            unknown_counter: 0,
            completed: Vec::new(),
            total_orders: 0,
            terminal_orders: 0,
            footer_width: 0,
            fix_override_key: None,
            display_delimiter,
        };
        assert(summary@ =~= SummaryView::empty(display_delimiter));
        summary
    }

    fn find_alias(&self, id: Option<&str>) -> (key: Option<&str>)
        ensures
            opt_str(key) == alias_of(self@.aliases, opt_str(id)),
    {
        match id {
            Some(id) => match self.aliases.get(id) {
                Some(key) => Some(key.as_str()),
                None => None,
            },
            None => None,
        }
    }

    /// The key of the order that a message with the given identifiers belongs to.
    pub fn resolve_key(
        &mut self,
        order_id: Option<&str>,
        cl_ord_id: Option<&str>,
        orig: Option<&str>,
    ) -> (key: String)
        ensures
            ({
                let found = old(self)@.resolved_key(
                    opt_str(order_id),
                    opt_str(cl_ord_id),
                    opt_str(orig),
                );
                key@ == found.key && final(self)@ == (SummaryView {
                    unknown: found.unknown,
                    ..old(self)@
                })
            }),
    {
        if let Some(key) = self.find_alias(order_id) {
            return copy_of(key);
        }
        if let Some(key) = self.find_alias(cl_ord_id) {
            return copy_of(key);
        }
        if let Some(key) = self.find_alias(orig) {
            return copy_of(key);
        }
        if let Some(id) = order_id {
            return copy_of(id);
        }
        if let Some(id) = cl_ord_id {
            return copy_of(id);
        }
        self.unknown_counter = plus(self.unknown_counter, 1);
        let mut key = copy_of("UNKNOWN-");
        push_decimal(&mut key, self.unknown_counter as u64);
        key
    }

    fn note_alias(&mut self, id: Option<&str>, key: &str)
        ensures
            final(self)@ == (SummaryView {
                aliases: noted_alias(old(self)@.aliases, opt_str(id), key@),
                ..old(self)@
            }),
    {
        let ghost before = self.aliases@;
        if let Some(id) = id {
            if !self.aliases.contains_key(id) {
                self.aliases.insert(id, copy_of(key));
                assert(crate::tag_lookup::text_values(self.aliases@)
                    =~= crate::tag_lookup::text_values(before).insert(id@, key@));
            }
        }
    }

    fn take_up(&mut self, key: &str) -> (record: OrderRecord)
        ensures
            (final(self)@, record@) == old(self)@.taken_up(key@),
    {
        let ghost start = self@;
        let ghost before = *self;
        if let Some(record) = self.orders.take(key) {
            assert(order_views(self.orders@) =~= start.orders.remove(key@));
            return record;
        }
        let ghost all = record_views(self.completed@);
        assert(order_views(self.orders@) =~= start.orders);
        let mut at: usize = 0;
        while at < self.completed.len() && !same(self.completed[at].key.as_str(), key)
            invariant
                at <= self.completed@.len(),
                self.orders@ == before.orders@,
                self.aliases == before.aliases,
                self.completed == before.completed,
                self.unknown_counter == before.unknown_counter,
                self.total_orders == before.total_orders,
                self.terminal_orders == before.terminal_orders,
                self.footer_width == before.footer_width,
                self.fix_override_key == before.fix_override_key,
                self.display_delimiter == before.display_delimiter,
                all == record_views(self.completed@),
                keyed_order(all, 0, key@) == keyed_order(all, at as int, key@),
            decreases self.completed@.len() - at,
        {
            assert(all[at as int] == self.completed@[at as int]@);
            at += 1;
        }
        if at < self.completed.len() {
            assert(all[at as int] == self.completed@[at as int]@);
            let record = self.completed.remove(at);
            assert(record_views(self.completed@) =~= all.remove(at as int));
            if record.is_terminal() && self.terminal_orders > 0 {
                self.terminal_orders -= 1;
            }
            return record;
        }
        self.total_orders = plus(self.total_orders, 1);
        OrderRecord::new(copy_of(key))
    }

    fn put_back(&mut self, key: &str, record: OrderRecord)
        ensures
            final(self)@ == old(self)@.put_back(key@, record@),
    {
        let ghost start = self@;
        let ghost view = record@;
        if record.is_terminal() {
            let ghost before = self.completed@;
            self.completed.push(record);
            assert(record_views(self.completed@) =~= record_views(before).push(view));
            self.terminal_orders = plus(self.terminal_orders, 1);
        } else {
            let ghost before = self.orders@;
            self.orders.insert(key, record);
            assert(order_views(self.orders@) =~= order_views(before).insert(key@, view));
        }
    }

    /// Notes the first override.
    fn note_override(&mut self, fix_override: Option<&str>)
        ensures
            final(self)@ == old(self)@.with_override(opt_str(fix_override)),
    {
        if self.fix_override_key.is_none() {
            if let Some(key) = fix_override {
                self.fix_override_key = Some(copy_of(key));
            }
        }
    }

    /// Whether the identifier in a field of a message is known.
    fn knows_value(&self, map: &HashMap<u32, String>, tag: u32) -> (yes: bool)
        ensures
            yes == (alias_of(self@.aliases, value_in(string_values(map@), tag)) is Some),
    {
        match map.get(&tag) {
            Some(id) => self.aliases.contains_key(id.as_str()),
            None => false,
        }
    }

    /// Whether an identifier of a message is known.
    fn knows_order(&self, map: &HashMap<u32, String>) -> (yes: bool)
        ensures
            yes == self@.knows(string_values(map@)),
    {
        self.knows_value(map, 37) || self.knows_value(map, 11) || self.knows_value(map, 41)
    }

    /// Notes the identifiers of a message, and returns the order's key.
    fn name_order(&mut self, map: &HashMap<u32, String>) -> (key: String)
        ensures
            key@ == old(self)@.key_for(string_values(map@)).key,
            final(self)@ == old(self)@.named(string_values(map@)),
    {
        let order_id = copy_value(map, 37);
        let cl_ord_id = copy_value(map, 11);
        let orig = copy_value(map, 41);
        let key = self.resolve_key(borrowed(&order_id), borrowed(&cl_ord_id), borrowed(&orig));
        self.note_alias(borrowed(&order_id), key.as_str());
        self.note_alias(borrowed(&cl_ord_id), key.as_str());
        self.note_alias(borrowed(&orig), key.as_str());
        key
    }

    fn update_record(
        &self,
        record: OrderRecord,
        msg: &str,
        map: &HashMap<u32, String>,
        dict: &FixTagLookup,
    ) -> (updated: OrderRecord)
        ensures
            updated@ == self@.updated(record@, msg@, string_values(map@), dict.model()),
    {
        let mut updated = record;
        updated.merge_ids(copy_value(map, 37), copy_value(map, 11), copy_value(map, 41));
        let msg_type = copy_value(map, 35);
        updated.absorb_fields(map, dict, borrowed(&msg_type));
        let mut event = OrderEvent::from_fields(map, dict);
        event.fault = find_fault(msg, dict);
        let shown = display_with_delimiter(msg, self.display_delimiter);
        updated.push_event(event, shown);
        updated
    }

    /// Records a message about an order, read with the given dictionary.
    pub fn record_message_with_lookup(
        &mut self,
        msg: &str,
        dict: &FixTagLookup,
        fix_override: Option<&str>,
    )
        ensures
            final(self)@ == old(self)@.recorded(msg@, dict.model(), opt_str(fix_override)),
    {
        let fields = parse_fix(msg);
        assert(field_pairs(fields@).len() == fields@.len());
        if fields.len() == 0 {
            return;
        }
        let map = collect_field_map(&fields);
        self.note_override(fix_override);
        if !self.knows_order(&map) && !tells_of_order(&map, dict) {
            return;
        }
        let key = self.name_order(&map);
        let record = self.take_up(key.as_str());
        let updated = self.update_record(record, msg, &map, dict);
        self.put_back(key.as_str(), updated);
    }

    /// Records a message, read with the dictionary that it names or that the override
    /// gives. Tells whether there was a dictionary; without one nothing is recorded.
    pub fn record_message(
        &mut self,
        msg: &str,
        fix_override: Option<&str>,
        dictionaries: &mut DictionaryStore,
    ) -> (recorded: bool)
        ensures
            ({
                let found = resolved(old(dictionaries).lookups(), msg@, opt_str(fix_override), None);
                let skipped = fields_of(msg@).len() == 0;
                &&& recorded == (skipped || found.lookup is Some)
                &&& final(self)@ == match found.lookup {
                    Some(dict) => old(self)@.recorded(msg@, dict, opt_str(fix_override)),
                    None => old(self)@,
                }
                &&& final(dictionaries).lookups() == if skipped {
                    old(dictionaries).lookups()
                } else {
                    found.lookups
                }
                &&& final(dictionaries).missed() == (old(dictionaries).missed() || (!skipped
                    && found.missed))
            }),
    {
        let fields = parse_fix(msg);
        assert(field_pairs(fields@).len() == fields@.len());
        if fields.len() == 0 {
            return true;
        }
        match dictionaries.load_dictionary_with_override(msg, fix_override) {
            Some(dict) => {
                self.record_message_with_lookup(msg, &dict, fix_override);
                true
            },
            None => false,
        }
    }
}

} // verus!
