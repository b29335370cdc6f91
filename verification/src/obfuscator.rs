//! Replacing sensitive identifiers in messages by stable aliases.
use crate::collections::sorted_keys;
use crate::integrity::byte_sum;
use crate::outside::{find_spans, in_order, pattern_spans};
use crate::tag_lookup::{enum_values, string_values, text_values};
use crate::text::{
    chars_of, copy_of, decimal, decimal_text, join, join_texts, parse_u32, parsed_unsigned,
    pair_view, push_char, push_right_aligned, push_wide_decimal, right_aligned, same, split,
    split_once_at, split_once_text, split_text, text_between, texts, SOH,
};
use crate::textmap::TextMap;
use std::collections::{BTreeMap, HashMap};
use vstd::prelude::*;
use vstd::utf8::encode_utf8;

verus! {

broadcast use {
    vstd::std_specs::btree::group_btree_axioms,
    vstd::std_specs::hash::group_hash_axioms,
    vstd::seq_lib::group_seq_properties,
};

/// A FIX message inside a line of a log.
pub const MESSAGE_PATTERN: &'static str = r"8=FIX.*?10=\d{3}\u{0001}";

/// The part of a fragment before its first `=`.
pub open spec fn key_of(fragment: Seq<char>) -> Option<Seq<char>> {
    match split_once_at(fragment, '=') {
        Some((key, _)) => Some(key),
        None => None,
    }
}

fn has_key(fragment: &str, key: &str) -> (yes: bool)
    ensures
        yes == (key_of(fragment@) == Some(key@)),
{
    match split_once_text(fragment, '=') {
        Some((found, _)) => same(found.as_str(), key),
        None => false,
    }
}

/// The first position at or after `from` whose fragment has the key, or the length.
pub open spec fn first_keyed(fragments: Seq<Seq<char>>, from: int, key: Seq<char>) -> int
    decreases fragments.len() - from,
{
    if from < 0 || from >= fragments.len() {
        fragments.len() as int
    } else if key_of(fragments[from]) == Some(key) {
        from
    } else {
        first_keyed(fragments, from + 1, key)
    }
}

/// The last position before `n` whose fragment has the key, or -1.
pub open spec fn last_keyed(fragments: Seq<Seq<char>>, n: int, key: Seq<char>) -> int
    decreases n,
{
    if n <= 0 || n > fragments.len() {
        -1
    } else if key_of(fragments[n - 1]) == Some(key) {
        n - 1
    } else {
        last_keyed(fragments, n - 1, key)
    }
}

/// How many bytes the fragments take, each with the delimiter behind it.
pub open spec fn bytes_taken(fragments: Seq<Seq<char>>) -> nat
    decreases fragments.len(),
{
    if fragments.len() == 0 {
        0
    } else {
        bytes_taken(fragments.drop_last()) + encode_utf8(fragments.last()).len() + 1
    }
}

/// The sum of the fragments' bytes, each with the delimiter behind it.
pub open spec fn bytes_sum(fragments: Seq<Seq<char>>) -> nat
    decreases fragments.len(),
{
    if fragments.len() == 0 {
        0
    } else {
        bytes_sum(fragments.drop_last()) + byte_sum(encode_utf8(fragments.last())) + 1
    }
}

/// The body length field for a body of `n` bytes.
pub open spec fn length_fragment(n: nat) -> Seq<char> {
    "9="@ + decimal(n)
}

/// The checksum field for the sum `n`.
pub open spec fn checksum_fragment(n: nat) -> Seq<char> {
    "10="@ + right_aligned(decimal(n % 256), 3, '0')
}

/// The fragments with body length and checksum set right, where both are there in that
/// order.
pub open spec fn refreshed(fragments: Seq<Seq<char>>) -> Seq<Seq<char>> {
    let body = first_keyed(fragments, 0, "9"@);
    let end = last_keyed(fragments, fragments.len() as int, "10"@);
    if body >= fragments.len() || end <= body {
        fragments
    } else {
        let sized = fragments.update(
            body,
            length_fragment(bytes_taken(fragments.subrange(body + 1, end))),
        );
        sized.update(end, checksum_fragment(bytes_sum(sized.take(end))))
    }
}

/// Sets body length and checksum right, where the fragments hold both.
pub fn refresh_fix_lengths(fragments: &mut Vec<String>)
    ensures
        texts(final(fragments)@) == refreshed(texts(old(fragments)@)),
{
    let ghost all = texts(fragments@);
    let total: usize = fragments.len();
    let mut body: usize = 0;
    while body < total && !has_key(fragments[body].as_str(), "9")
        invariant
            body <= total,
            total == fragments@.len(),
            all == texts(fragments@),
            first_keyed(all, 0, "9"@) == first_keyed(all, body as int, "9"@),
        decreases total - body,
    {
        assert(all[body as int] == fragments@[body as int]@);
        body += 1;
    }
    if body < total {
        assert(all[body as int] == fragments@[body as int]@);
    }
    let mut n: usize = total;
    while n > 0 && !has_key(fragments[n - 1].as_str(), "10")
        invariant
            n <= total,
            total == fragments@.len(),
            all == texts(fragments@),
            last_keyed(all, all.len() as int, "10"@) == last_keyed(all, n as int, "10"@),
        decreases n,
    {
        assert(all[n - 1] == fragments@[n - 1]@);
        n -= 1;
    }
    if n > 0 {
        assert(all[n - 1] == fragments@[n - 1]@);
    }
    if body >= total || n == 0 || n - 1 <= body {
        return;
    }
    let end: usize = n - 1;
    let length: u128 = count_bytes(fragments, body + 1, end);
    let mut text = copy_of("9=");
    push_wide_decimal(&mut text, length);
    fragments[body] = text;
    let ghost sized = texts(fragments@);
    assert(sized =~= all.update(
        body as int,
        length_fragment(bytes_taken(all.subrange(body + 1, end as int))),
    ));
    let sum: i32 = calculate_checksum(fragments, end);
    let mut text = copy_of("10=");
    push_right_aligned(&mut text, decimal_text(sum as u64).as_str(), 3, '0');
    fragments[end] = text;
    assert(texts(fragments@) =~= sized.update(
        end as int,
        checksum_fragment(bytes_sum(sized.take(end as int))),
    ));
}

fn count_bytes(fragments: &Vec<String>, from: usize, to: usize) -> (length: u128)
    requires
        from <= to <= fragments@.len(),
    ensures
        length == bytes_taken(texts(fragments@).subrange(from as int, to as int)),
{
    let ghost all = texts(fragments@);
    let mut length: u128 = 0;
    let mut i: usize = from;
    assert(all.subrange(from as int, from as int).len() == 0);
    while i < to
        invariant
            from <= i <= to <= fragments@.len(),
            all == texts(fragments@),
            length == bytes_taken(all.subrange(from as int, i as int)),
            length <= (i - from) * 0x1_0000_0000_0000_0000,
        decreases to - i,
    {
        assert(all.subrange(from as int, i + 1).drop_last() =~= all.subrange(
            from as int,
            i as int,
        ));
        assert(all.subrange(from as int, i + 1).last() == fragments@[i as int]@);
        let bytes: usize = fragments[i].as_str().as_bytes().len();
        assert((i - from) * 0x1_0000_0000_0000_0000 + 0x1_0000_0000_0000_0000 <= u128::MAX)
            by (nonlinear_arith)
            requires
                0 <= i - from < 0xffff_ffff_ffff_ffff,
        ;
        length = length + bytes as u128 + 1;
        i += 1;
    }
    length
}

/// The checksum of the fragments before `checksum_idx`.
pub fn calculate_checksum(fragments: &Vec<String>, checksum_idx: usize) -> (sum: i32)
    requires
        checksum_idx <= fragments@.len(),
    ensures
        sum == bytes_sum(texts(fragments@).take(checksum_idx as int)) % 256,
        0 <= sum < 256,
{
    let ghost all = texts(fragments@);
    let mut total: i32 = 0;
    let mut i: usize = 0;
    while i < checksum_idx
        invariant
            i <= checksum_idx <= fragments@.len(),
            all == texts(fragments@),
            0 <= total < 256,
            total == bytes_sum(all.take(i as int)) % 256,
        decreases checksum_idx - i,
    {
        assert(all.take(i + 1).drop_last() =~= all.take(i as int));
        assert(all.take(i + 1).last() == fragments@[i as int]@);
        let ghost before = total as int;
        let bytes = fragments[i].as_str().as_bytes();
        let mut k: usize = 0;
        while k < bytes.len()
            invariant
                k <= bytes@.len(),
                0 <= before < 256,
                0 <= total < 256,
                total == (before + byte_sum(bytes@.take(k as int))) % 256,
            decreases bytes@.len() - k,
        {
            assert(bytes@.take(k + 1).drop_last() =~= bytes@.take(k as int));
            total = (total + bytes[k] as i32) % 256;
            k += 1;
        }
        assert(bytes@.take(bytes@.len() as int) =~= bytes@);
        total = (total + 1) % 256;
        i += 1;
    }
    total
}

/// The aliases given so far: for each tag those of its values, and how many there are.
#[verifier::ext_equal]
pub struct AliasModel {
    pub aliases: Map<u32, Map<Seq<char>, Seq<char>>>,
    pub counters: Map<u32, u32>,
}

/// The mathematical content of an `Obfuscator`.
#[verifier::ext_equal]
pub struct ObfuscatorModel {
    pub enabled: bool,
    pub tags: Map<u32, Seq<char>>,
    pub state: AliasModel,
}

/// The number behind `n`; the count starts over behind the largest.
pub open spec fn counted(n: u32) -> u32 {
    if n == u32::MAX {
        0
    } else {
        (n + 1) as u32
    }
}

/// The alias with number `n` for a field called `name`.
pub open spec fn alias_text(name: Seq<char>, n: u32) -> Seq<char> {
    name + right_aligned(decimal(n as nat), 4, '0')
}

impl AliasModel {
    pub open spec fn fresh() -> AliasModel {
        AliasModel { aliases: Map::empty(), counters: Map::empty() }
    }

    /// The aliases of the tag's values.
    pub open spec fn of(self, tag: u32) -> Map<Seq<char>, Seq<char>> {
        if self.aliases.contains_key(tag) {
            self.aliases[tag]
        } else {
            Map::empty()
        }
    }

    pub open spec fn knows(self, tag: u32, value: Seq<char>) -> bool {
        self.of(tag).contains_key(value)
    }

    /// How many aliases the tag has.
    pub open spec fn count(self, tag: u32) -> u32 {
        if self.counters.contains_key(tag) {
            self.counters[tag]
        } else {
            0
        }
    }

    /// The alias for a value: the one it has, or the next one of its tag.
    pub open spec fn alias(self, tag: u32, value: Seq<char>, name: Seq<char>) -> Seq<char> {
        if self.knows(tag, value) {
            self.of(tag)[value]
        } else {
            alias_text(name, counted(self.count(tag)))
        }
    }

    /// The state once a value has its alias.
    pub open spec fn aliased(self, tag: u32, value: Seq<char>, name: Seq<char>) -> AliasModel {
        if self.knows(tag, value) {
            self
        } else {
            AliasModel {
                aliases: self.aliases.insert(
                    tag,
                    self.of(tag).insert(value, self.alias(tag, value, name)),
                ),
                counters: self.counters.insert(tag, counted(self.count(tag))),
            }
        }
    }
}

/// A fragment as tag and value text: split at the first `=`, or at the first delimiter.
pub open spec fn split_fragment(fragment: Seq<char>) -> Option<(Seq<char>, Seq<char>)> {
    match split_once_at(fragment, '=') {
        Some(pair) => Some(pair),
        None => split_once_at(fragment, SOH),
    }
}

/// Splits a fragment at its first `=`, or else at its first delimiter.
pub fn split_once(fragment: &str) -> (pair: Option<(String, String)>)
    ensures
        pair_view(pair) == split_fragment(fragment@),
{
    match split_once_text(fragment, '=') {
        Some(pair) => Some(pair),
        None => split_once_text(fragment, SOH),
    }
}

/// The sensitive field in a fragment: its tag and its value.
pub open spec fn sensitive_field(fragment: Seq<char>, tags: Map<u32, Seq<char>>) -> Option<
    (u32, Seq<char>),
> {
    match split_fragment(fragment) {
        None => None,
        Some((tag, value)) => match parsed_unsigned(tag, u32::MAX as nat) {
            Some(number) => if tags.contains_key(number as u32) {
                Some((number as u32, value))
            } else {
                None
            },
            None => None,
        },
    }
}

/// What became of some fragments, and the aliases after them.
#[verifier::ext_equal]
pub struct Pass {
    pub fragments: Seq<Seq<char>>,
    pub changed: bool,
    pub state: AliasModel,
}

/// The pieces of a message with aliases for the sensitive values; empty pieces are left out.
pub open spec fn passed(
    pieces: Seq<Seq<char>>,
    tags: Map<u32, Seq<char>>,
    state: AliasModel,
) -> Pass
    decreases pieces.len(),
{
    if pieces.len() == 0 {
        Pass { fragments: seq![], changed: false, state }
    } else {
        let before = passed(pieces.drop_last(), tags, state);
        let piece = pieces.last();
        if piece.len() == 0 {
            before
        } else {
            match sensitive_field(piece, tags) {
                Some((tag, value)) => Pass {
                    fragments: before.fragments.push(
                        decimal(tag as nat) + "="@ + before.state.alias(tag, value, tags[tag]),
                    ),
                    changed: true,
                    state: before.state.aliased(tag, value, tags[tag]),
                },
                None => Pass { fragments: before.fragments.push(piece), ..before },
            }
        }
    }
}

/// A text and the aliases after it was written.
#[verifier::ext_equal]
pub struct Written {
    pub text: Seq<char>,
    pub state: AliasModel,
}

/// A message with aliases for its sensitive values, body length and checksum set right. One
/// without sensitive values stays as it is.
pub open spec fn obfuscated_message(
    msg: Seq<char>,
    tags: Map<u32, Seq<char>>,
    state: AliasModel,
) -> Written {
    let pass = passed(split(msg, SOH), tags, state);
    let text = if !pass.changed {
        msg
    } else {
        let body = join(refreshed(pass.fragments), seq![SOH]);
        if msg.len() > 0 && msg.last() == SOH {
            body.push(SOH)
        } else {
            body
        }
    };
    Written { text, state: pass.state }
}

/// The start of a line with the messages of the first `n` spans obfuscated.
pub open spec fn obfuscated_spans(
    line: Seq<char>,
    spans: Seq<(usize, usize)>,
    n: int,
    tags: Map<u32, Seq<char>>,
    state: AliasModel,
) -> Written
    decreases n,
{
    if n <= 0 || n > spans.len() {
        Written { text: seq![], state }
    } else {
        let before = obfuscated_spans(line, spans, n - 1, tags, state);
        let (start, end) = spans[n - 1];
        let gap = line.subrange(end_of(spans, n - 1), start as int);
        let message = obfuscated_message(
            line.subrange(start as int, end as int),
            tags,
            before.state,
        );
        Written { text: before.text + gap + message.text, state: message.state }
    }
}

/// Where the `n`-th span ends; 0 ahead of the first.
pub open spec fn end_of(spans: Seq<(usize, usize)>, n: int) -> int {
    if 0 < n <= spans.len() {
        spans[n - 1].1 as int
    } else {
        0
    }
}

/// A line with its messages, which stand at `spans`, obfuscated; a line without any is
/// taken for a message itself.
pub open spec fn obfuscated_line(
    line: Seq<char>,
    spans: Seq<(usize, usize)>,
    tags: Map<u32, Seq<char>>,
    state: AliasModel,
) -> Written {
    let end = end_of(spans, spans.len() as int);
    let messages = obfuscated_spans(line, spans, spans.len() as int, tags, state);
    if end > 0 {
        Written { text: messages.text + line.skip(end), state: messages.state }
    } else {
        obfuscated_message(line, tags, messages.state)
    }
}

/// Where the messages stand in a line.
pub open spec fn message_spans(line: Seq<char>) -> Seq<(usize, usize)> {
    match pattern_spans(MESSAGE_PATTERN@, line) {
        Some(spans) => spans,
        None => seq![],
    }
}

/// Replaces the values of sensitive tags by aliases, the same value always by the same one.
#[derive(Debug)]
pub struct Obfuscator {
    enabled: bool,
    tags: HashMap<u32, String>,
    alias_map: HashMap<u32, TextMap<String>>,
    counters: HashMap<u32, u32>,
}

impl Obfuscator {
    pub closed spec fn model(self) -> ObfuscatorModel {
        ObfuscatorModel {
            enabled: self.enabled,
            tags: string_values(self.tags@),
            state: AliasModel {
                aliases: enum_values(self.alias_map@),
                counters: self.counters@,
            },
        }
    }

    /// Whether lines are changed at all.
    pub fn is_enabled(&self) -> (yes: bool)
        ensures
            yes == self.model().enabled,
    {
        self.enabled
    }

    /// Forgets all aliases.
    pub fn reset(&mut self)
        ensures
            final(self).model() == (ObfuscatorModel {
                state: if old(self).model().enabled {
                    AliasModel::fresh()
                } else {
                    old(self).model().state
                },
                ..old(self).model()
            }),
    {
        if !self.enabled {
            return;
        }
        self.alias_map = HashMap::new();
        self.counters = HashMap::new();
        assert(self.model().state =~= AliasModel::fresh());
    }

    /// The alias for a value of a sensitive tag: the one it has, or a new one.
    pub fn next_alias(&mut self, tag: u32, value: &str, name: &str) -> (alias: String)
        ensures
            alias@ == old(self).model().state.alias(tag, value@, name@),
            final(self).model() == (ObfuscatorModel {
                state: old(self).model().state.aliased(tag, value@, name@),
                ..old(self).model()
            }),
    {
        let ghost before = self.model();
        let ghost old_map = self.alias_map@;
        let mut known: TextMap<String> = match self.alias_map.remove(&tag) {
            Some(known) => known,
            None => TextMap::new(),
        };
        assert(text_values(known@) =~= before.state.of(tag));
        if let Some(alias) = known.get(value) {
            let copy = copy_of(alias.as_str());
            self.alias_map.insert(tag, known);
            assert(self.alias_map@ =~= old_map);
            return copy;
        }
        let counter: u32 = match self.counters.get(&tag) {
            Some(counter) => *counter,
            None => 0,
        };
        let counter: u32 = if counter == u32::MAX {
            0
        } else {
            counter + 1
        };
        let mut alias = copy_of(name);
        push_right_aligned(&mut alias, decimal_text(counter as u64).as_str(), 4, '0');
        let ghost old_known = known@;
        known.insert(value, copy_of(alias.as_str()));
        assert(text_values(known@) =~= text_values(old_known).insert(value@, alias@));
        self.counters.insert(tag, counter);
        self.alias_map.insert(tag, known);
        assert(enum_values(self.alias_map@) =~= enum_values(old_map).insert(
            tag,
            text_values(known@),
        ));
        assert(self.model().state =~= before.state.aliased(tag, value@, name@));
        alias
    }

    /// An obfuscator for the given tags, each with the name that its aliases start with.
    pub fn from_sensitive_tags(tags: &BTreeMap<u32, &'static str>, enabled: bool) -> (obfuscator:
        Obfuscator)
        ensures
            obfuscator.model() == (ObfuscatorModel {
                enabled,
                tags: tags@.map_values(|name: &'static str| name@),
                state: AliasModel::fresh(),
            }),
    {
        let keys = sorted_keys(tags);
        let mut copy: HashMap<u32, String> = HashMap::new();
        let mut i: usize = 0;
        while i < keys.len()
            invariant
                i <= keys@.len(),
                keys@.to_set() == tags@.dom(),
                keys@.no_duplicates(),
                copy@.dom() == keys@.take(i as int).to_set(),
                forall|tag: u32| #[trigger]
                    copy@.contains_key(tag) ==> tags@.contains_key(tag) && copy@[tag]@
                        == tags@[tag]@,
            decreases keys@.len() - i,
        {
            let key: u32 = keys[i];
            assert(keys@.to_set().contains(key));
            assert(keys@.take(i + 1) =~= keys@.take(i as int).push(key));
            let ghost before = copy@;
            copy.insert(key, copy_of(*tags.get(&key).unwrap()));
            assert(copy@.dom() =~= keys@.take(i + 1).to_set());
            i += 1;
        }
        assert(keys@.take(keys@.len() as int) =~= keys@);
        let obfuscator = Obfuscator {
            enabled,
            tags: copy,
            alias_map: HashMap::new(),
            counters: HashMap::new(),
        };
        assert(obfuscator.model().tags =~= tags@.map_values(|name: &'static str| name@));
        assert(obfuscator.model().state =~= AliasModel::fresh());
        obfuscator
    }

    /// Obfuscates one message.
    pub fn obfuscate_fix_message(&mut self, msg: &str) -> (text: String)
        ensures
            ({
                let written = obfuscated_message(
                    msg@,
                    old(self).model().tags,
                    old(self).model().state,
                );
                text@ == written.text && final(self).model() == (ObfuscatorModel {
                    state: written.state,
                    ..old(self).model()
                })
            }),
    {
        let ghost start = self.model();
        let pieces = split_text(msg, SOH);
        let ghost all = texts(pieces@);
        let mut fragments: Vec<String> = Vec::new();
        let mut changed: bool = false;
        let mut i: usize = 0;
        assert(texts(fragments@) =~= passed(all.take(0), start.tags, start.state).fragments);
        while i < pieces.len()
            invariant
                i <= pieces@.len(),
                all == texts(pieces@),
                ({
                    let pass = passed(all.take(i as int), start.tags, start.state);
                    &&& texts(fragments@) == pass.fragments
                    &&& changed == pass.changed
                    &&& self.model() == (ObfuscatorModel { state: pass.state, ..start })
                }),
            decreases pieces@.len() - i,
        {
            assert(all.take(i + 1).drop_last() =~= all.take(i as int));
            assert(all.take(i + 1).last() == pieces@[i as int]@);
            let ghost before = fragments@;
            let piece = pieces[i].as_str();
            if piece.unicode_len() > 0 {
                match self.sensitive(piece) {
                    Some((tag, value, name)) => {
                        let alias = self.next_alias(tag, value.as_str(), name.as_str());
                        let mut text = decimal_text(tag as u64);
                        text.append("=");
                        text.append(alias.as_str());
                        let ghost added = text@;
                        fragments.push(text);
                        changed = true;
                        assert(texts(fragments@) =~= texts(before).push(added));
                    },
                    None => {
                        fragments.push(copy_of(piece));
                        assert(texts(fragments@) =~= texts(before).push(piece@));
                    },
                }
            }
            i += 1;
        }
        assert(all.take(all.len() as int) =~= all);
        if !changed {
            return copy_of(msg);
        }
        refresh_fix_lengths(&mut fragments);
        let mut output = join_texts(&fragments, "\u{1}");
        proof {
            reveal_strlit("\u{1}");
            assert("\u{1}"@ =~= seq![SOH]);
        }
        let chars = chars_of(msg);
        if chars.len() > 0 && chars[chars.len() - 1] == SOH {
            push_char(&mut output, SOH);
        }
        output
    }

    /// The sensitive field in a fragment, with the name its aliases start with.
    fn sensitive(&self, fragment: &str) -> (field: Option<(u32, String, String)>)
        ensures
            match field {
                Some((tag, value, name)) => sensitive_field(fragment@, self.model().tags) == Some(
                    (tag, value@),
                ) && name@ == self.model().tags[tag],
                None => sensitive_field(fragment@, self.model().tags) is None,
            },
    {
        match split_once(fragment) {
            Some((tag, value)) => match parse_u32(tag.as_str()) {
                Some(number) => match self.tags.get(&number) {
                    Some(name) => Some((number, value, copy_of(name.as_str()))),
                    None => None,
                },
                None => None,
            },
            None => None,
        }
    }

    /// Obfuscates the messages of a line, which stand at `spans`; with no span the line is
    /// taken for a message itself.
    pub fn obfuscate_spans(&mut self, line: &str, spans: &Vec<(usize, usize)>) -> (text: String)
        requires
            in_order(spans@, line@.len()),
        ensures
            ({
                let written = obfuscated_line(
                    line@,
                    spans@,
                    old(self).model().tags,
                    old(self).model().state,
                );
                text@ == written.text && final(self).model() == (ObfuscatorModel {
                    state: written.state,
                    ..old(self).model()
                })
            }),
    {
        let ghost start = self.model();
        let chars = chars_of(line);
        let mut output = String::new();
        let mut last: usize = 0;
        let mut i: usize = 0;
        while i < spans.len()
            invariant
                i <= spans@.len(),
                chars@ == line@,
                in_order(spans@, line@.len()),
                last == end_of(spans@, i as int),
                last <= line@.len(),
                ({
                    let done = obfuscated_spans(
                        line@,
                        spans@,
                        i as int,
                        start.tags,
                        start.state,
                    );
                    output@ == done.text && self.model() == (ObfuscatorModel {
                        state: done.state,
                        ..start
                    })
                }),
            decreases spans@.len() - i,
        {
            let (from, to) = spans[i];
            if i > 0 {
                assert(spans@[i - 1].1 <= spans@[i as int].0);
            }
            let gap = text_between(&chars, last, from);
            output.append(gap.as_str());
            let message = text_between(&chars, from, to);
            let written = self.obfuscate_fix_message(message.as_str());
            output.append(written.as_str());
            last = to;
            i += 1;
        }
        if last > 0 {
            let rest = text_between(&chars, last, chars.len());
            assert(rest@ =~= line@.skip(last as int));
            output.append(rest.as_str());
            return output;
        }
        self.obfuscate_fix_message(line)
    }

    /// Obfuscates a line; a disabled obfuscator leaves it as it is.
    pub fn obfuscate_line(&mut self, line: &str) -> (text: String)
        ensures
            !old(self).model().enabled ==> text@ == line@ && final(self).model() == old(
                self,
            ).model(),
            old(self).model().enabled ==> {
                let written = obfuscated_line(
                    line@,
                    message_spans(line@),
                    old(self).model().tags,
                    old(self).model().state,
                );
                text@ == written.text && final(self).model() == (ObfuscatorModel {
                    state: written.state,
                    ..old(self).model()
                })
            },
    {
        if !self.enabled {
            return copy_of(line);
        }
        match find_spans(MESSAGE_PATTERN, line) {
            Some(spans) => self.obfuscate_spans(line, &spans),
            None => self.obfuscate_spans(line, &Vec::new()),
        }
    }

    /// A line as it may be shown: obfuscated where the obfuscator is enabled.
    pub fn enabled_line(&mut self, line: &str) -> (text: String)
        ensures
            !old(self).model().enabled ==> text@ == line@ && final(self).model() == old(
                self,
            ).model(),
            old(self).model().enabled ==> {
                let written = obfuscated_line(
                    line@,
                    message_spans(line@),
                    old(self).model().tags,
                    old(self).model().state,
                );
                text@ == written.text && final(self).model() == (ObfuscatorModel {
                    state: written.state,
                    ..old(self).model()
                })
            },
    {
        if !self.enabled {
            return copy_of(line);
        }
        self.obfuscate_line(line)
    }
}

} // verus!
