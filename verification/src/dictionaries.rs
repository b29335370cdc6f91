//! Which dictionary decodes a message: the embedded dictionaries, those registered by the
//! user, and the choice between them.
use crate::collections::share;
use crate::embedded::{
    FIX40_XML, FIX41_XML, FIX42_XML, FIX43_XML, FIX44_XML, FIX50SP1_XML, FIX50SP2_XML, FIX50_XML,
    FIXT11_XML,
};
use crate::schema::{dictionary_in, error_text, DictionaryView, FixDictionary};
use crate::tag_lookup::{
    lookup_of, lookup_warnings, FallbackKind, FixTagLookup, LookupModel,
};
use crate::text::{
    chars_of, copy_of, joined, push_all, push_char, same, split, split_once_at, split_once_text,
    split_text, text_view, texts, SOH,
};
use crate::textmap::TextMap;
use std::sync::Arc;
use vstd::prelude::*;
use vstd::string::StringExecFns;

verus! {

/// The embedded dictionary of a version; an unknown version gives FIX 4.4.
pub open spec fn embedded_xml(version: Seq<char>) -> Seq<char> {
    if version == "40"@ {
        FIX40_XML@
    } else if version == "41"@ {
        FIX41_XML@
    } else if version == "42"@ {
        FIX42_XML@
    } else if version == "43"@ {
        FIX43_XML@
    } else if version == "50"@ {
        FIX50_XML@
    } else if version == "50SP1"@ {
        FIX50SP1_XML@
    } else if version == "50SP2"@ {
        FIX50SP2_XML@
    } else if version == "T11"@ {
        FIXT11_XML@
    } else {
        FIX44_XML@
    }
}

/// The XML of an embedded dictionary; an unknown version gives FIX 4.4.
pub fn choose_embedded_xml(version: &str) -> (xml: &'static str)
    ensures
        xml@ == embedded_xml(version@),
{
    if same(version, "40") {
        FIX40_XML
    } else if same(version, "41") {
        FIX41_XML
    } else if same(version, "42") {
        FIX42_XML
    } else if same(version, "43") {
        FIX43_XML
    } else if same(version, "50") {
        FIX50_XML
    } else if same(version, "50SP1") {
        FIX50SP1_XML
    } else if same(version, "50SP2") {
        FIX50SP2_XML
    } else if same(version, "T11") {
        FIXT11_XML
    } else {
        FIX44_XML
    }
}

/// The versions with an embedded dictionary.
pub fn supported_fix_versions() -> (versions: &'static str)
    ensures
        versions@ == "40,41,42,43,44,50,50SP1,50SP2,T11"@,
{
    "40,41,42,43,44,50,50SP1,50SP2,T11"
}

/// The embedded dictionary that a schema key stands for. FIX 2.7 and 3.0 are read as 4.0.
pub open spec fn xml_id(key: Seq<char>) -> Option<Seq<char>> {
    if key == "FIX27"@ || key == "FIX30"@ || key == "FIX40"@ {
        Some("40"@)
    } else if key == "FIX41"@ {
        Some("41"@)
    } else if key == "FIX42"@ {
        Some("42"@)
    } else if key == "FIX43"@ {
        Some("43"@)
    } else if key == "FIX44"@ {
        Some("44"@)
    } else if key == "FIX50"@ {
        Some("50"@)
    } else if key == "FIX50SP1"@ {
        Some("50SP1"@)
    } else if key == "FIX50SP2"@ {
        Some("50SP2"@)
    } else if key == "FIXT11"@ {
        Some("T11"@)
    } else {
        None
    }
}

pub open spec fn opt_str(text: Option<&str>) -> Option<Seq<char>> {
    match text {
        Some(t) => Some(t@),
        None => None,
    }
}

/// The embedded dictionary that a schema key stands for.
pub fn schema_to_xml_id(key: &str) -> (id: Option<&'static str>)
    ensures
        opt_str(id) == xml_id(key@),
{
    if same(key, "FIX27") || same(key, "FIX30") || same(key, "FIX40") {
        Some("40")
    } else if same(key, "FIX41") {
        Some("41")
    } else if same(key, "FIX42") {
        Some("42")
    } else if same(key, "FIX43") {
        Some("43")
    } else if same(key, "FIX44") {
        Some("44")
    } else if same(key, "FIX50") {
        Some("50")
    } else if same(key, "FIX50SP1") {
        Some("50SP1")
    } else if same(key, "FIX50SP2") {
        Some("50SP2")
    } else if same(key, "FIXT11") {
        Some("T11")
    } else {
        None
    }
}

/// The FIX 5.0 family leaves its session layer to FIXT 1.1.
pub open spec fn needs_session(key: Seq<char>) -> bool {
    key == "FIX50"@ || key == "FIX50SP1"@ || key == "FIX50SP2"@
}

/// Whether a dictionary leaves its session layer to FIXT 1.1.
pub fn needs_session_merge(key: &str) -> (yes: bool)
    ensures
        yes == needs_session(key@),
{
    same(key, "FIX50") || same(key, "FIX50SP1") || same(key, "FIX50SP2")
}

// ---------------------------------------------------------------------------
// Reading the schema key off a message
// ---------------------------------------------------------------------------
/// The value of the first of `fields` whose tag is `tag`.
pub open spec fn value_in(fields: Seq<Seq<char>>, tag: Seq<char>) -> Option<Seq<char>>
    decreases fields.len(),
{
    if fields.len() == 0 {
        None
    } else {
        match split_once_at(fields[0], '=') {
            Some((lhs, rhs)) => if lhs == tag {
                Some(rhs)
            } else {
                value_in(fields.skip(1), tag)
            },
            None => value_in(fields.skip(1), tag),
        }
    }
}

/// The value of the first field of a message whose tag is `tag`.
pub open spec fn tag_value(msg: Seq<char>, tag: Seq<char>) -> Option<Seq<char>> {
    value_in(split(msg, SOH), tag)
}

/// The value of a message's first field with the given tag.
pub fn get_tag_value(msg: &str, tag: &str) -> (value: Option<String>)
    ensures
        text_view(value) == tag_value(msg@, tag@),
{
    let fields = split_text(msg, SOH);
    let ghost all = texts(fields@);
    let mut i: usize = 0;
    assert(all.skip(0) =~= all);
    while i < fields.len()
        invariant
            0 <= i <= fields@.len(),
            all == texts(fields@),
            all == split(msg@, SOH),
            value_in(all, tag@) == value_in(all.skip(i as int), tag@),
        decreases fields@.len() - i,
    {
        assert(all.skip(i as int)[0] == fields@[i as int]@);
        assert(all.skip(i as int).skip(1) =~= all.skip(i + 1));
        if let Some((lhs, rhs)) = split_once_text(fields[i].as_str(), '=') {
            if same(lhs.as_str(), tag) {
                return Some(rhs);
            }
        }
        i += 1;
    }
    None
}

/// The schema that an application version stands for.
pub open spec fn appl_ver_schema(value: Seq<char>) -> Option<Seq<char>> {
    if value == "0"@ {
        Some("FIX27"@)
    } else if value == "1"@ {
        Some("FIX30"@)
    } else if value == "2"@ {
        Some("FIX40"@)
    } else if value == "3"@ {
        Some("FIX41"@)
    } else if value == "4"@ {
        Some("FIX42"@)
    } else if value == "5"@ {
        Some("FIX43"@)
    } else if value == "6"@ {
        Some("FIX44"@)
    } else if value == "7"@ {
        Some("FIX50"@)
    } else if value == "8"@ {
        Some("FIX50SP1"@)
    } else if value == "9"@ {
        Some("FIX50SP2"@)
    } else {
        None
    }
}

/// The schema that an application version stands for.
pub fn appl_ver_to_schema(value: &str) -> (schema: Option<&'static str>)
    ensures
        opt_str(schema) == appl_ver_schema(value@),
{
    if same(value, "0") {
        Some("FIX27")
    } else if same(value, "1") {
        Some("FIX30")
    } else if same(value, "2") {
        Some("FIX40")
    } else if same(value, "3") {
        Some("FIX41")
    } else if same(value, "4") {
        Some("FIX42")
    } else if same(value, "5") {
        Some("FIX43")
    } else if same(value, "6") {
        Some("FIX44")
    } else if same(value, "7") {
        Some("FIX50")
    } else if same(value, "8") {
        Some("FIX50SP1")
    } else if same(value, "9") {
        Some("FIX50SP2")
    } else {
        None
    }
}

/// `text` without any `c`.
pub open spec fn without_char(text: Seq<char>, c: char) -> Seq<char>
    decreases text.len(),
{
    if text.len() == 0 {
        seq![]
    } else if text.last() == c {
        without_char(text.drop_last(), c)
    } else {
        without_char(text.drop_last(), c).push(text.last())
    }
}

/// Removes every `c` from a text.
pub fn remove_char(text: &str, c: char) -> (rest: String)
    ensures
        rest@ == without_char(text@, c),
{
    let chars = chars_of(text);
    let mut rest = String::new();
    let mut i: usize = 0;
    assert(rest@ =~= without_char(chars@.take(0), c));
    while i < chars.len()
        invariant
            0 <= i <= chars@.len(),
            rest@ == without_char(chars@.take(i as int), c),
        decreases chars@.len() - i,
    {
        assert(chars@.take(i + 1).drop_last() =~= chars@.take(i as int));
        assert(chars@.take(i + 1).last() == chars@[i as int]);
        if chars[i] != c {
            push_char(&mut rest, chars[i]);
        }
        i += 1;
    }
    assert(chars@.take(chars@.len() as int) =~= chars@);
    rest
}

/// The schema of a message. FIXT messages name their application version, or take the
/// session's; any other message is of the version in its first field.
pub open spec fn detected_key(msg: Seq<char>, session_default: Option<Seq<char>>) -> Seq<char> {
    match tag_value(msg, "8"@) {
        None => "FIX44"@,
        Some(begin) => if begin == "FIXT.1.1"@ {
            let version = match tag_value(msg, "1128"@) {
                Some(version) => Some(version),
                None => tag_value(msg, "1137"@),
            };
            let named = match version {
                Some(version) => appl_ver_schema(version),
                None => None,
            };
            match (named, session_default) {
                (Some(schema), _) => schema,
                (None, Some(schema)) => schema,
                (None, None) => "FIX50"@,
            }
        } else {
            without_char(begin, '.')
        },
    }
}

/// The schema key of a message, with the session's default application version.
pub fn detect_schema_key_with_default(msg: &str, session_default_key: Option<&str>) -> (key: String)
    ensures
        key@ == detected_key(msg@, opt_str(session_default_key)),
{
    let begin = match get_tag_value(msg, "8") {
        Some(begin) => begin,
        None => {
            return copy_of("FIX44");
        },
    };
    if !same(begin.as_str(), "FIXT.1.1") {
        return remove_char(begin.as_str(), '.');
    }
    let version = match get_tag_value(msg, "1128") {
        Some(version) => Some(version),
        None => get_tag_value(msg, "1137"),
    };
    if let Some(version) = version {
        if let Some(schema) = appl_ver_to_schema(version.as_str()) {
            return copy_of(schema);
        }
    }
    match session_default_key {
        Some(schema) => copy_of(schema),
        None => copy_of("FIX50"),
    }
}

/// The schema key of a message on its own.
pub fn detect_schema_key(msg: &str) -> (key: String)
    ensures
        key@ == detected_key(msg@, None),
{
    detect_schema_key_with_default(msg, None)
}

/// The schema that a logon names as the session's default.
pub fn default_appl_ver_key(msg: &str) -> (key: Option<String>)
    ensures
        text_view(key) == match tag_value(msg@, "1137"@) {
            Some(version) => appl_ver_schema(version),
            None => None,
        },
{
    match get_tag_value(msg, "1137") {
        Some(version) => match appl_ver_to_schema(version.as_str()) {
            Some(schema) => Some(copy_of(schema)),
            None => None,
        },
        None => None,
    }
}

// ---------------------------------------------------------------------------
// The store of lookups
// ---------------------------------------------------------------------------
/// The lookups built so far, what there is to warn of, and whether an override named a
/// dictionary that is not there.
#[derive(Debug)]
pub struct DictionaryStore {
    lookups: TextMap<Arc<FixTagLookup>>,
    warnings: Vec<String>,
    override_miss: bool,
}

pub open spec fn lookup_models(map: Map<Seq<char>, Arc<FixTagLookup>>) -> Map<
    Seq<char>,
    LookupModel,
> {
    map.map_values(|l: Arc<FixTagLookup>| l.model())
}

/// The lookups of a store by key, and what there is to warn of.
#[verifier::ext_equal]
pub struct Lookups {
    pub known: Map<Seq<char>, LookupModel>,
    pub warnings: Seq<Seq<char>>,
}

impl Lookups {
    pub open spec fn none() -> Lookups {
        Lookups { known: Map::empty(), warnings: seq![] }
    }

    pub open spec fn contains_key(self, key: Seq<char>) -> bool {
        self.known.contains_key(key)
    }

    pub open spec fn spec_index(self, key: Seq<char>) -> LookupModel {
        self.known[key]
    }

    pub open spec fn insert(self, key: Seq<char>, lookup: LookupModel) -> Lookups {
        Lookups { known: self.known.insert(key, lookup), ..self }
    }

    /// The same lookups, with more to warn of.
    pub open spec fn warned(self, more: Seq<Seq<char>>) -> Lookups {
        Lookups { warnings: self.warnings + more, ..self }
    }
}

/// The warning about an embedded dictionary that does not read.
pub open spec fn embedded_warnings(key: Seq<char>) -> Seq<Seq<char>> {
    match xml_id(key) {
        None => seq![],
        Some(id) => match dictionary_in(embedded_xml(id)) {
            Ok(_) => seq![],
            Err(error) => seq![
                "failed to parse embedded FIX XML for "@ + key + ": "@ + error_text(error),
            ],
        },
    }
}

/// The warning about an override that has no dictionary.
pub open spec fn override_warning(key: Seq<char>) -> Seq<char> {
    "warning: FIX override '"@ + key
        + "' not found; falling back to auto-detected dictionary"@
}

/// The embedded dictionary of a schema key, where there is one that reads.
pub open spec fn embedded_dictionary(key: Seq<char>) -> Option<DictionaryView> {
    match xml_id(key) {
        None => None,
        Some(id) => match dictionary_in(embedded_xml(id)) {
            Ok(dict) => Some(dict),
            Err(_) => None,
        },
    }
}

pub open spec fn with_fallback(lookup: LookupModel, next: LookupModel, role: FallbackKind)
    -> LookupModel {
    LookupModel { fallback: Some(Box::new(next)), role: Some(role), ..lookup }
}

/// The lookup of a dictionary, with the session layer behind it where it needs one; and the
/// store once that layer was fetched.
pub open spec fn built(lookups: Lookups, key: Seq<char>, dict: DictionaryView) -> (
    Lookups,
    LookupModel,
) {
    let own = lookup_of(dict, key);
    let noted = lookups.warned(lookup_warnings(dict));
    if needs_session(key) {
        let (after, session) = fetched_session(noted);
        match session {
            Some(session) => (after, with_fallback(own, session, FallbackKind::Session)),
            None => (after, own),
        }
    } else {
        (noted, own)
    }
}

/// Fetching the session layer: from the store, or from the embedded dictionary.
pub open spec fn fetched_session(lookups: Lookups) -> (Lookups, Option<LookupModel>) {
    if lookups.contains_key("FIXT11"@) {
        (lookups, Some(lookups["FIXT11"@]))
    } else {
        match embedded_dictionary("FIXT11"@) {
            None => (lookups.warned(embedded_warnings("FIXT11"@)), None),
            Some(dict) => {
                let own = lookup_of(dict, "FIXT11"@);
                (
                    lookups.warned(lookup_warnings(dict)).insert("FIXT11"@, own),
                    Some(own),
                )
            },
        }
    }
}

/// Fetching a lookup: from the store, or built from the embedded dictionary and stored.
pub open spec fn fetched(lookups: Lookups, key: Seq<char>) -> (Lookups, Option<LookupModel>) {
    if lookups.contains_key(key) {
        (lookups, Some(lookups[key]))
    } else {
        match embedded_dictionary(key) {
            None => (lookups.warned(embedded_warnings(key)), None),
            Some(dict) => {
                let (after, lookup) = built(lookups, key, dict);
                (after.insert(key, lookup), Some(lookup))
            },
        }
    }
}

/// Fetching a lookup, with FIX 4.4 for one that is not there.
pub open spec fn fetched_or_default(lookups: Lookups, key: Seq<char>) -> (
    Lookups,
    Option<LookupModel>,
) {
    let (after, found) = fetched(lookups, key);
    match found {
        Some(lookup) => (after, Some(lookup)),
        None => fetched(after, "FIX44"@),
    }
}

pub open spec fn combo_key(key: Seq<char>, detected: Seq<char>) -> Seq<char> {
    key + "+"@ + detected
}

/// `name` is an override and detected pair with `key` on either side.
pub open spec fn is_combo_of(name: Seq<char>, key: Seq<char>) -> bool {
    split_once_at(name, '+') matches Some((left, right)) && (left == key || right == key)
}

/// The store without the pairs that `key` is part of.
pub open spec fn without_combos(lookups: Lookups, key: Seq<char>) -> Lookups {
    Lookups {
        known: lookups.known.restrict(Set::new(|name: Seq<char>| !is_combo_of(name, key))),
        ..lookups
    }
}

/// What resolving a message's dictionary gives: the store afterwards, the lookup, and
/// whether an override was missed.
pub struct Resolved {
    pub lookups: Lookups,
    pub lookup: Option<LookupModel>,
    pub missed: bool,
}

/// The lookup for a message. An override decodes with its own dictionary and falls back on
/// the detected one; an override without a dictionary is missed, and the detected one is used.
pub open spec fn resolved(
    lookups: Lookups,
    msg: Seq<char>,
    override_key: Option<Seq<char>>,
    session_default: Option<Seq<char>>,
) -> Resolved {
    let detected = detected_key(msg, session_default);
    match override_key {
        None => {
            let (after, lookup) = fetched_or_default(lookups, detected);
            Resolved { lookups: after, lookup, missed: false }
        },
        Some(key) => {
            let combo = combo_key(key, detected);
            if lookups.contains_key(combo) {
                Resolved { lookups, lookup: Some(lookups[combo]), missed: false }
            } else {
                let (own_after, own) = fetched(lookups, key);
                match own {
                    None => {
                        let (after, lookup) = fetched_or_default(
                            own_after.warned(seq![override_warning(key)]),
                            detected,
                        );
                        Resolved { lookups: after, lookup, missed: true }
                    },
                    Some(own) => {
                        let (detected_after, found) = fetched(own_after, detected);
                        let (after, next, next_key) = match found {
                            Some(next) => (detected_after, Some(next), detected),
                            None => {
                                let (after, next) = fetched(detected_after, "FIX44"@);
                                (after, next, "FIX44"@)
                            },
                        };
                        match next {
                            None => Resolved { lookups: after, lookup: None, missed: false },
                            Some(next) => if next_key == key {
                                Resolved { lookups: after, lookup: Some(own), missed: false }
                            } else {
                                let merged = with_fallback(
                                    own,
                                    next,
                                    FallbackKind::DetectedOverride,
                                );
                                Resolved {
                                    lookups: after.insert(combo, merged),
                                    lookup: Some(merged),
                                    missed: false,
                                }
                            },
                        }
                    },
                }
            }
        },
    }
}

pub open spec fn arc_model(lookup: Option<Arc<FixTagLookup>>) -> Option<LookupModel> {
    match lookup {
        Some(l) => Some(l.model()),
        None => None,
    }
}

impl DictionaryStore {
    /// The lookups by key, and what there is to warn of.
    pub closed spec fn lookups(self) -> Lookups {
        Lookups { known: lookup_models(self.lookups@), warnings: texts(self.warnings@) }
    }

    /// Whether an override named a dictionary that is not there.
    pub closed spec fn missed(self) -> bool {
        self.override_miss
    }

    pub fn new() -> (store: DictionaryStore)
        ensures
            store.lookups() == Lookups::none(),
            !store.missed(),
    {
        let store = DictionaryStore {
            lookups: TextMap::new(),
            warnings: Vec::new(),
            override_miss: false,
        };
        assert(store.lookups() =~= Lookups::none());
        store
    }

    fn store_lookup(&mut self, key: &str, lookup: FixTagLookup) -> (shared: Arc<FixTagLookup>)
        ensures
            final(self).lookups() == old(self).lookups().insert(key@, lookup.model()),
            final(self).missed() == old(self).missed(),
            shared.model() == lookup.model(),
    {
        let ghost before = self.lookups();
        let ghost model = lookup.model();
        let arc = Arc::new(lookup);
        let shared = share(&arc);
        self.lookups.insert(key, arc);
        assert(self.lookups() =~= before.insert(key@, model));
        shared
    }

    fn stored(&self, key: &str) -> (found: Option<Arc<FixTagLookup>>)
        ensures
            arc_model(found) == if self.lookups().contains_key(key@) {
                Some(self.lookups()[key@])
            } else {
                None
            },
    {
        match self.lookups.get(key) {
            Some(lookup) => Some(share(lookup)),
            None => None,
        }
    }

    fn get_session(&mut self) -> (found: Option<Arc<FixTagLookup>>)
        ensures
            (final(self).lookups(), arc_model(found)) == fetched_session(old(self).lookups()),
            final(self).missed() == old(self).missed(),
    {
        if let Some(existing) = self.stored("FIXT11") {
            return Some(existing);
        }
        match self.read_embedded("FIXT11") {
            Some(dict) => {
                let (lookup, warnings) = FixTagLookup::from_dictionary_with_warnings(
                    &dict,
                    "FIXT11",
                );
                self.warn_of(&warnings);
                Some(self.store_lookup("FIXT11", lookup))
            },
            None => None,
        }
    }

    fn build_lookup_from_dict(&mut self, key: &str, dict: &FixDictionary) -> (lookup: FixTagLookup)
        ensures
            (final(self).lookups(), lookup.model()) == built(old(self).lookups(), key@, dict@),
            final(self).missed() == old(self).missed(),
    {
        let (lookup, warnings) = FixTagLookup::from_dictionary_with_warnings(dict, key);
        self.warn_of(&warnings);
        if needs_session_merge(key) {
            if let Some(session) = self.get_session() {
                return lookup.backed_by(session, FallbackKind::Session);
            }
        }
        lookup
    }

    /// The lookup of a schema key.
    pub fn get_dictionary(&mut self, key: &str) -> (found: Option<Arc<FixTagLookup>>)
        ensures
            (final(self).lookups(), arc_model(found)) == fetched(old(self).lookups(), key@),
            final(self).missed() == old(self).missed(),
    {
        if let Some(existing) = self.stored(key) {
            return Some(existing);
        }
        match self.read_embedded(key) {
            Some(dict) => {
                let lookup = self.build_lookup_from_dict(key, &dict);
                Some(self.store_lookup(key, lookup))
            },
            None => None,
        }
    }

    fn get_or_default(&mut self, key: &str) -> (found: Option<Arc<FixTagLookup>>)
        ensures
            (final(self).lookups(), arc_model(found)) == fetched_or_default(
                old(self).lookups(),
                key@,
            ),
            final(self).missed() == old(self).missed(),
    {
        match self.get_dictionary(key) {
            Some(lookup) => Some(lookup),
            None => self.get_dictionary("FIX44"),
        }
    }

    /// The lookup for a message, detected from the message alone; none where neither its
    /// dictionary nor that of FIX 4.4 can be had.
    pub fn load_dictionary(&mut self, msg: &str) -> (found: Option<Arc<FixTagLookup>>)
        ensures
            (final(self).lookups(), arc_model(found)) == fetched_or_default(
                old(self).lookups(),
                detected_key(msg@, None),
            ),
            final(self).missed() == old(self).missed(),
    {
        let key = detect_schema_key(msg);
        self.get_or_default(key.as_str())
    }

    /// The lookup for a message, with an override and the session's default version; none
    /// where no dictionary can be had.
    pub fn load_dictionary_with_session_default(
        &mut self,
        msg: &str,
        override_key: Option<&str>,
        session_default_key: Option<&str>,
    ) -> (found: Option<Arc<FixTagLookup>>)
        ensures
            ({
                let r = resolved(
                    old(self).lookups(),
                    msg@,
                    opt_str(override_key),
                    opt_str(session_default_key),
                );
                &&& final(self).lookups() == r.lookups
                &&& arc_model(found) == r.lookup
                &&& final(self).missed() == (old(self).missed() || r.missed)
            }),
    {
        let detected = detect_schema_key_with_default(msg, session_default_key);
        let key = match override_key {
            Some(key) => key,
            None => {
                return self.get_or_default(detected.as_str());
            },
        };
        let combo = joined(joined(key, "+").as_str(), detected.as_str());
        if let Some(existing) = self.stored(combo.as_str()) {
            return Some(existing);
        }
        let own = match self.get_dictionary(key) {
            Some(own) => own,
            None => {
                self.warn_override_miss(key);
                return self.get_or_default(detected.as_str());
            },
        };
        let (next, next_key) = match self.get_dictionary(detected.as_str()) {
            Some(next) => (next, detected),
            None => match self.get_dictionary("FIX44") {
                Some(next) => (next, copy_of("FIX44")),
                None => {
                    return None;
                },
            },
        };
        if same(next_key.as_str(), key) {
            return Some(own);
        }
        let merged = own.again().backed_by(next, FallbackKind::DetectedOverride);
        Some(self.store_lookup(combo.as_str(), merged))
    }

    /// The lookup for a message, with an override.
    pub fn load_dictionary_with_override(&mut self, msg: &str, override_key: Option<&str>)
        -> (found: Option<Arc<FixTagLookup>>)
        ensures
            ({
                let r = resolved(old(self).lookups(), msg@, opt_str(override_key), None);
                &&& final(self).lookups() == r.lookups
                &&& arc_model(found) == r.lookup
                &&& final(self).missed() == (old(self).missed() || r.missed)
            }),
    {
        self.load_dictionary_with_session_default(msg, override_key, None)
    }

    fn warn_override_miss(&mut self, key: &str)
        ensures
            final(self).missed(),
            final(self).lookups() == old(self).lookups().warned(seq![override_warning(key@)]),
    {
        let mut text = copy_of("warning: FIX override '");
        text.append(key);
        text.append("' not found; falling back to auto-detected dictionary");
        self.warn(text);
        self.override_miss = true;
    }

    fn warn(&mut self, text: String)
        ensures
            final(self).missed() == old(self).missed(),
            final(self).lookups() == old(self).lookups().warned(seq![text@]),
    {
        let ghost before = texts(self.warnings@);
        let ghost view = text@;
        self.warnings.push(text);
        assert(texts(self.warnings@) =~= before + seq![view]);
    }

    fn warn_of(&mut self, more: &Vec<String>)
        ensures
            final(self).missed() == old(self).missed(),
            final(self).lookups() == old(self).lookups().warned(texts(more@)),
    {
        push_all(&mut self.warnings, more);
    }

    /// What there is to warn of since this was last asked.
    pub fn take_warnings(&mut self) -> (warnings: Vec<String>)
        ensures
            texts(warnings@) == old(self).lookups().warnings,
            final(self).lookups() == (Lookups { warnings: seq![], ..old(self).lookups() }),
            final(self).missed() == old(self).missed(),
    {
        let mut warnings: Vec<String> = Vec::new();
        push_all(&mut warnings, &self.warnings);
        assert(texts(warnings@) =~= texts(self.warnings@));
        self.warnings = Vec::new();
        assert(texts(self.warnings@) =~= seq![]);
        warnings
    }

    /// Reads the embedded dictionary of a schema key; one that does not read is warned of.
    fn read_embedded(&mut self, key: &str) -> (dict: Option<FixDictionary>)
        ensures
            (match dict {
                Some(d) => Some(d@),
                None => None,
            }) == embedded_dictionary(key@),
            final(self).missed() == old(self).missed(),
            final(self).lookups() == old(self).lookups().warned(embedded_warnings(key@)),
    {
        let ghost before = self.lookups();
        assert(before.warned(seq![]) =~= before);
        match schema_to_xml_id(key) {
            Some(id) => match FixDictionary::from_xml(choose_embedded_xml(id)) {
                Ok(dict) => Some(dict),
                Err(error) => {
                    let mut text = copy_of("failed to parse embedded FIX XML for ");
                    text.append(key);
                    text.append(": ");
                    text.append(error.message().as_str());
                    self.warn(text);
                    None
                },
            },
            None => None,
        }
    }

    /// Forgets that an override was missed.
    pub fn reset_override_warn(&mut self)
        ensures
            !final(self).missed(),
            final(self).lookups() == old(self).lookups(),
    {
        self.override_miss = false;
    }

    /// Whether an override named a dictionary that is not there.
    pub fn override_warn_triggered(&self) -> (yes: bool)
        ensures
            yes == self.missed(),
    {
        self.override_miss
    }

    /// Puts a dictionary in place under `key`, and drops the pairs that used the old one.
    pub fn register_dictionary(&mut self, key: &str, dict: &FixDictionary)
        ensures
            ({
                let (after, lookup) = built(old(self).lookups(), key@, dict@);
                final(self).lookups() == without_combos(after.insert(key@, lookup), key@)
            }),
            final(self).missed() == old(self).missed(),
    {
        let lookup = self.build_lookup_from_dict(key, dict);
        self.store_lookup(key, lookup);
        self.drop_combo_entries_for(key);
    }

    /// Drops every override and detected pair that `key` is part of.
    pub fn clear_override_cache_for(&mut self, key: &str)
        ensures
            final(self).lookups() == without_combos(old(self).lookups(), key@),
            final(self).missed() == old(self).missed(),
    {
        self.drop_combo_entries_for(key);
    }

    fn drop_combo_entries_for(&mut self, key: &str)
        ensures
            final(self).lookups() == without_combos(old(self).lookups(), key@),
            final(self).missed() == old(self).missed(),
    {
        let ghost before = self.lookups@;
        let mut stale: Vec<String> = Vec::new();
        let mut i: usize = 0;
        self.lookups.know_keys();
        let ghost keys = self.lookups.keys();
        while i < self.lookups.len()
            invariant
                self.lookups@ == before,
                self.lookups.keys() == keys,
                self.override_miss == old(self).override_miss,
                self.warnings == old(self).warnings,
                0 <= i <= keys.len(),
                forall|j: int|
                    0 <= j < i ==> (is_combo_of(#[trigger] keys[j], key@) ==> texts(
                        stale@,
                    ).contains(keys[j])),
                forall|j: int|
                    0 <= j < stale@.len() ==> is_combo_of((#[trigger] stale@[j])@, key@),
            decreases keys.len() - i,
        {
            let (name, _value) = self.lookups.entry(i);
            let is_stale: bool = match split_once_text(name.as_str(), '+') {
                Some((left, right)) => same(left.as_str(), key) || same(right.as_str(), key),
                None => false,
            };
            let ghost old_stale = stale@;
            if is_stale {
                stale.push(copy_of(name.as_str()));
            }
            assert forall|j: int| 0 <= j < i + 1 && is_combo_of(
                #[trigger] keys[j],
                key@,
            ) implies texts(stale@).contains(keys[j]) by {
                if j < i {
                    let k = choose|k: int|
                        0 <= k < texts(old_stale).len() && texts(old_stale)[k] == keys[j];
                    assert(texts(stale@)[k] == keys[j]);
                } else {
                    assert(texts(stale@)[old_stale.len() as int] == keys[j]);
                }
            }
            i += 1;
        }
        let ghost gone = texts(stale@);
        let mut k: usize = 0;
        while k < stale.len()
            invariant
                0 <= k <= stale@.len(),
                gone == texts(stale@),
                self.override_miss == old(self).override_miss,
                self.warnings == old(self).warnings,
                self.lookups@ =~= before.remove_keys(gone.take(k as int).to_set()),
            decreases stale@.len() - k,
        {
            assert(gone.take(k + 1) =~= gone.take(k as int).push(stale@[k as int]@));
            self.lookups.remove(stale[k].as_str());
            assert forall|name: Seq<char>| gone.take(k + 1).to_set().contains(name) == (gone.take(
                k as int,
            ).to_set().contains(name) || name == stale@[k as int]@) by {
                if gone.take(k as int).contains(name) {
                    let q = choose|q: int|
                        0 <= q < gone.take(k as int).len() && gone.take(k as int)[q] == name;
                    assert(gone.take(k + 1)[q] == name);
                }
                if name == stale@[k as int]@ {
                    assert(gone.take(k + 1)[k as int] == name);
                }
            }
            k += 1;
        }
        proof {
            assert(gone.take(k as int) =~= gone);
            assert forall|name: Seq<char>| before.contains_key(name) implies (gone.contains(name)
                <==> is_combo_of(name, key@)) by {
                assert(keys.contains(name));
                let j = keys.index_of(name);
                assert(keys[j] == name);
                if gone.contains(name) {
                    let q = choose|q: int| 0 <= q < gone.len() && gone[q] == name;
                    assert(stale@[q]@ == name);
                }
            }
            assert(self.lookups() =~= without_combos(old(self).lookups(), key@));
        }
    }
}

} // verus!
