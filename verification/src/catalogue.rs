//! The dictionaries at hand: those that are built in, and those that were loaded.
use crate::cli_error::{plain_error, usage_error, CliError, CliErrorView};
use crate::cli_options::{unit_result, CliOptions};
use crate::dictionaries::{
    built, choose_embedded_xml, embedded_xml, needs_session, opt_str, remove_char,
    schema_to_xml_id, without_char, without_combos, xml_id, DictionaryStore, Lookups,
};
use crate::schema::{
    dictionary_in, error_text, ComponentDef, ComponentView, DictionaryView, ErrorView,
    FieldView, FixDictionary, MessageView,
};
use crate::schema_tree::{tree_of, tree_warnings, SchemaTree, TreeView};
use crate::text::{
    contains_text, copy_of, decimal, decimal_text, join, join_texts, left_aligned, lowered,
    push_all, push_left_aligned, push_right_aligned, right_aligned, same, same_ignoring_case,
    stands_at, starts_with, text_view, texts, to_upper, trim, trimmed, uppered,
};
use crate::textmap::{sorted, TextMap};
use vstd::prelude::*;

verus! {

broadcast use vstd::seq_lib::group_seq_properties;

// ---------------------------------------------------------------------------
// Keys

/// The key of a dictionary as a user may write it: without dots, and with or without `FIX`.
pub open spec fn fix_key(raw: Seq<char>) -> Option<Seq<char>> {
    let clean = uppered(without_char(trimmed(raw), '.'));
    if trimmed(raw).len() == 0 {
        None
    } else if stands_at(clean, 0, "FIX"@) {
        Some(clean)
    } else {
        Some("FIX"@ + clean)
    }
}

/// The key of a dictionary as a user may write it; none for a blank text.
pub fn normalise_fix_key(raw: &str) -> (key: Option<String>)
    ensures
        text_view(key) == fix_key(raw@),
{
    let text = trim(raw);
    if text.as_str().unicode_len() == 0 {
        return None;
    }
    let clean = to_upper(remove_char(text.as_str(), '.').as_str());
    if starts_with(clean.as_str(), "FIX") {
        return Some(clean);
    }
    let mut key = copy_of("FIX");
    key.append(clean.as_str());
    Some(key)
}

/// The key of the dictionary that was asked for.
pub open spec fn selected_key(version: Seq<char>) -> Seq<char> {
    match fix_key(version) {
        Some(key) => key,
        None => "FIX44"@,
    }
}

/// The key of the dictionary that was asked for.
pub fn selected_fix_key(opts: &CliOptions) -> (key: String)
    ensures
        key@ == selected_key(opts@.fix_version),
{
    match normalise_fix_key(opts.fix_version.as_str()) {
        Some(key) => key,
        None => copy_of("FIX44"),
    }
}

/// The key of the dictionary that overrides those that messages name: the one asked for, if
/// one was.
pub fn override_key(opts: &CliOptions) -> (key: Option<String>)
    ensures
        text_view(key) == if opts@.fix_from_user {
            fix_key(opts@.fix_version)
        } else {
            None
        },
{
    if opts.fix_from_user {
        normalise_fix_key(opts.fix_version.as_str())
    } else {
        None
    }
}

/// A service pack that counts.
pub open spec fn is_service_pack(pack: Option<Seq<char>>) -> bool {
    pack matches Some(text) && text.len() > 0 && text != "0"@
}

/// The key of a dictionary: its type, version and service pack.
pub open spec fn key_of(dict: DictionaryView) -> Seq<char> {
    let prefix = if lowered(dict.typ) == lowered("FIXT"@) {
        "FIXT"@
    } else {
        "FIX"@
    };
    let base = prefix + dict.major + dict.minor;
    uppered(
        if is_service_pack(dict.service_pack) {
            base + "SP"@ + uppered(dict.service_pack->0)
        } else {
            base
        },
    )
}

/// The key of a dictionary: its type, version and service pack.
pub fn dictionary_key(dict: &FixDictionary) -> (key: String)
    ensures
        key@ == key_of(dict@),
{
    let mut key = if same_ignoring_case(dict.typ.as_str(), "FIXT") {
        copy_of("FIXT")
    } else {
        copy_of("FIX")
    };
    key.append(dict.major.as_str());
    key.append(dict.minor.as_str());
    if let Some(pack) = &dict.service_pack {
        if pack.as_str().unicode_len() > 0 && !same(pack.as_str(), "0") {
            key.append("SP");
            key.append(to_upper(pack.as_str()).as_str());
        }
    }
    to_upper(key.as_str())
}

/// The keys of the dictionaries that are built in.
pub open spec fn built_in_keys() -> Seq<Seq<char>> {
    seq![
        "FIX27"@,
        "FIX30"@,
        "FIX40"@,
        "FIX41"@,
        "FIX42"@,
        "FIX43"@,
        "FIX44"@,
        "FIX50"@,
        "FIX50SP1"@,
        "FIX50SP2"@,
        "FIXT11"@,
    ]
}

/// The keys of the dictionaries that are built in.
pub fn built_in_fix_keys() -> (keys: Vec<String>)
    ensures
        texts(keys@) == built_in_keys(),
{
    let mut keys: Vec<String> = Vec::new();
    keys.push(copy_of("FIX27"));
    keys.push(copy_of("FIX30"));
    keys.push(copy_of("FIX40"));
    keys.push(copy_of("FIX41"));
    keys.push(copy_of("FIX42"));
    keys.push(copy_of("FIX43"));
    keys.push(copy_of("FIX44"));
    keys.push(copy_of("FIX50"));
    keys.push(copy_of("FIX50SP1"));
    keys.push(copy_of("FIX50SP2"));
    keys.push(copy_of("FIXT11"));
    assert(texts(keys@) =~= built_in_keys());
    keys
}

/// The built-in dictionary that a key stands for, in either case.
pub fn key_to_xml_id(key: &str) -> (id: Option<&'static str>)
    ensures
        opt_str(id) == xml_id(uppered(key@)),
{
    schema_to_xml_id(to_upper(key).as_str())
}

// ---------------------------------------------------------------------------
// Loaded dictionaries

/// A dictionary, and the file that it comes from.
#[derive(Debug)]
pub struct CustomDictionary {
    pub dict: FixDictionary,
    pub path: String,
}

/// The mathematical content of a `CustomDictionary`.
pub struct CustomView {
    pub dict: DictionaryView,
    pub path: Seq<char>,
}

impl View for CustomDictionary {
    type V = CustomView;

    open spec fn view(&self) -> CustomView {
        CustomView { dict: self.dict@, path: self.path@ }
    }
}

/// Loaded dictionaries by key.
pub type CustomMap = Map<Seq<char>, CustomView>;

pub open spec fn custom_views(map: Map<Seq<char>, CustomDictionary>) -> CustomMap {
    map.map_values(|c: CustomDictionary| c@)
}

/// All keys in order.
pub open spec fn all_keys(custom: CustomMap) -> Seq<Seq<char>> {
    sorted(built_in_keys().to_set().union(custom.dom()))
}

fn note_names(set: &mut TextMap<bool>, names: &Vec<String>)
    ensures
        final(set)@.dom() == old(set)@.dom().union(texts(names@).to_set()),
{
    let ghost all = texts(names@);
    let ghost start = set@.dom();
    let mut i: usize = 0;
    assert(all.take(0).to_set() =~= Set::empty());
    assert(start.union(all.take(0).to_set()) =~= start);
    while i < names.len()
        invariant
            i <= names@.len(),
            all == texts(names@),
            set@.dom() == start.union(all.take(i as int).to_set()),
        decreases names@.len() - i,
    {
        assert(all[i as int] == names@[i as int]@);
        let ghost before = set@.dom();
        set.insert(names[i].as_str(), true);
        proof {
            let now = all.take(i + 1);
            assert(now =~= all.take(i as int).push(all[i as int]));
            assert(now.to_set() =~= all.take(i as int).to_set().insert(all[i as int]));
            assert(set@.dom() =~= before.insert(all[i as int]));
            assert(start.union(now.to_set()) =~= before.insert(all[i as int]));
        }
        i += 1;
    }
    assert(all.take(i as int) =~= all);
}

fn keys_of<V>(map: &TextMap<V>) -> (keys: Vec<String>)
    ensures
        texts(keys@) == sorted(map@.dom()),
{
    map.know_keys();
    let ghost names = map.keys();
    let mut keys: Vec<String> = Vec::new();
    let mut i: usize = 0;
    assert(texts(keys@) =~= names.take(0));
    while i < map.len()
        invariant
            i <= names.len(),
            names == map.keys(),
            texts(keys@) == names.take(i as int),
        decreases names.len() - i,
    {
        let (key, _) = map.entry(i);
        let ghost before = texts(keys@);
        keys.push(copy_of(key.as_str()));
        assert(texts(keys@) =~= before.push(names[i as int]));
        assert(names.take(i + 1) =~= names.take(i as int).push(names[i as int]));
        i += 1;
    }
    assert(names.take(i as int) =~= names);
    keys
}

/// The keys of all dictionaries at hand, in order.
pub fn all_dictionary_keys(custom_dicts: &TextMap<CustomDictionary>) -> (keys: Vec<String>)
    ensures
        texts(keys@) == all_keys(custom_views(custom_dicts@)),
{
    let mut set: TextMap<bool> = TextMap::new();
    note_names(&mut set, &built_in_fix_keys());
    let loaded = keys_of(custom_dicts);
    custom_dicts.know_keys();
    note_names(&mut set, &loaded);
    proof {
        assert(texts(loaded@).to_set() == custom_dicts@.dom());
        assert(custom_views(custom_dicts@).dom() =~= custom_dicts@.dom());
        assert(set@.dom() =~= built_in_keys().to_set().union(
            custom_views(custom_dicts@).dom(),
        ));
    }
    keys_of(&set)
}

/// The keys of all dictionaries at hand, separated by commas.
pub fn available_fix_versions(custom_dicts: &TextMap<CustomDictionary>) -> (text: String)
    ensures
        text@ == join(all_keys(custom_views(custom_dicts@)), ","@),
{
    join_texts(&all_dictionary_keys(custom_dicts), ",")
}

/// Where a dictionary comes from.
pub open spec fn source_of(custom: CustomMap, key: Seq<char>) -> Seq<char> {
    let upper = uppered(key);
    if custom.contains_key(upper) {
        custom[upper].path
    } else if upper == "FIX27"@ || upper == "FIX30"@ {
        "built-in alias of FIX40"@
    } else {
        "built-in"@
    }
}

/// Where a dictionary comes from: the file that it was loaded from, or that it is built in.
pub fn dictionary_source(custom_dicts: &TextMap<CustomDictionary>, key: &str) -> (source: String)
    ensures
        source@ == source_of(custom_views(custom_dicts@), key@),
{
    let upper = to_upper(key);
    if let Some(custom) = custom_dicts.get(upper.as_str()) {
        return copy_of(custom.path.as_str());
    }
    if same(upper.as_str(), "FIX27") || same(upper.as_str(), "FIX30") {
        return copy_of("built-in alias of FIX40");
    }
    copy_of("built-in")
}

/// The mark of the dictionary that is in use.
pub fn dictionary_marker(highlight: Option<&str>, key: &str) -> (mark: &'static str)
    ensures
        mark@ == match opt_str(highlight) {
            Some(target) => if lowered(target) == lowered(key@) {
                "*"@
            } else {
                " "@
            },
            None => " "@,
        },
{
    match highlight {
        Some(target) => if same_ignoring_case(target, key) {
            "*"
        } else {
            " "
        },
        None => " ",
    }
}

// ---------------------------------------------------------------------------
// Session components

/// Whether a dictionary leaves its header and trailer to FIXT 1.1.
pub fn requires_session_components(key: &str) -> (yes: bool)
    ensures
        yes == needs_session(key@),
{
    crate::dictionaries::needs_session_merge(key)
}

pub open spec fn has_entries(block: ComponentView) -> bool {
    block.parts.fields.len() > 0 || block.parts.groups.len() > 0 || block.parts.components.len() > 0
}

/// Whether a component holds anything.
pub fn component_def_has_entries(block: &ComponentDef) -> (yes: bool)
    ensures
        yes == has_entries(block@),
{
    assert(block@.parts.fields.len() == block.fields@.len());
    assert(block@.parts.groups.len() == block.groups@.len());
    assert(block@.parts.components.len() == block.components@.len());
    block.fields.len() > 0 || block.groups.len() > 0 || block.components.len() > 0
}

/// A dictionary with the header and trailer of the session layer where it leaves them out.
pub open spec fn with_session(
    key: Seq<char>,
    dict: DictionaryView,
    session: Result<DictionaryView, ErrorView>,
) -> DictionaryView {
    if !needs_session(key) {
        dict
    } else {
        match session {
            Ok(session) => DictionaryView {
                header: if has_entries(dict.header) {
                    dict.header
                } else {
                    session.header
                },
                trailer: if has_entries(dict.trailer) {
                    dict.trailer
                } else {
                    session.trailer
                },
                ..dict
            },
            Err(_) => dict,
        }
    }
}

/// The warning where the session layer is needed and cannot be read.
pub open spec fn session_warning(
    key: Seq<char>,
    session: Result<DictionaryView, ErrorView>,
) -> Option<Seq<char>> {
    if !needs_session(key) {
        None
    } else {
        match session {
            Ok(_) => None,
            Err(error) => Some(
                "warning: failed to load FIXT11 session dictionary ("@ + error_text(error) + ")"@,
            ),
        }
    }
}

/// The dictionary of the session layer.
pub open spec fn session_dictionary() -> Result<DictionaryView, ErrorView> {
    dictionary_in(embedded_xml("T11"@))
}

/// Fills in the header and trailer of the session layer where a dictionary leaves them out.
/// Returns a warning where that layer cannot be read.
pub fn ensure_session_components(key: &str, dict: &mut FixDictionary) -> (warning: Option<String>)
    ensures
        final(dict)@ == with_session(key@, old(dict)@, session_dictionary()),
        text_view(warning) == session_warning(key@, session_dictionary()),
{
    if !requires_session_components(key) {
        return None;
    }
    match FixDictionary::from_xml(choose_embedded_xml("T11")) {
        Ok(session) => {
            let FixDictionary { header, trailer, .. } = session;
            if !component_def_has_entries(&dict.header) {
                dict.header = header;
            }
            if !component_def_has_entries(&dict.trailer) {
                dict.trailer = trailer;
            }
            None
        },
        Err(error) => {
            let mut text = copy_of("warning: failed to load FIXT11 session dictionary (");
            text.append(error.message().as_str());
            text.append(")");
            Some(text)
        },
    }
}

// ---------------------------------------------------------------------------
// Sizes

/// What a dictionary holds.
#[derive(Debug)]
pub struct DictionarySummary {
    pub service_pack: String,
    pub field_count: usize,
    pub component_count: usize,
    pub message_count: usize,
}

/// The mathematical content of a `DictionarySummary`.
pub struct SizesView {
    pub service_pack: Seq<char>,
    pub field_count: nat,
    pub component_count: nat,
    pub message_count: nat,
}

impl View for DictionarySummary {
    type V = SizesView;

    open spec fn view(&self) -> SizesView {
        SizesView {
            service_pack: self.service_pack@,
            field_count: self.field_count as nat,
            component_count: self.component_count as nat,
            message_count: self.message_count as nat,
        }
    }
}

pub open spec fn field_names(dict: DictionaryView) -> Set<Seq<char>> {
    dict.fields.map_values(|f: FieldView| f.name).to_set()
}

pub open spec fn component_names(dict: DictionaryView) -> Set<Seq<char>> {
    dict.components.map_values(|c: ComponentView| c.name).to_set().insert("Header"@).insert(
        "Trailer"@,
    )
}

pub open spec fn message_names(dict: DictionaryView) -> Set<Seq<char>> {
    dict.messages.map_values(|m: MessageView| m.name).to_set()
}

/// How many fields, components and messages a dictionary has, each name counted once; header
/// and trailer are components.
pub open spec fn sizes_of(dict: DictionaryView) -> SizesView {
    SizesView {
        service_pack: match dict.service_pack {
            Some(pack) => if pack.len() > 0 {
                pack
            } else {
                "-"@
            },
            None => "-"@,
        },
        field_count: field_names(dict).len(),
        component_count: component_names(dict).len(),
        message_count: message_names(dict).len(),
    }
}

fn list_field_names(dict: &FixDictionary) -> (names: Vec<String>)
    ensures
        texts(names@) == dict@.fields.map_values(|f: FieldView| f.name),
{
    let ghost all = dict@.fields.map_values(|f: FieldView| f.name);
    let mut names: Vec<String> = Vec::new();
    let mut i: usize = 0;
    assert(texts(names@) =~= all.take(0));
    while i < dict.fields.items.len()
        invariant
            i <= dict.fields.items@.len(),
            all == dict@.fields.map_values(|f: FieldView| f.name),
            all.len() == dict.fields.items@.len(),
            texts(names@) == all.take(i as int),
        decreases dict.fields.items@.len() - i,
    {
        let ghost before = texts(names@);
        assert(all[i as int] == dict.fields.items@[i as int]@.name);
        names.push(copy_of(dict.fields.items[i].name.as_str()));
        assert(texts(names@) =~= before.push(all[i as int]));
        assert(all.take(i + 1) =~= all.take(i as int).push(all[i as int]));
        i += 1;
    }
    assert(all.take(i as int) =~= all);
    names
}

fn list_component_names(dict: &FixDictionary) -> (names: Vec<String>)
    ensures
        texts(names@) == dict@.components.map_values(|c: ComponentView| c.name),
{
    let ghost all = dict@.components.map_values(|c: ComponentView| c.name);
    let mut names: Vec<String> = Vec::new();
    let mut i: usize = 0;
    assert(texts(names@) =~= all.take(0));
    while i < dict.components.items.len()
        invariant
            i <= dict.components.items@.len(),
            all == dict@.components.map_values(|c: ComponentView| c.name),
            all.len() == dict.components.items@.len(),
            texts(names@) == all.take(i as int),
        decreases dict.components.items@.len() - i,
    {
        let ghost before = texts(names@);
        assert(all[i as int] == dict.components.items@[i as int]@.name);
        names.push(copy_of(dict.components.items[i].name.as_str()));
        assert(texts(names@) =~= before.push(all[i as int]));
        assert(all.take(i + 1) =~= all.take(i as int).push(all[i as int]));
        i += 1;
    }
    assert(all.take(i as int) =~= all);
    names
}

fn list_message_names(dict: &FixDictionary) -> (names: Vec<String>)
    ensures
        texts(names@) == dict@.messages.map_values(|m: MessageView| m.name),
{
    let ghost all = dict@.messages.map_values(|m: MessageView| m.name);
    let mut names: Vec<String> = Vec::new();
    let mut i: usize = 0;
    assert(texts(names@) =~= all.take(0));
    while i < dict.messages.items.len()
        invariant
            i <= dict.messages.items@.len(),
            all == dict@.messages.map_values(|m: MessageView| m.name),
            all.len() == dict.messages.items@.len(),
            texts(names@) == all.take(i as int),
        decreases dict.messages.items@.len() - i,
    {
        let ghost before = texts(names@);
        assert(all[i as int] == dict.messages.items@[i as int]@.name);
        names.push(copy_of(dict.messages.items[i].name.as_str()));
        assert(texts(names@) =~= before.push(all[i as int]));
        assert(all.take(i + 1) =~= all.take(i as int).push(all[i as int]));
        i += 1;
    }
    assert(all.take(i as int) =~= all);
    names
}

fn count_distinct(names: &Vec<String>) -> (count: usize)
    ensures
        count == texts(names@).to_set().len(),
{
    let mut set: TextMap<bool> = TextMap::new();
    note_names(&mut set, names);
    assert(set@.dom() =~= texts(names@).to_set());
    set.len()
}

/// How many fields, components and messages a dictionary has.
pub fn summarise_dictionary(dict: &FixDictionary) -> (summary: DictionarySummary)
    ensures
        summary@ == sizes_of(dict@),
{
    let service_pack = match &dict.service_pack {
        Some(pack) => if pack.as_str().unicode_len() > 0 {
            copy_of(pack.as_str())
        } else {
            copy_of("-")
        },
        None => copy_of("-"),
    };
    let mut components = list_component_names(dict);
    let ghost named = texts(components@);
    components.push(copy_of("Header"));
    components.push(copy_of("Trailer"));
    proof {
        let all = texts(components@);
        assert(all =~= named.push("Header"@).push("Trailer"@));
        assert(all.to_set() =~= component_names(dict@));
    }
    DictionarySummary {
        service_pack,
        field_count: count_distinct(&list_field_names(dict)),
        component_count: count_distinct(&components),
        message_count: count_distinct(&list_message_names(dict)),
    }
}

// ---------------------------------------------------------------------------
// The table of dictionaries

/// A row of the table.
pub open spec fn table_row(
    mark: Seq<char>,
    key: Seq<char>,
    pack: Seq<char>,
    fields: Seq<char>,
    components: Seq<char>,
    messages: Seq<char>,
    source: Seq<char>,
) -> Seq<char> {
    "  "@ + left_aligned(mark, 1) + left_aligned(key, 10) + " "@ + right_aligned(pack, 12, ' ')
        + " "@ + right_aligned(fields, 8, ' ') + " "@ + right_aligned(components, 11, ' ') + " "@
        + right_aligned(messages, 11, ' ') + " "@ + source + "\n"@
}

fn write_row(
    mark: &str,
    key: &str,
    pack: &str,
    fields: &str,
    components: &str,
    messages: &str,
    source: &str,
) -> (text: String)
    ensures
        text@ == table_row(mark@, key@, pack@, fields@, components@, messages@, source@),
{
    let mut text = copy_of("  ");
    push_left_aligned(&mut text, mark, 1);
    push_left_aligned(&mut text, key, 10);
    text.append(" ");
    push_right_aligned(&mut text, pack, 12, ' ');
    text.append(" ");
    push_right_aligned(&mut text, fields, 8, ' ');
    text.append(" ");
    push_right_aligned(&mut text, components, 11, ' ');
    text.append(" ");
    push_right_aligned(&mut text, messages, 11, ' ');
    text.append(" ");
    text.append(source);
    text.append("\n");
    text
}

/// The titles of the table.
pub open spec fn table_header() -> Seq<char> {
    table_row(
        ""@,
        "Version"@,
        "ServicePack"@,
        "Fields"@,
        "Components"@,
        "Messages"@,
        "Source"@,
    )
}

/// The titles of the table.
pub fn print_dictionary_header() -> (text: String)
    ensures
        text@ == table_header(),
{
    write_row("", "Version", "ServicePack", "Fields", "Components", "Messages", "Source")
}

/// The row of a dictionary.
pub open spec fn dictionary_row(
    mark: Seq<char>,
    key: Seq<char>,
    sizes: SizesView,
    source: Seq<char>,
) -> Seq<char> {
    table_row(
        mark,
        key,
        sizes.service_pack,
        decimal(sizes.field_count),
        decimal(sizes.component_count),
        decimal(sizes.message_count),
        source,
    )
}

/// The row of a dictionary.
pub fn print_dictionary_row(
    marker: &str,
    key: &str,
    summary: &DictionarySummary,
    source: &str,
) -> (text: String)
    ensures
        text@ == dictionary_row(marker@, key@, summary@, source@),
{
    write_row(
        marker,
        key,
        summary.service_pack.as_str(),
        decimal_text(summary.field_count as u64).as_str(),
        decimal_text(summary.component_count as u64).as_str(),
        decimal_text(summary.message_count as u64).as_str(),
        source,
    )
}

// ---------------------------------------------------------------------------
// Loading

/// The built-in dictionary of a key, given what reading it brings.
pub open spec fn built_in(key: Seq<char>) -> Result<DictionaryView, CliErrorView> {
    match xml_id(uppered(key)) {
        None => Err(plain_error("no embedded dictionary for "@ + key)),
        Some(id) => match dictionary_in(embedded_xml(id)) {
            Ok(dict) => Ok(dict),
            Err(_) => Err(plain_error("failed to parse embedded FIX XML for "@ + key)),
        },
    }
}

pub open spec fn load_result(result: Result<FixDictionary, CliError>) -> Result<
    DictionaryView,
    CliErrorView,
> {
    match result {
        Ok(dict) => Ok(dict@),
        Err(error) => Err(error@),
    }
}

/// The built-in dictionary of a key.
pub fn load_embedded_dictionary_for_key(key: &str) -> (dict: Result<FixDictionary, CliError>)
    ensures
        load_result(dict) == built_in(key@),
{
    let id = match key_to_xml_id(key) {
        Some(id) => id,
        None => {
            return Err(CliError::plain("no embedded dictionary for ", key));
        },
    };
    match FixDictionary::from_xml(choose_embedded_xml(id)) {
        Ok(dict) => Ok(dict),
        Err(_) => Err(CliError::plain("failed to parse embedded FIX XML for ", key)),
    }
}

/// The dictionary of a key: a loaded one before a built-in one.
pub open spec fn dictionary_for(custom: CustomMap, key: Seq<char>) -> Result<
    DictionaryView,
    CliErrorView,
> {
    if custom.contains_key(key) {
        Ok(custom[key].dict)
    } else {
        built_in(key)
    }
}

fn find_dictionary(key: &str, custom_dicts: &TextMap<CustomDictionary>) -> (dict: Result<
    FixDictionary,
    CliError,
>)
    ensures
        load_result(dict) == dictionary_for(custom_views(custom_dicts@), key@),
{
    if let Some(custom) = custom_dicts.get(key) {
        return Ok(custom.dict.duplicate());
    }
    load_embedded_dictionary_for_key(key)
}

pub open spec fn tree_result(result: Result<SchemaTree, CliError>) -> Result<
    TreeView,
    CliErrorView,
> {
    match result {
        Ok(tree) => Ok(tree@),
        Err(error) => Err(error@),
    }
}

/// The tree of a key's dictionary, with the session layer filled in.
pub open spec fn schema_for(custom: CustomMap, key: Seq<char>) -> Result<TreeView, CliErrorView> {
    match dictionary_for(custom, key) {
        Ok(dict) => Ok(tree_of(with_session(key, dict, session_dictionary()))),
        Err(error) => Err(error),
    }
}

/// What there is to warn of when the tree of a key's dictionary is built.
pub open spec fn schema_warnings(custom: CustomMap, key: Seq<char>) -> Seq<Seq<char>> {
    match dictionary_for(custom, key) {
        Ok(dict) => with_text(seq![], session_warning(key, session_dictionary())) + tree_warnings(
            with_session(key, dict, session_dictionary()),
        ),
        Err(_) => seq![],
    }
}

/// The tree of a key's dictionary, with the session layer filled in, and what there is to warn
/// of. The key may be in either case.
pub fn load_schema_with_warnings(key: &str, custom_dicts: &TextMap<CustomDictionary>) -> (loaded: (
    Result<SchemaTree, CliError>,
    Vec<String>,
))
    ensures
        tree_result(loaded.0) == schema_for(custom_views(custom_dicts@), uppered(key@)),
        texts(loaded.1@) == schema_warnings(custom_views(custom_dicts@), uppered(key@)),
{
    let upper = to_upper(key);
    let mut warnings: Vec<String> = Vec::new();
    assert(texts(warnings@) =~= seq![]);
    match find_dictionary(upper.as_str(), custom_dicts) {
        Ok(found) => {
            let mut dict = found;
            let session = ensure_session_components(upper.as_str(), &mut dict);
            push_warning(&mut warnings, session);
            let (tree, more) = SchemaTree::build_with_warnings(dict);
            push_all(&mut warnings, &more);
            (Ok(tree), warnings)
        },
        Err(error) => (Err(error), warnings),
    }
}

/// The tree of a key's dictionary, with the session layer filled in. The key may be in either
/// case.
pub fn load_schema_for_key(key: &str, custom_dicts: &TextMap<CustomDictionary>) -> (tree: Result<
    SchemaTree,
    CliError,
>)
    ensures
        tree_result(tree) == schema_for(custom_views(custom_dicts@), uppered(key@)),
{
    load_schema_with_warnings(key, custom_dicts).0
}

/// The tree of the dictionary that was asked for.
pub fn load_schema(opts: &CliOptions, custom_dicts: &TextMap<CustomDictionary>) -> (tree: Result<
    SchemaTree,
    CliError,
>)
    ensures
        tree_result(tree) == schema_for(
            custom_views(custom_dicts@),
            uppered(selected_key(opts@.fix_version)),
        ),
{
    load_schema_for_key(selected_fix_key(opts).as_str(), custom_dicts)
}

/// Whether a version that was asked for has a dictionary.
pub open spec fn is_known(custom: CustomMap, version: Seq<char>) -> bool {
    fix_key(version) matches Some(key) && (built_in_keys().contains(key) || custom.contains_key(key))
}

/// Refuses a version that was asked for and has no dictionary.
pub fn ensure_valid_fix_version(opts: &CliOptions, custom_dicts: &TextMap<CustomDictionary>) -> (
    result: Result<(), CliError>)
    ensures
        unit_result(result) == if opts@.fix_from_user && !is_known(
            custom_views(custom_dicts@),
            opts@.fix_version,
        ) {
            Some(usage_error("invalid --fix value"@ + ""@))
        } else {
            None
        },
{
    if !opts.fix_from_user {
        return Ok(());
    }
    if let Some(key) = normalise_fix_key(opts.fix_version.as_str()) {
        if contains_text(&built_in_fix_keys(), key.as_str()) || custom_dicts.contains_key(
            key.as_str(),
        ) {
            return Ok(());
        }
    }
    Err(CliError::with_usage("invalid --fix value", ""))
}

/// The sizes of a key's dictionary.
pub open spec fn sizes_for(custom: CustomMap, key: Seq<char>) -> Result<SizesView, CliErrorView> {
    match dictionary_for(custom, uppered(key)) {
        Ok(dict) => Ok(sizes_of(dict)),
        Err(error) => Err(error),
    }
}

/// The sizes of a key's dictionary. The key may be in either case.
pub fn load_dictionary_summary_for_key(
    key: &str,
    custom_dicts: &TextMap<CustomDictionary>,
) -> (summary: Result<DictionarySummary, CliError>)
    ensures
        (match summary {
            Ok(sizes) => Ok(sizes@),
            Err(error) => Err(error@),
        }) == sizes_for(custom_views(custom_dicts@), key@),
{
    let upper = to_upper(key);
    if let Some(custom) = custom_dicts.get(upper.as_str()) {
        return Ok(summarise_dictionary(&custom.dict));
    }
    match load_embedded_dictionary_for_key(upper.as_str()) {
        Ok(dict) => Ok(summarise_dictionary(&dict)),
        Err(error) => Err(error),
    }
}

// ---------------------------------------------------------------------------
// Taking up a dictionary

/// What taking up a dictionary brings: the dictionaries and lookups afterwards, and what
/// there is to warn of.
pub struct Taken {
    pub dicts: CustomMap,
    pub lookups: Lookups,
    pub warnings: Seq<Seq<char>>,
}

/// The warning where a dictionary takes the place of another.
pub open spec fn replacement_warning(custom: CustomMap, key: Seq<char>, path: Seq<char>) -> Option<
    Seq<char>,
> {
    if custom.contains_key(key) {
        Some(
            "warning: custom dictionary for "@ + key + " from "@ + custom[key].path
                + " replaced by "@ + path + "\n"@,
        )
    } else if built_in_keys().contains(key) {
        Some(
            "warning: custom dictionary for "@ + key
                + " overrides embedded dictionary using "@ + path + "\n"@,
        )
    } else {
        None
    }
}

/// A list with one more text, if there is one.
pub open spec fn with_text(list: Seq<Seq<char>>, text: Option<Seq<char>>) -> Seq<Seq<char>> {
    match text {
        Some(text) => list.push(text),
        None => list,
    }
}

/// A dictionary taken up under its key: with the session layer filled in, in place of an
/// earlier one.
pub open spec fn taken_up(
    custom: CustomMap,
    lookups: Lookups,
    dict: DictionaryView,
    path: Seq<char>,
) -> Taken {
    let key = key_of(dict);
    let filled = with_session(key, dict, session_dictionary());
    let (after, lookup) = built(lookups, key, filled);
    Taken {
        dicts: custom.insert(key, CustomView { dict: filled, path }),
        lookups: without_combos(without_combos(after.insert(key, lookup), key), key),
        warnings: with_text(
            with_text(seq![], session_warning(key, session_dictionary())),
            replacement_warning(custom, key, path),
        ),
    }
}

fn push_warning(list: &mut Vec<String>, text: Option<String>)
    ensures
        texts(final(list)@) == with_text(texts(old(list)@), text_view(text)),
{
    let ghost before = texts(list@);
    if let Some(text) = text {
        let ghost view = text@;
        list.push(text);
        assert(texts(list@) =~= before.push(view));
    }
}

fn replacement_text(custom_dicts: &TextMap<CustomDictionary>, key: &str, path: &str) -> (warning:
    Option<String>)
    ensures
        text_view(warning) == replacement_warning(custom_views(custom_dicts@), key@, path@),
{
    let mut text = copy_of("warning: custom dictionary for ");
    text.append(key);
    if let Some(existing) = custom_dicts.get(key) {
        text.append(" from ");
        text.append(existing.path.as_str());
        text.append(" replaced by ");
        text.append(path);
        text.append("\n");
        return Some(text);
    }
    if contains_text(&built_in_fix_keys(), key) {
        text.append(" overrides embedded dictionary using ");
        text.append(path);
        text.append("\n");
        return Some(text);
    }
    None
}

/// Reads a dictionary and takes it up under its key, in place of an earlier one. Returns what
/// there is to warn of.
pub fn add_custom_dictionary(
    custom_dicts: &mut TextMap<CustomDictionary>,
    store: &mut DictionaryStore,
    xml: &str,
    path: &str,
) -> (warnings: Result<Vec<String>, CliError>)
    ensures
        match dictionary_in(xml@) {
            Ok(dict) => {
                let taken = taken_up(
                    custom_views(old(custom_dicts)@),
                    old(store).lookups(),
                    dict,
                    path@,
                );
                &&& warnings matches Ok(list) && texts(list@) == taken.warnings
                &&& custom_views(final(custom_dicts)@) == taken.dicts
                &&& final(store).lookups() == taken.lookups
            },
            Err(_) => {
                &&& warnings matches Err(error) && error@ == plain_error(
                    "failed to parse FIX XML from "@ + path@,
                )
                &&& final(custom_dicts)@ == old(custom_dicts)@
                &&& final(store).lookups() == old(store).lookups()
            },
        },
        final(store).missed() == old(store).missed(),
{
    let mut dict = match FixDictionary::from_xml(xml) {
        Ok(dict) => dict,
        Err(_) => {
            return Err(CliError::plain("failed to parse FIX XML from ", path));
        },
    };
    let key = dictionary_key(&dict);
    let mut warnings: Vec<String> = Vec::new();
    assert(texts(warnings@) =~= seq![]);
    let session = ensure_session_components(key.as_str(), &mut dict);
    push_warning(&mut warnings, session);
    store.register_dictionary(key.as_str(), &dict);
    store.clear_override_cache_for(key.as_str());
    push_warning(&mut warnings, replacement_text(custom_dicts, key.as_str(), path));
    let ghost before = custom_dicts@;
    let custom = CustomDictionary { dict, path: copy_of(path) };
    let ghost view = custom@;
    custom_dicts.insert(key.as_str(), custom);
    assert(custom_views(custom_dicts@) =~= custom_views(before).insert(key@, view));
    Ok(warnings)
}

} // verus!
