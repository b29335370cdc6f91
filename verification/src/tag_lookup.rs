//! Tag lookup: names, types, enumerations and message layouts of a dictionary, with an
//! optional dictionary behind it to fall back on.
use crate::collections::share;
use crate::expansion::{
    append_component_fields, component_model, deduped, dedupe, expand_message_fields,
    expanded_component, expanded_message, ComponentMap, TagMap,
};
use crate::groups::{
    add_group_tags, all_wf, collect_group_specs, message_groups, spec_models, tags_of_groups,
    GroupModel, GroupSpec,
};
use crate::schema::{
    borrowed_values, component_views, field_views, message_views, ComponentDef, ComponentView,
    DictionaryView, Field, FieldView, FixDictionary, MessageContainer, MessageView, ValueView,
};
use crate::text::{copy_of, decimal, decimal_text, push_all, same, text_view, texts};
use crate::textmap::TextMap;
use std::collections::{HashMap, HashSet};
use std::sync::Arc;
use vstd::prelude::*;
use vstd::string::StringExecFns;

verus! {

broadcast use {vstd::std_specs::hash::group_hash_axioms, vstd::seq_lib::group_seq_properties};

/// The layout of a message.
#[derive(Debug)]
pub struct MessageDef {
    pub _name: String,
    pub _msg_type: String,
    pub is_admin: bool,
    pub field_order: Vec<u32>,
    pub required: Vec<u32>,
    pub groups: Vec<GroupSpec>,
    pub group_membership: HashMap<u32, u32>,
}

/// The mathematical content of a `MessageDef`.
pub struct MessageModel {
    pub name: Seq<char>,
    pub msg_type: Seq<char>,
    pub is_admin: bool,
    pub field_order: Seq<u32>,
    pub required: Seq<u32>,
    pub groups: Seq<GroupModel>,
    pub membership: Map<u32, u32>,
}

impl View for MessageDef {
    type V = MessageModel;

    open spec fn view(&self) -> MessageModel {
        MessageModel {
            name: self._name@,
            msg_type: self._msg_type@,
            is_admin: self.is_admin,
            field_order: self.field_order@,
            required: self.required@,
            groups: spec_models(self.groups@),
            membership: self.group_membership@,
        }
    }
}

impl MessageDef {
    pub open spec fn wf(self) -> bool {
        all_wf(self.groups@)
    }

    /// The layout of an application message put together by hand.
    pub fn new_for_tests(
        name: &str,
        msg_type: &str,
        field_order: Vec<u32>,
        required: Vec<u32>,
        groups: Vec<GroupSpec>,
        group_membership: HashMap<u32, u32>,
    ) -> (def: MessageDef)
        ensures
            def@ == (MessageModel {
                name: name@,
                msg_type: msg_type@,
                is_admin: false,
                field_order: field_order@,
                required: required@,
                groups: spec_models(groups@),
                membership: group_membership@,
            }),
            def.wf() == all_wf(groups@),
    {
        MessageDef {
            _name: copy_of(name),
            _msg_type: copy_of(msg_type),
            is_admin: false,
            field_order,
            required,
            groups,
            group_membership,
        }
    }
}

/// Why a dictionary stands behind another.
#[derive(Debug, Clone, Copy, PartialEq, Eq, Structural)]
pub enum FallbackKind {
    Session,
    DetectedOverride,
}

/// Where a tag is known.
#[derive(Debug)]
pub struct TagPresence {
    pub in_primary: bool,
    pub in_fallback: bool,
    pub primary_key: String,
    pub fallback_key: Option<String>,
    pub fallback_role: Option<FallbackKind>,
}

/// The tables of one dictionary.
#[derive(Debug)]
pub(crate) struct LookupTables {
    tag_to_name: HashMap<u32, String>,
    enum_map: HashMap<u32, TextMap<String>>,
    field_types: HashMap<u32, String>,
    messages: TextMap<MessageDef>,
    repeatable_tags: HashSet<u32>,
    trailer_order: Vec<u32>,
}

/// A dictionary to look tags up in.
#[derive(Debug)]
pub struct FixTagLookup {
    schema_key: String,
    tables: Arc<LookupTables>,
    fallback: Option<Arc<FixTagLookup>>,
    fallback_role: Option<FallbackKind>,
}

/// The mathematical content of a `FixTagLookup`.
pub struct LookupModel {
    pub key: Seq<char>,
    pub names: Map<u32, Seq<char>>,
    pub enums: Map<u32, Map<Seq<char>, Seq<char>>>,
    pub types: Map<u32, Seq<char>>,
    pub messages: Map<Seq<char>, MessageModel>,
    pub repeatable: Set<u32>,
    pub trailer: Seq<u32>,
    pub fallback: Option<Box<LookupModel>>,
    pub role: Option<FallbackKind>,
}

pub open spec fn string_values(map: Map<u32, String>) -> Map<u32, Seq<char>> {
    map.map_values(|s: String| s@)
}

pub open spec fn text_values(map: Map<Seq<char>, String>) -> Map<Seq<char>, Seq<char>> {
    map.map_values(|s: String| s@)
}

pub open spec fn enum_values(map: Map<u32, TextMap<String>>) -> Map<
    u32,
    Map<Seq<char>, Seq<char>>,
> {
    map.map_values(|m: TextMap<String>| text_values(m@))
}

pub open spec fn message_values(map: Map<Seq<char>, MessageDef>) -> Map<Seq<char>, MessageModel> {
    map.map_values(|m: MessageDef| m@)
}

impl LookupModel {
    /// The field's name, from the first dictionary that knows it; else the number itself.
    pub open spec fn field_name(self, tag: u32) -> Seq<char>
        decreases self,
    {
        if self.names.contains_key(tag) {
            self.names[tag]
        } else {
            match self.fallback {
                Some(next) => next.field_name(tag),
                None => decimal(tag as nat),
            }
        }
    }

    /// The allowed values of a field, from the first dictionary that lists any.
    pub open spec fn enums_for(self, tag: u32) -> Option<Map<Seq<char>, Seq<char>>>
        decreases self,
    {
        if self.enums.contains_key(tag) {
            Some(self.enums[tag])
        } else {
            match self.fallback {
                Some(next) => next.enums_for(tag),
                None => None,
            }
        }
    }

    pub open spec fn enum_description(self, tag: u32, value: Seq<char>) -> Option<Seq<char>> {
        match self.enums_for(tag) {
            Some(enums) => if enums.contains_key(value) {
                Some(enums[value])
            } else {
                None
            },
            None => None,
        }
    }

    pub open spec fn field_type(self, tag: u32) -> Option<Seq<char>>
        decreases self,
    {
        if self.types.contains_key(tag) {
            Some(self.types[tag])
        } else {
            match self.fallback {
                Some(next) => next.field_type(tag),
                None => None,
            }
        }
    }

    pub open spec fn message_def(self, msg_type: Seq<char>) -> Option<MessageModel>
        decreases self,
    {
        if self.messages.contains_key(msg_type) {
            Some(self.messages[msg_type])
        } else {
            match self.fallback {
                Some(next) => next.message_def(msg_type),
                None => None,
            }
        }
    }

    pub open spec fn is_repeatable(self, tag: u32) -> bool
        decreases self,
    {
        self.repeatable.contains(tag) || match self.fallback {
            Some(next) => next.is_repeatable(tag),
            None => false,
        }
    }

    /// The trailer's tags, from the first dictionary that has any.
    pub open spec fn trailer_tags(self) -> Seq<u32>
        decreases self,
    {
        if self.trailer.len() > 0 {
            self.trailer
        } else {
            match self.fallback {
                Some(next) => next.trailer_tags(),
                None => self.trailer,
            }
        }
    }

    pub open spec fn has_tag(self, tag: u32) -> bool
        decreases self,
    {
        self.names.contains_key(tag) || match self.fallback {
            Some(next) => next.has_tag(tag),
            None => false,
        }
    }
}

impl FixTagLookup {
    #[verifier::type_invariant]
    closed spec fn sound(self) -> bool {
        forall|k: Seq<char>| #[trigger]
            self.tables.messages@.contains_key(k) ==> self.tables.messages@[k].wf()
    }

    pub closed spec fn model(self) -> LookupModel
        decreases self,
    {
        LookupModel {
            key: self.schema_key@,
            names: string_values(self.tables.tag_to_name@),
            enums: enum_values(self.tables.enum_map@),
            types: string_values(self.tables.field_types@),
            messages: message_values(self.tables.messages@),
            repeatable: self.tables.repeatable_tags@,
            trailer: self.tables.trailer_order@,
            fallback: match self.fallback {
                Some(next) => Some(Box::new(next.model())),
                None => None,
            },
            role: self.fallback_role,
        }
    }

    /// This lookup with `next` to fall back on.
    pub(crate) fn backed_by(self, next: Arc<FixTagLookup>, role: FallbackKind) -> (lookup:
        FixTagLookup)
        ensures
            lookup.model() == (LookupModel {
                fallback: Some(Box::new(next.model())),
                role: Some(role),
                ..self.model()
            }),
    {
        proof {
            use_type_invariant(&self);
        }
        FixTagLookup {
            schema_key: self.schema_key,
            tables: self.tables,
            fallback: Some(next),
            fallback_role: Some(role),
        }
    }

    /// The same lookup once more; the tables are shared.
    pub(crate) fn again(&self) -> (lookup: FixTagLookup)
        ensures
            lookup.model() == self.model(),
    {
        proof {
            use_type_invariant(self);
        }
        FixTagLookup {
            schema_key: copy_of(self.schema_key.as_str()),
            tables: share(&self.tables),
            fallback: match &self.fallback {
                Some(next) => Some(share(next)),
                None => None,
            },
            fallback_role: self.fallback_role,
        }
    }

    pub fn field_name(&self, tag: u32) -> (name: String)
        ensures
            name@ == self.model().field_name(tag),
        decreases self,
    {
        if let Some(name) = self.tables.tag_to_name.get(&tag) {
            return copy_of(name.as_str());
        }
        if let Some(fallback) = &self.fallback {
            return fallback.field_name(tag);
        }
        decimal_text(tag as u64)
    }

    pub fn enums_for(&self, tag: u32) -> (enums: Option<&TextMap<String>>)
        ensures
            (match enums {
                Some(map) => Some(text_values(map@)),
                None => None,
            }) == self.model().enums_for(tag),
        decreases self,
    {
        if let Some(enums) = self.tables.enum_map.get(&tag) {
            return Some(enums);
        }
        match &self.fallback {
            Some(fallback) => fallback.enums_for(tag),
            None => None,
        }
    }

    pub fn enum_description(&self, tag: u32, value: &str) -> (description: Option<&str>)
        ensures
            (match description {
                Some(text) => Some(text@),
                None => None,
            }) == self.model().enum_description(tag, value@),
    {
        match self.enums_for(tag) {
            Some(enums) => match enums.get(value) {
                Some(text) => Some(text.as_str()),
                None => None,
            },
            None => None,
        }
    }

    pub fn field_type(&self, tag: u32) -> (field_type: Option<&str>)
        ensures
            (match field_type {
                Some(text) => Some(text@),
                None => None,
            }) == self.model().field_type(tag),
        decreases self,
    {
        if let Some(text) = self.tables.field_types.get(&tag) {
            return Some(text.as_str());
        }
        match &self.fallback {
            Some(fallback) => fallback.field_type(tag),
            None => None,
        }
    }

    pub fn message_def(&self, msg_type: &str) -> (def: Option<&MessageDef>)
        ensures
            (match def {
                Some(def) => Some(def@),
                None => None,
            }) == self.model().message_def(msg_type@),
            def matches Some(d) ==> d.wf(),
        decreases self,
    {
        proof {
            use_type_invariant(self);
        }
        if let Some(def) = self.tables.messages.get(msg_type) {
            return Some(def);
        }
        match &self.fallback {
            Some(fallback) => fallback.message_def(msg_type),
            None => None,
        }
    }

    pub fn is_repeatable(&self, tag: u32) -> (yes: bool)
        ensures
            yes == self.model().is_repeatable(tag),
        decreases self,
    {
        if self.tables.repeatable_tags.contains(&tag) {
            return true;
        }
        match &self.fallback {
            Some(fallback) => fallback.is_repeatable(tag),
            None => false,
        }
    }

    pub fn trailer_tags(&self) -> (tags: &[u32])
        ensures
            tags@ == self.model().trailer_tags(),
        decreases self,
    {
        if self.tables.trailer_order.len() > 0 {
            return self.tables.trailer_order.as_slice();
        }
        match &self.fallback {
            Some(fallback) => fallback.trailer_tags(),
            None => self.tables.trailer_order.as_slice(),
        }
    }

    /// Where `tag` is known: here, in a dictionary behind, or in neither.
    pub fn tag_presence(&self, tag: u32) -> (presence: TagPresence)
        ensures
            presence.in_primary == self.model().names.contains_key(tag),
            presence.in_fallback == (self.model().fallback matches Some(next) && next.has_tag(tag)),
            presence.primary_key@ == self.model().key,
            text_view(presence.fallback_key) == match self.model().fallback {
                Some(next) => Some(next.key),
                None => None,
            },
            presence.fallback_role == self.model().role,
    {
        let in_primary: bool = self.tables.tag_to_name.contains_key(&tag);
        let (in_fallback, fallback_key) = match &self.fallback {
            Some(fallback) => (fallback.has_tag(tag), Some(copy_of(fallback.schema_key.as_str()))),
            None => (false, None),
        };
        TagPresence {
            in_primary,
            in_fallback,
            primary_key: copy_of(self.schema_key.as_str()),
            fallback_key,
            fallback_role: self.fallback_role,
        }
    }

    fn has_tag(&self, tag: u32) -> (yes: bool)
        ensures
            yes == self.model().has_tag(tag),
        decreases self,
    {
        if self.tables.tag_to_name.contains_key(&tag) {
            return true;
        }
        match &self.fallback {
            Some(fallback) => fallback.has_tag(tag),
            None => false,
        }
    }

    /// A lookup that knows only the given messages and the trailer tag 10.
    pub fn new_for_tests(messages: TextMap<MessageDef>) -> (lookup: FixTagLookup)
        requires
            forall|k: Seq<char>| #[trigger] messages@.contains_key(k) ==> messages@[k].wf(),
        ensures
            lookup.model().key == "TEST"@,
            lookup.model().names == Map::<u32, Seq<char>>::empty(),
            lookup.model().enums == Map::<u32, Map<Seq<char>, Seq<char>>>::empty(),
            lookup.model().types == Map::<u32, Seq<char>>::empty(),
            lookup.model().messages == message_values(messages@),
            lookup.model().repeatable == Set::<u32>::empty(),
            lookup.model().trailer == seq![10u32],
            lookup.model().fallback is None,
            lookup.model().role is None,
    {
        let mut trailer_order: Vec<u32> = Vec::new();
        trailer_order.push(10);
        let tables = LookupTables {
            tag_to_name: HashMap::new(),
            enum_map: HashMap::new(),
            field_types: HashMap::new(),
            messages,
            repeatable_tags: HashSet::new(),
            trailer_order,
        };
        assert(string_values(tables.tag_to_name@) =~= Map::empty());
        assert(string_values(tables.field_types@) =~= Map::empty());
        assert(enum_values(tables.enum_map@) =~= Map::empty());
        assert(tables.trailer_order@ =~= seq![10u32]);
        FixTagLookup {
            schema_key: copy_of("TEST"),
            tables: Arc::new(tables),
            fallback: None,
            fallback_role: None,
        }
    }
}

// ---------------------------------------------------------------------------
// Building a lookup from a dictionary
// ---------------------------------------------------------------------------
/// Names by number; of two fields with one number, the later counts.
pub open spec fn names_of(fields: Seq<FieldView>) -> Map<u32, Seq<char>>
    decreases fields.len(),
{
    if fields.len() == 0 {
        Map::empty()
    } else {
        names_of(fields.drop_last()).insert(fields.last().number, fields.last().name)
    }
}

/// Numbers by name.
pub open spec fn tags_of(fields: Seq<FieldView>) -> TagMap
    decreases fields.len(),
{
    if fields.len() == 0 {
        Map::empty()
    } else {
        tags_of(fields.drop_last()).insert(fields.last().name, fields.last().number)
    }
}

pub open spec fn types_of(fields: Seq<FieldView>) -> Map<u32, Seq<char>>
    decreases fields.len(),
{
    if fields.len() == 0 {
        Map::empty()
    } else {
        types_of(fields.drop_last()).insert(fields.last().number, fields.last().field_type)
    }
}

/// Descriptions by value.
pub open spec fn descriptions_of(values: Seq<ValueView>) -> Map<Seq<char>, Seq<char>>
    decreases values.len(),
{
    if values.len() == 0 {
        Map::empty()
    } else {
        descriptions_of(values.drop_last()).insert(
            values.last().enumeration,
            values.last().description,
        )
    }
}

/// The fields that list values, with their descriptions.
pub open spec fn enums_of(fields: Seq<FieldView>) -> Map<u32, Map<Seq<char>, Seq<char>>>
    decreases fields.len(),
{
    if fields.len() == 0 {
        Map::empty()
    } else {
        let values = fields.last().values + fields.last().wrapped;
        let before = enums_of(fields.drop_last());
        if values.len() > 0 {
            before.insert(fields.last().number, descriptions_of(values))
        } else {
            before
        }
    }
}

pub open spec fn components_of(components: Seq<ComponentView>) -> ComponentMap
    decreases components.len(),
{
    if components.len() == 0 {
        Map::empty()
    } else {
        components_of(components.drop_last()).insert(
            components.last().name,
            components.last(),
        )
    }
}

/// A dictionary's components, with its header and trailer under their own names.
pub open spec fn all_components(dict: DictionaryView) -> ComponentMap {
    components_of(dict.components).insert(
        "Header"@,
        ComponentView { name: "Header"@, ..dict.header },
    ).insert("Trailer"@, ComponentView { name: "Trailer"@, ..dict.trailer })
}

pub open spec fn message_model(msg: MessageView, components: ComponentMap, names: TagMap)
    -> MessageModel {
    let tags = expanded_message(msg, components, names, true);
    let groups = message_groups(msg, components, names);
    MessageModel {
        name: msg.name,
        msg_type: msg.msg_type,
        is_admin: msg.msg_cat == "admin"@,
        field_order: tags.order,
        required: tags.required,
        groups: groups.specs,
        membership: groups.membership,
    }
}

/// Message layouts by message type; of two with one type, the later counts.
pub open spec fn messages_of(messages: Seq<MessageView>, components: ComponentMap, names: TagMap)
    -> Map<Seq<char>, MessageModel>
    decreases messages.len(),
{
    if messages.len() == 0 {
        Map::empty()
    } else {
        messages_of(messages.drop_last(), components, names).insert(
            messages.last().msg_type,
            message_model(messages.last(), components, names),
        )
    }
}

/// Every tag of a group of any message.
pub open spec fn repeatable_of(messages: Map<Seq<char>, MessageModel>) -> Set<u32> {
    Set::new(
        |tag: u32|
            exists|k: Seq<char>| #[trigger]
                messages.contains_key(k) && tags_of_groups(
                    messages[k].groups,
                    messages[k].groups.len() as int,
                ).contains(tag),
    )
}

/// The components that are skipped while messages are laid out.
pub open spec fn skipped_in(messages: Seq<MessageView>, components: ComponentMap, names: TagMap)
    -> Seq<Seq<char>>
    decreases messages.len(),
{
    if messages.len() == 0 {
        seq![]
    } else {
        skipped_in(messages.drop_last(), components, names) + expanded_message(
            messages.last(),
            components,
            names,
            true,
        ).skipped
    }
}

/// The warning about a component that stands inside itself.
pub open spec fn recursion_warning(name: Seq<char>) -> Seq<char> {
    "warning: component recursion detected at "@ + name + ", skipping nested expansion"@
}

/// What there is to warn of when the lookup of a dictionary is built: its messages first,
/// then its trailer.
pub open spec fn lookup_warnings(dict: DictionaryView) -> Seq<Seq<char>> {
    let tags = tags_of(dict.fields);
    let components = all_components(dict);
    let skipped = skipped_in(dict.messages, components, tags) + expanded_component(
        "Trailer"@,
        components,
        tags,
        seq![],
    ).skipped;
    skipped.map_values(|name: Seq<char>| recursion_warning(name))
}

fn word_warnings(skipped: &Vec<String>) -> (warnings: Vec<String>)
    ensures
        texts(warnings@) == texts(skipped@).map_values(|name: Seq<char>| recursion_warning(name)),
{
    let ghost all = texts(skipped@).map_values(|name: Seq<char>| recursion_warning(name));
    let mut warnings: Vec<String> = Vec::new();
    let mut i: usize = 0;
    assert(texts(warnings@) =~= all.take(0));
    while i < skipped.len()
        invariant
            i <= skipped@.len(),
            all == texts(skipped@).map_values(|name: Seq<char>| recursion_warning(name)),
            texts(warnings@) == all.take(i as int),
        decreases skipped@.len() - i,
    {
        let ghost before = texts(warnings@);
        let mut text = copy_of("warning: component recursion detected at ");
        text.append(skipped[i].as_str());
        text.append(", skipping nested expansion");
        let ghost view = text@;
        warnings.push(text);
        assert(texts(warnings@) =~= before.push(view));
        assert(texts(skipped@)[i as int] == skipped@[i as int]@);
        assert(all.take(i + 1) =~= before.push(view));
        i += 1;
    }
    assert(all.take(i as int) =~= all);
    warnings
}

/// The lookup that a dictionary gives, with nothing behind it.
pub open spec fn lookup_of(dict: DictionaryView, key: Seq<char>) -> LookupModel {
    let tags = tags_of(dict.fields);
    let components = all_components(dict);
    let messages = messages_of(dict.messages, components, tags);
    LookupModel {
        key,
        names: names_of(dict.fields),
        enums: enums_of(dict.fields),
        types: types_of(dict.fields),
        messages,
        repeatable: repeatable_of(messages),
        trailer: deduped(expanded_component("Trailer"@, components, tags, seq![]).order),
        fallback: None,
        role: None,
    }
}

fn descriptions(field: &Field) -> (map: TextMap<String>)
    ensures
        text_values(map@) == descriptions_of(field@.values + field@.wrapped),
        map.keys().len() == 0 <==> (field@.values + field@.wrapped).len() == 0,
{
    let values = field.values_iter();
    let ghost all = borrowed_values(values@);
    let mut map: TextMap<String> = TextMap::new();
    let mut i: usize = 0;
    assert(text_values(map@) =~= descriptions_of(all.take(0)));
    while i < values.len()
        invariant
            0 <= i <= values@.len(),
            all == borrowed_values(values@),
            text_values(map@) == descriptions_of(all.take(i as int)),
            i > 0 ==> map@.contains_key(all[0].enumeration),
        decreases values@.len() - i,
    {
        let value = values[i];
        let ghost before = map@;
        assert(all[i as int] == value@);
        map.insert(value.enumeration.as_str(), copy_of(value.description.as_str()));
        assert(all.take(i + 1).drop_last() =~= all.take(i as int));
        assert(all.take(i + 1).last() == value@);
        assert(text_values(map@) =~= text_values(before).insert(
            value.enumeration@,
            value.description@,
        ));
        i += 1;
    }
    assert(all.take(all.len() as int) =~= all);
    map.know_keys();
    proof {
        if all.len() > 0 {
            assert(map.keys().contains(all[0].enumeration));
        } else if map.keys().len() > 0 {
            assert(map.keys().contains(map.keys()[0]));
            assert(text_values(map@).contains_key(map.keys()[0]));
        }
    }
    map
}

/// Message layouts by message type.
fn build_message_defs(
    messages: &MessageContainer,
    components: &TextMap<ComponentDef>,
    name_to_tag: &TextMap<u32>,
    skipped: &mut Vec<String>,
) -> (map: TextMap<MessageDef>)
    ensures
        message_values(map@) == messages_of(
            message_views(messages.items@),
            component_model(components@),
            name_to_tag@,
        ),
        forall|k: Seq<char>| #[trigger] map@.contains_key(k) ==> map@[k].wf(),
        texts(final(skipped)@) == texts(old(skipped)@) + skipped_in(
            message_views(messages.items@),
            component_model(components@),
            name_to_tag@,
        ),
{
    let ghost all = message_views(messages.items@);
    let ghost model = component_model(components@);
    let mut map: TextMap<MessageDef> = TextMap::new();
    let mut i: usize = 0;
    let ghost start = texts(skipped@);
    assert(texts(skipped@) =~= start + skipped_in(all.take(0), model, name_to_tag@));
    assert(message_values(map@) =~= messages_of(all.take(0), model, name_to_tag@));
    while i < messages.items.len()
        invariant
            0 <= i <= messages.items@.len(),
            all == message_views(messages.items@),
            model == component_model(components@),
            message_values(map@) == messages_of(all.take(i as int), model, name_to_tag@),
            forall|k: Seq<char>| #[trigger] map@.contains_key(k) ==> map@[k].wf(),
            texts(skipped@) == start + skipped_in(all.take(i as int), model, name_to_tag@),
        decreases messages.items@.len() - i,
    {
        let msg = &messages.items[i];
        let ghost before = map@;
        let (field_order, required, left_out) = expand_message_fields(
            msg,
            components,
            name_to_tag,
            true,
        );
        let ghost noted = texts(skipped@);
        push_all(skipped, &left_out);
        let groups = collect_group_specs(msg, components, name_to_tag);
        let def = MessageDef {
            _name: copy_of(msg.name.as_str()),
            _msg_type: copy_of(msg.msg_type.as_str()),
            is_admin: same(msg.msg_cat.as_str(), "admin"),
            field_order,
            required,
            groups: groups.specs,
            group_membership: groups.membership,
        };
        let ghost view = def@;
        map.insert(msg.msg_type.as_str(), def);
        assert(all.take(i + 1).drop_last() =~= all.take(i as int));
        assert(all.take(i + 1).last() == msg@);
        assert(message_values(map@) =~= message_values(before).insert(msg.msg_type@, view));
        assert(texts(skipped@) =~= start + skipped_in(all.take(i + 1), model, name_to_tag@));
        i += 1;
    }
    assert(all.take(all.len() as int) =~= all);
    map
}

/// Every tag of a group of any message.
fn collect_repeatable_from_specs(messages: &TextMap<MessageDef>) -> (tags: HashSet<u32>)
    ensures
        tags@ == repeatable_of(message_values(messages@)),
{
    let ghost model = message_values(messages@);
    messages.know_keys();
    let mut tags: HashSet<u32> = HashSet::new();
    let mut i: usize = 0;
    while i < messages.len()
        invariant
            0 <= i <= messages.keys().len(),
            model == message_values(messages@),
            forall|tag: u32| #[trigger]
                tags@.contains(tag) <==> exists|j: int|
                    0 <= j < i && tags_of_groups(
                        model[#[trigger] messages.keys()[j]].groups,
                        model[messages.keys()[j]].groups.len() as int,
                    ).contains(tag),
            forall|k: Seq<char>| messages@.contains_key(k) <==> #[trigger] messages.keys().contains(
                k,
            ),
        decreases messages.keys().len() - i,
    {
        let (key, def) = messages.entry(i);
        let ghost groups = spec_models(def.groups@);
        assert(model[key@].groups == groups);
        let ghost before = tags@;
        let mut k: usize = 0;
        assert(tags@ =~= before.union(tags_of_groups(groups, 0)));
        while k < def.groups.len()
            invariant
                0 <= k <= def.groups@.len(),
                groups == spec_models(def.groups@),
                tags@ == before.union(tags_of_groups(groups, k as int)),
            decreases def.groups@.len() - k,
        {
            let ghost inner = tags@;
            assert(groups[k as int] == def.groups@[k as int].model());
            add_group_tags(&def.groups[k], &mut tags);
            assert(tags@ =~= before.union(tags_of_groups(groups, k + 1)));
            k += 1;
        }
        assert forall|tag: u32| #[trigger] tags@.contains(tag) <==> exists|j: int|
            0 <= j < i + 1 && tags_of_groups(
                model[#[trigger] messages.keys()[j]].groups,
                model[messages.keys()[j]].groups.len() as int,
            ).contains(tag) by {
            if before.contains(tag) {
                let j = choose|j: int|
                    0 <= j < i && tags_of_groups(
                        model[#[trigger] messages.keys()[j]].groups,
                        model[messages.keys()[j]].groups.len() as int,
                    ).contains(tag);
                assert(0 <= j < i + 1);
            }
            if tags_of_groups(groups, groups.len() as int).contains(tag) {
                assert(messages.keys()[i as int] == key@);
            }
        }
        i += 1;
    }
    proof {
        let goal = repeatable_of(model);
        assert forall|tag: u32| tags@.contains(tag) == goal.contains(tag) by {
            if tags@.contains(tag) {
                let j = choose|j: int|
                    0 <= j < i && tags_of_groups(
                        model[#[trigger] messages.keys()[j]].groups,
                        model[messages.keys()[j]].groups.len() as int,
                    ).contains(tag);
                let k = messages.keys()[j];
                assert(messages.keys().contains(k));
                assert(model.contains_key(k));
            }
            if goal.contains(tag) {
                let k = choose|k: Seq<char>| #[trigger]
                    model.contains_key(k) && tags_of_groups(
                        model[k].groups,
                        model[k].groups.len() as int,
                    ).contains(tag);
                assert(messages.keys().contains(k));
                let j = messages.keys().index_of(k);
                assert(messages.keys()[j] == k);
            }
        }
        assert(tags@ =~= goal);
    }
    tags
}

fn component_map(dict: &FixDictionary) -> (map: TextMap<ComponentDef>)
    ensures
        component_model(map@) == all_components(dict@),
{
    let ghost all = component_views(dict.components.items@);
    let mut map: TextMap<ComponentDef> = TextMap::new();
    let mut i: usize = 0;
    assert(component_model(map@) =~= components_of(all.take(0)));
    while i < dict.components.items.len()
        invariant
            0 <= i <= dict.components.items@.len(),
            all == component_views(dict.components.items@),
            component_model(map@) == components_of(all.take(i as int)),
        decreases dict.components.items@.len() - i,
    {
        let comp = &dict.components.items[i];
        let ghost before = map@;
        map.insert(comp.name.as_str(), comp.duplicate());
        assert(all.take(i + 1).drop_last() =~= all.take(i as int));
        assert(all.take(i + 1).last() == comp@);
        assert(component_model(map@) =~= component_model(before).insert(comp.name@, comp@));
        i += 1;
    }
    assert(all.take(all.len() as int) =~= all);
    let ghost before = map@;
    let mut header = dict.header.duplicate();
    header.name = copy_of("Header");
    let ghost header_view = header@;
    map.insert("Header", header);
    let mut trailer = dict.trailer.duplicate();
    trailer.name = copy_of("Trailer");
    let ghost trailer_view = trailer@;
    map.insert("Trailer", trailer);
    assert(component_model(map@) =~= component_model(before).insert(
        "Header"@,
        header_view,
    ).insert("Trailer"@, trailer_view));
    map
}

impl FixTagLookup {
    /// Builds the lookup of a dictionary, known by `key`.
    pub fn from_dictionary(dict: &FixDictionary, key: &str) -> (lookup: FixTagLookup)
        ensures
            lookup.model() == lookup_of(dict@, key@),
    {
        FixTagLookup::from_dictionary_with_warnings(dict, key).0
    }

    /// Builds the lookup of a dictionary, known by `key`, and words what there is to warn of.
    pub fn from_dictionary_with_warnings(dict: &FixDictionary, key: &str) -> (built: (
        FixTagLookup,
        Vec<String>,
    ))
        ensures
            built.0.model() == lookup_of(dict@, key@),
            texts(built.1@) == lookup_warnings(dict@),
    {
        let ghost all = field_views(dict.fields.items@);
        let mut tag_to_name: HashMap<u32, String> = HashMap::new();
        let mut enum_map: HashMap<u32, TextMap<String>> = HashMap::new();
        let mut field_types: HashMap<u32, String> = HashMap::new();
        let mut name_to_tag: TextMap<u32> = TextMap::new();
        let mut i: usize = 0;
        assert(string_values(tag_to_name@) =~= names_of(all.take(0)));
        assert(string_values(field_types@) =~= types_of(all.take(0)));
        assert(enum_values(enum_map@) =~= enums_of(all.take(0)));
        assert(name_to_tag@ =~= tags_of(all.take(0)));
        while i < dict.fields.items.len()
            invariant
                0 <= i <= dict.fields.items@.len(),
                all == field_views(dict.fields.items@),
                string_values(tag_to_name@) == names_of(all.take(i as int)),
                string_values(field_types@) == types_of(all.take(i as int)),
                enum_values(enum_map@) == enums_of(all.take(i as int)),
                name_to_tag@ == tags_of(all.take(i as int)),
            decreases dict.fields.items@.len() - i,
        {
            let field = &dict.fields.items[i];
            let ghost names0 = tag_to_name@;
            let ghost types0 = field_types@;
            let ghost enums0 = enum_map@;
            assert(all.take(i + 1).drop_last() =~= all.take(i as int));
            assert(all.take(i + 1).last() == field@);
            tag_to_name.insert(field.number, copy_of(field.name.as_str()));
            name_to_tag.insert(field.name.as_str(), field.number);
            field_types.insert(field.number, copy_of(field.field_type.as_str()));
            assert(string_values(tag_to_name@) =~= string_values(names0).insert(
                field.number,
                field.name@,
            ));
            assert(string_values(field_types@) =~= string_values(types0).insert(
                field.number,
                field.field_type@,
            ));
            let enums = descriptions(field);
            let ghost described = text_values(enums@);
            if enums.len() > 0 {
                enum_map.insert(field.number, enums);
                assert(enum_values(enum_map@) =~= enum_values(enums0).insert(
                    field.number,
                    described,
                ));
            }
            i += 1;
        }
        assert(all.take(all.len() as int) =~= all);
        let components = component_map(dict);
        let mut skipped: Vec<String> = Vec::new();
        assert(texts(skipped@) =~= seq![]);
        let messages = build_message_defs(&dict.messages, &components, &name_to_tag, &mut skipped);
        let repeatable_tags = collect_repeatable_from_specs(&messages);
        let mut trailer_order: Vec<u32> = Vec::new();
        let mut required: Vec<u32> = Vec::new();
        let mut stack: Vec<String> = Vec::new();
        components.know_keys();
        assert(texts(stack@) =~= seq![]);
        append_component_fields(
            "Trailer",
            &components,
            &name_to_tag,
            &mut stack,
            &mut trailer_order,
            &mut required,
            &mut skipped,
        );
        assert(texts(skipped@) =~= skipped_in(
            dict@.messages,
            component_model(components@),
            name_to_tag@,
        ) + expanded_component(
            "Trailer"@,
            component_model(components@),
            name_to_tag@,
            seq![],
        ).skipped);
        let warnings = word_warnings(&skipped);
        assert(trailer_order@ =~= expanded_component(
            "Trailer"@,
            component_model(components@),
            name_to_tag@,
            seq![],
        ).order);
        dedupe(&mut trailer_order);
        let lookup = FixTagLookup {
            schema_key: copy_of(key),
            tables: Arc::new(
                LookupTables {
                    tag_to_name,
                    enum_map,
                    field_types,
                    messages,
                    repeatable_tags,
                    trailer_order,
                },
            ),
            fallback: None,
            fallback_role: None,
        };
        (lookup, warnings)
    }
}

} // verus!
