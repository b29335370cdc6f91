use fixdecoder::dictionaries::{
    choose_embedded_xml, detect_schema_key, detect_schema_key_with_default, supported_fix_versions,
    DictionaryStore,
};
use fixdecoder::schema::FixDictionary;
use fixdecoder::schema_tree::SchemaTree;
use fixdecoder::sensitive::create_obfuscator;
use fixdecoder::tag_lookup::FixTagLookup;

fn small_override_dictionary() -> FixDictionary {
    let xml = r#"
<fix type='FIX' major='4' minor='4'>
  <header>
<field name='BeginString' required='Y'/>
  </header>
  <trailer>
<field name='CheckSum' required='Y'/>
  </trailer>
  <messages>
<message name='Heartbeat' msgtype='0' msgcat='admin'>
  <field name='MsgType' required='Y'/>
</message>
  </messages>
  <components/>
  <fields>
<field number='8' name='BeginString' type='STRING'/>
<field number='10' name='CheckSum' type='STRING'/>
<field number='35' name='MsgType' type='STRING'>
  <value enum='0' description='Heartbeat'/>
</field>
  </fields>
</fix>
"#;
    FixDictionary::from_xml(xml).expect("override test dictionary parses")
}

fn small_detected_dictionary() -> FixDictionary {
    let xml = r#"
<fix type='FIX' major='5' minor='0' servicepack='2'>
  <header>
<field name='BeginString' required='Y'/>
  </header>
  <trailer>
<field name='CheckSum' required='Y'/>
  </trailer>
  <messages>
<message name='Heartbeat' msgtype='0' msgcat='admin'>
  <field name='MsgType' required='Y'/>
</message>
  </messages>
  <components/>
  <fields>
<field number='8' name='BeginString' type='STRING'/>
<field number='10' name='CheckSum' type='STRING'/>
<field number='35' name='MsgType' type='STRING'>
  <value enum='0' description='Heartbeat'/>
</field>
<field number='1128' name='ApplVerID' type='STRING'>
  <value enum='9' description='FIX50SP2'/>
</field>
  </fields>
</fix>
"#;
    FixDictionary::from_xml(xml).expect("detected test dictionary parses")
}

#[test]
fn detects_schema_from_default_appl_ver_id() {
    let msg = "8=FIXT.1.1\u{0001}35=D\u{0001}1137=8\u{0001}10=000\u{0001}";
    assert_eq!(detect_schema_key(msg), "FIX50SP1");
}

#[test]
fn session_default_guides_fixt_messages_without_appl_ver_id() {
    let msg = "8=FIXT.1.1\u{0001}35=0\u{0001}10=000\u{0001}";
    assert_eq!(
        detect_schema_key_with_default(msg, Some("FIX50SP2")),
        "FIX50SP2"
    );
}

#[test]
fn load_dictionary_respects_override_key() {
    let mut dicts = DictionaryStore::new();
    dicts.reset_override_warn();
    let msg = "8=FIX.4.2\u{0001}35=D\u{0001}1128=9\u{0001}10=000\u{0001}";
    let overridden = dicts.load_dictionary_with_override(msg, Some("FIX50"))
        .expect("dictionary");
    assert_eq!(
        overridden.field_name(1128),
        "ApplVerID",
        "override should still provide definitions from the selected dictionary"
    );
    assert!(
        !dicts.override_warn_triggered(),
        "a valid override should not trigger the warning flag"
    );
}

#[test]
fn warns_and_falls_back_on_unknown_override() {
    let mut dicts = DictionaryStore::new();
    dicts.reset_override_warn();
    let msg = "8=FIX.4.4\u{0001}35=0\u{0001}10=000\u{0001}";
    let dict = dicts.load_dictionary_with_override(msg, Some("FIX00BAD"))
        .expect("dictionary");
    assert!(dicts.override_warn_triggered(), "missing override should warn");
    assert_eq!(dict.field_name(35), "MsgType");
}

#[test]
fn override_uses_fallback_dictionary_for_missing_tags() {
    let mut dicts = DictionaryStore::new();
    dicts.reset_override_warn();
    dicts.register_dictionary("FIX44", &small_override_dictionary());
    dicts.register_dictionary("FIX50SP2", &small_detected_dictionary());
    dicts.clear_override_cache_for("FIX44");
    dicts.clear_override_cache_for("FIX50SP2");
    let msg = "8=FIXT.1.1\u{0001}35=0\u{0001}1128=9\u{0001}10=000\u{0001}";
    let dict = dicts.load_dictionary_with_override(msg, Some("FIX44"))
        .expect("dictionary");
    assert_eq!(
        dict.field_name(1128),
        "ApplVerID",
        "override should fall back to detected FIX version when a tag is absent"
    );
    assert!(
        !dicts.override_warn_triggered(),
        "successful fallback should not trigger override warning flag"
    );
}

#[test]
fn repeatable_tags_include_nested_groups() {
    let xml = r#"
<fix type='FIX' major='4' minor='4'>
  <header><field name='BeginString' required='Y'/></header>
  <trailer><field name='CheckSum' required='Y'/></trailer>
  <messages>
<message name='Test' msgtype='T' msgcat='app'>
  <group name='NoOuter'>
    <field name='OuterField'/>
    <group name='NoInner'>
      <field name='InnerField'/>
    </group>
  </group>
</message>
  </messages>
  <components/>
  <fields>
<field number='8' name='BeginString' type='STRING'/>
<field number='10' name='CheckSum' type='STRING'/>
<field number='35' name='MsgType' type='STRING'>
  <value enum='T' description='Test'/>
</field>
<field number='900' name='NoOuter' type='NUMINGROUP'/>
<field number='901' name='OuterField' type='STRING'/>
<field number='910' name='NoInner' type='NUMINGROUP'/>
<field number='911' name='InnerField' type='STRING'/>
  </fields>
</fix>
"#;
    let dict = FixDictionary::from_xml(xml).expect("dictionary parses");
    let lookup = FixTagLookup::from_dictionary(&dict, "TEST");
    assert!(lookup.is_repeatable(900), "outer group count tag tracked");
    assert!(lookup.is_repeatable(901), "outer field repeatable");
    assert!(lookup.is_repeatable(910), "nested group count tag tracked");
    assert!(lookup.is_repeatable(911), "nested field repeatable");
}

#[test]
fn new_order_single_does_not_inherit_unreachable_group_memberships() {
    let msg = "8=FIX.4.4\u{0001}35=D\u{0001}10=000\u{0001}";
    let mut dicts = DictionaryStore::new();
    let dict = dicts.load_dictionary(msg).expect("dictionary");
    let message = dict.message_def("D").expect("new order single definition");

    assert!(
        !message.group_membership.contains_key(&11),
        "ClOrdID should not be treated as a repeating-group member"
    );
    assert!(
        !message.group_membership.contains_key(&40),
        "OrdType should not be treated as a repeating-group member"
    );
    assert!(
        !message.group_membership.contains_key(&54),
        "Side should not be treated as a repeating-group member"
    );
    assert!(
        !message.group_membership.contains_key(&60),
        "TransactTime should not be treated as a repeating-group member"
    );
}

#[test]
fn choose_embedded_xml_defaults_to_fix44() {
    let xml = choose_embedded_xml("unknown");
    assert!(xml.contains("<fix type='FIX' major='4' minor='4'"));
}

#[test]
fn supported_versions_and_factory_cover_public_helpers() {
    assert_eq!(
        supported_fix_versions(),
        "40,41,42,43,44,50,50SP1,50SP2,T11"
    );

    let mut obfuscator = create_obfuscator(false);
    let line = "49=ABC\u{0001}";
    assert_eq!(obfuscator.enabled_line(line), line);
}

const SMALL_DICTIONARY_HEAD: &str = "<fix type='FIX' major='4' minor='4'><header/><trailer/><messages>";
const SMALL_DICTIONARY_TAIL: &str = "</messages><components/><fields/></fix>";

fn parse_message_xml(xml: &str) -> FixDictionary {
    let text = format!("{SMALL_DICTIONARY_HEAD}{xml}{SMALL_DICTIONARY_TAIL}");
    FixDictionary::from_xml(&text).expect("dictionary parses")
}

#[test]
fn parse_message_fields() {
    let xml = "<message name='Test' msgtype='T' msgcat='app'><field name='A' required='Y'/><field name='B' required='N'/></message>";
    let dict = parse_message_xml(xml);
    let msg = &dict.messages.items[0];
    assert_eq!(msg.fields.len(), 2);
}

#[test]
fn parse_message_with_components() {
    let xml = r#"<message name='IOI' msgtype='6' msgcat='app'>
   <field name='IOIID' required='Y' />
   <field name='IOITransType' required='Y' />
   <component name='Instrument' required='Y' />
</message>"#;
    let dict = parse_message_xml(xml);
    let msg = &dict.messages.items[0];
    assert_eq!(msg.fields.len(), 2);
    assert_eq!(msg.components.len(), 1);
}

// ---------------------------------------------------------------------------
// Further cases

#[test]
fn damaged_dictionaries_are_refused() {
    assert!(FixDictionary::from_xml("<fix").is_err());
    let missing = FixDictionary::from_xml("<fix type='FIX' major='4' minor='4'/>").unwrap_err();
    assert!(missing.message().starts_with("missing <"), "{}", missing.message());
    let unnamed = FixDictionary::from_xml(
        "<fix type='FIX' major='4' minor='4'><header/><trailer/><messages><message name='A' msgcat='app'/></messages><components/><fields/></fix>",
    )
    .unwrap_err();
    assert_eq!(unnamed.message(), "missing attribute @msgtype on <message>");
    let number = FixDictionary::from_xml(
        "<fix type='FIX' major='4' minor='4'><header/><trailer/><messages/><components/><fields><field number='x' name='A' type='INT'/></fields></fix>",
    )
    .unwrap_err();
    assert_eq!(number.message(), "invalid field number");
}

#[test]
fn stored_lookups_are_shared() {
    let mut dicts = DictionaryStore::new();
    let first = dicts.get_dictionary("FIX44").expect("dictionary");
    let second = dicts.get_dictionary("FIX44").expect("dictionary");
    assert!(std::sync::Arc::ptr_eq(&first, &second));
    assert!(dicts.get_dictionary("FIX99").is_none());
}

#[test]
fn admin_messages_are_told_from_others() {
    let mut dicts = DictionaryStore::new();
    let dict = dicts.get_dictionary("FIX44").expect("dictionary");
    assert!(dict.message_def("0").expect("heartbeat").is_admin);
    assert!(!dict.message_def("D").expect("order").is_admin);
}

const RECURSIVE_XML: &str = "<fix type='FIX' major='9' minor='9'>\
<header><field name='MsgType' required='Y'/></header><trailer/>\
<messages><message name='Loop' msgtype='L' msgcat='app'>\
<component name='Ring' required='N'/></message></messages>\
<components><component name='Ring'><field name='Link' required='N'/>\
<component name='Ring' required='N'/></component></components>\
<fields><field number='35' name='MsgType' type='STRING'/>\
<field number='900' name='Link' type='STRING'/></fields></fix>";

#[test]
fn components_inside_themselves_are_warned_of() {
    let dict = FixDictionary::from_xml(RECURSIVE_XML).expect("dictionary");
    let (lookup, warnings) = FixTagLookup::from_dictionary_with_warnings(&dict, "FIX99");
    assert_eq!(
        warnings,
        vec!["warning: component recursion detected at Ring, skipping nested expansion"]
    );
    assert_eq!(lookup.field_name(900), "Link");

    let mut store = DictionaryStore::new();
    store.register_dictionary("FIX99", &dict);
    assert_eq!(store.take_warnings(), warnings);
    assert!(store.take_warnings().is_empty());

    let (tree, warnings) = SchemaTree::build_with_warnings(dict);
    assert_eq!(
        warnings,
        vec!["warning: recursive component detected at Ring, skipping"]
    );
    assert!(tree.messages.contains_key("Loop"));
}

#[test]
fn each_override_that_is_missed_is_warned_of() {
    let mut store = DictionaryStore::new();
    let msg = "8=FIX.4.4\u{1}35=0\u{1}";
    for _ in 0..2 {
        assert!(store.load_dictionary_with_override(msg, Some("NOPE")).is_some());
    }
    let warning = "warning: FIX override 'NOPE' not found; falling back to auto-detected dictionary";
    assert_eq!(store.take_warnings(), vec![warning, warning]);
    assert!(store.override_warn_triggered());
    assert!(store.load_dictionary_with_override(msg, Some("FIX42")).is_some());
    assert!(store.take_warnings().is_empty());
}

#[test]
fn attributes_are_found_by_their_local_names() {
    let dict = FixDictionary::from_xml(
        "<fix xmlns:x='urn:x' type='FIX' x:major='4' minor='4'><header/><trailer/><messages/>\
         <components/><fields><field number='1' x:name='Account' name='Other' type='STRING'/>\
         </fields></fix>",
    )
    .expect("dictionary parses");
    assert_eq!(dict.major, "4");
    let lookup = FixTagLookup::from_dictionary(&dict, "TEST");
    assert_eq!(lookup.field_name(1), "Account");
}

/// The tag that opens the entries of the group of a message with the given parts.
fn opening_tag(parts: &str) -> u32 {
    let xml = format!(
        "<fix type='FIX' major='4' minor='4'><header/><trailer/>\
         <messages><message name='Test' msgtype='T' msgcat='app'>\
         <group name='NoOuter'>{parts}<group name='NoInner'><field name='InnerField'/></group>\
         </group></message></messages>\
         <components><component name='Part'><field name='PartField'/></component>\
         <component name='Empty'/>\
         <component name='Grouped'><group name='NoOther'><field name='PartField'/></group>\
         </component></components>\
         <fields><field number='900' name='NoOuter' type='NUMINGROUP'/>\
         <field number='901' name='OuterField' type='STRING'/>\
         <field number='902' name='PartField' type='STRING'/>\
         <field number='910' name='NoInner' type='NUMINGROUP'/>\
         <field number='911' name='InnerField' type='STRING'/>\
         <field number='920' name='NoOther' type='NUMINGROUP'/></fields></fix>"
    );
    let dict = FixDictionary::from_xml(&xml).expect("dictionary parses");
    let lookup = FixTagLookup::from_dictionary(&dict, "TEST");
    let def = lookup.message_def("T").expect("message");
    assert_eq!(def.groups[0].count_tag, 900);
    def.groups[0].delim
}

#[test]
fn fields_open_the_entries_of_a_group() {
    assert_eq!(opening_tag("<field name='OuterField'/>"), 901);
    assert_eq!(opening_tag("<component name='Part'/>"), 902);
    assert_eq!(opening_tag("<component name='Empty'/><component name='Part'/>"), 902);
    assert_eq!(opening_tag("<field name='OuterField'/><component name='Part'/>"), 901);
}

#[test]
fn groups_inside_open_no_entry() {
    assert_eq!(opening_tag(""), 900);
    assert_eq!(opening_tag("<component name='Empty'/>"), 900);
    assert_eq!(opening_tag("<component name='Grouped'/>"), 900);
}
