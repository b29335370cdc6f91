use fixdecoder::dictionaries::DictionaryStore;
use fixdecoder::field_types::is_valid_type;
use fixdecoder::integrity::{calculate_checksum, compute_actual_body_length};
use fixdecoder::schema::{
    ComponentContainer, ComponentDef, ContainerEntry, Field, FieldContainer, FieldRef,
    FixDictionary, GroupDef, Message, MessageContainer, Value, ValuesWrapper,
};
use fixdecoder::tag_lookup::FixTagLookup;
use fixdecoder::validator::validate_fix_message;

const SOH: &str = "\u{0001}";

fn field(name: &str, number: u32, field_type: &str) -> Field {
    Field {
        name: name.to_string(),
        number,
        field_type: field_type.to_string(),
        values: Vec::new(),
        values_wrapper: ValuesWrapper::default(),
    }
}

fn enum_field(name: &str, number: u32, field_type: &str, values: &[(&str, &str)]) -> Field {
    Field {
        name: name.to_string(),
        number,
        field_type: field_type.to_string(),
        values: values
            .iter()
            .map(|(enumeration, description)| Value {
                enumeration: (*enumeration).to_string(),
                description: (*description).to_string(),
            })
            .collect(),
        values_wrapper: ValuesWrapper::default(),
    }
}

fn test_lookup() -> FixTagLookup {
    let dict = FixDictionary {
        typ: "FIX".to_string(),
        major: "4".to_string(),
        minor: "4".to_string(),
        service_pack: None,
        fields: FieldContainer {
            items: vec![
                field("BeginString", 8, "STRING"),
                field("BodyLength", 9, "LENGTH"),
                field("MsgType", 35, "STRING"),
                field("CheckSum", 10, "STRING"),
                enum_field("Side", 54, "CHAR", &[("1", "Buy"), ("2", "Sell")]),
                field("TransactTime", 60, "UTCTIMESTAMP"),
                field("NoItems", 100, "NUMINGROUP"),
                field("ItemValue", 101, "STRING"),
                field("ItemCode", 102, "STRING"),
                field("ItemExtra", 103, "STRING"),
            ],
        },
        messages: MessageContainer {
            items: vec![Message {
                name: "Test".to_string(),
                msg_type: "Z".to_string(),
                msg_cat: "app".to_string(),
                fields: vec![FieldRef {
                    name: "NoItems".to_string(),
                    required: Some("Y".to_string()),
                }],
                groups: vec![GroupDef {
                    name: "NoItems".to_string(),
                    required: Some("Y".to_string()),
                    fields: vec![
                        FieldRef {
                            name: "ItemValue".to_string(),
                            required: Some("N".to_string()),
                        },
                        FieldRef {
                            name: "ItemCode".to_string(),
                            required: Some("N".to_string()),
                        },
                        FieldRef {
                            name: "ItemExtra".to_string(),
                            required: Some("N".to_string()),
                        },
                    ],
                    groups: Vec::new(),
                    components: Vec::new(),
                    entries: vec![
                        ContainerEntry::Field(FieldRef {
                            name: "ItemValue".to_string(),
                            required: Some("N".to_string()),
                        }),
                        ContainerEntry::Field(FieldRef {
                            name: "ItemCode".to_string(),
                            required: Some("N".to_string()),
                        }),
                        ContainerEntry::Field(FieldRef {
                            name: "ItemExtra".to_string(),
                            required: Some("N".to_string()),
                        }),
                    ],
                }],
                components: Vec::new(),
                entries: vec![ContainerEntry::Group(GroupDef {
                    name: "NoItems".to_string(),
                    required: Some("Y".to_string()),
                    fields: vec![
                        FieldRef {
                            name: "ItemValue".to_string(),
                            required: Some("N".to_string()),
                        },
                        FieldRef {
                            name: "ItemCode".to_string(),
                            required: Some("N".to_string()),
                        },
                        FieldRef {
                            name: "ItemExtra".to_string(),
                            required: Some("N".to_string()),
                        },
                    ],
                    groups: Vec::new(),
                    components: Vec::new(),
                    entries: vec![
                        ContainerEntry::Field(FieldRef {
                            name: "ItemValue".to_string(),
                            required: Some("N".to_string()),
                        }),
                        ContainerEntry::Field(FieldRef {
                            name: "ItemCode".to_string(),
                            required: Some("N".to_string()),
                        }),
                        ContainerEntry::Field(FieldRef {
                            name: "ItemExtra".to_string(),
                            required: Some("N".to_string()),
                        }),
                    ],
                })],
            }],
        },
        components: ComponentContainer { items: Vec::new() },
        header: ComponentDef {
            name: String::new(),
            fields: vec![
                FieldRef {
                    name: "BeginString".to_string(),
                    required: Some("Y".to_string()),
                },
                FieldRef {
                    name: "BodyLength".to_string(),
                    required: Some("Y".to_string()),
                },
                FieldRef {
                    name: "MsgType".to_string(),
                    required: Some("Y".to_string()),
                },
            ],
            groups: Vec::new(),
            components: Vec::new(),
            entries: vec![
                ContainerEntry::Field(FieldRef {
                    name: "BeginString".to_string(),
                    required: Some("Y".to_string()),
                }),
                ContainerEntry::Field(FieldRef {
                    name: "BodyLength".to_string(),
                    required: Some("Y".to_string()),
                }),
                ContainerEntry::Field(FieldRef {
                    name: "MsgType".to_string(),
                    required: Some("Y".to_string()),
                }),
            ],
        },
        trailer: ComponentDef {
            name: String::new(),
            fields: vec![FieldRef {
                name: "CheckSum".to_string(),
                required: Some("Y".to_string()),
            }],
            groups: Vec::new(),
            components: Vec::new(),
            entries: vec![ContainerEntry::Field(FieldRef {
                name: "CheckSum".to_string(),
                required: Some("Y".to_string()),
            })],
        },
    };

    FixTagLookup::from_dictionary(&dict, "TEST")
}

fn build_message(fields: &[(u32, &str)], declared_body_len: Option<usize>) -> String {
    let mut body = String::new();
    for (tag, value) in fields {
        body.push_str(&format!("{tag}={value}{SOH}"));
    }
    let body_len = declared_body_len.unwrap_or(body.len());
    let mut msg = format!("8=FIX.4.4{SOH}9={:03}{SOH}{}", body_len, body);
    let checksum = calculate_checksum(&format!("{msg}10=000{SOH}"));
    msg.push_str(&format!("10={:03}{SOH}", checksum));
    msg
}

fn lookup_from_xml(xml: &str) -> FixTagLookup {
    let dict = FixDictionary::from_xml(xml).expect("test dictionary parses");
    FixTagLookup::from_dictionary(&dict, "TEST")
}

#[test]
fn allows_repeating_group_tags() {
    let dict = test_lookup();
    let msg = build_message(
        &[(35, "Z"), (100, "2"), (101, "ALPHA"), (101, "BETA")],
        None,
    );
    let errors = validate_fix_message(&msg, &dict);
    assert!(
        errors.is_clean(),
        "expected no errors for valid repeating group message: {:?}",
        errors.errors
    );
}

#[test]
fn detects_duplicate_top_level_tag_even_if_repeatable_elsewhere() {
    let dict = lookup_from_xml(
        r#"
<fix type='FIX' major='4' minor='4'>
  <header>
<field name='BeginString' required='Y'/>
<field name='BodyLength' required='Y'/>
<field name='MsgType' required='Y'/>
  </header>
  <trailer>
<field name='CheckSum' required='Y'/>
  </trailer>
  <messages>
<message name='Plain' msgtype='P' msgcat='app'>
  <field name='SharedField' required='N'/>
</message>
<message name='Grouped' msgtype='G' msgcat='app'>
  <group name='NoShared'>
    <field name='SharedField' required='N'/>
  </group>
</message>
  </messages>
  <components/>
  <fields>
<field number='8' name='BeginString' type='STRING'/>
<field number='9' name='BodyLength' type='LENGTH'/>
<field number='10' name='CheckSum' type='STRING'/>
<field number='35' name='MsgType' type='STRING'>
  <value enum='P' description='Plain'/>
  <value enum='G' description='Grouped'/>
</field>
<field number='1000' name='NoShared' type='NUMINGROUP'/>
<field number='1001' name='SharedField' type='STRING'/>
  </fields>
</fix>
"#,
    );
    let msg = build_message(&[(35, "P"), (1001, "ALPHA"), (1001, "BETA")], None);
    let errors = validate_fix_message(&msg, &dict);

    assert!(
        errors
            .errors
            .iter()
            .any(|err| err.contains("Duplicate tag 1001 encountered")),
        "expected duplicate top-level tag to be rejected: {:?}",
        errors.errors
    );
}

#[test]
fn allows_component_first_group_entries() {
    let dict = lookup_from_xml(
        r#"
<fix type='FIX' major='4' minor='4'>
  <header>
<field name='BeginString' required='Y'/>
<field name='BodyLength' required='Y'/>
<field name='MsgType' required='Y'/>
  </header>
  <trailer>
<field name='CheckSum' required='Y'/>
  </trailer>
  <messages>
<message name='LeggedOrder' msgtype='L' msgcat='app'>
  <group name='NoLegs'>
    <component name='InstrumentLeg'/>
  </group>
</message>
  </messages>
  <components>
<component name='InstrumentLeg'>
  <field name='LegSymbol' required='Y'/>
</component>
  </components>
  <fields>
<field number='8' name='BeginString' type='STRING'/>
<field number='9' name='BodyLength' type='LENGTH'/>
<field number='10' name='CheckSum' type='STRING'/>
<field number='35' name='MsgType' type='STRING'>
  <value enum='L' description='LeggedOrder'/>
</field>
<field number='555' name='NoLegs' type='NUMINGROUP'/>
<field number='600' name='LegSymbol' type='STRING'/>
  </fields>
</fix>
"#,
    );
    let msg = build_message(&[(35, "L"), (555, "1"), (600, "IBM")], None);
    let errors = validate_fix_message(&msg, &dict);

    assert!(
        errors.is_clean(),
        "component-first group entries should validate cleanly: {:?}",
        errors.errors
    );
}

#[test]
fn detects_body_length_mismatch() {
    let dict = test_lookup();
    let msg = build_message(&[(35, "Z"), (100, "1"), (101, "ONLY")], Some(999));
    let errors = validate_fix_message(&msg, &dict);
    assert!(
        errors
            .errors
            .iter()
            .any(|e| e.contains("BodyLength mismatch")),
        "expected body length error, got {:?}",
        errors.errors
    );
}

#[test]
fn detects_checksum_mismatch() {
    let dict = test_lookup();
    let mut msg = build_message(&[(35, "Z"), (100, "1"), (101, "ONLY")], None);
    // Replace checksum with an incorrect value while keeping length intact.
    if let Some(pos) = msg.rfind("10=") {
        msg.truncate(pos + 3);
        msg.push_str("999\u{0001}");
    }
    let errors = validate_fix_message(&msg, &dict);
    assert!(
        errors
            .errors
            .iter()
            .any(|e| e.contains("Checksum mismatch")),
        "expected checksum mismatch, got {:?}",
        errors.errors
    );
}

#[test]
fn missing_msg_type_still_reports_length_and_tag() {
    let dict = test_lookup();
    let msg = format!("8=FIX.4.4{SOH}9=005{SOH}10=999{SOH}");
    let report = validate_fix_message(&msg, &dict);
    assert!(
        report
            .errors
            .iter()
            .any(|e| e.contains("Missing required tag 35")),
        "expected missing MsgType error"
    );
    assert!(
        report
            .errors
            .iter()
            .any(|e| e.contains("BodyLength mismatch") || e.contains("Checksum mismatch")),
        "expected invariant checks to run even without MsgType"
    );
    assert!(
        report.tag_errors.contains_key(&35),
        "tag error map should include tag 35 when missing"
    );
}

#[test]
fn detects_unknown_msg_type() {
    let dict = test_lookup();
    let msg = build_message(&[(35, "Q"), (100, "0")], None);
    let report = validate_fix_message(&msg, &dict);
    assert!(
        report
            .errors
            .iter()
            .any(|e| e.contains("Unknown MsgType: Q")),
        "expected unknown MsgType error, got {:?}",
        report.errors
    );
    assert!(
        report
            .tag_errors
            .get(&35)
            .is_some_and(|errs| errs.iter().any(|e| e.contains("Unknown MsgType: Q")))
    );
}

#[test]
fn detects_invalid_enum_and_type() {
    let dict = test_lookup();
    let msg = build_message(&[(35, "Z"), (54, "LONG"), (100, "0")], None);
    let report = validate_fix_message(&msg, &dict);
    assert!(
        report
            .errors
            .iter()
            .any(|e| e.contains("Invalid enum value 'LONG'")),
        "expected enum validation error, got {:?}",
        report.errors
    );
    assert!(
        report
            .errors
            .iter()
            .any(|e| e.contains("Invalid type: expected CHAR")),
        "expected type validation error, got {:?}",
        report.errors
    );
}

#[test]
fn detects_invalid_numingroup_and_tag_outside_group() {
    let dict = test_lookup();
    let msg = build_message(&[(35, "Z"), (100, "oops"), (101, "ALPHA")], None);
    let report = validate_fix_message(&msg, &dict);
    assert!(
        report
            .errors
            .iter()
            .any(|e| e.contains("Invalid NumInGroup value 'oops'")),
        "expected invalid NumInGroup error, got {:?}",
        report.errors
    );
    assert!(
        report
            .errors
            .iter()
            .any(|e| e.contains("appears outside of repeating group 100")),
        "expected out-of-group error, got {:?}",
        report.errors
    );
}

#[test]
fn detects_out_of_order_tags_within_group() {
    let dict = test_lookup();
    let msg = build_message(
        &[
            (35, "Z"),
            (100, "1"),
            (101, "ALPHA"),
            (103, "EXTRA"),
            (102, "CODE"),
        ],
        None,
    );
    let report = validate_fix_message(&msg, &dict);
    assert!(
        report
            .errors
            .iter()
            .any(|e| e.contains("Tag 102 (ItemCode) out of order within repeating group 100")),
        "expected group ordering error, got {:?}",
        report.errors
    );
}

#[test]
fn missing_checksum_is_reported() {
    let dict = test_lookup();
    let msg = format!("8=FIX.4.4{SOH}9=010{SOH}35=Z{SOH}100=0{SOH}");
    let report = validate_fix_message(&msg, &dict);
    assert!(
        report
            .errors
            .iter()
            .any(|e| e.contains("Missing required checksum tag 10")),
        "expected missing checksum error, got {:?}",
        report.errors
    );
}

#[test]
fn helper_type_validators_cover_temporal_formats() {
    assert!(is_valid_type("20240101-00:00:00", "UTCTIMESTAMP"));
    assert!(!is_valid_type("2024-01-01 00:00:00", "UTCTIMESTAMP"));
    assert!(is_valid_type("20240101", "UTCDATEONLY"));
    assert!(is_valid_type("12:34:56.789", "UTCTIMEONLY"));
    assert!(!is_valid_type("25:00:00", "UTCTIMEONLY"));
    assert!(is_valid_type("202401", "MONTHYEAR"));
    assert!(is_valid_type("202401w3", "MONTHYEAR"));
    assert!(!is_valid_type("2024-13", "MONTHYEAR"));
}

#[test]
fn helper_checksum_and_body_length_fall_back_when_fields_are_missing() {
    let msg = format!("8=FIX.4.4{SOH}9=005{SOH}35=Z{SOH}");
    assert_eq!(calculate_checksum(&msg), -1);
    assert_eq!(compute_actual_body_length(&msg), None);
}

// ---------------------------------------------------------------------------
// Further cases

#[test]
fn reports_list_every_finding_once() {
    let dict = test_lookup();
    let msg = build_message(&[(35, "Z"), (54, "LONG"), (100, "0")], None);
    let report = validate_fix_message(&msg, &dict);
    assert_eq!(
        report.tag_errors.get(&54).map(|errors| errors.len()),
        Some(2)
    );
    for error in report.tag_errors.values().flatten() {
        assert!(report.errors.contains(error), "{error}");
    }
}

#[test]
fn checksum_and_length_are_computed_from_the_bytes() {
    let msg = build_message(&[(35, "0")], None);
    assert_eq!(compute_actual_body_length(&msg), Some(5));
    let expected: u32 = msg[..msg.rfind("10=").unwrap()].bytes().map(u32::from).sum();
    assert_eq!(calculate_checksum(&msg), (expected % 256) as i32);
}

#[test]
fn types_have_their_forms() {
    assert!(is_valid_type("-12", "INT"));
    assert!(!is_valid_type("1.5", "INT"));
    assert!(is_valid_type("1.5", "PRICE"));
    assert!(!is_valid_type("x", "QTY"));
    assert!(is_valid_type("Y", "BOOLEAN"));
    assert!(!is_valid_type("yes", "BOOLEAN"));
    assert!(is_valid_type("anything", "STRING"));
}

#[test]
fn entries_of_several_fields_may_repeat() {
    let dict = test_lookup();
    let msg = build_message(
        &[
            (35, "Z"),
            (100, "2"),
            (101, "A"),
            (102, "B"),
            (101, "C"),
            (102, "D"),
        ],
        None,
    );
    let report = validate_fix_message(&msg, &dict);
    assert!(report.is_clean(), "{:?}", report.errors);
}

#[test]
fn groups_of_the_built_in_dictionary_may_repeat() {
    let mut store = DictionaryStore::new();
    let dict = store.get_dictionary("FIX44").expect("dictionary");
    let header = |msg_type: &'static str| {
        vec![
            (35, msg_type),
            (49, "BUY"),
            (56, "SELL"),
            (34, "1"),
            (52, "20250101-10:00:00"),
        ]
    };
    let mut order = header("D");
    order.extend([
        (11, "C1"),
        (54, "1"),
        (60, "20250101-10:00:00"),
        (40, "1"),
        (453, "2"),
        (448, "P1"),
        (447, "D"),
        (452, "1"),
        (802, "2"),
        (523, "S1"),
        (803, "1"),
        (523, "S2"),
        (803, "2"),
        (448, "P2"),
        (447, "D"),
        (452, "3"),
        (55, "AAPL"),
        (78, "2"),
        (79, "ACC1"),
        (80, "10"),
        (79, "ACC2"),
        (80, "20"),
    ]);
    let mut quotes = header("W");
    quotes.extend([
        (55, "AAPL"),
        (268, "2"),
        (269, "0"),
        (270, "10.5"),
        (269, "1"),
        (270, "10.7"),
    ]);
    let mut allocation = header("J");
    allocation.extend([
        (70, "A1"),
        (71, "0"),
        (54, "1"),
        (6, "10.5"),
        (75, "20250101"),
        (55, "AAPL"),
        (73, "2"),
        (11, "C1"),
        (37, "O1"),
        (11, "C2"),
        (37, "O2"),
        (78, "2"),
        (79, "ACC1"),
        (80, "10"),
        (79, "ACC2"),
        (80, "20"),
    ]);
    for fields in [order, quotes, allocation] {
        let report = validate_fix_message(&build_message(&fields, None), &dict);
        assert!(report.is_clean(), "{:?}", report.errors);
    }
}

#[test]
fn fields_outside_groups_keep_the_order_of_the_layout() {
    let mut store = DictionaryStore::new();
    let dict = store.get_dictionary("FIX44").expect("dictionary");
    let msg = build_message(
        &[
            (35, "W"),
            (49, "BUY"),
            (56, "SELL"),
            (34, "1"),
            (52, "20250101-10:00:00"),
            (268, "2"),
            (269, "0"),
            (270, "10.5"),
            (269, "1"),
            (270, "10.7"),
            (55, "AAPL"),
            (262, "R1"),
        ],
        None,
    );
    let report = validate_fix_message(&msg, &dict);
    assert_eq!(report.errors, vec!["Tag 262 out of order".to_string()]);
}
