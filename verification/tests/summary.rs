use fixdecoder::colours::ColourPalette;
use fixdecoder::counts::MsgTypeCount;
use fixdecoder::dictionaries::DictionaryStore;
use fixdecoder::order_labels::{
    business_days_between, date_diff_days, derive_state, enum_label, extract_date_part,
    label_exec_ack_status, label_exec_type, label_ord_status, normalise_enum_desc,
    preferred_settl_date, side_label,
};
use fixdecoder::order_record::{OrderEvent, OrderRecord};
use fixdecoder::summary::{display_with_delimiter, OrderSummary};
use fixdecoder::summary_render::{
    build_summary_row, flow_label, format_price, format_tenor, render_record_header,
    render_table_row,
};
use fixdecoder::summary_sections::paged_message_counts;
use fixdecoder::textmap::TextMap;
use std::collections::HashMap;

const SOH: &str = "\u{0001}";

fn msg(fields: &[(&str, &str)]) -> String {
    let mut out = String::new();
    for (tag, val) in fields {
        out.push_str(tag);
        out.push('=');
        out.push_str(val);
        out.push_str(SOH);
    }
    out
}

#[test]
fn collects_states_for_single_order() {
    let mut dicts = DictionaryStore::new();
    let mut summary = OrderSummary::new('\u{0001}');
    summary.record_message(
        &msg(&[
            ("35", "D"),
            ("11", "ABC"),
            ("55", "AAPL"),
            ("54", "1"),
            ("38", "100"),
            ("40", "2"),
            ("59", "0"),
            ("75", "20250101"),
            ("64", "20250103"),
            ("193", "20250104"),
        ]),
        None,
        &mut dicts,
    );
    summary.record_message(
        &msg(&[
            ("35", "8"),
            ("11", "ABC"),
            ("150", "0"),
            ("39", "0"),
            ("55", "AAPL"),
            ("54", "1"),
            ("38", "100"),
            ("14", "0"),
            ("151", "100"),
        ]),
        None,
        &mut dicts,
    );
    summary.record_message(
        &msg(&[
            ("35", "8"),
            ("11", "ABC"),
            ("150", "1"),
            ("39", "1"),
            ("55", "AAPL"),
            ("54", "1"),
            ("32", "40"),
            ("31", "10.00"),
            ("14", "40"),
            ("151", "60"),
        ]),
        None,
        &mut dicts,
    );
    summary.record_message(
        &msg(&[
            ("35", "8"),
            ("11", "ABC"),
            ("150", "2"),
            ("39", "2"),
            ("55", "AAPL"),
            ("54", "1"),
            ("32", "60"),
            ("31", "10.10"),
            ("14", "100"),
            ("151", "0"),
            ("6", "10.06"),
        ]),
        None,
        &mut dicts,
    );

    let record = summary
        .orders
        .get("ABC")
        .or_else(|| summary.completed.iter().find(|r| r.key == "ABC"))
        .expect("order captured");
    assert_eq!(
        record.state_path(),
        vec!["Unknown", "New", "Partially Filled", "Filled"]
    );
    assert_eq!(record.cum_qty.as_deref(), Some("100"));
    assert_eq!(record.leaves_qty.as_deref(), Some("0"));
    assert_eq!(record.ord_type.as_deref(), Some("Limit (2)"));
    assert_eq!(record.time_in_force.as_deref(), Some("Day (0)"));
    assert_eq!(record.trade_date.as_deref(), Some("20250101"));
    assert_eq!(record.settl_date.as_deref(), Some("20250103"));
    assert_eq!(record.settl_date2.as_deref(), Some("20250104"));
}

#[test]
fn links_orders_using_order_id_and_cl_ord_id() {
    let mut dicts = DictionaryStore::new();
    let mut summary = OrderSummary::new('\u{0001}');
    summary.record_message(
        &msg(&[
            ("35", "D"),
            ("11", "ABC"),
            ("55", "MSFT"),
            ("54", "2"),
            ("38", "50"),
            ("193", "20250106"),
        ]),
        None,
        &mut dicts,
    );
    summary.record_message(
        &msg(&[
            ("35", "8"),
            ("37", "OID1"),
            ("11", "ABC"),
            ("150", "0"),
            ("39", "0"),
            ("38", "50"),
            ("151", "50"),
            ("75", "20250102"),
            ("193", "20250106"),
        ]),
        None,
        &mut dicts,
    );
    summary.record_message(
        &msg(&[
            ("35", "8"),
            ("37", "OID1"),
            ("11", "DEF"),
            ("41", "ABC"),
            ("150", "5"),
            ("39", "5"),
            ("38", "75"),
            ("151", "75"),
        ]),
        None,
        &mut dicts,
    );

    assert_eq!(summary.orders.len(), 1, "replacements should merge");
    let record = summary.orders.entry(0).1;
    assert_eq!(record.display_id(), "OID1");
    assert_eq!(record.qty.as_deref(), Some("75"));
    assert_eq!(
        date_diff_days(
            record.trade_date.as_deref(),
            preferred_settl_date(record.settl_date.as_deref(), record.settl_date2.as_deref())
        ),
        Some(2)
    );
}

#[test]
fn transact_time_falls_back_to_trade_date_for_tenor_math() {
    let mut dicts = DictionaryStore::new();
    let mut summary = OrderSummary::new('\u{0001}');
    summary.record_message(
        &msg(&[
            ("35", "D"),
            ("11", "ABC"),
            ("55", "EUR/USD"),
            ("54", "1"),
            ("60", "20250102-12:34:56.000"),
            ("193", "20250106"),
        ]),
        None,
        &mut dicts,
    );

    let record = summary.orders.get("ABC").expect("order captured");
    assert_eq!(record.trade_date.as_deref(), Some("20250102"));
    assert_eq!(
        date_diff_days(
            record.trade_date.as_deref(),
            preferred_settl_date(record.settl_date.as_deref(), record.settl_date2.as_deref())
        ),
        Some(2)
    );
}

#[test]
fn render_outputs_state_headline() {
    let mut dicts = DictionaryStore::new();
    let mut summary = OrderSummary::new('\u{0001}');
    summary.record_message(
        &msg(&[
            ("35", "D"),
            ("11", "XYZ"),
            ("55", "GBP/USD"),
            ("54", "1"),
            ("38", "10"),
        ]),
        None,
        &mut dicts,
    );
    summary.record_message(
        &msg(&[("35", "8"), ("11", "XYZ"), ("150", "4"), ("39", "4")]),
        None,
        &mut dicts,
    );

    let text = summary.render(ColourPalette::standard(), &mut dicts);
    assert!(
        text.contains("Canceled"),
        "state headline should include final status: {text}"
    );
    assert!(text.contains("XYZ"), "order id should be present: {text}");
}

#[test]
fn bn_message_sets_state_and_spot_price() {
    let mut dicts = DictionaryStore::new();
    let mut summary = OrderSummary::new('\u{0001}');
    summary.record_message(
        &msg(&[
            ("35", "BN"),
            ("11", "OID1"),
            ("55", "EUR/USD"),
            ("54", "1"),
            ("38", "1000000"),
            ("31", "1.2345"),
            ("1036", "1"),
        ]),
        None,
        &mut dicts,
    );

    let record = summary
        .orders
        .get("OID1")
        .or_else(|| summary.completed.iter().find(|r| r.key == "OID1"))
        .expect("bn order captured");
    assert_eq!(record.state_path(), vec!["Accepted"]);
    assert_eq!(record.spot_rate.as_deref(), Some("1.2345"));
    assert!(record.bn_seen, "bn flag should be set");
    assert_eq!(record.bn_exec_amt.as_deref(), Some("1000000"));
}

#[test]
fn terminal_status_from_non_exec_report_updates_header() {
    let mut dicts = DictionaryStore::new();
    let mut summary = OrderSummary::new('\u{0001}');
    summary.record_message(
        &msg(&[
            ("35", "D"),
            ("11", "OID1"),
            ("55", "IBM"),
            ("54", "1"),
            ("38", "200"),
        ]),
        None,
        &mut dicts,
    );
    summary.record_message(
        &msg(&[
            ("35", "9"), // Order Cancel Reject, treated as terminal via OrdStatus
            ("11", "OID1"),
            ("39", "4"),  // Canceled
            ("14", "50"), // CumQty
            ("151", "0"), // LeavesQty
            ("32", "50"),
            ("31", "10.00"),
        ]),
        None,
        &mut dicts,
    );

    let record = summary
        .orders
        .get("OID1")
        .or_else(|| summary.completed.iter().find(|r| r.key == "OID1"))
        .expect("order captured");
    assert_eq!(
        record.leaves_qty.as_deref(),
        Some("0"),
        "terminal non-8 message should overwrite leaves"
    );
    assert_eq!(record.cum_qty.as_deref(), Some("50"));
    assert_eq!(
        record.state_path().last().cloned().unwrap_or_default(),
        "Canceled"
    );
}

#[test]
fn absorb_fields_sets_core_values() {
    let mut dicts = DictionaryStore::new();
    let dict = dicts
        .load_dictionary("8=FIX.4.4\u{0001}35=D\u{0001}10=000\u{0001}")
        .expect("dictionary");
    let mut record = OrderRecord::new("KEY".into());
    let mut fields = HashMap::new();
    fields.insert(55u32, "AAPL".to_string());
    fields.insert(54u32, "1".to_string());
    fields.insert(38u32, "100".to_string());
    fields.insert(14u32, "10".to_string());
    fields.insert(151u32, "90".to_string());
    fields.insert(6u32, "12.3".to_string());
    fields.insert(44u32, "15.0".to_string());
    record.absorb_fields(&fields, &dict, Some("D"));
    assert_eq!(record.symbol.as_deref(), Some("AAPL"));
    assert_eq!(record.qty.as_deref(), Some("100"));
    assert_eq!(record.cum_qty_name.as_deref(), Some("CumQty"));
    assert_eq!(record.leaves_qty.as_deref(), Some("90"));
    assert_eq!(record.price.as_deref(), Some("15.0"));
}

#[test]
fn absorb_fields_sets_block_notice_specifics() {
    let mut dicts = DictionaryStore::new();
    let dict = dicts
        .load_dictionary("8=FIX.4.4\u{0001}35=BN\u{0001}10=000\u{0001}")
        .expect("dictionary");
    let mut record = OrderRecord::new("KEY".into());
    let mut fields = HashMap::new();
    fields.insert(31u32, "1.2345".to_string());
    fields.insert(38u32, "500".to_string());
    record.absorb_fields(&fields, &dict, Some("BN"));
    assert!(record.bn_seen);
    assert_eq!(record.spot_rate.as_deref(), Some("1.2345"));
    assert_eq!(record.bn_exec_amt.as_deref(), Some("500"));
}

#[test]
fn flow_label_skips_leading_unknown() {
    let states = vec![
        "Unknown".to_string(),
        "New".to_string(),
        "Filled".to_string(),
    ];
    let flow = flow_label(&states);
    assert_eq!(flow, "New -> Filled");
}

#[test]
fn build_summary_row_includes_bn_headers() {
    let colours = ColourPalette::standard();
    let mut record = OrderRecord::new("KEY".into());
    record.bn_seen = true;
    record.spot_rate = Some("1.25".into());
    record.bn_exec_amt = Some("1000".into());
    let (headers, values) = build_summary_row(&record, colours);
    assert!(headers.contains(&"ExecAmt".to_string()));
    assert!(values.iter().any(|v| v.contains("1.25")));
}

#[test]
fn render_record_header_includes_id_and_instrument() {
    let colours = ColourPalette::standard();
    let mut record = OrderRecord::new("ORD123".into());
    record.symbol = Some("AAPL".into());
    record.side = Some("1".into());
    let output = render_record_header(&record, colours);
    assert!(output.contains("ORD123"));
    assert!(output.contains("AAPL"));
}

#[test]
fn resolve_key_prefers_alias_then_ids() {
    let mut summary = OrderSummary::new('|');
    summary.aliases.insert("ALIAS", "RESOLVED".into());
    // alias hit
    assert_eq!(
        summary.resolve_key(Some("ALIAS"), Some("OTHER"), None),
        "RESOLVED"
    );
    // order_id fallback
    assert_eq!(
        summary.resolve_key(Some("OID"), Some("CLID"), None),
        "OID".to_string()
    );
    // unknown increments counter
    let unk = summary.resolve_key(None, None, None);
    assert!(unk.starts_with("UNKNOWN-"));
}

#[test]
fn display_instrument_formats_side_and_symbol() {
    let mut record = OrderRecord::new("KEY".into());
    record.side = Some("2".into());
    record.symbol = Some("MSFT".into());
    assert_eq!(record.display_instrument(), "Sell MSFT");
}

#[test]
fn preferred_settlement_date_prefers_primary_then_secondary() {
    assert_eq!(
        preferred_settl_date(Some("20250101"), Some("20250102")),
        Some("20250102")
    );
    assert_eq!(
        preferred_settl_date(None, Some("20250102")),
        Some("20250102")
    );
    assert_eq!(preferred_settl_date(None, None), None);
}

#[test]
fn extract_date_part_handles_timestamp() {
    assert_eq!(
        extract_date_part("20250101-12:00:01.000"),
        Some("20250101".into())
    );
    assert_eq!(extract_date_part(""), None);
}

#[test]
fn date_diff_days_returns_none_when_incomplete() {
    assert_eq!(date_diff_days(None, Some("20250101")), None);
    assert_eq!(date_diff_days(Some("20250101"), None), None);
}

#[test]
fn state_path_deduplicates_consecutive_states() {
    let mut record = OrderRecord::new("KEY".into());
    record.events.push(OrderEvent {
        time: None,
        msg_type: None,
        msg_type_desc: None,
        exec_type: Some("0".into()),
        ord_status: None,
        exec_ack_status: None,
        state: "New".into(),
        cum_qty: None,
        leaves_qty: None,
        last_qty: None,
        last_px: None,
        avg_px: None,
        text: None,
        cl_ord_id: None,
        orig_cl_ord_id: None,
        fault: None,
    });
    record.events.push(OrderEvent {
        state: "New".into(),
        ..record.events[0].duplicate()
    });
    record.events.push(OrderEvent {
        state: "Filled".into(),
        ..record.events[0].duplicate()
    });
    assert_eq!(record.state_path(), vec!["New", "Filled"]);
}

// ---------------------------------------------------------------------------
// Further cases

fn order(id: &str) -> String {
    msg(&[("35", "D"), ("11", id), ("55", "AAPL"), ("54", "1")])
}

fn report(id: &str, status: &str) -> String {
    msg(&[("35", "8"), ("11", id), ("150", status), ("39", status)])
}

#[test]
fn orders_stand_in_one_place() {
    let mut dicts = DictionaryStore::new();
    let mut summary = OrderSummary::new('|');
    for id in ["A", "B", "C"] {
        summary.record_message(&order(id), None, &mut dicts);
    }
    assert_eq!(summary.orders.len(), 3);
    summary.record_message(&report("B", "2"), None, &mut dicts);
    assert_eq!(summary.orders.len(), 2);
    assert_eq!(summary.completed.len(), 1);
    assert_eq!(summary.terminal_orders, 1);
    assert_eq!(summary.total_orders, 3);
    // A late report takes the completed order up again and completes it once more.
    summary.record_message(&report("B", "2"), None, &mut dicts);
    assert_eq!(summary.completed.len(), 1);
    assert_eq!(summary.completed[0].events.len(), 3);
    assert_eq!(summary.terminal_orders, 1);
    assert_eq!(summary.total_orders, 3);
}

#[test]
fn identifiers_lead_to_their_order() {
    let mut dicts = DictionaryStore::new();
    let mut summary = OrderSummary::new('|');
    summary.record_message(
        &msg(&[("35", "8"), ("37", "OID"), ("11", "CL"), ("41", "OLD")]),
        None,
        &mut dicts,
    );
    for id in ["OID", "CL", "OLD"] {
        assert_eq!(summary.resolve_key(None, Some(id), None), "OID");
    }
    assert_eq!(summary.resolve_key(None, Some("NEW"), Some("OLD")), "OID");
    assert_eq!(summary.resolve_key(None, None, None), "UNKNOWN-1");
    assert_eq!(summary.resolve_key(None, None, None), "UNKNOWN-2");
}

#[test]
fn messages_without_fields_are_passed_over() {
    let mut dicts = DictionaryStore::new();
    let mut summary = OrderSummary::new('|');
    assert!(summary.record_message("", None, &mut dicts));
    assert_eq!(summary.total_orders, 0);
}

#[test]
fn status_line_covers_the_one_before() {
    let mut dicts = DictionaryStore::new();
    let mut summary = OrderSummary::new('|');
    for i in 0..10 {
        summary.record_message(&order(&format!("A{i}")), None, &mut dicts);
    }
    assert_eq!(
        summary.render_footer(),
        "\rStatus: open=10 filled=0 total=10"
    );
    for i in 0..9 {
        summary.record_message(&report(&format!("A{i}"), "2"), None, &mut dicts);
    }
    assert_eq!(
        summary.render_footer(),
        "\rStatus: open=1 filled=9 total=10 "
    );
}

#[test]
fn completed_orders_are_written_once() {
    let mut dicts = DictionaryStore::new();
    let mut summary = OrderSummary::new('|');
    let plain = ColourPalette::plain();
    assert!(summary.render_completed(plain, &mut dicts).is_none());
    summary.record_message(&order("A"), None, &mut dicts);
    summary.record_message(&report("A", "2"), None, &mut dicts);
    let text = summary.render_completed(plain, &mut dicts).expect("one order");
    assert!(text.starts_with("  A ["));
    assert!(text.contains("    Raw FIX messages:\n      35=D|11=A|55=AAPL|54=1|\n"));
    assert!(summary.render_completed(plain, &mut dicts).is_none());
    assert!(summary
        .render(plain, &mut dicts)
        .ends_with("Order Summary (0 open, 1 total, to fill: 0/1)\n\n"));
}

#[test]
fn labels_name_codes() {
    assert_eq!(label_ord_status(Some("2")), "Filled");
    assert_eq!(label_exec_type(Some("0")), "New");
    assert_eq!(label_exec_ack_status(Some("1")), "Accepted");
    assert_eq!(label_ord_status(None), "Unknown");
    assert_eq!(side_label("5"), "SellShort");
    assert_eq!(side_label("x"), "Side?");
    assert_eq!(normalise_enum_desc("LIMIT"), "Limit");
    assert_eq!(derive_state(None, Some("4"), None, None), "Canceled");
}

#[test]
fn weekends_are_no_business_days() {
    // Friday to Monday.
    assert_eq!(date_diff_days(Some("20250103"), Some("20250106")), Some(1));
    assert_eq!(date_diff_days(Some("20250106"), Some("20250113")), Some(5));
    assert_eq!(date_diff_days(Some("20250106"), Some("20250103")), None);
    assert_eq!(date_diff_days(Some("2025"), Some("20250103")), None);
    assert_eq!(business_days_between(0, 7), Some(5));
    assert_eq!(business_days_between(7, 0), None);
}

#[test]
fn tenors_and_prices_are_written_out() {
    let plain = ColourPalette::plain();
    assert_eq!(format_tenor(plain, Some(0)), "T+0 (TOD)");
    assert_eq!(format_tenor(plain, Some(1)), "T+1 (TOM)");
    assert_eq!(format_tenor(plain, Some(2)), "T+2 (SPOT)");
    assert_eq!(format_tenor(plain, Some(9)), "T+9 (FWD)");
    assert_eq!(format_tenor(plain, None), "-");
    assert_eq!(format_price(plain, Some("1.5"), Some("USD")), "1.5 (USD)");
    assert_eq!(format_price(plain, Some("1.5"), None), "1.5");
    assert_eq!(format_price(plain, None, Some("USD")), "-");
}

#[test]
fn table_columns_have_their_least_widths() {
    let headers = vec!["Side".to_string(), "Symbol".to_string()];
    let values = vec!["BUY".to_string(), "A-SYMBOL-OF-LENGTH-22".to_string()];
    let text = render_table_row(&headers, &values, ColourPalette::plain());
    assert_eq!(
        text,
        "    Side     Symbol                  \n    BUY      A-SYMBOL-OF-LENGTH-22   \n"
    );
}

#[test]
fn delimiters_are_shown_as_asked() {
    assert_eq!(display_with_delimiter("8=a\u{1}9=b\u{1}", '|'), "8=a|9=b|");
    assert_eq!(display_with_delimiter("8=a\u{1}", '\u{1}'), "8=a\u{1}");
}

#[test]
fn described_values_keep_their_code() {
    let mut dicts = DictionaryStore::new();
    let dict = dicts.load_dictionary("8=FIX.4.4\u{1}").expect("dictionary");
    assert_eq!(enum_label(&dict, 40, "2"), "Limit (2)");
    assert_eq!(enum_label(&dict, 40, "zz"), "zz");
}

#[test]
fn paged_content_shows_every_order_with_the_counts() {
    let mut dicts = DictionaryStore::new();
    let mut summary = OrderSummary::new('|');
    summary.record_message(
        &msg(&[("35", "D"), ("11", "OPEN1"), ("55", "AAPL")]),
        None,
        &mut dicts,
    );
    summary.record_message(
        &msg(&[("35", "8"), ("37", "DONE1"), ("150", "F"), ("39", "2")]),
        None,
        &mut dicts,
    );
    let mut counts = TextMap::new();
    let mut count = MsgTypeCount::default();
    count.count = 2;
    count.label = Some("ExecutionReport".to_string());
    counts.insert("8", count);

    let content = summary.build_paged_content(&counts, false, ColourPalette::plain());
    assert_eq!(content.sections.len(), 2);
    let open = content
        .sections
        .iter()
        .find(|section| section.summary.contains("OPEN1"))
        .expect("open order");
    assert!(!open.terminal);
    assert!(open.detail.contains("AAPL"), "{}", open.detail);
    let done = content
        .sections
        .iter()
        .find(|section| section.summary.contains("DONE1"))
        .expect("completed order");
    assert!(done.terminal);
    assert_eq!(content.message_counts.len(), 1);
    assert_eq!(content.message_counts[0].msg_type, "8");
    assert_eq!(content.message_counts[0].count, 2);
    assert_eq!(done.message_counts[0].label.as_deref(), Some("ExecutionReport"));

    let bare = summary.build_paged_content(&counts, true, ColourPalette::plain());
    assert_eq!(bare.sections.len(), 2);
    assert!(bare.message_counts.is_empty());
    assert!(bare.sections[0].message_counts.is_empty());
}

#[test]
fn order_messages_without_identifiers_are_kept() {
    let mut dicts = DictionaryStore::new();
    let mut summary = OrderSummary::new('|');
    let header = ("8", "FIX.4.4");
    for other in [
        msg(&[header, ("35", "0")]),
        msg(&[header, ("35", "W"), ("55", "EUR/USD")]),
        msg(&[header, ("35", "0"), ("11", "C1")]),
    ] {
        assert!(summary.record_message(&other, None, &mut dicts));
    }
    assert_eq!(summary.total_orders, 0);
    for order in [
        msg(&[header, ("35", "8"), ("39", "0")]),
        msg(&[header, ("35", "D"), ("55", "AAPL")]),
        msg(&[header, ("35", "BN"), ("55", "AAPL")]),
    ] {
        assert!(summary.record_message(&order, None, &mut dicts));
    }
    assert_eq!(summary.total_orders, 3);
    let text = summary.render(ColourPalette::plain(), &mut dicts);
    for key in ["UNKNOWN-1", "UNKNOWN-2", "UNKNOWN-3"] {
        assert!(text.contains(key), "{text}");
    }
}

#[test]
fn known_identifiers_open_no_order() {
    let mut dicts = DictionaryStore::new();
    let mut summary = OrderSummary::new('|');
    for message in [
        msg(&[("35", "D"), ("11", "C1")]),
        msg(&[("35", "8"), ("11", "C1"), ("37", "O1"), ("39", "0")]),
        msg(&[("35", "G"), ("11", "C2"), ("41", "C1")]),
        msg(&[("35", "8"), ("37", "O1"), ("39", "2")]),
        msg(&[("35", "8"), ("11", "C2"), ("39", "2")]),
    ] {
        summary.record_message(&message, None, &mut dicts);
        assert_eq!(summary.total_orders, 1);
    }
    let before = summary.render(ColourPalette::plain(), &mut dicts);
    assert_eq!(summary.render(ColourPalette::plain(), &mut dicts), before);
    assert!(before.contains("O1"), "{before}");
}

#[test]
fn tenors_below_zero_keep_their_sign() {
    let plain = ColourPalette::plain();
    assert_eq!(format_tenor(plain, Some(-3)), "T+-3 (FWD)");
    assert_eq!(
        format_tenor(plain, Some(i64::MIN)),
        "T+-9223372036854775808 (FWD)"
    );
    assert_eq!(format_tenor(plain, Some(2)), "T+2 (SPOT)");
}

#[test]
fn session_messages_join_orders_that_are_known() {
    let mut dicts = DictionaryStore::new();
    let mut summary = OrderSummary::new('|');
    let header = ("8", "FIX.4.4");
    let session = msg(&[header, ("35", "0"), ("11", "C1")]);
    assert!(summary.record_message(&session, None, &mut dicts));
    assert_eq!(summary.total_orders, 0);
    let order = msg(&[header, ("35", "D"), ("11", "C1")]);
    assert!(summary.record_message(&order, None, &mut dicts));
    assert!(summary.record_message(&session, None, &mut dicts));
    assert_eq!(summary.total_orders, 1);
    let record = summary.orders.get("C1").expect("order");
    assert_eq!(record.events.len(), 2);
    assert_eq!(record.events[1].msg_type.as_deref(), Some("0"));
}

#[test]
fn the_override_is_noted_from_any_message_with_fields() {
    let mut dicts = DictionaryStore::new();
    let mut summary = OrderSummary::new('|');
    assert!(summary.record_message("", Some("FIX44"), &mut dicts));
    assert_eq!(summary.fix_override_key, None);
    let session = msg(&[("8", "FIX.4.4"), ("35", "0")]);
    assert!(summary.record_message(&session, Some("FIX44"), &mut dicts));
    assert_eq!(summary.fix_override_key.as_deref(), Some("FIX44"));
    assert!(summary.record_message(&session, Some("FIX50"), &mut dicts));
    assert_eq!(summary.fix_override_key.as_deref(), Some("FIX44"));
}

#[test]
fn events_repeat_whether_valid_or_not() {
    let mut dicts = DictionaryStore::new();
    let mut summary = OrderSummary::new('|');
    let values = [
        ("8", "FIX.4.4"),
        ("35", "8"),
        ("37", "O1"),
        ("60", "20250101-10:00:00"),
        ("39", "0"),
    ];
    for extra in [("9999", "1"), ("14", ""), ("58", "")] {
        let mut fields = values.to_vec();
        fields.push(extra);
        assert!(summary.record_message(&msg(&fields), None, &mut dicts));
    }
    let record = summary.orders.get("O1").expect("order");
    assert_eq!(record.events.len(), 3);
    assert_ne!(record.events[0].fault, record.events[1].fault);
    assert_eq!(record.chronology(), vec![0]);

    let mut other = values.to_vec();
    other.push(("58", "late"));
    assert!(summary.record_message(&msg(&other), None, &mut dicts));
    let record = summary.orders.get("O1").expect("order");
    assert_eq!(record.chronology(), vec![0, 3]);
}

#[test]
fn paged_counts_stand_in_the_order_of_their_types() {
    let mut counts = TextMap::new();
    for (msg_type, n) in [("D", 1), ("8", 2), ("AE", 3), ("0", 4)] {
        let mut count = MsgTypeCount::default();
        count.count = n;
        counts.insert(msg_type, count);
    }
    let rows: Vec<(String, usize)> = paged_message_counts(&counts)
        .into_iter()
        .map(|row| (row.msg_type, row.count))
        .collect();
    let expected = [("0", 4), ("8", 2), ("AE", 3), ("D", 1)];
    assert_eq!(rows, expected.map(|(msg_type, n)| (msg_type.to_string(), n)).to_vec());
}
