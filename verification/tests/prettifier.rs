use fixdecoder::ansi::visible_width;
use fixdecoder::colours::ColourPalette;
use fixdecoder::counts::{merge_message_counts, render_message_counts, MsgTypeCount};
use fixdecoder::decoded::prettify_with_report;
use fixdecoder::dictionaries::{choose_embedded_xml, DictionaryStore};
use fixdecoder::fixparser::FieldValue;
use fixdecoder::integrity::calculate_checksum;
use fixdecoder::log_lines::{FileProcessingMode, PrettifyContext, StreamStep};
use fixdecoder::message_groups::{classify_message_bucket, MessageBucket};
use fixdecoder::message_view::{find_fix_message_indices, DecodeSettings};
use fixdecoder::obfuscator::Obfuscator;
use fixdecoder::output_style::{
    announce_file_source, announce_stdin_source, format_last_modified, max_visible_line_width,
    render_separator, source_line_visible_width, trim_line_endings, OutputStyle,
};
use fixdecoder::paths::file_name;
use fixdecoder::report::ValidationReport;
use fixdecoder::schema::FixDictionary;
use fixdecoder::sensitive::create_obfuscator;
use fixdecoder::sessions::{fixt_session_key, SessionDefaults};
use fixdecoder::summary::display_with_delimiter;
use fixdecoder::tag_lookup::{FixTagLookup, MessageDef};
use fixdecoder::tag_order::build_tag_order;
use fixdecoder::textmap::TextMap;
use fixdecoder::validator::validate_fix_message;
use std::collections::HashMap;

const SOH: char = '\u{0001}';
const WIDTH: usize = 80;
const RULE: &str = "----------------------------------------------";

fn context(style: OutputStyle, wide_grid: bool, validation_enabled: bool) -> PrettifyContext {
    let settings = DecodeSettings {
        display_delimiter: '|',
        style,
        wide_grid,
        follow: false,
        live_status_enabled: true,
        validation_enabled,
        no_counts: false,
        colours: ColourPalette::plain(),
        terminal_width: WIDTH,
    };
    PrettifyContext::new(settings, None, None, DictionaryStore::new())
}

fn stream(ctx: &mut PrettifyContext, obfuscator: &mut Obfuscator, text: &str) -> String {
    let mut out = String::new();
    for (index, line) in text.split_inclusive('\n').enumerate() {
        let shown = ctx.stream_line(obfuscator, line, index + 1);
        out.push_str(&shown.expect("dictionary for every message"));
    }
    out
}

fn decode_file(
    ctx: &mut PrettifyContext,
    obfuscator: &mut Obfuscator,
    path: &str,
    text: &str,
) -> String {
    let modified = format_last_modified(1_700_000_000, 250_000_000);
    let name = file_name(path).expect("file name");
    let mut out = announce_file_source(&name, modified.as_deref(), ColourPalette::plain());
    if ctx.measures_source() {
        let mut found = None;
        for (index, line) in text.split_inclusive('\n').enumerate() {
            found = ctx.measure_source_line(found, line, index + 1);
        }
        ctx.source_separator_width = found;
    }
    out.push_str(&stream(ctx, obfuscator, text));
    out
}

fn test_lookup_with_order(field_order: Vec<u32>) -> FixTagLookup {
    let mut messages = TextMap::new();
    messages.insert(
        "X",
        MessageDef::new_for_tests(
            "X",
            "X",
            field_order,
            Vec::new(),
            Vec::new(),
            HashMap::new(),
        ),
    );
    FixTagLookup::new_for_tests(messages)
}

fn small_group_lookup() -> FixTagLookup {
    let xml = r#"
<fix type='FIX' major='4' minor='4'>
  <header>
<field name='BeginString' required='Y'/>
<field name='BodyLength' required='Y'/>
<field name='MsgType' required='Y'/>
  </header>
  <trailer>
<field name='CheckSum' required='Y'/>
  </trailer>
  <messages>
<message name='MDSnapshot' msgtype='W' msgcat='app'>
  <field name='MsgType' required='Y'/>
  <group name='NoMDEntries'>
    <field name='MDEntryType' required='Y'/>
    <field name='MDEntryPx'/>
  </group>
</message>
  </messages>
  <components/>
  <fields>
<field number='8' name='BeginString' type='STRING'/>
<field number='9' name='BodyLength' type='LENGTH'/>
<field number='10' name='CheckSum' type='STRING'/>
<field number='35' name='MsgType' type='STRING'>
  <value enum='W' description='MDSnapshot'/>
</field>
<field number='268' name='NoMDEntries' type='NUMINGROUP'/>
<field number='269' name='MDEntryType' type='CHAR'/>
<field number='270' name='MDEntryPx' type='PRICE'/>
  </fields>
</fix>
"#;
    let dict = FixDictionary::from_xml(xml).expect("tiny dictionary parses");
    FixTagLookup::from_dictionary(&dict, "TEST")
}

fn embedded_fix44_lookup() -> FixTagLookup {
    let dict = FixDictionary::from_xml(choose_embedded_xml("44"))
        .expect("embedded FIX44 dictionary parses");
    FixTagLookup::from_dictionary(&dict, "FIX44")
}

fn assert_file_banner(output: &str, expected_filename: &str) {
    let mut lines = output.lines();
    let top_rule = lines.next().expect("file header top rule");
    assert!(
        top_rule.chars().all(|ch| ch == '-'),
        "top file header rule should contain only dashes: {output}"
    );
    assert!(
        top_rule.len() >= RULE.len(),
        "top file header rule should be at least the documented width: {output}"
    );
    assert_eq!(
        lines.next().expect("filename line"),
        format!("Filename: {expected_filename}")
    );

    let modified_line = lines.next().expect("last modified line");
    let timestamp = modified_line
        .strip_prefix("Last Modified: ")
        .expect("last modified label");
    assert!(
        timestamp.ends_with('Z'),
        "last modified timestamp should be UTC/Zulu: {output}"
    );
    chrono::NaiveDateTime::parse_from_str(
        &timestamp[..timestamp.len() - 1],
        "%d/%m/%y %H:%M:%S%.3f",
    )
    .expect("last modified timestamp should match dd/mm/yy HH:MM:SS.mmmZ");

    assert_eq!(
        lines.next().expect("bottom rule"),
        top_rule,
        "file header rules should match: {output}"
    );
    assert_eq!(
        lines.next().expect("blank spacer line"),
        "",
        "file header should be followed by a blank line: {output}"
    );
}

#[test]
fn prettify_aligns_group_entries_without_header() {
    let dict = small_group_lookup();
    let msg = format!(
        "8=FIX.4.4{SOH}35=W{SOH}268=2{SOH}269=0{SOH}270=12.34{SOH}269=1{SOH}270=56.78{SOH}10=000{SOH}"
    );
    let rendered = prettify_with_report(&msg, &dict, None, &ColourPalette::plain());
    assert!(
        !rendered.contains("Group: NoMDEntries"),
        "group header line should be omitted: {rendered}"
    );
    let count_line = rendered
        .lines()
        .find(|l| l.contains("NoMDEntries"))
        .expect("count tag line present");
    let group_line = rendered
        .lines()
        .find(|l| l.contains("MDEntries Group 1"))
        .expect("group entry label present");
    assert_eq!(
        group_line.trim_start(),
        "MDEntries Group 1 -------------------------------------------",
        "group labels should use the repeating-group name and an unpadded entry number"
    );
    assert_eq!(
        group_line
            .chars()
            .position(|ch| ch != ' ')
            .expect("group label indent"),
        count_line.find('(').expect("count line group name anchor"),
        "group title should start directly under the count line's group name"
    );
}

#[test]
fn group_labels_use_group_name_without_padding() {
    let dict = small_group_lookup();

    let mut msg = format!("8=FIX.4.4{SOH}35=W{SOH}268=123{SOH}");
    for idx in 1..=123 {
        let entry_type = if idx % 2 == 0 { '1' } else { '0' };
        msg.push_str(&format!("269={entry_type}{SOH}270={idx}.00{SOH}"));
    }
    msg.push_str(&format!("10=000{SOH}"));

    let rendered = prettify_with_report(&msg, &dict, None, &ColourPalette::plain());
    let labels: Vec<&str> = rendered
        .lines()
        .filter(|line| line.trim_start().starts_with("MDEntries Group "))
        .collect();

    assert_eq!(labels.len(), 123, "expected one label per group entry");
    assert_eq!(
        labels[0].trim().trim_end_matches('-').trim_end(),
        "MDEntries Group 1",
        "single-digit entries should not be padded"
    );
    assert_eq!(
        labels[11].trim().trim_end_matches('-').trim_end(),
        "MDEntries Group 12",
        "double-digit entries should keep the raw number"
    );
    assert_eq!(
        labels[122].trim().trim_end_matches('-').trim_end(),
        "MDEntries Group 123",
        "triple-digit entries should render directly"
    );
    assert_eq!(
        labels[0].len(),
        labels[11].len(),
        "group separators should end on the same column for different entry widths"
    );
    assert_eq!(
        labels[11].len(),
        labels[122].len(),
        "group separators should stay tidy as the entry number grows"
    );
}

#[test]
fn validation_only_outputs_invalid_messages() {
    let mut obfuscator = create_obfuscator(false);
    let body = format!("35=0{SOH}34=1{SOH}49=AAA{SOH}52=20240101-00:00:00{SOH}56=BBB{SOH}");
    let declared_len = body.len() + 1; // intentionally wrong
    let msg_without_checksum = format!("8=FIX.4.4{SOH}9={:03}{SOH}{}", declared_len, body);
    let checksum = calculate_checksum(&format!("{msg_without_checksum}10=000{SOH}"));
    let msg = format!("{msg_without_checksum}10={checksum:03}{SOH}");
    let line = format!("{msg}\n");
    let mut ctx = context(OutputStyle::plain(), false, true);
    let output = stream(&mut ctx, &mut obfuscator, &line);
    assert!(
        output.contains("Line 1:"),
        "line number should be printed for invalid message"
    );
    assert!(
        output.contains("BodyLength mismatch"),
        "error annotations should be rendered: {output}"
    );
    assert!(
        output.contains('|'),
        "default display delimiter replacement should appear"
    );
}

#[test]
fn validation_skips_valid_messages() {
    let mut obfuscator = create_obfuscator(false);
    let lookup = embedded_fix44_lookup();
    let order = lookup
        .message_def("0")
        .expect("heartbeat definition")
        .field_order
        .clone();
    let mut values = HashMap::new();
    values.insert(35u32, "0");
    values.insert(34u32, "1");
    values.insert(49u32, "AAA");
    values.insert(52u32, "20240101-00:00:00");
    values.insert(56u32, "BBB");

    let body = build_body_from_order(&order, &values);
    let msg_without_checksum = format!("8=FIX.4.4{SOH}9={:03}{SOH}{}", body.len(), body);
    let checksum = calculate_checksum(&format!("{msg_without_checksum}10=000{SOH}"));
    let msg = format!("{msg_without_checksum}10={checksum:03}{SOH}");
    let dict = embedded_fix44_lookup();
    let errs = validate_fix_message(&msg, &dict);
    assert!(
        errs.is_clean(),
        "message used for validation bypass should be valid, got {:?}",
        errs.errors
    );
    let line = format!("{msg}\n");
    let mut ctx = context(OutputStyle::plain(), false, true);
    let output = stream(&mut ctx, &mut obfuscator, &line);
    assert!(
        output.trim().is_empty(),
        "valid messages should not produce output in validation mode"
    );
}

#[test]
fn prettify_files_validation_skips_message_counts_for_clean_messages() {
    let mut obfuscator = create_obfuscator(false);
    let lookup = embedded_fix44_lookup();
    let order = lookup
        .message_def("0")
        .expect("heartbeat definition")
        .field_order
        .clone();
    let mut values = HashMap::new();
    values.insert(35u32, "0");
    values.insert(34u32, "1");
    values.insert(49u32, "AAA");
    values.insert(52u32, "20240101-00:00:00");
    values.insert(56u32, "BBB");

    let body = build_body_from_order(&order, &values);
    let msg_without_checksum = format!("8=FIX.4.4{SOH}9={:03}{SOH}{}", body.len(), body);
    let checksum = calculate_checksum(&format!("{msg_without_checksum}10=000{SOH}"));
    let msg = format!("{msg_without_checksum}10={checksum:03}{SOH}");

    let mut ctx = context(OutputStyle::plain(), false, true);

    let mut output = decode_file(
        &mut ctx,
        &mut obfuscator,
        "/tmp/heartbeat.log",
        &format!("{msg}\n"),
    );
    output.push_str(&ctx.finish());
    assert_file_banner(&output, "heartbeat.log");
    assert!(
        !output.contains("BeginString") && !output.contains("Message Type"),
        "clean validation runs should not emit decoded output or message counts: {output}"
    );
}

#[test]
fn render_message_counts_separates_admin_and_groups_business_messages() {
    let mut counts = TextMap::new();
    counts.insert(
        "0",
        MsgTypeCount {
            count: 2,
            label: Some("HEARTBEAT".to_string()),
            bucket: classify_message_bucket("0", Some("HEARTBEAT"), Some("admin")),
        },
    );
    counts.insert(
        "D",
        MsgTypeCount {
            count: 1,
            label: Some("NEW_ORDER_SINGLE".to_string()),
            bucket: classify_message_bucket("D", Some("NEW_ORDER_SINGLE"), Some("app")),
        },
    );
    counts.insert(
        "8",
        MsgTypeCount {
            count: 3,
            label: Some("EXECUTION_REPORT".to_string()),
            bucket: classify_message_bucket("8", Some("EXECUTION_REPORT"), Some("app")),
        },
    );
    counts.insert(
        "W",
        MsgTypeCount {
            count: 4,
            label: Some("MARKET_DATA_SNAPSHOT_FULL_REFRESH".to_string()),
            bucket: classify_message_bucket(
                "W",
                Some("MARKET_DATA_SNAPSHOT_FULL_REFRESH"),
                Some("app"),
            ),
        },
    );

    let rendered = render_message_counts(&counts, ColourPalette::plain());

    assert!(
        rendered.contains("Message Counts:"),
        "message count output should include a title: {rendered}"
    );
    assert!(
        rendered.contains("Session/Admin:"),
        "session messages should be separated: {rendered}"
    );
    assert!(
        rendered.contains("Business:"),
        "business grouping heading should be present: {rendered}"
    );
    assert!(
        rendered.contains("Order Flow:"),
        "order flow messages should be grouped together: {rendered}"
    );
    assert!(
        rendered.contains("Market Data:"),
        "market data messages should be grouped separately: {rendered}"
    );
    assert!(
        rendered.find("Session/Admin:") < rendered.find("Business:"),
        "session/admin messages should appear before business groups: {rendered}"
    );
}

#[test]
fn validation_inserts_missing_tags() {
    let mut obfuscator = create_obfuscator(false);
    let msg = format!("8=FIX.4.4{SOH}9=005{SOH}10=999{SOH}");
    let line = format!("{msg}\n");
    let mut ctx = context(OutputStyle::plain(), false, true);
    let output = stream(&mut ctx, &mut obfuscator, &line);
    assert!(
        output.contains("35 (MsgType): Missing"),
        "missing tag should be shown in decoded output: {output}"
    );
}

#[test]
fn prettify_includes_missing_tag_annotations_once() {
    let msg = format!("8=FIX.4.4{SOH}9=005{SOH}35=0{SOH}10=000{SOH}");
    let dict = embedded_fix44_lookup();

    let mut report = ValidationReport::new();
    report
        .tag_errors
        .insert(34, vec!["missing sequence".to_string()]);

    let pretty = prettify_with_report(&msg, &dict, Some(&report), &ColourPalette::plain());
    let lines: Vec<&str> = pretty.lines().collect();
    let missing_lines: Vec<&str> = lines
        .iter()
        .copied()
        .filter(|l| l.contains("34") && l.contains("missing sequence"))
        .collect();

    assert_eq!(
        missing_lines.len(),
        1,
        "missing tag 34 should appear exactly once: {pretty}"
    );
}

#[test]
fn build_tag_order_respects_annotations_and_trailer() {
    let dict = test_lookup_with_order(vec![8, 9, 35, 55]);
    let fields = vec![
        FieldValue {
            tag: 8,
            value: "FIX.4.4".into(),
        },
        FieldValue {
            tag: 9,
            value: "5".into(),
        },
        FieldValue {
            tag: 35,
            value: "X".into(),
        },
        FieldValue {
            tag: 55,
            value: "AAPL".into(),
        },
        FieldValue {
            tag: 99,
            value: "Z".into(),
        },
        FieldValue {
            tag: 10,
            value: "000".into(),
        },
    ];
    let mut annotations = std::collections::HashMap::new();
    annotations.insert(77u32, vec!["missing".into()]);

    let order = build_tag_order(&fields, &dict, Some(&annotations));
    assert!(order.starts_with(&[8, 9, 35, 49, 56, 34, 52]));
    assert!(order.contains(&55));
    assert!(order.contains(&99));
    assert!(order.contains(&77));
    assert_eq!(order.last(), Some(&10));
}

#[test]
fn trim_line_endings_strips_crlf() {
    assert_eq!(trim_line_endings("abc\r\n"), "abc");
}

#[test]
fn max_visible_line_width_tracks_longest_rendered_line() {
    let text = "short\n\u{1b}[31mthis is longer\u{1b}[0m\nmid";
    assert_eq!(max_visible_line_width(text), "this is longer".len());
}

#[test]
fn render_separator_expands_when_wide_grid_is_enabled() {
    let wide = WIDTH + 25;
    let rendered = render_separator(OutputStyle::full(), wide, true, WIDTH, ColourPalette::plain());
    let line = rendered.trim_end_matches('\n');
    assert_eq!(visible_width(line), wide);

    let regular = render_separator(OutputStyle::full(), wide, false, WIDTH, ColourPalette::plain());
    let regular_line = regular.trim_end_matches('\n');
    assert_eq!(visible_width(regular_line), WIDTH);
}

#[test]
fn source_line_visible_width_counts_line_numbers_and_soh_markers() {
    let colours = ColourPalette::standard();
    let content = format!(
        "{}8=FIX.4.4\u{0001}9=005\u{0001}35=0\u{0001}10=000\u{0001}{}",
        colours.message, colours.reset
    );
    let expected = visible_width("     1 | ")
        + "8=FIX.4.4".len()
        + 2
        + "9=005".len()
        + 2
        + "35=0".len()
        + 2
        + "10=000".len()
        + 2;
    assert_eq!(source_line_visible_width(1, &content, true), expected);
}

#[test]
fn wide_grid_source_separators_match_widest_fix_line_in_file() {
    let mut obfuscator = create_obfuscator(false);
    let short = format!("8=FIX.4.4{SOH}9=005{SOH}35=0{SOH}10=000{SOH}");
    let long_text = "X".repeat(WIDTH);
    let long = format!("8=FIX.4.4{SOH}9=120{SOH}35=D{SOH}58={long_text}{SOH}10=000{SOH}");
    let noise = "not a FIX line but longer than the short message";

    let mut ctx = context(OutputStyle {
            show_numbers: false,
            show_header: false,
            show_grid: true,
        }, true, false);

    let output = decode_file(
        &mut ctx,
        &mut obfuscator,
        "/tmp/wide.log",
        &format!("{short}\n{noise}\n{long}\n"),
    );
    let separators: Vec<&str> = output
        .lines()
        .filter(|line| line.starts_with('='))
        .collect();
    assert_eq!(
        separators.len(),
        4,
        "expected two source-line separator pairs for two FIX lines: {output}"
    );

    let long_display = display_with_delimiter(&long, '|');
    let long_width = source_line_visible_width(3, &long_display, false);
    let short_display = display_with_delimiter(&short, '|');
    let short_width = source_line_visible_width(1, &short_display, false);
    assert!(
        long_width > short_width,
        "fixture should include a shorter and longer FIX line"
    );

    for separator in separators {
        assert_eq!(
            visible_width(separator),
            long_width,
            "all source-line separators should match the widest FIX line in the file: {output}"
        );
    }
}

#[test]
fn message_count_summary_includes_separator_before_header() {
    let mut message_counts = TextMap::new();
    message_counts.insert(
        "0",
        MsgTypeCount {
            count: 12,
            label: Some("HEARTBEAT".to_string()),
            bucket: MessageBucket::SessionAdmin,
        },
    );
    message_counts.insert(
        "D",
        MsgTypeCount {
            count: 3,
            label: Some("NEW_ORDER_SINGLE".to_string()),
            bucket: MessageBucket::BusinessOther,
        },
    );
    let mut ctx = context(OutputStyle::plain(), false, false);
    ctx.message_counts = message_counts;
    ctx.counts_dirty = true;

    let output = ctx.print_message_counts();
    assert!(!ctx.counts_dirty);
    let lines: Vec<&str> = output.lines().collect();
    let header_index = lines
        .iter()
        .position(|line| line.trim_start().starts_with("Message Type"))
        .expect("message-count summary header");
    assert!(
        header_index > 0,
        "message-count summary header should not be the first line: {output}"
    );
    let separator = lines[header_index - 1].trim_start();
    assert!(
        separator.chars().all(|ch| ch == '-'),
        "summary separator should contain only dashes: {output}"
    );
    let header = lines[header_index].trim_start();
    assert!(
        header.starts_with("Message Type"),
        "message-count summary header should follow the separator: {output}"
    );
    assert!(
        header.contains("Count:"),
        "message-count summary header should include the count column: {output}"
    );
}

#[test]
fn separators_bracket_source_line_in_wide_grid_mode() {
    let mut obfuscator = create_obfuscator(false);
    let line = format!("8=FIX.4.4{SOH}9=005{SOH}35=0{SOH}10=000{SOH}\n");
    let mut ctx = context(OutputStyle {
            show_numbers: false,
            show_header: false,
            show_grid: true,
        }, true, false);
    let output = stream(&mut ctx, &mut obfuscator, &line);
    let lines: Vec<&str> = output.lines().collect();
    let separators: Vec<&str> = output
        .lines()
        .filter(|line| line.starts_with('='))
        .collect();
    assert_eq!(
        separators.len(),
        2,
        "expected exactly two separators around the source line: {output}"
    );
    assert!(
        lines.first().is_some_and(|line| line.starts_with('=')),
        "the top separator should be emitted before the source line: {output}"
    );
    assert!(
        lines
            .get(1)
            .is_some_and(|line| line.contains("8=FIX.4.4|9=005|35=0|10=000|")),
        "the source line should follow the top separator: {output}"
    );
    assert!(
        lines.get(2).is_some_and(|line| line.starts_with('=')),
        "the bottom separator should be emitted immediately after the source line: {output}"
    );
    assert!(
        lines.get(3).is_some_and(|line| line.starts_with("     8")),
        "decoded fields should follow the source-line separator pair: {output}"
    );
    assert_eq!(
        visible_width(separators[0]),
        visible_width(separators[1]),
        "source-line separators should match width: {output}"
    );
}

#[test]
fn prettify_orders_without_msg_type_header_first() {
    let msg = format!("8=FIX.4.4{SOH}9=005{SOH}55=IBM{SOH}10=999{SOH}");
    let dict = embedded_fix44_lookup();

    let pretty = prettify_with_report(&msg, &dict, None, &ColourPalette::plain());
    let tags: Vec<u32> = pretty
        .lines()
        .filter_map(|line| line.split_whitespace().next())
        .filter_map(|tag| tag.parse::<u32>().ok())
        .collect();

    assert!(
        tags.starts_with(&[8, 9]),
        "header tags should lead when MsgType is missing: {:?}",
        tags
    );
    let pos_55 = tags.iter().position(|t| *t == 55);
    let pos_10 = tags.iter().position(|t| *t == 10);
    assert!(
        pos_55 < pos_10,
        "body tag 55 should appear before checksum: {:?}",
        tags
    );
}

#[test]
fn header_and_trailer_are_repositioned_when_out_of_place() {
    let dict = test_lookup_with_order(vec![37, 11, 150, 8, 9, 35, 10]);
    let fields = vec![
        FieldValue {
            tag: 8,
            value: "FIX.4.4".into(),
        },
        FieldValue {
            tag: 9,
            value: "100".into(),
        },
        FieldValue {
            tag: 35,
            value: "X".into(),
        },
        FieldValue {
            tag: 37,
            value: "ABC".into(),
        },
        FieldValue {
            tag: 150,
            value: "0".into(),
        },
        FieldValue {
            tag: 553,
            value: "user".into(),
        },
        FieldValue {
            tag: 10,
            value: "000".into(),
        },
    ];

    let order = build_tag_order(&fields, &dict, None);
    let header_prefix: Vec<u32> = order.iter().take(7).copied().collect();
    assert_eq!(
        header_prefix,
        vec![8, 9, 35, 49, 56, 34, 52],
        "canonical header should lead the order"
    );

    let pos_order_id = order
        .iter()
        .position(|t| *t == 37)
        .expect("body tag should be present");
    assert!(
        pos_order_id >= 7,
        "body tags should follow header: {:?}",
        order
    );
    assert_eq!(
        order.last(),
        Some(&10),
        "checksum must be forced to the end: {:?}",
        order
    );
    let pos_user = order.iter().position(|t| *t == 553).unwrap();
    let pos_checksum = order.iter().position(|t| *t == 10).unwrap();
    assert!(
        pos_user < pos_checksum,
        "unknown body tags should remain before trailer: {:?}",
        order
    );
}

fn build_body_from_order(order: &[u32], values: &HashMap<u32, &str>) -> String {
    let mut out = String::new();
    for tag in order {
        if *tag == 8 || *tag == 9 || *tag == 10 {
            continue;
        }
        if let Some(val) = values.get(tag) {
            out.push_str(&format!("{tag}={val}{SOH}"));
        }
    }
    out
}

#[test]
fn prettify_files_preserves_input_order_when_parallelised() {
    let mut obfuscator = create_obfuscator(false);
    let msg = valid_heartbeat_message();

    let style = OutputStyle {
        show_numbers: false,
        show_header: true,
        show_grid: false,
    };
    let paths = vec!["/tmp/first.log".to_string(), "/tmp/second.log".to_string()];
    assert_eq!(
        FileProcessingMode::select(&paths, false, false),
        FileProcessingMode::Parallel
    );
    let mut ctx = context(style, false, false);
    let mut output = String::new();
    for path in &paths {
        let mut worker = context(style, false, false);
        output.push_str(&decode_file(&mut worker, &mut obfuscator, path, &msg));
        ctx.absorb_counts(&worker.message_counts, worker.counts_dirty);
    }
    let heartbeat_count = ctx.message_counts.get("0").map(|count| count.count);
    assert_eq!(
        heartbeat_count,
        Some(2),
        "message counts should be merged across files"
    );

    let first_label = "Filename: first.log";
    let first_pos = output
        .find(first_label)
        .expect("first file header present");
    let second_label = "Filename: second.log";
    let second_pos = output
        .find(second_label)
        .expect("second file header present");
    assert!(
        first_pos < second_pos,
        "parallel file processing must preserve argv order: {output}"
    );
}

fn valid_heartbeat_message() -> String {
    let lookup = embedded_fix44_lookup();
    let order = lookup
        .message_def("0")
        .expect("heartbeat definition")
        .field_order
        .clone();
    let mut values = HashMap::new();
    values.insert(35u32, "0");
    values.insert(34u32, "1");
    values.insert(49u32, "AAA");
    values.insert(52u32, "20240101-00:00:00");
    values.insert(56u32, "BBB");

    let body = build_body_from_order(&order, &values);
    let msg_without_checksum = format!("8=FIX.4.4{SOH}9={:03}{SOH}{}", body.len(), body);
    let checksum = calculate_checksum(&format!("{msg_without_checksum}10=000{SOH}"));
    format!("{msg_without_checksum}10={checksum:03}{SOH}\n")
}

// ---------------------------------------------------------------------------
// Further cases

#[test]
fn modification_times_are_written_in_utc() {
    assert_eq!(
        format_last_modified(1_700_000_000, 250_000_000).as_deref(),
        Some("14/11/23 22:13:20.250Z")
    );
    assert_eq!(
        format_last_modified(0, 0).as_deref(),
        Some("01/01/70 00:00:00.000Z")
    );
    assert_eq!(format_last_modified(i64::MAX, 0), None);
}

#[test]
fn standard_input_is_announced_with_the_header_style() {
    let plain = ColourPalette::plain();
    assert_eq!(
        announce_stdin_source(OutputStyle::full(), 20, plain),
        "-- (stdin) ---------\n\n"
    );
    assert_eq!(announce_stdin_source(OutputStyle::plain(), 20, plain), "");
}

#[test]
fn messages_are_found_inside_log_lines() {
    let line = format!("a \u{e9} 8=FIX.4.4{SOH}9=5{SOH}35=0{SOH}10=000{SOH} tail");
    let spans = find_fix_message_indices(&line);
    assert_eq!(spans.len(), 1);
    let chars: Vec<char> = line.chars().collect();
    let found: String = chars[spans[0].0..spans[0].1].iter().collect();
    assert_eq!(found, format!("8=FIX.4.4{SOH}9=5{SOH}35=0{SOH}10=000{SOH}"));
    assert!(find_fix_message_indices("no message here").is_empty());
}

#[test]
fn sessions_are_the_same_in_both_directions() {
    let there = format!("8=FIXT.1.1{SOH}35=A{SOH}49=BUY{SOH}56=SELL{SOH}");
    let back = format!("8=FIXT.1.1{SOH}35=0{SOH}49=SELL{SOH}56=BUY{SOH}");
    let a = fixt_session_key(&there).expect("session");
    let b = fixt_session_key(&back).expect("session");
    let mut defaults = SessionDefaults::new();
    defaults.insert(a, "FIX50SP2".to_string());
    assert_eq!(defaults.get(&b).map(|key| key.to_string()).as_deref(), Some("FIX50SP2"));
    assert!(fixt_session_key(&there.replace("FIXT.1.1", "FIX.4.4")).is_none());
}

#[test]
fn counts_of_two_sources_are_added() {
    let count = |n: usize| MsgTypeCount {
        count: n,
        label: None,
        bucket: MessageBucket::BusinessOther,
    };
    let mut target = TextMap::new();
    target.insert("8", count(2));
    let mut source = TextMap::new();
    source.insert("8", count(3));
    source.insert("D", count(1));
    merge_message_counts(&mut target, &source);
    assert_eq!(target.get("8").map(|c| c.count), Some(5));
    assert_eq!(target.get("D").map(|c| c.count), Some(1));
    assert_eq!(target.len(), 2);
}

#[test]
fn lines_without_messages_pass_through() {
    let mut obfuscator = create_obfuscator(false);
    let mut ctx = context(OutputStyle::plain(), false, false);
    assert_eq!(stream(&mut ctx, &mut obfuscator, "hello\n"), "hello\n");
    assert_eq!(ctx.finish(), "");
}

#[test]
fn followed_sources_are_read_on() {
    let mut ctx = context(OutputStyle::plain(), false, false);
    assert_eq!(ctx.after_reading(false, true), StreamStep::Stop);
    ctx.settings.follow = true;
    assert_eq!(ctx.after_reading(true, false), StreamStep::Stop);
    assert_eq!(
        ctx.after_reading(false, false),
        StreamStep::Again {
            pause: true,
            counts: false
        }
    );
    ctx.counts_dirty = true;
    assert_eq!(
        ctx.after_reading(false, true),
        StreamStep::Again {
            pause: false,
            counts: true
        }
    );
    ctx.settings.live_status_enabled = false;
    assert_eq!(
        ctx.after_reading(false, true),
        StreamStep::Again {
            pause: false,
            counts: false
        }
    );
}
