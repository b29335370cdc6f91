use fixdecoder::catalogue::{
    add_custom_dictionary, ensure_valid_fix_version, load_schema, override_key, selected_fix_key,
    CustomDictionary,
};
use fixdecoder::cli_error::CliError;
use fixdecoder::cli_options::{
    build_settings, check_default_args, uses_colour, CliOptions, ParsedArgs,
};
use fixdecoder::colours::ColourPalette;
use fixdecoder::dictionaries::DictionaryStore;
use fixdecoder::log_lines::PrettifyContext;
use fixdecoder::output_style::{announce_file_source, format_last_modified};
use fixdecoder::queries::{
    handle_components, handle_messages, handle_tags, print_all_dictionary_info,
};
use fixdecoder::secret_files::plan_secret_outputs;
use fixdecoder::sensitive::create_obfuscator;
use fixdecoder::summary::OrderSummary;
use fixdecoder::textmap::TextMap;

const FILE_HEADER_RULE: &str = "----------------------------------------------";
const WIDTH: usize = 80;

fn fix_message(body: &str) -> String {
    let soh = '\u{0001}';
    format!("8=FIX.4.4{soh}9=005{soh}{body}10=000{soh}\n")
}

fn valid_fix_message(begin_string: &str, fields: &[(&str, &str)]) -> String {
    let soh = '\u{0001}';
    let body: String = fields
        .iter()
        .map(|(tag, value)| format!("{tag}={value}{soh}"))
        .collect();
    let mut msg = format!("8={begin_string}{soh}9={}{}{body}", body.len(), soh);
    let checksum = msg.bytes().fold(0u16, |acc, b| acc + b as u16) % 256;
    msg.push_str(&format!("10={checksum:03}{soh}\n"));
    msg
}

fn fix44() -> ParsedArgs {
    ParsedArgs {
        fix: Some("44".into()),
        ..ParsedArgs::none()
    }
}

fn palette(opts: &CliOptions) -> ColourPalette {
    if uses_colour(opts, false) {
        ColourPalette::standard()
    } else {
        ColourPalette::plain()
    }
}

/// What the program writes for an input, a file's banner left out.
fn decode_with(
    given: &ParsedArgs,
    defaults: Option<&ParsedArgs>,
    dictionaries: DictionaryStore,
    input: &str,
) -> String {
    let opts = CliOptions::from_matches(given, defaults, false).expect("options");
    let settings = build_settings(&opts, false, palette(&opts), WIDTH);
    let summary = if opts.summary {
        Some(OrderSummary::new(opts.delimiter))
    } else {
        None
    };
    let mut ctx = PrettifyContext::new(settings, summary, override_key(&opts), dictionaries);
    let mut obfuscator = create_obfuscator(opts.secret);
    let mut out = String::new();
    for (index, line) in input.split_inclusive('\n').enumerate() {
        let shown = ctx.stream_line(&mut obfuscator, line, index + 1);
        out.push_str(&shown.expect("dictionary for every message"));
    }
    out.push_str(&ctx.finish());
    out
}

fn decode(given: &ParsedArgs, input: &str) -> String {
    decode_with(given, None, DictionaryStore::new(), input)
}

fn query(given: &ParsedArgs) -> Result<String, CliError> {
    let opts = CliOptions::from_matches(given, None, false)?;
    let custom: TextMap<CustomDictionary> = TextMap::new();
    ensure_valid_fix_version(&opts, &custom)?;
    let schema = load_schema(&opts, &custom)?;
    let colours = palette(&opts);
    let mut out = String::new();
    if opts.info {
        let (text, warnings) = print_all_dictionary_info(&custom, Some(&selected_fix_key(&opts)));
        assert!(warnings.is_empty(), "{warnings:?}");
        out.push_str(&text);
    }
    if opts.message_flag {
        out.push_str(&handle_messages(&opts, &schema, colours, WIDTH));
    }
    if opts.tag_flag {
        out.push_str(&handle_tags(&opts, &schema, colours, WIDTH)?);
    }
    if opts.component_flag {
        out.push_str(&handle_components(&opts, &schema, colours, WIDTH));
    }
    Ok(out)
}

fn field_value<'a>(msg: &'a str, tag: &str) -> Option<&'a str> {
    msg.split('\u{0001}').find_map(|fragment| {
        let (lhs, rhs) = fragment.split_once('=')?;
        (lhs == tag).then_some(rhs)
    })
}

fn actual_body_length(msg: &str) -> usize {
    let bytes = msg.as_bytes();
    let len_pos = bytes
        .windows(2)
        .position(|window| window == b"9=")
        .expect("body length tag");
    let body_start = bytes
        .iter()
        .enumerate()
        .skip(len_pos)
        .find_map(|(idx, byte)| (*byte == 0x01).then_some(idx + 1))
        .expect("body start");
    let checksum_start = bytes
        .windows(4)
        .enumerate()
        .rfind(|(_, window)| *window == b"\x0110=")
        .map(|(idx, _)| idx)
        .expect("checksum start");
    checksum_start - body_start + 1
}

fn actual_checksum(msg: &str) -> i32 {
    let marker = "\u{0001}10=";
    let idx = msg.rfind(marker).expect("checksum marker");
    msg[..idx + 1].bytes().map(i32::from).sum::<i32>() % 256
}

fn assert_file_banner(stdout: &str, expected_filename: &str) {
    let mut lines = stdout.lines();
    let top_rule = lines.next().expect("file header top rule");
    assert!(
        top_rule.chars().all(|ch| ch == '-'),
        "top file header rule should contain only dashes: {stdout}"
    );
    assert!(
        top_rule.len() >= FILE_HEADER_RULE.len(),
        "top file header rule should be at least the documented width: {stdout}"
    );
    assert_eq!(
        lines.next().expect("filename line"),
        format!("Filename: {expected_filename}")
    );

    let modified_line = lines.next().expect("last modified line");
    let timestamp = modified_line
        .strip_prefix("Last Modified: ")
        .expect("last modified label");
    assert!(
        timestamp.ends_with('Z'),
        "last modified timestamp should be UTC/Zulu: {stdout}"
    );
    chrono::NaiveDateTime::parse_from_str(
        &timestamp[..timestamp.len() - 1],
        "%d/%m/%y %H:%M:%S%.3f",
    )
    .expect("last modified timestamp should match dd/mm/yy HH:MM:SS.mmmZ");

    assert_eq!(
        lines.next().expect("bottom rule"),
        top_rule,
        "file header rules should match: {stdout}"
    );
    assert_eq!(
        lines.next().expect("blank spacer line"),
        "",
        "file header should be followed by a blank line: {stdout}"
    );
}

#[test]
fn decodes_single_message_from_stdin() {
    let stdout = decode(&fix44(), &fix_message("35=0"));
    assert!(
        !stdout.starts_with("fixdecoder "),
        "normal decode output should not start with a version banner: {stdout}"
    );
    assert!(stdout.contains("BeginString"));
    assert!(stdout.contains("MsgType"));
}

#[test]
fn validation_reports_missing_fields() {
    let given = ParsedArgs {
        validate: true,
        ..fix44()
    };
    let stdout = decode(&given, &fix_message("")); // missing MsgType intentionally
    assert!(stdout.contains("Line 1:"), "{stdout}");
    assert!(stdout.contains("MsgType"), "{stdout}");
    assert!(stdout.contains("Missing"), "{stdout}");
}

#[test]
fn secret_files_mode_writes_valid_obfuscated_sibling_file() {
    let msg = valid_fix_message(
        "FIX.4.4",
        &[("35", "A"), ("49", "BUY1"), ("56", "SELL1"), ("98", "0")],
    );
    let line = format!("INFO {} tail\n", msg.trim_end());

    let planned = plan_secret_outputs(&vec!["/tmp/logs/orders.log".into()], None, &vec![]).expect("plan");
    assert_eq!(planned.len(), 1);
    assert_eq!(planned[0].output, "/tmp/logs/orders.secret.log");

    let mut obfuscator = create_obfuscator(true);
    let secret = obfuscator.enabled_line(&line);

    assert!(secret.starts_with("INFO 8=FIX.4.4"));
    assert!(secret.contains("49=SenderCompID0001"));
    assert!(secret.contains("56=TargetCompID0001"));
    assert!(secret.ends_with(" tail\n"));

    let start = secret.find("8=FIX.4.4").expect("find FIX start");
    let checksum_start = secret[start..]
        .find("\u{0001}10=")
        .map(|idx| start + idx + 1)
        .expect("find checksum");
    let checksum_end = secret[checksum_start..]
        .find('\u{0001}')
        .map(|idx| checksum_start + idx)
        .expect("find checksum end");
    let fix = &secret[start..=checksum_end];

    let declared_body_length = field_value(fix, "9")
        .and_then(|value| value.parse::<usize>().ok())
        .expect("declared body length");
    let declared_checksum = field_value(fix, "10")
        .and_then(|value| value.parse::<i32>().ok())
        .expect("declared checksum");

    assert_eq!(declared_body_length, actual_body_length(fix));
    assert_eq!(declared_checksum, actual_checksum(fix));
}

#[test]
fn file_decode_prints_separator_before_message_type_summary() {
    let given = ParsedArgs {
        style: Some("plain".into()),
        ..fix44()
    };
    let stdout = decode(
        &given,
        &format!("{}{}", fix_message("35=0"), fix_message("35=D")),
    );
    let lines: Vec<&str> = stdout.lines().collect();
    let header_index = lines
        .iter()
        .position(|line| line.trim_start().starts_with("Message Type"))
        .expect("message type summary header should be present");
    assert!(
        header_index > 0,
        "summary header should not be first line: {stdout}"
    );
    let separator = lines[header_index - 1].trim_start();
    assert!(
        separator.chars().all(|ch| ch == '-'),
        "message type summary should be preceded by a dashed separator: {stdout}"
    );
}

#[test]
fn nocounts_suppresses_message_type_summary() {
    let given = ParsedArgs {
        style: Some("plain".into()),
        no_counts: true,
        ..fix44()
    };
    let stdout = decode(
        &given,
        &format!("{}{}", fix_message("35=0"), fix_message("35=D")),
    );

    assert!(
        !stdout.contains("Message Counts:"),
        "--nocounts should suppress the message count summary: {stdout}"
    );
    assert!(
        stdout.contains("BeginString"),
        "--nocounts should not suppress decoded messages: {stdout}"
    );
}

#[test]
fn summary_nocounts_suppresses_message_type_summary() {
    let msg = valid_fix_message(
        "FIX.4.4",
        &[
            ("35", "8"),
            ("37", "O1"),
            ("11", "C1"),
            ("150", "0"),
            ("39", "0"),
        ],
    );
    let given = ParsedArgs {
        summary: true,
        paging: Some("never".into()),
        no_counts: true,
        ..fix44()
    };
    let stdout = decode(&given, &msg);

    assert!(
        stdout.contains("Order Summary"),
        "--summary --nocounts should still render order summaries: {stdout}"
    );
    assert!(
        !stdout.contains("Message Counts:"),
        "--summary --nocounts should suppress the message count summary: {stdout}"
    );
}

#[test]
fn file_output_starts_with_the_file_name_even_without_header_style() {
    let modified = format_last_modified(1_700_000_000, 0);
    let stdout = announce_file_source("orders.log", modified.as_deref(), ColourPalette::plain());
    assert_file_banner(&stdout, "orders.log");
}

#[test]
fn summary_mode_outputs_order_summary() {
    let soh = '\u{0001}';
    let msg1 = format!("8=FIX.4.4{soh}9=005{soh}35=8{soh}37=O1{soh}11=C1{soh}10=000{soh}\n");
    let msg2 = format!("8=FIX.4.4{soh}9=005{soh}35=8{soh}37=O1{soh}11=C1{soh}10=000{soh}\n");
    let given = ParsedArgs {
        summary: true,
        ..fix44()
    };
    let stdout = decode(&given, &format!("{msg1}{msg2}"));
    assert!(stdout.contains("Order Summary"), "{stdout}");
    assert!(
        stdout.contains("Execution Report") || stdout.contains("EXECUTION"),
        "{stdout}"
    );
}

#[test]
fn summary_mode_ignores_admin_messages() {
    let heartbeat = valid_fix_message(
        "FIX.4.4",
        &[("35", "0"), ("49", "SENDER"), ("56", "TARGET")],
    );
    let market_data = valid_fix_message(
        "FIX.4.4",
        &[("35", "W"), ("55", "EUR/USD"), ("268", "1"), ("269", "0")],
    );
    let exec_report = valid_fix_message(
        "FIX.4.4",
        &[
            ("35", "8"),
            ("37", "O1"),
            ("11", "C1"),
            ("150", "0"),
            ("39", "0"),
        ],
    );
    let given = ParsedArgs {
        summary: true,
        ..fix44()
    };
    let stdout = decode(&given, &format!("{heartbeat}{market_data}{exec_report}"));

    assert!(
        stdout.contains("Execution Report") || stdout.contains("EXECUTION"),
        "summary should still include application traffic: {stdout}"
    );
    assert!(
        !stdout.contains("Heartbeat"),
        "summary should ignore FIX admin traffic: {stdout}"
    );
    assert!(
        !stdout.contains("UNKNOWN-"),
        "summary should ignore non-order application traffic too: {stdout}"
    );
}

#[test]
fn summary_mode_orders_events_and_collapses_duplicate_order_flow_messages() {
    let partial = valid_fix_message(
        "FIX.4.4",
        &[
            ("35", "8"),
            ("52", "20250519-15:07:20.036"),
            ("11", "C1"),
            ("41", "C1"),
            ("150", "F"),
            ("39", "1"),
            ("32", "1000000"),
            ("31", "19.391"),
            ("151", "2000000"),
            ("14", "1000000"),
            ("6", "19.391"),
        ],
    );
    let filled = valid_fix_message(
        "FIX.4.4",
        &[
            ("35", "8"),
            ("52", "20250519-15:07:20.106"),
            ("11", "C1"),
            ("41", "C1"),
            ("150", "F"),
            ("39", "2"),
            ("32", "2000000"),
            ("31", "19.391"),
            ("151", "0"),
            ("14", "3000000"),
            ("6", "19.391"),
        ],
    );
    let new_order = valid_fix_message(
        "FIX.4.4",
        &[
            ("35", "D"),
            ("52", "20250519-15:04:03.540"),
            ("60", "20250519-11:04:03.540"),
            ("11", "C1"),
            ("55", "USD/MXN"),
            ("54", "2"),
            ("38", "3000000"),
            ("44", "19.391000"),
            ("59", "5"),
        ],
    );
    let accepted = valid_fix_message(
        "FIX.4.4",
        &[
            ("35", "8"),
            ("52", "20250519-15:04:03.541"),
            ("11", "C1"),
            ("41", "C1"),
            ("150", "0"),
            ("39", "0"),
            ("151", "3000000"),
            ("14", "0"),
            ("6", "0"),
            ("58", "Accepted order"),
        ],
    );

    let given = ParsedArgs {
        summary: true,
        ..fix44()
    };
    let stdout = decode(
        &given,
        &format!("{partial}{filled}{new_order}{accepted}{partial}{filled}"),
    );

    assert!(
        stdout.contains("[New -> Partially Filled -> Filled]"),
        "summary header should be chronological and skip the synthetic unknown: {stdout}"
    );
    assert_eq!(
        stdout.matches("NEW_ORDER_SINGLE [C1]").count(),
        1,
        "duplicate order messages should collapse in the timeline: {stdout}"
    );
    assert_eq!(
        stdout.matches("35=D").count(),
        1,
        "duplicate raw FIX messages should collapse too: {stdout}"
    );
    assert_eq!(
        stdout.matches("\u{0001}35=8").count(),
        3,
        "each report should be listed once: {stdout}"
    );
}

#[test]
fn summary_mode_highlights_invalid_order_messages_and_surfaces_reason() {
    let invalid_new = valid_fix_message(
        "FIX.4.4",
        &[
            ("49", "SenderCompID0002"),
            ("56", "TargetCompID0001"),
            ("34", "2146"),
            ("52", "20250519-15:07:21.162"),
            ("37", "1747588115027927786:000000004"),
            ("11", "12-193-1747602389"),
            ("41", "12-193-1747602389"),
            ("17", "1747588115027927786:0000000044"),
            ("150", "0"),
            ("39", "0"),
            ("64", "20250521"),
            ("55", "USD/MXN"),
            ("54", "1"),
            ("38", "3000000"),
            ("40", "2"),
            ("44", "19.38"),
            ("151", "3000000"),
            ("14", "0"),
            ("6", "0"),
            ("58", "Accepted order"),
        ],
    );
    let filled = valid_fix_message(
        "FIX.4.4",
        &[
            ("35", "8"),
            ("49", "SenderCompID0002"),
            ("56", "TargetCompID0001"),
            ("34", "2156"),
            ("52", "20250519-15:11:05.312"),
            ("37", "1747588115027927786:000000004"),
            ("11", "12-193-1747602389"),
            ("41", "12-193-1747602389"),
            ("17", "1747588115027927786:0000000047"),
            ("150", "F"),
            ("39", "2"),
            ("64", "20250521"),
            ("55", "USD/MXN"),
            ("54", "1"),
            ("38", "3000000"),
            ("40", "2"),
            ("44", "19.38"),
            ("32", "1000000"),
            ("31", "19.38"),
            ("151", "0"),
            ("14", "3000000"),
            ("6", "19.38"),
        ],
    );
    let given = ParsedArgs {
        summary: true,
        colour: Some("yes".into()),
        ..fix44()
    };
    let stdout = decode(&given, &format!("{invalid_new}{filled}"));

    assert!(
        stdout.contains("Invalid: Missing required tag 35 (MsgType)"),
        "invalid summary rows should explain why the message failed validation: {stdout}"
    );
    assert!(
        stdout.contains(
            "Accepted order\u{001b}[0m | \u{001b}[31mInvalid: Missing required tag 35 (MsgType)\u{001b}[0m"
        ),
        "only the invalid timeline text should be highlighted in red: {stdout}"
    );
    assert!(
        stdout.contains("\u{001b}[31m-\u{001b}[0m ["),
        "the invalid timeline message cell should keep its original formatting: {stdout}"
    );
    assert!(
        stdout.contains("\u{001b}[31m8=FIX.4.4"),
        "invalid raw FIX messages should be highlighted in red: {stdout}"
    );
}

#[test]
fn override_is_honoured_with_fallback() {
    let soh = '\u{0001}';
    let msg = format!("8=FIXT.1.1{soh}9=005{soh}35=0{soh}1128=8{soh}10=000{soh}\n");
    assert!(decode(&fix44(), &msg).contains("ApplVerID"));
}

#[test]
fn default_args_env_applies_cli_flags() {
    let defaults = ParsedArgs {
        number: true,
        ..fix44()
    };
    let stdout = decode_with(
        &ParsedArgs::none(),
        Some(&defaults),
        DictionaryStore::new(),
        &fix_message("35=0"),
    );
    assert!(stdout.contains("     1 | "), "{stdout}");
}

#[test]
fn explicit_cli_args_override_default_args_env() {
    let defaults = ParsedArgs {
        fix: Some("45".into()),
        ..ParsedArgs::none()
    };
    let opts = CliOptions::from_matches(&fix44(), Some(&defaults), false).expect("options");
    assert!(ensure_valid_fix_version(&opts, &TextMap::new()).is_ok());
    let stdout = decode_with(
        &fix44(),
        Some(&defaults),
        DictionaryStore::new(),
        &fix_message("35=0"),
    );
    assert!(stdout.contains("BeginString"));
}

#[test]
fn default_args_env_rejects_version_flag() {
    let defaults = ParsedArgs {
        version: true,
        ..ParsedArgs::none()
    };
    let err = check_default_args(&defaults).unwrap_err();
    assert!(err.message.contains("FIXDECODER_DEFAULT_ARGS"));
    assert!(err.message.contains("--help or --version"));
}

#[test]
fn plain_overrides_number_from_default_args_env() {
    let defaults = ParsedArgs {
        number: true,
        ..ParsedArgs::none()
    };
    let given = ParsedArgs {
        plain: true,
        ..ParsedArgs::none()
    };
    let stdout = decode_with(
        &given,
        Some(&defaults),
        DictionaryStore::new(),
        &fix_message("35=0"),
    );
    assert!(
        !stdout.contains("     1 | "),
        "--plain should suppress line numbers even when defaults enable them: {stdout}"
    );
}

#[test]
fn number_flag_prefixes_input_lines() {
    let given = ParsedArgs {
        number: true,
        ..fix44()
    };
    assert!(decode(&given, &fix_message("35=0")).contains("     1 | "));
}

#[test]
fn info_flag_lists_available_dictionaries_and_highlights_selection() {
    let given = ParsedArgs {
        info: true,
        ..fix44()
    };
    let stdout = query(&given).expect("info");
    assert!(stdout.contains("Available FIX Dictionaries"));
    assert!(stdout.contains("Loaded dictionaries"));
    assert!(stdout.contains("FIX44"));
    assert!(stdout.contains("  *FIX44 "), "{stdout}");
}

#[test]
fn info_flag_marks_fix27_and_fix30_as_fix40_aliases() {
    let given = ParsedArgs {
        fix: Some("27".into()),
        info: true,
        ..ParsedArgs::none()
    };
    let stdout = query(&given).expect("info");
    assert!(stdout.contains("FIX27"));
    assert!(stdout.contains("built-in alias of FIX40"));
}

#[test]
fn query_commands_normalise_fix_key_variants() {
    let listing = |version: &str| {
        query(&ParsedArgs {
            fix: Some(version.into()),
            message: Some("true".into()),
            ..ParsedArgs::none()
        })
        .expect("listing")
    };
    let fix40 = listing("40");
    let fix40_prefixed = listing("FIX40");
    let fix40_dotted = listing("4.0");
    let fix27_alias = listing("27");

    assert_eq!(fix40_prefixed, fix40);
    assert_eq!(fix40_dotted, fix40);
    assert_eq!(fix27_alias, fix40);
}

#[test]
fn message_listing_works_in_plain_and_column_modes() {
    let given = ParsedArgs {
        message: Some("true".into()),
        ..fix44()
    };
    let stdout = query(&given).expect("listing");
    for text in [
        "Session/Admin:",
        "Business:",
        "Order Flow:",
        "Market Data:",
        "Heartbeat",
        "ExecutionReport",
    ] {
        assert!(stdout.contains(text), "{text}: {stdout}");
    }

    let given = ParsedArgs {
        message: Some("true".into()),
        column: true,
        ..fix44()
    };
    let stdout = query(&given).expect("columns");
    for text in [
        "Session/Admin:",
        "Business:",
        "Heartbeat",
        "Logon",
        "ExecutionReport",
    ] {
        assert!(stdout.contains(text), "{text}: {stdout}");
    }
}

#[test]
fn message_detail_accepts_msg_type_lookup() {
    let given = ParsedArgs {
        message: Some("0".into()),
        verbose: true,
        header: true,
        trailer: true,
        column: true,
        ..fix44()
    };
    let stdout = query(&given).expect("details");
    for text in ["Message: ", "Heartbeat", "Header", "Trailer", "HEARTBEAT"] {
        assert!(stdout.contains(text), "{text}: {stdout}");
    }
}

#[test]
fn missing_message_is_reported() {
    let given = ParsedArgs {
        message: Some("NoSuchMessage".into()),
        ..fix44()
    };
    assert!(query(&given)
        .expect("report")
        .contains("Message not found: NoSuchMessage"));
}

#[test]
fn tag_listing_works_in_plain_and_column_modes() {
    let given = ParsedArgs {
        tag: Some("true".into()),
        ..fix44()
    };
    let stdout = query(&given).expect("listing");
    assert!(stdout.contains("BeginString"));
    assert!(stdout.contains("CheckSum"));

    let given = ParsedArgs {
        tag: Some("true".into()),
        column: true,
        ..fix44()
    };
    let stdout = query(&given).expect("columns");
    assert!(stdout.contains("BeginString"));
    assert!(stdout.contains("ClOrdID"));
}

#[test]
fn tag_detail_verbose_columns_show_enum_values() {
    let given = ParsedArgs {
        tag: Some("54".into()),
        verbose: true,
        column: true,
        ..fix44()
    };
    let stdout = query(&given).expect("details");
    assert!(stdout.contains("Side"));
    assert!(stdout.contains("BUY"));
    assert!(stdout.contains("SELL"));
}

#[test]
fn invalid_and_missing_tags_are_reported() {
    let given = ParsedArgs {
        tag: Some("nope".into()),
        ..fix44()
    };
    let err = query(&given).unwrap_err();
    assert!(err.message.contains("Invalid tag: nope"));

    let given = ParsedArgs {
        tag: Some("999999".into()),
        ..fix44()
    };
    assert!(query(&given)
        .expect("report")
        .contains("Tag not found: 999999"));
}

#[test]
fn component_listing_works_in_plain_and_column_modes() {
    let given = ParsedArgs {
        component: Some("true".into()),
        ..fix44()
    };
    let stdout = query(&given).expect("listing");
    assert!(stdout.contains("Header"), "{stdout}");
    assert!(stdout.contains("CommissionData"), "{stdout}");

    let given = ParsedArgs {
        component: Some("true".into()),
        column: true,
        ..fix44()
    };
    let stdout = query(&given).expect("columns");
    assert!(stdout.contains("Header"));
    assert!(stdout.contains("Parties"));
}

#[test]
fn component_detail_verbose_columns_show_fields() {
    let given = ParsedArgs {
        component: Some("Header".into()),
        verbose: true,
        column: true,
        ..fix44()
    };
    let stdout = query(&given).expect("details");
    for text in ["Component: ", "Header", "BeginString", "NEW_ORDER_SINGLE"] {
        assert!(stdout.contains(text), "{text}: {stdout}");
    }
}

#[test]
fn missing_component_is_reported() {
    let given = ParsedArgs {
        component: Some("NoSuchComponent".into()),
        ..fix44()
    };
    assert!(query(&given)
        .expect("report")
        .contains("Component not found: NoSuchComponent"));
}

#[test]
fn fixt_logon_default_appl_ver_applies_to_later_messages() {
    let xml = "<fix type='FIX' major='5' minor='0' servicepack='2'>
  <header/>
  <trailer/>
  <messages>
    <message name='Heartbeat' msgtype='0' msgcat='admin'>
      <field name='MsgType' required='Y'/>
      <field name='CustomSp2Tag' required='N'/>
    </message>
    <message name='Logon' msgtype='A' msgcat='admin'>
      <field name='MsgType' required='Y'/>
      <field name='DefaultApplVerID' required='N'/>
    </message>
  </messages>
  <components/>
  <fields>
    <field number='35' name='MsgType' type='STRING'>
      <value enum='0' description='HEARTBEAT'/>
      <value enum='A' description='LOGON'/>
    </field>
    <field number='1137' name='DefaultApplVerID' type='STRING'>
      <value enum='9' description='FIX50SP2'/>
    </field>
    <field number='9001' name='CustomSp2Tag' type='CHAR'/>
  </fields>
</fix>";
    let mut custom = TextMap::new();
    let mut store = DictionaryStore::new();
    add_custom_dictionary(&mut custom, &mut store, xml, "/tmp/custom.xml").expect("dictionary");

    let logon = valid_fix_message(
        "FIXT.1.1",
        &[
            ("35", "A"),
            ("49", "BUY"),
            ("56", "SELL"),
            ("34", "1"),
            ("52", "20240101-00:00:00"),
            ("98", "0"),
            ("108", "30"),
            ("1137", "9"),
        ],
    );
    let heartbeat = valid_fix_message(
        "FIXT.1.1",
        &[
            ("35", "0"),
            ("49", "BUY"),
            ("56", "SELL"),
            ("52", "20240101-00:00:01"),
            ("9001", "SP2ONLY"),
        ],
    );

    let given = ParsedArgs {
        validate: true,
        ..ParsedArgs::none()
    };
    let stdout = decode_with(&given, None, store, &format!("{logon}{heartbeat}"));
    assert!(stdout.contains("CustomSp2Tag"), "{stdout}");
    assert!(!stdout.contains("Unknown tag 9001"), "{stdout}");
}

#[test]
fn decodes_message_from_file_path() {
    let stdout = decode(&fix44(), &fix_message("35=0"));
    assert!(stdout.contains("BeginString"), "{stdout}");
}

#[test]
fn explicit_header_style_renders_source_banner_for_files() {
    let given = ParsedArgs {
        style: Some("header".into()),
        ..fix44()
    };
    let modified = format_last_modified(1_700_000_000, 0);
    let banner = announce_file_source("orders.log", modified.as_deref(), ColourPalette::plain());
    let stdout = format!("{banner}{}", decode(&given, &fix_message("35=0")));
    assert_file_banner(&stdout, "orders.log");
}
