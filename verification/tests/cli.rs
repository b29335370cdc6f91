use fixdecoder::catalogue::{
    add_custom_dictionary, all_dictionary_keys, component_def_has_entries, dictionary_key,
    dictionary_marker, dictionary_source, ensure_session_components, ensure_valid_fix_version,
    key_to_xml_id, load_schema_for_key, normalise_fix_key, requires_session_components,
    summarise_dictionary, CustomDictionary,
};
use fixdecoder::cli_options::{
    build_settings, check_default_args, final_exit_code, parse_colour, parse_delimiter,
    parse_output_style, parse_output_style_value, parse_paging, resolve_input_files,
    should_use_multi_file_pager, split_default_args, validate_cli_options, CliOptions, ParsedArgs,
    RunMode, SchemaCommand, DEFAULT_ARGS_ENV,
};
use fixdecoder::colours::ColourPalette;
use fixdecoder::dictionaries::{choose_embedded_xml, DictionaryStore};
use fixdecoder::output_style::OutputStyle;
use fixdecoder::pager_command::{
    default_less_command, effective_less_options, merged_less_options, normalise_less_command,
    pager_process_spec, rendered_pager_file_name, resolve_pager_command, uses_less_pager,
    PagingMode,
};
use fixdecoder::queries::find_message;
use fixdecoder::schema::{ComponentDef, ComponentRef, FieldRef, FixDictionary, GroupDef};
use fixdecoder::secret_files::{plan_secret_outputs, secret_output_path};
use fixdecoder::textmap::TextMap;
use fixdecoder::version::{branch, rust_version, sha, version_string};

fn sideways() -> Vec<String> {
    vec!["-S".to_string(), "--shift=10".to_string()]
}

fn dummy_opts(version: &str) -> CliOptions {
    CliOptions {
        fix_version: version.to_string(),
        fix_from_user: true,
        xml_paths: Vec::new(),
        message_flag: false,
        message_value: None,
        component_flag: false,
        component_value: None,
        tag_flag: false,
        tag_value: None,
        column: false,
        verbose: false,
        include_header: false,
        include_trailer: false,
        info: false,
        secret: false,
        secret_files: false,
        secret_dir: None,
        validate: false,
        colour: None,
        style: OutputStyle::plain(),
        paging: PagingMode::Auto,
        pager: None,
        nowrap: false,
        summary: false,
        no_counts: false,
        follow: false,
        files: Vec::new(),
        delimiter: '\u{0001}',
    }
}

#[test]
fn resolve_input_files_defaults_to_stdin() {
    let opts = CliOptions {
        files: Vec::new(),
        ..dummy_opts("44")
    };
    let files = resolve_input_files(&opts);
    assert_eq!(files, vec!["-".to_string()]);
}

#[test]
fn resolve_input_files_preserves_inputs() {
    let opts = CliOptions {
        files: vec!["one".into(), "two".into()],
        ..dummy_opts("44")
    };
    let files = resolve_input_files(&opts);
    assert_eq!(files, vec!["one".to_string(), "two".to_string()]);
}

#[test]
fn multi_file_pager_requires_multiple_real_files() {
    let opts = CliOptions {
        paging: PagingMode::Always,
        ..dummy_opts("44")
    };
    assert!(!should_use_multi_file_pager(&opts, true, &vec!["one".into()], None));
    assert!(!should_use_multi_file_pager(
        &opts,
        true,
        &vec!["-".into(), "two".into()],
        None
    ));
    assert!(should_use_multi_file_pager(
        &opts,
        true,
        &vec!["one".into(), "two".into()],
        None
    ));
}

#[test]
fn multi_file_pager_rejects_shell_commands() {
    let opts = CliOptions {
        paging: PagingMode::Always,
        pager: Some("less -R | tee /tmp/fixdecoder.log".into()),
        ..dummy_opts("44")
    };
    assert!(!should_use_multi_file_pager(
        &opts,
        true,
        &vec!["one".into(), "two".into()],
        None
    ));
}

#[test]
fn secret_output_path_inserts_suffix_before_extension() {
    let input = "/tmp/orders.log";
    let output = secret_output_path(input, None).expect("secret path");
    assert_eq!(output, "/tmp/orders.secret.log");
}

#[test]
fn secret_output_path_uses_secret_dir_when_supplied() {
    let input = "/tmp/orders.log";
    let output =
        secret_output_path(input, Some("/var/tmp/secret")).expect("secret path");
    assert_eq!(output, "/var/tmp/secret/orders.secret.log");
}

#[test]
fn validate_cli_options_rejects_secret_dir_without_secret_files() {
    let opts = CliOptions {
        secret_dir: Some("out".into()),
        ..dummy_opts("44")
    };
    let err = validate_cli_options(&opts).unwrap_err();
    assert!(
        err.message.contains("--secret-dir requires --secret-files")
    );
}

#[test]
fn validate_cli_options_rejects_secret_files_without_inputs() {
    let opts = CliOptions {
        secret_files: true,
        files: Vec::new(),
        ..dummy_opts("44")
    };
    let err = validate_cli_options(&opts).unwrap_err();
    assert!(
        err.message.contains("--secret-files requires one or more input files")
    );
}

#[test]
fn parse_colour_recognises_yes_no() {
    assert_eq!(parse_colour(Some("yes")).unwrap(), Some(true));
    assert_eq!(parse_colour(Some("No")).unwrap(), Some(false));
    assert_eq!(parse_colour(Some("auto")).unwrap(), None);
    assert_eq!(
        parse_colour(Some("always")).unwrap(),
        Some(true)
    );
    assert_eq!(
        parse_colour(Some("never")).unwrap(),
        Some(false)
    );
    assert!(parse_colour(None).unwrap().is_none());
}

#[test]
fn parse_colour_rejects_invalid() {
    let err = parse_colour(Some("maybe")).unwrap_err();
    assert!(err.message.contains("invalid value"));
}

#[test]
fn parse_delimiter_accepts_hex() {
    let delim = parse_delimiter(Some("\\x01")).unwrap();
    assert_eq!(delim, '\u{0001}');
}

#[test]
fn parse_delimiter_rejects_empty() {
    let err = parse_delimiter(Some("")).unwrap_err();
    assert!(err.message.contains("empty"));
}

#[test]
fn parse_paging_defaults_and_accepts_expected_values() {
    assert_eq!(parse_paging(None).unwrap(), PagingMode::Auto);
    assert_eq!(
        parse_paging(Some("always")).unwrap(),
        PagingMode::Always
    );
    assert_eq!(
        parse_paging(Some("never")).unwrap(),
        PagingMode::Never
    );
}

#[test]
fn parse_output_style_supports_full_and_overrides() {
    assert_eq!(
        parse_output_style(Some("full"), false, false, false).unwrap(),
        OutputStyle::full()
    );
    assert_eq!(
        parse_output_style(Some("header,grid"), false, true, false).unwrap(),
        OutputStyle {
            show_numbers: true,
            show_header: true,
            show_grid: true,
        }
    );
    assert_eq!(
        parse_output_style(None, true, false, true).unwrap(),
        OutputStyle::plain()
    );
    assert_eq!(
        parse_output_style(None, true, true, true).unwrap(),
        OutputStyle::plain()
    );
}

#[test]
fn default_less_command_adds_no_wrap_flag() {
    assert_eq!(default_less_command(true, false), "less -FRX");
    assert_eq!(default_less_command(true, true), "less -FRX -S --shift=10");
    assert_eq!(default_less_command(false, true), "less -RX -S --shift=10");
}

#[test]
fn merged_less_options_appends_once() {
    assert_eq!(
        merged_less_options(None, &sideways()),
        "-S --shift=10"
    );
    assert_eq!(
        merged_less_options(Some("-R"), &sideways()),
        "-R -S --shift=10"
    );
    assert_eq!(
        merged_less_options(Some("-R -S"), &sideways()),
        "-R -S --shift=10"
    );
}

#[test]
fn effective_less_options_strip_horizontal_scroll_when_nowrap_is_disabled() {
    assert_eq!(effective_less_options(None, false), None);
    assert_eq!(
        effective_less_options(Some("-R -S --shift=10"), false),
        Some("-R".to_string())
    );
    assert_eq!(
        effective_less_options(Some("-RSX -#5"), false),
        Some("-RX".to_string())
    );
}

#[test]
fn effective_less_options_add_horizontal_scroll_only_for_nowrap() {
    assert_eq!(
        effective_less_options(Some("-R -S --shift=3"), true),
        Some("-R -S --shift=10".to_string())
    );
    assert_eq!(
        effective_less_options(Some("-R"), true),
        Some("-R -S --shift=10".to_string())
    );
}

#[test]
fn normalise_less_command_strips_horizontal_flags_when_wrapping() {
    assert_eq!(
        normalise_less_command("less -RS --shift=5 -M", false).unwrap(),
        "less -R -M"
    );
    assert_eq!(
        normalise_less_command("/usr/bin/less -S -RX", false).unwrap(),
        "/usr/bin/less -RX"
    );
}

#[test]
fn normalise_less_command_reapplies_nowrap_flags() {
    let command = normalise_less_command("less -R --shift=3", true).unwrap();
    assert_eq!(
        shlex::split(&command).unwrap(),
        vec!["less", "-R", "-S", "--shift=10"]
    );
}

#[test]
fn normalise_less_command_preserves_shell_pipeline_commands() {
    let command = "less -R | tee /tmp/fixdecoder.log";
    assert_eq!(normalise_less_command(command, false).unwrap(), command);
}

#[test]
fn uses_less_pager_detects_less_by_basename() {
    assert!(uses_less_pager("less -R"));
    assert!(uses_less_pager("/usr/bin/less -R"));
    assert!(!uses_less_pager("bat --paging=always"));
}

#[test]
fn invalid_fix_version_errors() {
    let opts = dummy_opts("45");
    let res = ensure_valid_fix_version(&opts, &TextMap::new());
    assert!(res.is_err());
}

#[test]
fn valid_fix_version_passes() {
    let opts = dummy_opts("44");
    let res = ensure_valid_fix_version(&opts, &TextMap::new());
    assert!(res.is_ok());
}

#[test]
fn parse_delimiter_accepts_literal() {
    let delim = parse_delimiter(Some(",")).unwrap();
    assert_eq!(delim, ',');
}

#[test]
fn normalise_fix_key_handles_variants() {
    assert_eq!(normalise_fix_key("4.4"), Some("FIX44".into()));
    assert_eq!(normalise_fix_key("fixt1.1"), Some("FIXT11".into()));
    assert!(normalise_fix_key("   ").is_none());
}

#[test]
fn dictionary_key_includes_service_pack() {
    let dict = FixDictionary {
        typ: "FIX".into(),
        major: "5".into(),
        minor: "0".into(),
        service_pack: Some("2".into()),
        fields: Default::default(),
        messages: Default::default(),
        components: Default::default(),
        header: Default::default(),
        trailer: Default::default(),
    };
    assert_eq!(dictionary_key(&dict), "FIX50SP2");
}

#[test]
fn dictionary_source_prefers_custom_entry() {
    let mut custom = TextMap::new();
    custom.insert(
        "FIX44",
        CustomDictionary {
            path: "/tmp/custom44.xml".into(),
            dict: FixDictionary {
                typ: "FIX".into(),
                major: "4".into(),
                minor: "4".into(),
                service_pack: None,
                fields: Default::default(),
                messages: Default::default(),
                components: Default::default(),
                header: Default::default(),
                trailer: Default::default(),
            },
        },
    );

    assert_eq!(dictionary_source(&custom, "fix44"), "/tmp/custom44.xml");
    assert_eq!(dictionary_source(&TextMap::new(), "FIX44"), "built-in");
    assert_eq!(
        dictionary_source(&TextMap::new(), "FIX27"),
        "built-in alias of FIX40"
    );
    assert_eq!(
        dictionary_source(&TextMap::new(), "fix30"),
        "built-in alias of FIX40"
    );
    let all = all_dictionary_keys(&custom);
    assert!(all.contains(&"FIX44".into()));
    assert!(all.contains(&"FIX27".into()));
}

#[test]
fn dictionary_marker_highlights_selected_entry() {
    assert_eq!(dictionary_marker(Some("fix44"), "FIX44"), "*");
    assert_eq!(dictionary_marker(Some("fix44"), "FIX50"), " ");
    assert_eq!(dictionary_marker(None, "FIX44"), " ");
}

#[test]
fn parse_paging_rejects_empty_and_unknown_values() {
    assert!(parse_paging(Some("")).is_err());
    assert!(parse_paging(Some("sometimes")).is_err());
}

#[test]
fn parse_output_style_value_rejects_invalid_component() {
    let err = parse_output_style_value("header,wat").unwrap_err();
    assert!(err.message.contains("invalid --style component"));
}

#[test]
fn find_message_supports_name_and_msg_type_queries() {
    let schema = load_schema_for_key("FIX44", &TextMap::new()).expect("load FIX44 schema");

    let by_name = find_message(&schema, "Heartbeat").expect("lookup by name");
    let by_type = find_message(&schema, "0").expect("lookup by msg type");

    assert_eq!(by_name.msg_type, "0");
    assert_eq!(by_type.name, "Heartbeat");
    assert!(find_message(&schema, "NoSuchMessage").is_none());
}

#[test]
fn session_component_helpers_cover_fix50_family() {
    assert!(!requires_session_components("FIX44"));
    assert!(requires_session_components("FIX50"));
    assert!(requires_session_components("FIX50SP1"));
    assert!(requires_session_components("FIX50SP2"));
    assert_eq!(key_to_xml_id("fix44"), Some("44"));
    assert_eq!(key_to_xml_id("FIXT11"), Some("T11"));
    assert_eq!(key_to_xml_id("FIX99"), None);
}

#[test]
fn ensure_session_components_backfills_missing_fix50_header_and_trailer() {
    let mut dict =
        FixDictionary::from_xml(choose_embedded_xml("50")).expect("parse FIX50");
    dict.header = Default::default();
    dict.trailer = Default::default();

    ensure_session_components("FIX50", &mut dict);

    assert!(component_def_has_entries(&dict.header));
    assert!(component_def_has_entries(&dict.trailer));
}

#[test]
fn component_def_has_entries_detects_fields_groups_and_components() {
    let mut block = ComponentDef::default();
    assert!(!component_def_has_entries(&block));

    block.fields.push(FieldRef {
        name: "BeginString".into(),
        required: Some("Y".into()),
    });
    assert!(component_def_has_entries(&block));

    let mut block = ComponentDef::default();
    block.groups.push(GroupDef {
        name: "NoPartyIDs".into(),
        required: Some("N".into()),
        fields: Vec::new(),
        groups: Vec::new(),
        components: Vec::new(),
        entries: Vec::new(),
    });
    assert!(component_def_has_entries(&block));

    let mut block = ComponentDef::default();
    block.components.push(ComponentRef {
        name: "Header".into(),
        _required: Some("Y".into()),
    });
    assert!(component_def_has_entries(&block));
}

#[test]
fn summarise_dictionary_counts_header_and_trailer_once() {
    let dict = FixDictionary::from_xml(choose_embedded_xml("44")).expect("parse FIX44");
    let summary = summarise_dictionary(&dict);

    assert_eq!(summary.field_count, dict.fields.items.len());
    assert_eq!(summary.message_count, dict.messages.items.len());
    assert_eq!(summary.component_count, dict.components.items.len() + 2);
    assert_eq!(summary.service_pack, "0");
}

#[test]
fn pager_process_spec_appends_file_paths() {
    let first = "/tmp/one.fix".to_string();
    let second = "/tmp/two.fix".to_string();

    let spec = pager_process_spec("less -R", false, &vec![first.clone(), second.clone()])
        .expect("pager process spec");
    assert_eq!(spec.executable, "less");
    assert_eq!(spec.args, vec!["-R".to_string(), first, second]);
    assert!(spec.less_executable);
}

#[test]
fn final_exit_code_marks_interrupt() {
    assert_eq!(130, final_exit_code(0, true));
    assert_eq!(1, final_exit_code(1, false));
}

fn args() -> ParsedArgs {
    ParsedArgs::none()
}

#[test]
fn summary_defaults_to_paging_always() {
    let given = ParsedArgs {
        summary: true,
        ..args()
    };
    let opts = CliOptions::from_matches(&given, None, false).expect("build opts");
    assert_eq!(opts.paging, PagingMode::Always);
}

#[test]
fn explicit_paging_overrides_summary_default() {
    let given = ParsedArgs {
        summary: true,
        paging: Some("never".into()),
        ..args()
    };
    let opts = CliOptions::from_matches(&given, None, false).expect("build opts");
    assert_eq!(opts.paging, PagingMode::Never);
}

#[test]
fn build_context_disables_live_status_when_paging_is_active() {
    let mut opts = dummy_opts("44");
    opts.paging = PagingMode::Always;
    let settings = build_settings(&opts, true, ColourPalette::plain(), 80);
    assert!(
        !settings.live_status_enabled,
        "live status should be disabled while output is flowing through a pager"
    );
    opts.paging = PagingMode::Never;
    let settings = build_settings(&opts, true, ColourPalette::plain(), 80);
    assert!(settings.live_status_enabled);
}

#[test]
fn parse_default_arg_matches_rejects_invalid_shell_quoting() {
    let err = split_default_args(Some("--pager=\"less -RX")).unwrap_err();
    assert!(err.message.contains(DEFAULT_ARGS_ENV));
    assert!(err.message.contains("shell-style quoting"));
}

#[test]
fn parse_default_arg_matches_rejects_input_files() {
    let given = ParsedArgs {
        number: true,
        files: vec!["orders.log".into()],
        ..args()
    };
    let err = check_default_args(&given).unwrap_err();
    assert!(err.message.contains(DEFAULT_ARGS_ENV));
    assert!(err.message.contains("input files"));
}

#[test]
fn parse_default_arg_matches_rejects_version_flag() {
    let given = ParsedArgs {
        version: true,
        ..args()
    };
    let err = check_default_args(&given).unwrap_err();
    assert!(err.message.contains(DEFAULT_ARGS_ENV));
    assert!(err.message.contains("--help or --version"));
}

#[test]
fn load_custom_dictionaries_keeps_last_duplicate_entry() {
    let mut dicts = TextMap::new();
    let mut store = DictionaryStore::new();
    let xml = choose_embedded_xml("44");
    let first = add_custom_dictionary(&mut dicts, &mut store, xml, "/tmp/first.xml")
        .expect("load first dictionary");
    assert_eq!(
        first,
        vec!["warning: custom dictionary for FIX44 overrides embedded dictionary using /tmp/first.xml\n"]
    );
    let second = add_custom_dictionary(&mut dicts, &mut store, xml, "/tmp/second.xml")
        .expect("load second dictionary");
    assert_eq!(
        second,
        vec!["warning: custom dictionary for FIX44 from /tmp/first.xml replaced by /tmp/second.xml\n"]
    );

    let fix44 = dicts.get("FIX44").expect("FIX44 custom dictionary");
    assert_eq!(fix44.path, "/tmp/second.xml");
    assert_eq!(fix44.dict.major, "4");
    assert_eq!(fix44.dict.minor, "4");
}

// ---------------------------------------------------------------------------
// Further cases

#[test]
fn damaged_custom_dictionaries_are_refused() {
    let mut dicts = TextMap::new();
    let mut store = DictionaryStore::new();
    let err = add_custom_dictionary(&mut dicts, &mut store, "<fix", "/tmp/bad.xml").unwrap_err();
    assert_eq!(err.message, "failed to parse FIX XML from /tmp/bad.xml");
    assert_eq!(dicts.len(), 0);
}

#[test]
fn command_line_goes_before_defaults() {
    let defaults = ParsedArgs {
        fix: Some("42".into()),
        xml: vec!["a.xml".into()],
        pager: Some("more".into()),
        validate: true,
        number: true,
        ..args()
    };
    let given = ParsedArgs {
        fix: Some("50".into()),
        xml: vec!["b.xml".into()],
        plain: true,
        files: vec!["x.log".into()],
        ..args()
    };
    let opts = CliOptions::from_matches(&given, Some(&defaults), true).expect("build opts");
    assert_eq!(opts.fix_version, "50");
    assert!(opts.fix_from_user);
    assert_eq!(opts.xml_paths, vec!["a.xml", "b.xml"]);
    assert_eq!(opts.pager.as_deref(), Some("more"));
    assert!(opts.validate);
    assert_eq!(opts.style, OutputStyle::plain());
    assert_eq!(opts.files, vec!["x.log"]);
    let bare = CliOptions::from_matches(&args(), None, true).expect("build opts");
    let same = CliOptions::from_matches(&args(), Some(&args()), true).expect("build opts");
    assert_eq!(format!("{bare:?}"), format!("{same:?}"));
    assert_eq!(bare.fix_version, "44");
    assert!(!bare.fix_from_user);
}

#[test]
fn optional_values_may_be_left_out() {
    let given = ParsedArgs {
        message: Some("true".into()),
        tag: Some("35".into()),
        ..args()
    };
    let opts = CliOptions::from_matches(&given, None, false).expect("build opts");
    assert!(opts.message_flag);
    assert_eq!(opts.message_value, None);
    assert_eq!(opts.tag_value.as_deref(), Some("35"));
    assert!(!opts.component_flag);
    assert_eq!(
        SchemaCommand::requested(&opts),
        vec![SchemaCommand::Messages, SchemaCommand::Tags]
    );
    let empty = ParsedArgs {
        component: Some(String::new()),
        ..args()
    };
    let err = CliOptions::from_matches(&empty, None, false).unwrap_err();
    assert_eq!(err.message, "Invalid value for --component");
    assert!(err.show_usage);
}

#[test]
fn delimiter_errors_are_told_apart() {
    assert_eq!(parse_delimiter(None).unwrap(), '\u{1}');
    assert_eq!(parse_delimiter(Some("soh")).unwrap(), '\u{1}');
    assert_eq!(parse_delimiter(Some("0x20ac")).unwrap(), '\u{20ac}');
    assert_eq!(
        parse_delimiter(Some("\\xzz")).unwrap_err().message,
        "invalid delimiter hex value: \\xzz"
    );
    assert_eq!(
        parse_delimiter(Some("\\xd800")).unwrap_err().message,
        "delimiter code \\xd800 is not valid Unicode"
    );
    assert_eq!(
        parse_delimiter(Some("ab")).unwrap_err().message,
        "delimiter must be a single character or hex code like \\x01"
    );
}

#[test]
fn secret_files_do_not_go_with_other_modes() {
    let base = || CliOptions {
        secret_files: true,
        files: vec!["one".into()],
        ..dummy_opts("44")
    };
    assert!(validate_cli_options(&base()).is_ok());
    let stdin = CliOptions {
        files: vec!["-".into()],
        ..base()
    };
    assert_eq!(
        validate_cli_options(&stdin).unwrap_err().message,
        "--secret-files requires real file paths; stdin is not supported"
    );
    let clash = CliOptions {
        follow: true,
        ..base()
    };
    assert_eq!(
        validate_cli_options(&clash).unwrap_err().message,
        "--secret-files cannot be combined with --follow"
    );
}

#[test]
fn secret_copies_are_distinct() {
    let plan = plan_secret_outputs(&vec!["/a/x.log".into(), "/b/x.log".into()], None, &vec![]).unwrap();
    assert_eq!(plan[0].output, "/a/x.secret.log");
    assert_eq!(plan[1].output, "/b/x.secret.log");
    let err = plan_secret_outputs(&vec!["/a/x.log".into(), "/b/x.log".into()], Some("/c"), &vec![])
        .unwrap_err();
    assert_eq!(err.message, "secret output path collision at /c/x.secret.log");
    let err = plan_secret_outputs(
        &vec!["/a/x.log".into(), "/b/x.log".into()],
        Some("/c"),
        &vec!["/c/x.secret.log".into()],
    )
    .unwrap_err();
    assert_eq!(
        err.message,
        "refusing to overwrite existing secret file /c/x.secret.log"
    );
    assert_eq!(secret_output_path("notes", None).unwrap(), "notes.secret");
    assert_eq!(secret_output_path(".rc", None).unwrap(), ".rc.secret");
    assert_eq!(
        secret_output_path("/", None).unwrap_err().message,
        "input path / has no file name"
    );
}

#[test]
fn pager_files_have_plain_names() {
    assert_eq!(
        rendered_pager_file_name(0, "/tmp/or ders.log"),
        "0001-or_ders.log.out"
    );
    assert_eq!(rendered_pager_file_name(11, "/"), "0012-stdin.out");
}

#[test]
fn pager_comes_from_the_first_source_that_names_one() {
    let auto = PagingMode::Auto;
    assert_eq!(
        resolve_pager_command(Some("bat"), Some("more"), auto, false),
        "bat"
    );
    assert_eq!(
        resolve_pager_command(Some("  "), Some("more"), auto, false),
        "more"
    );
    assert_eq!(
        resolve_pager_command(None, None, auto, true),
        "less -FRX -S --shift=10"
    );
    assert_eq!(
        resolve_pager_command(None, None, PagingMode::Always, false),
        "less -RX"
    );
    assert_eq!(
        resolve_pager_command(None, Some(""), PagingMode::Never, false),
        "cat"
    );
}

#[test]
fn pager_commands_that_cannot_take_files_are_refused() {
    let paths = vec!["a".to_string()];
    let err = pager_process_spec("less | tee x", false, &paths).unwrap_err();
    assert_eq!(
        err.message,
        "pager command cannot accept multiple files: less | tee x"
    );
    let err = pager_process_spec("less \"", false, &paths).unwrap_err();
    assert_eq!(err.message, "failed to parse pager command: less \"");
    let err = pager_process_spec("  ", false, &paths).unwrap_err();
    assert_eq!(err.message, "pager command is empty");
    let err = normalise_less_command("less a\0b", false).unwrap_err();
    assert_eq!(
        err.message,
        "failed to normalise pager command: cannot shell-quote string containing nul byte"
    );
}

#[test]
fn version_string_matches_components() {
    let expected = format!(
        "fixdecoder {} (branch:{}, commit:{}) [rust:{}]",
        "1.2.3",
        branch(None),
        sha(None),
        rust_version(None)
    );
    assert_eq!(
        version_string("1.2.3", branch(None), &sha(None), rust_version(None)),
        expected
    );
    assert_eq!(
        expected,
        "fixdecoder 1.2.3 (branch:main, commit:0000000) [rust:unknown]"
    );
}

#[test]
fn commits_are_cut_to_seven_bytes() {
    assert_eq!(sha(Some("0123456789")), "0123456");
    assert_eq!(sha(Some("abc")), "abc");
    assert_eq!(sha(Some("123456\u{e9}")), "123456\u{e9}");
    assert_eq!(branch(Some("work")), "work");
    assert_eq!(rust_version(Some("1.90.0")), "1.90.0");
}

#[test]
fn options_decide_how_a_run_goes() {
    let one = vec!["one.log".to_string()];
    let two = vec!["one.log".to_string(), "two.log".to_string()];
    let base = || CliOptions {
        paging: PagingMode::Auto,
        ..dummy_opts("44")
    };
    assert_eq!(RunMode::select(&base(), false, &one, None), RunMode::Plain);
    assert_eq!(
        RunMode::select(&base(), true, &one, None),
        RunMode::OutputPager
    );
    assert_eq!(
        RunMode::select(&base(), true, &two, None),
        RunMode::FilePager
    );
    assert_eq!(
        RunMode::select(&base(), true, &two, Some("less | cat")),
        RunMode::OutputPager
    );
    let summary = CliOptions {
        summary: true,
        ..base()
    };
    assert_eq!(
        RunMode::select(&summary, true, &two, None),
        RunMode::SummaryPager
    );
    assert_eq!(RunMode::select(&summary, false, &two, None), RunMode::Plain);
    let question = CliOptions {
        info: true,
        ..base()
    };
    assert_eq!(RunMode::select(&question, true, &two, None), RunMode::Queries);
    let copies = CliOptions {
        secret_files: true,
        ..question
    };
    assert_eq!(
        RunMode::select(&copies, true, &two, None),
        RunMode::SecretFiles
    );
}
