//! The command line: what its options mean, together with the default arguments.
use crate::cli_error::{plain_error, usage_error, CliError, CliErrorView};
use crate::colours::ColourPalette;
use crate::dictionaries::opt_str;
use crate::message_view::DecodeSettings;
use crate::order_record::borrowed;
use crate::output_style::OutputStyle;
use crate::outside::is_scalar;
use crate::pager_command::{pager_for, takes_files, PagingMode, pager_supports_file_inputs, resolve_pager_command};
use crate::text::{
    chars_of, contains_text, copy_of, hex_part, lowered, parse_hex, parsed_hex, same, same_ignoring_case,
    split, split_text, strip_hex_prefix, text_view, texts, to_lower, trim, trimmed, SOH,
};
use crate::words::{list_view, shell_words, split_command};
use vstd::prelude::*;

verus! {

broadcast use vstd::seq_lib::group_seq_properties;

/// The name of the variable that holds default arguments.
pub const DEFAULT_ARGS_ENV: &'static str = "FIXDECODER_DEFAULT_ARGS";

// ---------------------------------------------------------------------------
// Values

pub open spec fn colour_result(result: Result<Option<bool>, CliError>) -> Result<
    Option<bool>,
    CliErrorView,
> {
    match result {
        Ok(colour) => Ok(colour),
        Err(error) => Err(error@),
    }
}

/// Whether colours are forced on or off.
pub open spec fn colour_of(value: Option<Seq<char>>) -> Result<Option<bool>, CliErrorView> {
    match value {
        None => Ok(None),
        Some(text) => {
            let word = lowered(text);
            if text.len() == 0 {
                Ok(None)
            } else if word == "true"@ || word == "yes"@ || word == "always"@ {
                Ok(Some(true))
            } else if word == "false"@ || word == "no"@ || word == "never"@ {
                Ok(Some(false))
            } else if word == "auto"@ {
                Ok(None)
            } else {
                Err(usage_error("invalid value for --colour: "@ + word))
            }
        },
    }
}

/// Whether colours are forced on or off.
pub fn parse_colour(value: Option<&str>) -> (colour: Result<Option<bool>, CliError>)
    ensures
        colour_result(colour) == colour_of(opt_str(value)),
{
    let text = match value {
        Some(text) => text,
        None => {
            return Ok(None);
        },
    };
    if text.unicode_len() == 0 {
        return Ok(None);
    }
    let word = to_lower(text);
    let w = word.as_str();
    if same(w, "true") || same(w, "yes") || same(w, "always") {
        Ok(Some(true))
    } else if same(w, "false") || same(w, "no") || same(w, "never") {
        Ok(Some(false))
    } else if same(w, "auto") {
        Ok(None)
    } else {
        Err(CliError::with_usage("invalid value for --colour: ", w))
    }
}

pub open spec fn paging_result(result: Result<PagingMode, CliError>) -> Result<
    PagingMode,
    CliErrorView,
> {
    match result {
        Ok(mode) => Ok(mode),
        Err(error) => Err(error@),
    }
}

/// When output goes through a pager.
pub open spec fn paging_of(value: Option<Seq<char>>) -> Result<PagingMode, CliErrorView> {
    match value {
        None => Ok(PagingMode::Auto),
        Some(text) => {
            let word = lowered(trimmed(text));
            if word.len() == 0 {
                Err(usage_error("invalid value for --paging"@ + ""@))
            } else if word == "auto"@ {
                Ok(PagingMode::Auto)
            } else if word == "never"@ {
                Ok(PagingMode::Never)
            } else if word == "always"@ {
                Ok(PagingMode::Always)
            } else {
                Err(usage_error("invalid value for --paging: "@ + word))
            }
        },
    }
}

/// When output goes through a pager.
pub fn parse_paging(value: Option<&str>) -> (mode: Result<PagingMode, CliError>)
    ensures
        paging_result(mode) == paging_of(opt_str(value)),
{
    let text = match value {
        Some(text) => text,
        None => {
            return Ok(PagingMode::Auto);
        },
    };
    let word = to_lower(trim(text).as_str());
    let w = word.as_str();
    if w.unicode_len() == 0 {
        Err(CliError::with_usage("invalid value for --paging", ""))
    } else if same(w, "auto") {
        Ok(PagingMode::Auto)
    } else if same(w, "never") {
        Ok(PagingMode::Never)
    } else if same(w, "always") {
        Ok(PagingMode::Always)
    } else {
        Err(CliError::with_usage("invalid value for --paging: ", w))
    }
}

pub open spec fn delimiter_result(result: Result<char, CliError>) -> Result<char, CliErrorView> {
    match result {
        Ok(c) => Ok(c),
        Err(error) => Err(error@),
    }
}

/// The character shown between fields: itself, `SOH`, or a code in hexadecimal.
pub open spec fn delimiter_of(value: Option<Seq<char>>) -> Result<char, CliErrorView> {
    match value {
        None => Ok(SOH),
        Some(text) => if text.len() == 0 {
            Err(plain_error("delimiter cannot be empty"@ + ""@))
        } else if lowered(text) == lowered("SOH"@) {
            Ok(SOH)
        } else {
            match hex_part(text) {
                Some(digits) => match parsed_hex(digits, u32::MAX as nat) {
                    None => Err(plain_error("invalid delimiter hex value: "@ + text)),
                    Some(code) => if is_scalar(code) {
                        Ok(code as char)
                    } else {
                        Err(plain_error("delimiter code "@ + text + " is not valid Unicode"@))
                    },
                },
                None => if text.len() == 1 {
                    Ok(text[0])
                } else {
                    Err(
                        plain_error(
                            "delimiter must be a single character or hex code like \\x01"@ + ""@,
                        ),
                    )
                },
            }
        },
    }
}

/// The character shown between fields.
pub fn parse_delimiter(value: Option<&str>) -> (delimiter: Result<char, CliError>)
    ensures
        delimiter_result(delimiter) == delimiter_of(opt_str(value)),
{
    let text = match value {
        Some(text) => text,
        None => {
            return Ok(SOH);
        },
    };
    let chars = chars_of(text);
    if chars.len() == 0 {
        return Err(CliError::plain("delimiter cannot be empty", ""));
    }
    if same_ignoring_case(text, "SOH") {
        return Ok(SOH);
    }
    if let Some(digits) = strip_hex_prefix(text) {
        return match parse_hex(digits.as_str(), u32::MAX as u64) {
            None => Err(CliError::plain("invalid delimiter hex value: ", text)),
            Some(code) => match char::from_u32(code as u32) {
                Some(c) => Ok(c),
                None => {
                    let mut detail = copy_of(text);
                    detail.append(" is not valid Unicode");
                    assert("delimiter code "@ + (text@ + " is not valid Unicode"@)
                        =~= "delimiter code "@ + text@ + " is not valid Unicode"@);
                    Err(CliError::plain("delimiter code ", detail.as_str()))
                },
            },
        };
    }
    if chars.len() == 1 {
        return Ok(chars[0]);
    }
    Err(CliError::plain("delimiter must be a single character or hex code like \\x01", ""))
}

// ---------------------------------------------------------------------------
// Style

pub open spec fn style_result(result: Result<OutputStyle, CliError>) -> Result<
    OutputStyle,
    CliErrorView,
> {
    match result {
        Ok(style) => Ok(style),
        Err(error) => Err(error@),
    }
}

/// A style with one of its components added; `plain` and `full` stand for all of them.
pub open spec fn with_component(style: OutputStyle, token: Seq<char>) -> Result<
    OutputStyle,
    CliErrorView,
> {
    if token.len() == 0 {
        Ok(style)
    } else if token == "plain"@ {
        Ok(OutputStyle { show_numbers: false, show_header: false, show_grid: false })
    } else if token == "numbers"@ {
        Ok(OutputStyle { show_numbers: true, ..style })
    } else if token == "header"@ {
        Ok(OutputStyle { show_header: true, ..style })
    } else if token == "grid"@ {
        Ok(OutputStyle { show_grid: true, ..style })
    } else if token == "full"@ {
        Ok(OutputStyle { show_numbers: true, show_header: true, show_grid: true })
    } else {
        Err(usage_error("invalid --style component: "@ + token))
    }
}

/// The style that components make up, one after the other.
pub open spec fn style_from(tokens: Seq<Seq<char>>) -> Result<OutputStyle, CliErrorView>
    decreases tokens.len(),
{
    if tokens.len() == 0 {
        Ok(OutputStyle { show_numbers: false, show_header: false, show_grid: false })
    } else {
        match style_from(tokens.drop_last()) {
            Ok(style) => with_component(style, trimmed(tokens.last())),
            Err(error) => Err(error),
        }
    }
}

fn add_component(style: OutputStyle, token: &str) -> (next: Result<OutputStyle, CliError>)
    ensures
        style_result(next) == with_component(style, token@),
{
    if token.unicode_len() == 0 {
        Ok(style)
    } else if same(token, "plain") {
        Ok(OutputStyle::plain())
    } else if same(token, "numbers") {
        Ok(OutputStyle { show_numbers: true, ..style })
    } else if same(token, "header") {
        Ok(OutputStyle { show_header: true, ..style })
    } else if same(token, "grid") {
        Ok(OutputStyle { show_grid: true, ..style })
    } else if same(token, "full") {
        Ok(OutputStyle::full())
    } else {
        Err(CliError::with_usage("invalid --style component: ", token))
    }
}

proof fn lemma_style_stops(tokens: Seq<Seq<char>>, n: int)
    requires
        0 <= n <= tokens.len(),
        style_from(tokens.take(n)) is Err,
    ensures
        style_from(tokens) == style_from(tokens.take(n)),
    decreases tokens.len() - n,
{
    if n < tokens.len() {
        assert(tokens.take(n + 1).drop_last() =~= tokens.take(n));
        lemma_style_stops(tokens, n + 1);
    } else {
        assert(tokens.take(n) =~= tokens);
    }
}

/// The style that a list of components makes up.
pub fn parse_output_style_value(raw: &str) -> (style: Result<OutputStyle, CliError>)
    ensures
        style_result(style) == style_from(split(raw@, ',')),
{
    let tokens = split_text(raw, ',');
    let ghost all = texts(tokens@);
    let mut style = OutputStyle::plain();
    let mut i: usize = 0;
    assert(all.take(0) =~= seq![]);
    while i < tokens.len()
        invariant
            i <= tokens@.len(),
            all == texts(tokens@),
            all == split(raw@, ','),
            style_from(all.take(i as int)) == Ok::<OutputStyle, CliErrorView>(style),
        decreases tokens@.len() - i,
    {
        assert(all[i as int] == tokens@[i as int]@);
        assert(all.take(i + 1).drop_last() =~= all.take(i as int));
        match add_component(style, trim(tokens[i].as_str()).as_str()) {
            Ok(next) => {
                style = next;
            },
            Err(error) => {
                proof {
                    lemma_style_stops(all, i + 1);
                }
                return Err(error);
            },
        }
        i += 1;
    }
    assert(all.take(i as int) =~= all);
    Ok(style)
}

/// A style with what the options say of it.
pub open spec fn styled(
    style: OutputStyle,
    value: Option<Seq<char>>,
    plain: bool,
    number: bool,
) -> Result<OutputStyle, CliErrorView> {
    let named = match value {
        Some(raw) => if trimmed(raw).len() == 0 {
            Err(usage_error("invalid value for --style"@ + ""@))
        } else {
            style_from(split(raw, ','))
        },
        None => Ok(style),
    };
    match named {
        Ok(style) => Ok(
            if plain {
                OutputStyle { show_numbers: false, show_header: false, show_grid: false }
            } else {
                OutputStyle { show_numbers: style.show_numbers || number, ..style }
            },
        ),
        Err(error) => Err(error),
    }
}

/// A style with what the options say of it.
pub fn apply_output_style_overrides(
    style: OutputStyle,
    value: Option<&str>,
    plain: bool,
    number: bool,
) -> (next: Result<OutputStyle, CliError>)
    ensures
        style_result(next) == styled(style, opt_str(value), plain, number),
{
    let mut next = style;
    if let Some(raw) = value {
        if trim(raw).as_str().unicode_len() == 0 {
            return Err(CliError::with_usage("invalid value for --style", ""));
        }
        match parse_output_style_value(raw) {
            Ok(named) => {
                next = named;
            },
            Err(error) => {
                return Err(error);
            },
        }
    }
    if plain {
        return Ok(OutputStyle::plain());
    }
    if number {
        next = OutputStyle { show_numbers: true, ..next };
    }
    Ok(next)
}

/// The style for a terminal, or elsewhere, with what the options say of it.
pub fn parse_output_style(
    value: Option<&str>,
    plain: bool,
    number: bool,
    stdout_is_terminal: bool,
) -> (style: Result<OutputStyle, CliError>)
    ensures
        style_result(style) == styled(
            (OutputStyle {
                show_numbers: false,
                show_header: stdout_is_terminal,
                show_grid: stdout_is_terminal,
            }),
            opt_str(value),
            plain,
            number,
        ),
{
    apply_output_style_overrides(
        OutputStyle::default_for_terminal(stdout_is_terminal),
        value,
        plain,
        number,
    )
}

// ---------------------------------------------------------------------------
// Options

/// The arguments of one source: those that were given. An option without a value has the
/// value `true`.
#[derive(Debug)]
pub struct ParsedArgs {
    pub fix: Option<String>,
    pub xml: Vec<String>,
    pub message: Option<String>,
    pub component: Option<String>,
    pub tag: Option<String>,
    pub column: bool,
    pub verbose: bool,
    pub header: bool,
    pub trailer: bool,
    pub info: bool,
    pub secret: bool,
    pub secret_files: bool,
    pub secret_dir: Option<String>,
    pub validate: bool,
    pub colour: Option<String>,
    pub style: Option<String>,
    pub plain: bool,
    pub number: bool,
    pub paging: Option<String>,
    pub pager: Option<String>,
    pub nowrap: bool,
    pub summary: bool,
    pub no_counts: bool,
    pub follow: bool,
    pub version: bool,
    pub files: Vec<String>,
    pub delimiter: Option<String>,
}

/// The mathematical content of `ParsedArgs`.
pub struct ArgsView {
    pub fix: Option<Seq<char>>,
    pub xml: Seq<Seq<char>>,
    pub message: Option<Seq<char>>,
    pub component: Option<Seq<char>>,
    pub tag: Option<Seq<char>>,
    pub column: bool,
    pub verbose: bool,
    pub header: bool,
    pub trailer: bool,
    pub info: bool,
    pub secret: bool,
    pub secret_files: bool,
    pub secret_dir: Option<Seq<char>>,
    pub validate: bool,
    pub colour: Option<Seq<char>>,
    pub style: Option<Seq<char>>,
    pub plain: bool,
    pub number: bool,
    pub paging: Option<Seq<char>>,
    pub pager: Option<Seq<char>>,
    pub nowrap: bool,
    pub summary: bool,
    pub no_counts: bool,
    pub follow: bool,
    pub version: bool,
    pub files: Seq<Seq<char>>,
    pub delimiter: Option<Seq<char>>,
}

impl View for ParsedArgs {
    type V = ArgsView;

    open spec fn view(&self) -> ArgsView {
        ArgsView {
            fix: text_view(self.fix),
            xml: texts(self.xml@),
            message: text_view(self.message),
            component: text_view(self.component),
            tag: text_view(self.tag),
            column: self.column,
            verbose: self.verbose,
            header: self.header,
            trailer: self.trailer,
            info: self.info,
            secret: self.secret,
            secret_files: self.secret_files,
            secret_dir: text_view(self.secret_dir),
            validate: self.validate,
            colour: text_view(self.colour),
            style: text_view(self.style),
            plain: self.plain,
            number: self.number,
            paging: text_view(self.paging),
            pager: text_view(self.pager),
            nowrap: self.nowrap,
            summary: self.summary,
            no_counts: self.no_counts,
            follow: self.follow,
            version: self.version,
            files: texts(self.files@),
            delimiter: text_view(self.delimiter),
        }
    }
}

pub open spec fn no_args() -> ArgsView {
    ArgsView {
        fix: None,
        xml: seq![],
        message: None,
        component: None,
        tag: None,
        column: false,
        verbose: false,
        header: false,
        trailer: false,
        info: false,
        secret: false,
        secret_files: false,
        secret_dir: None,
        validate: false,
        colour: None,
        style: None,
        plain: false,
        number: false,
        paging: None,
        pager: None,
        nowrap: false,
        summary: false,
        no_counts: false,
        follow: false,
        version: false,
        files: seq![],
        delimiter: None,
    }
}

impl ParsedArgs {
    /// No arguments.
    pub fn none() -> (args: ParsedArgs)
        ensures
            args@ == no_args(),
    {
        let args = ParsedArgs {
            fix: None,
            xml: Vec::new(),
            message: None,
            component: None,
            tag: None,
            column: false,
            verbose: false,
            header: false,
            trailer: false,
            info: false,
            secret: false,
            secret_files: false,
            secret_dir: None,
            validate: false,
            colour: None,
            style: None,
            plain: false,
            number: false,
            paging: None,
            pager: None,
            nowrap: false,
            summary: false,
            no_counts: false,
            follow: false,
            version: false,
            files: Vec::new(),
            delimiter: None,
        };
        assert(args@.xml =~= seq![]);
        assert(args@.files =~= seq![]);
        args
    }
}

/// What was asked for.
#[derive(Debug)]
pub struct CliOptions {
    pub fix_version: String,
    pub fix_from_user: bool,
    pub xml_paths: Vec<String>,
    pub message_flag: bool,
    pub message_value: Option<String>,
    pub component_flag: bool,
    pub component_value: Option<String>,
    pub tag_flag: bool,
    pub tag_value: Option<String>,
    pub column: bool,
    pub verbose: bool,
    pub include_header: bool,
    pub include_trailer: bool,
    pub info: bool,
    pub secret: bool,
    pub secret_files: bool,
    pub secret_dir: Option<String>,
    pub validate: bool,
    pub colour: Option<bool>,
    pub style: OutputStyle,
    pub paging: PagingMode,
    pub pager: Option<String>,
    pub nowrap: bool,
    pub summary: bool,
    pub no_counts: bool,
    pub follow: bool,
    pub files: Vec<String>,
    pub delimiter: char,
}

/// The mathematical content of `CliOptions`.
pub struct OptionsView {
    pub fix_version: Seq<char>,
    pub fix_from_user: bool,
    pub xml_paths: Seq<Seq<char>>,
    pub message_flag: bool,
    pub message_value: Option<Seq<char>>,
    pub component_flag: bool,
    pub component_value: Option<Seq<char>>,
    pub tag_flag: bool,
    pub tag_value: Option<Seq<char>>,
    pub column: bool,
    pub verbose: bool,
    pub include_header: bool,
    pub include_trailer: bool,
    pub info: bool,
    pub secret: bool,
    pub secret_files: bool,
    pub secret_dir: Option<Seq<char>>,
    pub validate: bool,
    pub colour: Option<bool>,
    pub style: OutputStyle,
    pub paging: PagingMode,
    pub pager: Option<Seq<char>>,
    pub nowrap: bool,
    pub summary: bool,
    pub no_counts: bool,
    pub follow: bool,
    pub files: Seq<Seq<char>>,
    pub delimiter: char,
}

impl View for CliOptions {
    type V = OptionsView;

    open spec fn view(&self) -> OptionsView {
        OptionsView {
            fix_version: self.fix_version@,
            fix_from_user: self.fix_from_user,
            xml_paths: texts(self.xml_paths@),
            message_flag: self.message_flag,
            message_value: text_view(self.message_value),
            component_flag: self.component_flag,
            component_value: text_view(self.component_value),
            tag_flag: self.tag_flag,
            tag_value: text_view(self.tag_value),
            column: self.column,
            verbose: self.verbose,
            include_header: self.include_header,
            include_trailer: self.include_trailer,
            info: self.info,
            secret: self.secret,
            secret_files: self.secret_files,
            secret_dir: text_view(self.secret_dir),
            validate: self.validate,
            colour: self.colour,
            style: self.style,
            paging: self.paging,
            pager: text_view(self.pager),
            nowrap: self.nowrap,
            summary: self.summary,
            no_counts: self.no_counts,
            follow: self.follow,
            files: texts(self.files@),
            delimiter: self.delimiter,
        }
    }
}

/// The value of the command line, or else the default one.
pub open spec fn first_of(own: Option<Seq<char>>, default: Option<Seq<char>>) -> Option<Seq<char>> {
    match own {
        Some(text) => Some(text),
        None => default,
    }
}

/// The value of an option that may stand without one; an empty one is refused.
pub open spec fn optional_value(given: Option<Seq<char>>, name: Seq<char>) -> Result<
    Option<Seq<char>>,
    CliErrorView,
> {
    match given {
        None => Ok(None),
        Some(text) => if text.len() == 0 {
            Err(usage_error("Invalid value for --"@ + name))
        } else if text == "true"@ {
            Ok(None)
        } else {
            Ok(Some(text))
        },
    }
}

/// When output goes through a pager: as asked, and for a summary by default always.
pub open spec fn paging_for(value: Option<Seq<char>>, summary: bool) -> Result<
    PagingMode,
    CliErrorView,
> {
    match value {
        Some(text) => paging_of(Some(text)),
        None => if summary {
            Ok(PagingMode::Always)
        } else {
            Ok(PagingMode::Auto)
        },
    }
}

/// The style of a terminal, or elsewhere, with what the defaults and then the command line
/// say of it.
pub open spec fn style_for(args: ArgsView, defaults: Option<ArgsView>, terminal: bool) -> Result<
    OutputStyle,
    CliErrorView,
> {
    let start = OutputStyle {
        show_numbers: false,
        show_header: terminal,
        show_grid: terminal,
    };
    let base = match defaults {
        Some(d) => styled(start, d.style, d.plain, d.number),
        None => Ok(start),
    };
    match base {
        Ok(style) => styled(style, args.style, args.plain, args.number),
        Err(error) => Err(error),
    }
}

/// The values of options that have to be read.
pub struct ReadValues {
    pub paging: PagingMode,
    pub message: Option<Seq<char>>,
    pub component: Option<Seq<char>>,
    pub tag: Option<Seq<char>>,
    pub colour: Option<bool>,
    pub style: OutputStyle,
    pub delimiter: char,
}

/// Option values read one after the other; the first that cannot be read is reported.
#[verifier::opaque]
pub open spec fn values_of(args: ArgsView, defaults: Option<ArgsView>, terminal: bool) -> Result<
    ReadValues,
    CliErrorView,
> {
    let d = match defaults {
        Some(d) => d,
        None => no_args(),
    };
    match paging_for(first_of(args.paging, d.paging), args.summary || d.summary) {
        Err(error) => Err(error),
        Ok(paging) => match optional_value(first_of(args.message, d.message), "message"@) {
            Err(error) => Err(error),
            Ok(message) => match optional_value(
                first_of(args.component, d.component),
                "component"@,
            ) {
                Err(error) => Err(error),
                Ok(component) => match optional_value(first_of(args.tag, d.tag), "tag"@) {
                    Err(error) => Err(error),
                    Ok(tag) => match colour_of(first_of(args.colour, d.colour)) {
                        Err(error) => Err(error),
                        Ok(colour) => match style_for(args, defaults, terminal) {
                            Err(error) => Err(error),
                            Ok(style) => match delimiter_of(
                                first_of(args.delimiter, d.delimiter),
                            ) {
                                Err(error) => Err(error),
                                Ok(delimiter) => Ok(
                                    ReadValues {
                                        paging,
                                        message,
                                        component,
                                        tag,
                                        colour,
                                        style,
                                        delimiter,
                                    },
                                ),
                            },
                        },
                    },
                },
            },
        },
    }
}

/// What arguments ask for. A value on the command line takes the place of a default one,
/// flags and dictionaries add up, and files come from the command line alone.
pub open spec fn options_of(args: ArgsView, defaults: Option<ArgsView>, terminal: bool) -> Result<
    OptionsView,
    CliErrorView,
> {
    let d = match defaults {
        Some(d) => d,
        None => no_args(),
    };
    match values_of(args, defaults, terminal) {
        Err(error) => Err(error),
        Ok(read) => Ok(
            OptionsView {
                fix_version: match first_of(args.fix, d.fix) {
                    Some(version) => version,
                    None => "44"@,
                },
                fix_from_user: args.fix is Some || d.fix is Some,
                xml_paths: d.xml + args.xml,
                message_flag: first_of(args.message, d.message) is Some,
                message_value: read.message,
                component_flag: first_of(args.component, d.component) is Some,
                component_value: read.component,
                tag_flag: first_of(args.tag, d.tag) is Some,
                tag_value: read.tag,
                column: args.column || d.column,
                verbose: args.verbose || d.verbose,
                include_header: args.header || d.header,
                include_trailer: args.trailer || d.trailer,
                info: args.info || d.info,
                secret: args.secret || d.secret,
                secret_files: args.secret_files || d.secret_files,
                secret_dir: first_of(args.secret_dir, d.secret_dir),
                validate: args.validate || d.validate,
                colour: read.colour,
                style: read.style,
                paging: read.paging,
                pager: first_of(args.pager, d.pager),
                nowrap: args.nowrap || d.nowrap,
                summary: args.summary || d.summary,
                no_counts: args.no_counts || d.no_counts,
                follow: args.follow || d.follow,
                files: args.files,
                delimiter: read.delimiter,
            },
        ),
    }
}

fn selected_value<'a>(own: &'a Option<String>, default: &'a Option<String>) -> (value: Option<
    &'a str,
>)
    ensures
        opt_str(value) == first_of(text_view(*own), text_view(*default)),
{
    match own {
        Some(text) => Some(text.as_str()),
        None => borrowed(default),
    }
}

fn is_given(own: &Option<String>, default: &Option<String>) -> (yes: bool)
    ensures
        yes == (first_of(text_view(*own), text_view(*default)) is Some),
{
    own.is_some() || default.is_some()
}

fn owned(value: Option<&str>) -> (copy: Option<String>)
    ensures
        text_view(copy) == opt_str(value),
{
    match value {
        Some(text) => Some(copy_of(text)),
        None => None,
    }
}

pub open spec fn value_result(result: Result<Option<String>, CliError>) -> Result<
    Option<Seq<char>>,
    CliErrorView,
> {
    match result {
        Ok(value) => Ok(text_view(value)),
        Err(error) => Err(error@),
    }
}

/// The value of an option that may stand without one.
pub fn extract_optional_arg(given: Option<&str>, name: &str) -> (value: Result<
    Option<String>,
    CliError,
>)
    ensures
        value_result(value) == optional_value(opt_str(given), name@),
{
    match given {
        None => Ok(None),
        Some(text) => if text.unicode_len() == 0 {
            Err(CliError::with_usage("Invalid value for --", name))
        } else if same(text, "true") {
            Ok(None)
        } else {
            Ok(Some(copy_of(text)))
        },
    }
}

fn copy_list(list: &Vec<String>) -> (copy: Vec<String>)
    ensures
        texts(copy@) == texts(list@),
{
    let mut copy: Vec<String> = Vec::new();
    push_list(&mut copy, list);
    assert(texts(copy@) =~= texts(list@));
    copy
}

fn push_list(target: &mut Vec<String>, list: &Vec<String>)
    ensures
        texts(final(target)@) == texts(old(target)@) + texts(list@),
{
    let ghost start = texts(target@);
    let ghost all = texts(list@);
    let mut i: usize = 0;
    assert(all.take(0) =~= seq![]);
    while i < list.len()
        invariant
            i <= list@.len(),
            all == texts(list@),
            texts(target@) == start + all.take(i as int),
        decreases list@.len() - i,
    {
        assert(all[i as int] == list@[i as int]@);
        let ghost before = texts(target@);
        target.push(copy_of(list[i].as_str()));
        assert(texts(target@) =~= before.push(all[i as int]));
        assert(all.take(i + 1) =~= all.take(i as int).push(all[i as int]));
        i += 1;
    }
    assert(all.take(i as int) =~= all);
}

struct Values {
    paging: PagingMode,
    message: Option<String>,
    component: Option<String>,
    tag: Option<String>,
    colour: Option<bool>,
    style: OutputStyle,
    delimiter: char,
}

spec fn values_view(result: Result<Values, CliError>) -> Result<ReadValues, CliErrorView> {
    match result {
        Ok(v) => Ok(
            ReadValues {
                paging: v.paging,
                message: text_view(v.message),
                component: text_view(v.component),
                tag: text_view(v.tag),
                colour: v.colour,
                style: v.style,
                delimiter: v.delimiter,
            },
        ),
        Err(error) => Err(error@),
    }
}

fn choose_paging(value: Option<&str>, summary: bool) -> (mode: Result<PagingMode, CliError>)
    ensures
        paging_result(mode) == paging_for(opt_str(value), summary),
{
    match value {
        Some(text) => parse_paging(Some(text)),
        None => if summary {
            Ok(PagingMode::Always)
        } else {
            Ok(PagingMode::Auto)
        },
    }
}

pub open spec fn args_view(args: Option<&ParsedArgs>) -> Option<ArgsView> {
    match args {
        Some(args) => Some(args@),
        None => None,
    }
}

/// The style of a terminal, or elsewhere, with what the defaults and then the command line
/// say of it.
pub fn resolve_output_style(
    args: &ParsedArgs,
    defaults: Option<&ParsedArgs>,
    stdout_is_terminal: bool,
) -> (style: Result<OutputStyle, CliError>)
    ensures
        style_result(style) == style_for(args@, args_view(defaults), stdout_is_terminal),
{
    let mut style = OutputStyle::default_for_terminal(stdout_is_terminal);
    if let Some(defaults) = defaults {
        match apply_output_style_overrides(
            style,
            borrowed(&defaults.style),
            defaults.plain,
            defaults.number,
        ) {
            Ok(next) => {
                style = next;
            },
            Err(error) => {
                return Err(error);
            },
        }
    }
    apply_output_style_overrides(style, borrowed(&args.style), args.plain, args.number)
}

fn read_values(
    args: &ParsedArgs,
    defaults: Option<&ParsedArgs>,
    d: &ParsedArgs,
    stdout_is_terminal: bool,
) -> (values: Result<Values, CliError>)
    requires
        d@ == match defaults {
            Some(defaults) => defaults@,
            None => no_args(),
        },
    ensures
        values_view(values) == values_of(args@, args_view(defaults), stdout_is_terminal),
{
    proof {
        reveal(values_of);
    }
    let paging = match choose_paging(
        selected_value(&args.paging, &d.paging),
        args.summary || d.summary,
    ) {
        Ok(paging) => paging,
        Err(error) => {
            return Err(error);
        },
    };
    let message = match extract_optional_arg(
        selected_value(&args.message, &d.message),
        "message",
    ) {
        Ok(value) => value,
        Err(error) => {
            return Err(error);
        },
    };
    let component = match extract_optional_arg(
        selected_value(&args.component, &d.component),
        "component",
    ) {
        Ok(value) => value,
        Err(error) => {
            return Err(error);
        },
    };
    let tag = match extract_optional_arg(selected_value(&args.tag, &d.tag), "tag") {
        Ok(value) => value,
        Err(error) => {
            return Err(error);
        },
    };
    let colour: Option<bool> = match parse_colour(selected_value(&args.colour, &d.colour)) {
        Ok(value) => value,
        Err(error) => {
            return Err(error);
        },
    };
    let style = match resolve_output_style(args, defaults, stdout_is_terminal) {
        Ok(value) => value,
        Err(error) => {
            return Err(error);
        },
    };
    let delimiter: char = match parse_delimiter(selected_value(&args.delimiter, &d.delimiter)) {
        Ok(value) => value,
        Err(error) => {
            return Err(error);
        },
    };
    Ok(Values { paging, message, component, tag, colour, style, delimiter })
}

pub open spec fn options_result(result: Result<CliOptions, CliError>) -> Result<
    OptionsView,
    CliErrorView,
> {
    match result {
        Ok(options) => Ok(options@),
        Err(error) => Err(error@),
    }
}

fn chosen_version(own: &Option<String>, default: &Option<String>) -> (version: String)
    ensures
        version@ == match first_of(text_view(*own), text_view(*default)) {
            Some(version) => version,
            None => "44"@,
        },
{
    match selected_value(own, default) {
        Some(version) => copy_of(version),
        None => copy_of("44"),
    }
}

impl CliOptions {
    /// What arguments ask for, together with the default ones.
    pub fn from_matches(
        args: &ParsedArgs,
        defaults: Option<&ParsedArgs>,
        stdout_is_terminal: bool,
    ) -> (options: Result<CliOptions, CliError>)
        ensures
            options_result(options) == options_of(args@, args_view(defaults), stdout_is_terminal),
    {
        let none = ParsedArgs::none();
        let d: &ParsedArgs = match defaults {
            Some(defaults) => defaults,
            None => &none,
        };
        let read = match read_values(args, defaults, d, stdout_is_terminal) {
            Ok(read) => read,
            Err(error) => {
                return Err(error);
            },
        };
        let fix_version = chosen_version(&args.fix, &d.fix);
        let mut xml_paths = copy_list(&d.xml);
        push_list(&mut xml_paths, &args.xml);
        let options = CliOptions {
            fix_version,
            fix_from_user: is_given(&args.fix, &d.fix),
            xml_paths,
            message_flag: is_given(&args.message, &d.message),
            message_value: read.message,
            component_flag: is_given(&args.component, &d.component),
            component_value: read.component,
            tag_flag: is_given(&args.tag, &d.tag),
            tag_value: read.tag,
            column: args.column || d.column,
            verbose: args.verbose || d.verbose,
            include_header: args.header || d.header,
            include_trailer: args.trailer || d.trailer,
            info: args.info || d.info,
            secret: args.secret || d.secret,
            secret_files: args.secret_files || d.secret_files,
            secret_dir: owned(selected_value(&args.secret_dir, &d.secret_dir)),
            validate: args.validate || d.validate,
            colour: read.colour,
            style: read.style,
            paging: read.paging,
            pager: owned(selected_value(&args.pager, &d.pager)),
            nowrap: args.nowrap || d.nowrap,
            summary: args.summary || d.summary,
            no_counts: args.no_counts || d.no_counts,
            follow: args.follow || d.follow,
            files: copy_list(&args.files),
            delimiter: read.delimiter,
        };
        Ok(options)
    }
}

// ---------------------------------------------------------------------------
// Options that do not go together

/// The option that does not go with writing secret files, if one is set.
pub open spec fn clashing_flag(o: OptionsView) -> Option<Seq<char>> {
    if o.info {
        Some("--info"@)
    } else if o.message_flag {
        Some("--message"@)
    } else if o.component_flag {
        Some("--component"@)
    } else if o.tag_flag {
        Some("--tag"@)
    } else if o.validate {
        Some("--validate"@)
    } else if o.summary {
        Some("--summary"@)
    } else if o.follow {
        Some("--follow"@)
    } else if o.no_counts {
        Some("--nocounts"@)
    } else {
        None
    }
}

/// What is wrong with a set of options, if anything.
pub open spec fn options_error(o: OptionsView) -> Option<CliErrorView> {
    if o.secret_dir is Some && !o.secret_files {
        Some(plain_error("--secret-dir requires --secret-files"@ + ""@))
    } else if !o.secret_files {
        None
    } else if o.files.len() == 0 {
        Some(plain_error("--secret-files requires one or more input files"@ + ""@))
    } else if o.files.contains("-"@) {
        Some(
            plain_error(
                "--secret-files requires real file paths; stdin is not supported"@ + ""@,
            ),
        )
    } else {
        match clashing_flag(o) {
            Some(flag) => Some(plain_error("--secret-files cannot be combined with "@ + flag)),
            None => None,
        }
    }
}

pub open spec fn unit_result(result: Result<(), CliError>) -> Option<CliErrorView> {
    match result {
        Ok(_) => None,
        Err(error) => Some(error@),
    }
}

fn find_clash(opts: &CliOptions) -> (flag: Option<&'static str>)
    ensures
        opt_str(flag) == clashing_flag(opts@),
{
    if opts.info {
        Some("--info")
    } else if opts.message_flag {
        Some("--message")
    } else if opts.component_flag {
        Some("--component")
    } else if opts.tag_flag {
        Some("--tag")
    } else if opts.validate {
        Some("--validate")
    } else if opts.summary {
        Some("--summary")
    } else if opts.follow {
        Some("--follow")
    } else if opts.no_counts {
        Some("--nocounts")
    } else {
        None
    }
}

/// Refuses options that do not go together.
pub fn validate_cli_options(opts: &CliOptions) -> (result: Result<(), CliError>)
    ensures
        unit_result(result) == options_error(opts@),
{
    if opts.secret_dir.is_some() && !opts.secret_files {
        return Err(CliError::plain("--secret-dir requires --secret-files", ""));
    }
    if !opts.secret_files {
        return Ok(());
    }
    assert(opts@.files.len() == opts.files@.len());
    if opts.files.len() == 0 {
        return Err(CliError::plain("--secret-files requires one or more input files", ""));
    }
    if contains_text(&opts.files, "-") {
        return Err(
            CliError::plain("--secret-files requires real file paths; stdin is not supported", ""),
        );
    }
    match find_clash(opts) {
        Some(flag) => Err(CliError::plain("--secret-files cannot be combined with ", flag)),
        None => Ok(()),
    }
}

// ---------------------------------------------------------------------------
// Default arguments

pub open spec fn words_result(result: Result<Option<Vec<String>>, CliError>) -> Result<
    Option<Seq<Seq<char>>>,
    CliErrorView,
> {
    match result {
        Ok(words) => Ok(list_view(words)),
        Err(error) => Err(error@),
    }
}

/// The default arguments, given the words that the variable is made of. A blank variable
/// stands for none.
pub open spec fn default_words(raw: Option<Seq<char>>, words: Option<Seq<Seq<char>>>) -> Result<
    Option<Seq<Seq<char>>>,
    CliErrorView,
> {
    match raw {
        None => Ok(None),
        Some(text) => if trimmed(text).len() == 0 {
            Ok(None)
        } else {
            match words {
                Some(words) => Ok(Some(words)),
                None => Err(
                    plain_error(DEFAULT_ARGS_ENV@ + " contains invalid shell-style quoting"@),
                ),
            }
        },
    }
}

/// The default arguments in a variable's value.
pub fn split_default_args(raw: Option<&str>) -> (words: Result<Option<Vec<String>>, CliError>)
    ensures
        words_result(words) == default_words(
            opt_str(raw),
            match raw {
                Some(text) => shell_words(trimmed(text@)),
                None => None,
            },
        ),
{
    let text = match raw {
        Some(text) => trim(text),
        None => {
            return Ok(None);
        },
    };
    if text.as_str().unicode_len() == 0 {
        return Ok(None);
    }
    match split_command(text.as_str()) {
        Some(words) => Ok(Some(words)),
        None => Err(CliError::plain(DEFAULT_ARGS_ENV, " contains invalid shell-style quoting")),
    }
}

/// What is wrong with default arguments, if anything.
pub open spec fn defaults_error(args: ArgsView) -> Option<CliErrorView> {
    if args.files.len() > 0 {
        Some(
            plain_error(
                DEFAULT_ARGS_ENV@
                    + " may not include input files; pass files on the command line"@,
            ),
        )
    } else if args.version {
        Some(plain_error(DEFAULT_ARGS_ENV@ + " may not include --help or --version"@))
    } else {
        None
    }
}

/// Refuses files and a request for the version among the default arguments.
pub fn check_default_args(args: &ParsedArgs) -> (result: Result<(), CliError>)
    ensures
        unit_result(result) == defaults_error(args@),
{
    assert(args@.files.len() == args.files@.len());
    if args.files.len() > 0 {
        return Err(
            CliError::plain(
                DEFAULT_ARGS_ENV,
                " may not include input files; pass files on the command line",
            ),
        );
    }
    if args.version {
        return Err(CliError::plain(DEFAULT_ARGS_ENV, " may not include --help or --version"));
    }
    Ok(())
}

// ---------------------------------------------------------------------------
// What follows from the options

/// The inputs; standard input where none is named.
pub open spec fn inputs_of(o: OptionsView) -> Seq<Seq<char>> {
    if o.files.len() == 0 {
        seq!["-"@]
    } else {
        o.files
    }
}

/// The inputs; standard input where none is named.
pub fn resolve_input_files(opts: &CliOptions) -> (files: Vec<String>)
    ensures
        texts(files@) == inputs_of(opts@),
{
    assert(opts@.files.len() == opts.files@.len());
    if opts.files.len() == 0 {
        let mut files: Vec<String> = Vec::new();
        files.push(copy_of("-"));
        assert(texts(files@) =~= seq!["-"@]);
        return files;
    }
    copy_list(&opts.files)
}

/// Whether each input is shown as a file of its own.
pub open spec fn pages_files(
    o: OptionsView,
    terminal: bool,
    files: Seq<Seq<char>>,
    environment: Option<Seq<char>>,
) -> bool {
    let command = pager_for(o.pager, environment, o.paging, o.nowrap);
    &&& !o.summary
    &&& o.paging.pages(terminal, o.follow)
    &&& files.len() >= 2
    &&& !files.contains("-"@)
    &&& takes_files(command, shell_words(command))
}

/// Whether each input is shown as a file of its own: several of them, none of them standard
/// input, in a pager that takes files.
pub fn should_use_multi_file_pager(
    opts: &CliOptions,
    stdout_is_terminal: bool,
    files: &Vec<String>,
    environment: Option<&str>,
) -> (yes: bool)
    ensures
        yes == pages_files(opts@, stdout_is_terminal, texts(files@), opt_str(environment)),
{
    assert(texts(files@).len() == files@.len());
    if opts.summary || !opts.paging.should_use_pager(stdout_is_terminal, opts.follow) || files.len()
        < 2 || contains_text(files, "-") {
        return false;
    }
    let command = resolve_pager_command(
        borrowed(&opts.pager),
        environment,
        opts.paging,
        opts.nowrap,
    );
    pager_supports_file_inputs(command.as_str())
}

/// Whether the summary is shown in the split view.
pub fn should_use_summary_pager(opts: &CliOptions, stdout_is_terminal: bool) -> (yes: bool)
    ensures
        yes == (opts@.summary && opts@.paging.pages(stdout_is_terminal, opts@.follow)),
{
    opts.summary && opts.paging.should_use_pager(stdout_is_terminal, opts.follow)
}

/// Whether output is coloured: as asked, and otherwise on a terminal.
pub fn uses_colour(opts: &CliOptions, stdout_is_terminal: bool) -> (yes: bool)
    ensures
        yes == match opts@.colour {
            Some(forced) => forced,
            None => stdout_is_terminal,
        },
{
    match opts.colour {
        Some(forced) => forced,
        None => stdout_is_terminal,
    }
}

/// The settings that lines are decoded with.
pub open spec fn settings_of(
    o: OptionsView,
    terminal: bool,
    colours: ColourPalette,
    terminal_width: usize,
) -> DecodeSettings {
    let paged = o.paging.pages(terminal, o.follow);
    DecodeSettings {
        display_delimiter: o.delimiter,
        style: o.style,
        wide_grid: o.nowrap && paged,
        follow: o.follow,
        live_status_enabled: terminal && !paged,
        validation_enabled: o.validate,
        no_counts: o.no_counts,
        colours,
        terminal_width,
    }
}

/// The settings that lines are decoded with. A status is shown only on a terminal without a
/// pager.
pub fn build_settings(
    opts: &CliOptions,
    stdout_is_terminal: bool,
    colours: ColourPalette,
    terminal_width: usize,
) -> (settings: DecodeSettings)
    ensures
        settings == settings_of(opts@, stdout_is_terminal, colours, terminal_width),
{
    let paged: bool = opts.paging.should_use_pager(stdout_is_terminal, opts.follow);
    DecodeSettings {
        display_delimiter: opts.delimiter,
        style: opts.style,
        wide_grid: opts.nowrap && paged,
        follow: opts.follow,
        live_status_enabled: stdout_is_terminal && !paged,
        validation_enabled: opts.validate,
        no_counts: opts.no_counts,
        colours,
        terminal_width,
    }
}

/// The exit code: a code of its own for an interrupted run.
pub fn final_exit_code(code: i32, interrupted: bool) -> (last: i32)
    ensures
        last == if interrupted {
            130
        } else {
            code
        },
{
    if interrupted {
        130
    } else {
        code
    }
}

/// What is written where an override had no dictionary.
pub fn override_notice(colours: ColourPalette) -> (text: String)
    ensures
        text@ == colours.error@ + "Notice:"@ + colours.reset@
            + " FIX override not found; decoded using detected dictionary\n"@,
{
    let mut text = copy_of(colours.error);
    text.append("Notice:");
    text.append(colours.reset);
    text.append(" FIX override not found; decoded using detected dictionary\n");
    text
}

/// A question about the dictionary.
#[derive(Clone, Copy, Debug, PartialEq, Eq, Structural)]
pub enum SchemaCommand {
    Info,
    Messages,
    Tags,
    Components,
}

/// The questions that options ask.
pub open spec fn questions(o: OptionsView) -> Seq<SchemaCommand> {
    let a = if o.info {
        seq![SchemaCommand::Info]
    } else {
        seq![]
    };
    let b = if o.message_flag {
        a.push(SchemaCommand::Messages)
    } else {
        a
    };
    let c = if o.tag_flag {
        b.push(SchemaCommand::Tags)
    } else {
        b
    };
    if o.component_flag {
        c.push(SchemaCommand::Components)
    } else {
        c
    }
}

impl SchemaCommand {
    /// The questions that options ask.
    pub fn requested(opts: &CliOptions) -> (commands: Vec<SchemaCommand>)
        ensures
            commands@ == questions(opts@),
    {
        let mut commands: Vec<SchemaCommand> = Vec::new();
        if opts.info {
            commands.push(SchemaCommand::Info);
        }
        assert(commands@ =~= if opts@.info {
            seq![SchemaCommand::Info]
        } else {
            seq![]
        });
        if opts.message_flag {
            commands.push(SchemaCommand::Messages);
        }
        if opts.tag_flag {
            commands.push(SchemaCommand::Tags);
        }
        if opts.component_flag {
            commands.push(SchemaCommand::Components);
        }
        commands
    }
}

/// How a run goes about its inputs.
#[derive(Clone, Copy, Debug, PartialEq, Eq, Structural)]
pub enum RunMode {
    /// Obfuscated copies of the inputs are written.
    SecretFiles,
    /// Questions about the dictionary are answered.
    Queries,
    /// Each input is decoded into a file for the pager.
    FilePager,
    /// The summary is shown in the split view.
    SummaryPager,
    /// Output goes through a pager.
    OutputPager,
    /// Output goes to standard output.
    Plain,
}

pub open spec fn mode_of(
    o: OptionsView,
    terminal: bool,
    files: Seq<Seq<char>>,
    environment: Option<Seq<char>>,
) -> RunMode {
    if o.secret_files {
        RunMode::SecretFiles
    } else if o.info || o.message_flag || o.tag_flag || o.component_flag {
        RunMode::Queries
    } else if pages_files(o, terminal, files, environment) {
        RunMode::FilePager
    } else if o.summary && o.paging.pages(terminal, o.follow) {
        RunMode::SummaryPager
    } else if o.paging.pages(terminal, o.follow) {
        RunMode::OutputPager
    } else {
        RunMode::Plain
    }
}

impl RunMode {
    /// How a run with the given options goes about its inputs. `environment` is the pager
    /// that the environment names.
    pub fn select(
        opts: &CliOptions,
        stdout_is_terminal: bool,
        files: &Vec<String>,
        environment: Option<&str>,
    ) -> (mode: RunMode)
        ensures
            mode == mode_of(opts@, stdout_is_terminal, texts(files@), opt_str(environment)),
    {
        if opts.secret_files {
            RunMode::SecretFiles
        } else if opts.info || opts.message_flag || opts.tag_flag || opts.component_flag {
            RunMode::Queries
        } else if should_use_multi_file_pager(opts, stdout_is_terminal, files, environment) {
            RunMode::FilePager
        } else if should_use_summary_pager(opts, stdout_is_terminal) {
            RunMode::SummaryPager
        } else if opts.paging.should_use_pager(stdout_is_terminal, opts.follow) {
            RunMode::OutputPager
        } else {
            RunMode::Plain
        }
    }
}

// ---------------------------------------------------------------------------
// Laws

/// Without default arguments the options are those of the command line alone: defaults that
/// give nothing change nothing.
pub proof fn law_empty_defaults_change_nothing(args: ArgsView, terminal: bool)
    ensures
        options_of(args, Some(no_args()), terminal) == options_of(args, None, terminal),
{
    assert(style_for(args, Some(no_args()), terminal) == style_for(args, None, terminal));
    assert(values_of(args, Some(no_args()), terminal) == values_of(args, None, terminal)) by {
        reveal(values_of);
    }
}

} // verus!
