//! What holds of the options of a run.
use crate::cli_error::CliErrorView;
use crate::cli_options::{
    colour_of, delimiter_of, inputs_of, mode_of, options_error, options_of, paging_for, questions,
    style_for, style_from, values_of, ArgsView, OptionsView, SchemaCommand,
};
use crate::output_style::OutputStyle;
use crate::pager_command::PagingMode;
use crate::text::{hex_digit, hex_number, lowered, trimmed, unsigned_digits, SOH};
use vstd::prelude::*;

verus! {

/// The first of two values that is there.
pub open spec fn either(a: Option<Seq<char>>, b: Option<Seq<char>>) -> Option<Seq<char>> {
    if a is Some {
        a
    } else {
        b
    }
}

/// The arguments with the defaults behind them, as if all were on the command line.
pub open spec fn put_together(args: ArgsView, d: ArgsView) -> ArgsView {
    ArgsView {
        fix: either(args.fix, d.fix),
        xml: d.xml + args.xml,
        message: either(args.message, d.message),
        component: either(args.component, d.component),
        tag: either(args.tag, d.tag),
        column: args.column || d.column,
        verbose: args.verbose || d.verbose,
        header: args.header || d.header,
        trailer: args.trailer || d.trailer,
        info: args.info || d.info,
        secret: args.secret || d.secret,
        secret_files: args.secret_files || d.secret_files,
        secret_dir: either(args.secret_dir, d.secret_dir),
        validate: args.validate || d.validate,
        colour: either(args.colour, d.colour),
        style: args.style,
        plain: args.plain,
        number: args.number,
        paging: either(args.paging, d.paging),
        pager: either(args.pager, d.pager),
        nowrap: args.nowrap || d.nowrap,
        summary: args.summary || d.summary,
        no_counts: args.no_counts || d.no_counts,
        follow: args.follow || d.follow,
        version: args.version,
        files: args.files,
        delimiter: either(args.delimiter, d.delimiter),
    }
}

/// Defaults work as if they stood on the command line, where a value that is given there takes
/// their place. Left out are defaults for the style, which the command line builds on.
pub proof fn law_command_line_goes_first(args: ArgsView, d: ArgsView, terminal: bool)
    requires
        d.style is None,
        !d.plain,
        !d.number,
    ensures
        options_of(args, Some(d), terminal) == options_of(put_together(args, d), None, terminal),
{
    reveal(values_of);
    let all = put_together(args, d);
    assert(Seq::<Seq<char>>::empty() + all.xml =~= all.xml);
    assert(style_for(args, Some(d), terminal) == style_for(all, None, terminal));
    assert(values_of(args, Some(d), terminal) == values_of(all, None, terminal));
}

/// Options are those that are asked for: flags, values and files each as they are given; FIX
/// 4.4 where no version is.
pub proof fn law_options_are_those_given(args: ArgsView, terminal: bool)
    ensures
        options_of(args, None, terminal) matches Ok(o) ==> {
            &&& o.files == args.files
            &&& o.xml_paths == args.xml
            &&& o.fix_version == if args.fix is Some {
                args.fix->0
            } else {
                "44"@
            }
            &&& o.fix_from_user == (args.fix is Some)
            &&& o.message_flag == (args.message is Some)
            &&& o.component_flag == (args.component is Some)
            &&& o.tag_flag == (args.tag is Some)
            &&& o.message_value == if args.message == Some("true"@) {
                None
            } else {
                args.message
            }
            &&& o.component_value == if args.component == Some("true"@) {
                None
            } else {
                args.component
            }
            &&& o.tag_value == if args.tag == Some("true"@) {
                None
            } else {
                args.tag
            }
            &&& o.column == args.column && o.verbose == args.verbose
            &&& o.include_header == args.header && o.include_trailer == args.trailer
            &&& o.info == args.info && o.validate == args.validate
            &&& o.secret == args.secret && o.secret_files == args.secret_files
            &&& o.secret_dir == args.secret_dir && o.pager == args.pager
            &&& o.nowrap == args.nowrap && o.summary == args.summary
            &&& o.no_counts == args.no_counts && o.follow == args.follow
            &&& args.paging is None ==> o.paging == if args.summary {
                PagingMode::Always
            } else {
                PagingMode::Auto
            }
            &&& args.delimiter is None ==> o.delimiter == '\u{1}'
            &&& args.colour is None ==> o.colour is None
            &&& args.style is None && !args.plain ==> o.style == (OutputStyle {
                show_numbers: args.number,
                show_header: terminal,
                show_grid: terminal,
            })
            &&& args.plain ==> o.style == (OutputStyle {
                show_numbers: false,
                show_header: false,
                show_grid: false,
            })
        },
        options_of(args, None, terminal) is Err <==> paging_for(args.paging, args.summary) is Err || (
        args.message matches Some(text) && text.len() == 0) || (args.component matches Some(text)
            && text.len() == 0) || (args.tag matches Some(text) && text.len() == 0) || colour_of(
            args.colour,
        ) is Err || style_for(args, None, terminal) is Err || delimiter_of(args.delimiter) is Err,
{
    reveal(values_of);
    reveal_strlit("true");
    assert(Seq::<Seq<char>>::empty() + args.xml =~= args.xml);
}

/// Colours are forced on or off by words of either case, and left open by others.
pub proof fn law_colours_are_forced(value: Seq<char>)
    ensures
        colour_of(Some(value)) == Ok::<Option<bool>, CliErrorView>(Some(true)) <==> seq![
            "true"@,
            "yes"@,
            "always"@,
        ].contains(lowered(value)),
        colour_of(Some(value)) == Ok::<Option<bool>, CliErrorView>(Some(false)) <==> seq![
            "false"@,
            "no"@,
            "never"@,
        ].contains(lowered(value)),
        colour_of(Some(value)) == Ok::<Option<bool>, CliErrorView>(None) <==> lowered(value)
            == "auto"@ || value.len() == 0,
        colour_of(None) == Ok::<Option<bool>, CliErrorView>(None),
{
    let on = seq!["true"@, "yes"@, "always"@];
    let off = seq!["false"@, "no"@, "never"@];
    assert(on[0] == "true"@ && on[1] == "yes"@ && on[2] == "always"@);
    assert(off[0] == "false"@ && off[1] == "no"@ && off[2] == "never"@);
    reveal_strlit("true");
    reveal_strlit("yes");
    reveal_strlit("always");
    reveal_strlit("false");
    reveal_strlit("no");
    reveal_strlit("never");
    reveal_strlit("auto");
    assert("true"@[0] == 't' && "yes"@[0] == 'y' && "always"@[0] == 'a' && "always"@.len() == 6);
    assert("false"@[0] == 'f' && "no"@[0] == 'n' && "never"@[0] == 'n' && "auto"@.len() == 4
        && "auto"@[0] == 'a');
    assert(lowered(value).len() == value.len());
}

/// A single character is the delimiter itself, and `SOH` in any case is the usual one. An empty
/// one is refused.
pub proof fn law_delimiters_are_characters(c: char, value: Seq<char>)
    ensures
        delimiter_of(Some(seq![c])) == Ok::<char, CliErrorView>(c),
        lowered(value) == seq!['s', 'o', 'h'] ==> delimiter_of(Some(value)) == Ok::<
            char,
            CliErrorView,
        >('\u{1}'),
        delimiter_of(None) == Ok::<char, CliErrorView>('\u{1}'),
        delimiter_of(Some(seq![])) is Err,
{
    reveal_strlit("SOH");
    reveal_strlit("\\x");
    reveal_strlit("0x");
    assert(lowered("SOH"@) =~= seq!['s', 'o', 'h']);
    assert(lowered(seq![c]).len() == 1);
}

/// A number in hexadecimal digits, of which there are so many.
pub open spec fn hex_digits(n: nat, places: nat) -> Seq<char>
    decreases places,
{
    if places == 0 {
        seq![]
    } else {
        hex_digits(n / 16, (places - 1) as nat).push(
            if n % 16 < 10 {
                ('0' as int + n % 16) as char
            } else {
                ('a' as int + n % 16 - 10) as char
            },
        )
    }
}

/// Sixteen to the power of `places`.
pub open spec fn sixteens(places: nat) -> nat
    decreases places,
{
    if places == 0 {
        1
    } else {
        16 * sixteens((places - 1) as nat)
    }
}

proof fn lemma_hex_digits(n: nat, places: nat)
    requires
        n < sixteens(places),
    ensures
        hex_number(hex_digits(n, places)) == n,
        hex_digits(n, places).len() == places,
        forall|i: int|
            0 <= i < places ==> hex_digit(#[trigger] hex_digits(n, places)[i]) is Some
                && hex_digits(n, places)[i] != '+',
    decreases places,
{
    if places > 0 {
        let few = (places - 1) as nat;
        assert(n / 16 < sixteens(few));
        lemma_hex_digits(n / 16, few);
        let all = hex_digits(n, places);
        assert(all.drop_last() =~= hex_digits(n / 16, few));
        assert(hex_digit(all.last()) == Some(n % 16));
        assert forall|i: int| 0 <= i < places implies hex_digit(#[trigger] all[i]) is Some && all[i]
            != '+' by {
            if i < few {
                assert(all[i] == hex_digits(n / 16, few)[i]);
            }
        }
    }
}

/// A code in hexadecimal stands for its character, behind either of the two marks; one that no
/// character has is refused.
pub proof fn law_delimiters_are_codes(code: u32, places: nat, mark: Seq<char>)
    requires
        mark == seq!['\\', 'x'] || mark == seq!['0', 'x'],
        places > 0,
        code < sixteens(places),
    ensures
        code < 0xd800 || 0xe000 <= code <= 0x10ffff ==> delimiter_of(
            Some(mark + hex_digits(code as nat, places)),
        ) == Ok::<char, CliErrorView>(code as char),
        !(code < 0xd800 || 0xe000 <= code <= 0x10ffff) ==> delimiter_of(
            Some(mark + hex_digits(code as nat, places)),
        ) is Err,
{
    let digits = hex_digits(code as nat, places);
    let text = mark + digits;
    lemma_hex_digits(code as nat, places);
    reveal_strlit("SOH");
    reveal_strlit("\\x");
    reveal_strlit("0x");
    assert("\\x"@ =~= seq!['\\', 'x']);
    assert("0x"@ =~= seq!['0', 'x']);
    assert(lowered("SOH"@) =~= seq!['s', 'o', 'h']);
    assert(text[0] == mark[0] && text[1] == mark[1]);
    assert(lowered(text)[1] == 'x');
    assert(lowered("SOH"@)[1] == 'o');
    assert(text.skip(2) =~= digits);
    assert(text.subrange(0, 2) =~= mark);
    assert(unsigned_digits(digits) == digits);
}

/// A style is made up of its parts: each is shown where it, or all, is asked for, as long as
/// nothing takes all of them away.
pub proof fn law_styles_add_up(tokens: Seq<Seq<char>>)
    requires
        forall|i: int|
            0 <= i < tokens.len() ==> seq!["numbers"@, "header"@, "grid"@, "full"@].contains(
                trimmed(#[trigger] tokens[i]),
            ),
    ensures
        style_from(tokens) == Ok::<OutputStyle, CliErrorView>(
            OutputStyle {
                show_numbers: asked(tokens, "numbers"@),
                show_header: asked(tokens, "header"@),
                show_grid: asked(tokens, "grid"@),
            },
        ),
        style_from(tokens.push("plain"@)) == Ok::<OutputStyle, CliErrorView>(
            OutputStyle { show_numbers: false, show_header: false, show_grid: false },
        ),
    decreases tokens.len(),
{
    let words = seq!["numbers"@, "header"@, "grid"@, "full"@];
    assert(words[0] == "numbers"@ && words[1] == "header"@ && words[2] == "grid"@ && words[3]
        == "full"@);
    reveal_strlit("numbers");
    reveal_strlit("header");
    reveal_strlit("grid");
    reveal_strlit("full");
    reveal_strlit("plain");
    assert("numbers"@[0] == 'n' && "header"@[0] == 'h' && "grid"@[0] == 'g' && "full"@[0] == 'f'
        && "plain"@[0] == 'p');
    if tokens.len() > 0 {
        let before = tokens.drop_last();
        assert forall|i: int| 0 <= i < before.len() implies words.contains(
            trimmed(#[trigger] before[i]),
        ) by {
            assert(before[i] == tokens[i]);
        }
        law_styles_add_up(before);
        let token = trimmed(tokens.last());
        assert(words.contains(trimmed(tokens[tokens.len() - 1])));
        lemma_asked(tokens, "numbers"@);
        lemma_asked(tokens, "header"@);
        lemma_asked(tokens, "grid"@);
    }
    assert(tokens.push("plain"@).drop_last() =~= tokens);
    assert(trimmed("plain"@) == "plain"@) by {
        assert(!crate::text::is_space('p') && !crate::text::is_space('n'));
        assert("plain"@.last() == 'n');
    }
}

/// One of the words is the part or stands for all.
pub open spec fn asked(tokens: Seq<Seq<char>>, part: Seq<char>) -> bool {
    exists|i: int|
        0 <= i < tokens.len() && (trimmed(#[trigger] tokens[i]) == part || trimmed(tokens[i])
            == "full"@)
}

proof fn lemma_asked(tokens: Seq<Seq<char>>, part: Seq<char>)
    requires
        tokens.len() > 0,
    ensures
        asked(tokens, part) <==> asked(tokens.drop_last(), part) || trimmed(tokens.last()) == part
            || trimmed(tokens.last()) == "full"@,
{
    let before = tokens.drop_last();
    if asked(before, part) {
        let i = choose|i: int|
            0 <= i < before.len() && (trimmed(#[trigger] before[i]) == part || trimmed(before[i])
                == "full"@);
        assert(before[i] == tokens[i]);
    }
    if asked(tokens, part) {
        let i = choose|i: int|
            0 <= i < tokens.len() && (trimmed(#[trigger] tokens[i]) == part || trimmed(tokens[i])
                == "full"@);
        if i < before.len() {
            assert(before[i] == tokens[i]);
        }
    }
    assert(tokens[tokens.len() - 1] == tokens.last());
}

/// Writing secret files takes files by name and goes with no other task; a place for them is
/// named only together with it.
pub proof fn law_secret_files_stand_alone(o: OptionsView)
    ensures
        options_error(o) is None <==> (o.secret_dir is Some ==> o.secret_files) && (o.secret_files
            ==> o.files.len() > 0 && !o.files.contains("-"@) && !o.info && !o.message_flag
            && !o.component_flag && !o.tag_flag && !o.validate && !o.summary && !o.follow
            && !o.no_counts),
{
}

/// Standard input is read where no file is named. Questions are answered in their order, and
/// only those that are asked. Secret files go before questions, and those before decoding.
pub proof fn law_runs_follow_their_options(
    o: OptionsView,
    terminal: bool,
    files: Seq<Seq<char>>,
    environment: Option<Seq<char>>,
)
    ensures
        o.files.len() == 0 ==> inputs_of(o) == seq!["-"@],
        o.files.len() > 0 ==> inputs_of(o) == o.files,
        questions(o) == seq![
            SchemaCommand::Info,
            SchemaCommand::Messages,
            SchemaCommand::Tags,
            SchemaCommand::Components,
        ].filter(
            |q: SchemaCommand|
                match q {
                    SchemaCommand::Info => o.info,
                    SchemaCommand::Messages => o.message_flag,
                    SchemaCommand::Tags => o.tag_flag,
                    SchemaCommand::Components => o.component_flag,
                },
        ),
        mode_of(o, terminal, files, environment) is SecretFiles <==> o.secret_files,
        mode_of(o, terminal, files, environment) is Queries <==> !o.secret_files && (o.info
            || o.message_flag || o.tag_flag || o.component_flag),
        !terminal || o.follow || o.paging == PagingMode::Never ==> !(mode_of(
            o,
            terminal,
            files,
            environment,
        ) is FilePager) && !(mode_of(o, terminal, files, environment) is SummaryPager) && !(mode_of(
            o,
            terminal,
            files,
            environment,
        ) is OutputPager),
        !o.secret_files && !o.info && !o.message_flag && !o.tag_flag && !o.component_flag
            && terminal && !o.follow && o.paging != PagingMode::Never ==> !(mode_of(
            o,
            terminal,
            files,
            environment,
        ) is Plain) && (o.summary <==> mode_of(o, terminal, files, environment) is SummaryPager)
            && (files.len() < 2 || files.contains("-"@) ==> !(mode_of(
            o,
            terminal,
            files,
            environment,
        ) is FilePager)),
{
    let all = seq![
        SchemaCommand::Info,
        SchemaCommand::Messages,
        SchemaCommand::Tags,
        SchemaCommand::Components,
    ];
    let keep = |q: SchemaCommand|
        match q {
            SchemaCommand::Info => o.info,
            SchemaCommand::Messages => o.message_flag,
            SchemaCommand::Tags => o.tag_flag,
            SchemaCommand::Components => o.component_flag,
        };
    reveal_with_fuel(Seq::filter, 5);
    assert(all.drop_last() =~= seq![
        SchemaCommand::Info,
        SchemaCommand::Messages,
        SchemaCommand::Tags,
    ]);
    assert(all.drop_last().drop_last() =~= seq![SchemaCommand::Info, SchemaCommand::Messages]);
    assert(all.drop_last().drop_last().drop_last() =~= seq![SchemaCommand::Info]);
    assert(all.drop_last().drop_last().drop_last().drop_last() =~= seq![]);
    assert(questions(o) =~= all.filter(keep));
}

} // verus!
