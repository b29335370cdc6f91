//! The pager command: which one is run, and how `less` is asked to scroll.
use crate::cli_error::{plain_error, CliError, CliErrorView};
use crate::dictionaries::{opt_str, remove_char, without_char};
use crate::paths::{file_name, file_name_of};
use crate::text::{
    chars_of, contains_text, copy_of, decimal, decimal_text, find_char, join, join_texts, push_all,
    push_char, push_right_aligned, right_aligned, same, stands_at, starts_with, text_between,
    text_view, texts, trim, trimmed,
};
use crate::words::{
    has_nul, join_command, list_view, shell_line, shell_words, split_command, split_words, words_of,
};
use vstd::prelude::*;

verus! {

broadcast use vstd::seq_lib::group_seq_properties;

/// When output goes through a pager.
#[derive(Clone, Copy, Debug, PartialEq, Eq, Structural)]
pub enum PagingMode {
    Auto,
    Never,
    Always,
}

impl PagingMode {
    pub open spec fn pages(self, stdout_is_terminal: bool, follow: bool) -> bool {
        stdout_is_terminal && !follow && self != PagingMode::Never
    }

    /// Whether output goes through a pager: only on a terminal, and not while following.
    pub fn should_use_pager(self, stdout_is_terminal: bool, follow: bool) -> (yes: bool)
        ensures
            yes == self.pages(stdout_is_terminal, follow),
    {
        if !stdout_is_terminal || follow {
            return false;
        }
        match self {
            PagingMode::Auto | PagingMode::Always => true,
            PagingMode::Never => false,
        }
    }
}

/// The `less` command that is run by default.
pub open spec fn default_command(quit_if_one_screen: bool, nowrap: bool) -> Seq<char> {
    (if quit_if_one_screen {
        "less -FRX"@
    } else {
        "less -RX"@
    }) + if nowrap {
        " -S --shift=10"@
    } else {
        seq![]
    }
}

/// The `less` command that is run by default.
pub fn default_less_command(quit_if_one_screen: bool, nowrap: bool) -> (command: String)
    ensures
        command@ == default_command(quit_if_one_screen, nowrap),
{
    let mut command = if quit_if_one_screen {
        copy_of("less -FRX")
    } else {
        copy_of("less -RX")
    };
    if nowrap {
        command.append(" -S --shift=10");
    }
    assert(command@ =~= default_command(quit_if_one_screen, nowrap));
    command
}

// ---------------------------------------------------------------------------
// Options of `less`

/// Options with more of them behind, those left out that are there already.
pub open spec fn with_extras(parts: Seq<Seq<char>>, extras: Seq<Seq<char>>) -> Seq<Seq<char>>
    decreases extras.len(),
{
    if extras.len() == 0 {
        parts
    } else {
        let before = with_extras(parts, extras.drop_last());
        if before.contains(extras.last()) {
            before
        } else {
            before.push(extras.last())
        }
    }
}

fn push_extra(parts: &mut Vec<String>, extra: &str)
    ensures
        texts(final(parts)@) == with_extras(texts(old(parts)@), seq![extra@]),
{
    let ghost before = texts(parts@);
    assert(seq![extra@].drop_last() =~= seq![]);
    assert(with_extras(before, seq![]) == before);
    if !contains_text(parts, extra) {
        parts.push(copy_of(extra));
        assert(texts(parts@) =~= before.push(extra@));
    }
}

/// The words of a text, if there is one.
pub open spec fn words_in(text: Option<Seq<char>>) -> Seq<Seq<char>> {
    match text {
        Some(text) => words_of(text),
        None => seq![],
    }
}

fn option_words(text: Option<&str>) -> (words: Vec<String>)
    ensures
        texts(words@) == words_in(opt_str(text)),
{
    match text {
        Some(text) => split_words(text),
        None => {
            let none: Vec<String> = Vec::new();
            assert(texts(none@) =~= seq![]);
            none
        },
    }
}

/// Options, with more of them behind that are not there yet.
pub fn merged_less_options(existing: Option<&str>, extras: &Vec<String>) -> (options: String)
    ensures
        options@ == join(with_extras(words_in(opt_str(existing)), texts(extras@)), " "@),
{
    let mut parts = option_words(existing);
    let ghost start = texts(parts@);
    let ghost all = texts(extras@);
    let mut i: usize = 0;
    assert(all.take(0) =~= seq![]);
    while i < extras.len()
        invariant
            i <= extras@.len(),
            all == texts(extras@),
            texts(parts@) == with_extras(start, all.take(i as int)),
        decreases extras@.len() - i,
    {
        assert(all[i as int] == extras@[i as int]@);
        assert(all.take(i + 1).drop_last() =~= all.take(i as int));
        let ghost before = texts(parts@);
        assert(seq![extras@[i as int]@].drop_last() =~= seq![]);
        assert(with_extras(before, seq![]) == before);
        push_extra(&mut parts, extras[i].as_str());
        i += 1;
    }
    assert(all.take(i as int) =~= all);
    join_texts(&parts, " ")
}

pub open spec fn is_letter(c: char) -> bool {
    'a' <= c <= 'z' || 'A' <= c <= 'Z'
}

fn letter(c: char) -> (yes: bool)
    ensures
        yes == is_letter(c),
{
    ('a' <= c && c <= 'z') || ('A' <= c && c <= 'Z')
}

/// Several one-letter flags in one word, `S` among them.
pub open spec fn is_compact(token: Seq<char>) -> bool {
    &&& token.len() > 2
    &&& token[0] == '-'
    &&& forall|i: int| 1 <= i < token.len() ==> is_letter(#[trigger] token[i])
    &&& token.skip(1).contains('S')
}

/// Flags in one word without `S`; empty where nothing is left of them.
pub open spec fn compacted(token: Seq<char>) -> Seq<char> {
    let rest = without_char(token.skip(1), 'S');
    if rest.len() == 0 {
        seq![]
    } else {
        "-"@ + rest
    }
}

fn all_letters(chars: &Vec<char>) -> (yes: bool)
    ensures
        yes == (forall|i: int| 1 <= i < chars@.len() ==> is_letter(#[trigger] chars@[i])),
{
    let mut i: usize = 1;
    while i < chars.len()
        invariant
            1 <= i,
            forall|j: int| 1 <= j < i && j < chars@.len() ==> is_letter(#[trigger] chars@[j]),
        decreases chars@.len() - i,
    {
        if !letter(chars[i]) {
            assert(!is_letter(chars@[i as int]));
            return false;
        }
        i += 1;
    }
    true
}

/// Flags in one word without `S`. None for a word that is not of this kind.
pub fn strip_compact_less_short_flags(token: &str) -> (stripped: Option<String>)
    ensures
        text_view(stripped) == if is_compact(token@) {
            Some(compacted(token@))
        } else {
            None
        },
{
    let chars = chars_of(token);
    if chars.len() <= 2 || chars[0] != '-' || !all_letters(&chars) {
        return None;
    }
    let flags = text_between(&chars, 1, chars.len());
    assert(flags@ =~= token@.skip(1));
    let letters = chars_of(flags.as_str());
    let at: usize = find_char(&letters, 0, 'S');
    proof {
        crate::text::lemma_next_char(flags@, 0, 'S');
        assert(at < letters@.len() ==> flags@[at as int] == 'S');
        assert(flags@.contains('S') == (at < letters@.len()));
    }
    if at == letters.len() {
        return None;
    }
    let rest = remove_char(flags.as_str(), 'S');
    if rest.as_str().unicode_len() == 0 {
        assert(rest@ =~= compacted(token@));
        return Some(rest);
    }
    let mut stripped = copy_of("-");
    stripped.append(rest.as_str());
    Some(stripped)
}

/// An option that takes its value from the next word.
pub open spec fn takes_value(token: Seq<char>) -> bool {
    token == "-#"@ || token == "--shift"@
}

/// An option for scrolling sideways that stands alone.
pub open spec fn is_sideways(token: Seq<char>) -> bool {
    token == "-S"@ || token == "--chop-long-lines"@ || stands_at(token, 0, "-#"@) || stands_at(
        token,
        0,
        "--shift="@,
    )
}

/// Options without those for scrolling sideways, from `at` on.
pub open spec fn stripped_from(tokens: Seq<Seq<char>>, at: int) -> Seq<Seq<char>>
    decreases tokens.len() - at,
{
    if at < 0 || at >= tokens.len() {
        seq![]
    } else if takes_value(tokens[at]) {
        if at + 2 >= tokens.len() {
            seq![]
        } else {
            stripped_from(tokens, at + 2)
        }
    } else if is_sideways(tokens[at]) {
        stripped_from(tokens, at + 1)
    } else if is_compact(tokens[at]) {
        (if compacted(tokens[at]).len() > 0 {
            seq![compacted(tokens[at])]
        } else {
            seq![]
        }) + stripped_from(tokens, at + 1)
    } else {
        seq![tokens[at]] + stripped_from(tokens, at + 1)
    }
}

/// Options without those for scrolling sideways.
pub open spec fn stripped(tokens: Seq<Seq<char>>) -> Seq<Seq<char>> {
    stripped_from(tokens, 0)
}

/// Options without those for scrolling sideways.
pub fn strip_less_horizontal_tokens(tokens: &Vec<String>) -> (kept: Vec<String>)
    ensures
        texts(kept@) == stripped(texts(tokens@)),
{
    let ghost all = texts(tokens@);
    let mut kept: Vec<String> = Vec::new();
    let mut i: usize = 0;
    let total: usize = tokens.len();
    assert(texts(kept@) =~= seq![]);
    while i < total
        invariant
            i <= total,
            total == tokens@.len(),
            all == texts(tokens@),
            texts(kept@) + stripped_from(all, i as int) == stripped(all),
        decreases total - i,
    {
        let token = tokens[i].as_str();
        assert(all[i as int] == token@);
        let ghost before = texts(kept@);
        if same(token, "-#") || same(token, "--shift") {
            if total - i <= 2 {
                assert(stripped_from(all, total as int) =~= seq![]);
                i = total;
            } else {
                i += 2;
            }
        } else if same(token, "-S") || same(token, "--chop-long-lines") || starts_with(token, "-#")
            || starts_with(token, "--shift=") {
            i += 1;
        } else {
            match strip_compact_less_short_flags(token) {
                Some(compact) => {
                    if compact.as_str().unicode_len() > 0 {
                        let ghost word = compact@;
                        kept.push(compact);
                        assert(texts(kept@) =~= before.push(word));
                        assert(before.push(word) + stripped_from(all, i + 1) =~= before + (seq![
                            word,
                        ] + stripped_from(all, i + 1)));
                    } else {
                        assert(stripped_from(all, i as int) =~= stripped_from(all, i + 1));
                    }
                },
                None => {
                    kept.push(copy_of(token));
                    assert(texts(kept@) =~= before.push(token@));
                    assert(before.push(token@) + stripped_from(all, i + 1) =~= before + (seq![
                        token@,
                    ] + stripped_from(all, i + 1)));
                },
            }
            i += 1;
        }
    }
    assert(texts(kept@) =~= stripped(all));
    kept
}

/// The options without those for scrolling sideways; none where nothing is left.
pub open spec fn base_options(existing: Option<Seq<char>>) -> Option<Seq<char>> {
    let kept = stripped(words_in(existing));
    if kept.len() == 0 {
        None
    } else {
        Some(join(kept, " "@))
    }
}

/// The options without those for scrolling sideways; none where nothing is left.
pub fn strip_less_horizontal_options(existing: Option<&str>) -> (options: Option<String>)
    ensures
        text_view(options) == base_options(opt_str(existing)),
{
    let kept = strip_less_horizontal_tokens(&option_words(existing));
    assert(texts(kept@).len() == kept@.len());
    if kept.len() == 0 {
        None
    } else {
        Some(join_texts(&kept, " "))
    }
}

/// The options for scrolling sideways.
pub open spec fn sideways_options() -> Seq<Seq<char>> {
    seq!["-S"@, "--shift=10"@]
}

fn sideways_list() -> (options: Vec<String>)
    ensures
        texts(options@) == sideways_options(),
{
    let mut options: Vec<String> = Vec::new();
    options.push(copy_of("-S"));
    options.push(copy_of("--shift=10"));
    assert(texts(options@) =~= sideways_options());
    options
}

/// The options that `less` gets from the environment: those for scrolling sideways only
/// where lines are not wrapped.
pub open spec fn less_options(existing: Option<Seq<char>>, nowrap: bool) -> Option<Seq<char>> {
    let base = base_options(existing);
    if nowrap {
        Some(join(with_extras(words_in(base), sideways_options()), " "@))
    } else {
        base
    }
}

/// The options that `less` gets from the environment.
pub fn effective_less_options(existing: Option<&str>, nowrap: bool) -> (options: Option<String>)
    ensures
        text_view(options) == less_options(opt_str(existing), nowrap),
{
    let base = strip_less_horizontal_options(existing);
    if !nowrap {
        return base;
    }
    let text: Option<&str> = match &base {
        Some(text) => Some(text.as_str()),
        None => None,
    };
    Some(merged_less_options(text, &sideways_list()))
}

// ---------------------------------------------------------------------------
// Commands

/// The executable is `less`, wherever it stands.
pub open spec fn is_less(executable: Seq<char>) -> bool {
    file_name_of(executable) == Some("less"@)
}

pub fn is_less_executable(executable: &str) -> (yes: bool)
    ensures
        yes == is_less(executable@),
{
    match file_name(executable) {
        Some(name) => same(name.as_str(), "less"),
        None => false,
    }
}

/// A character that only a shell understands.
pub open spec fn is_shell_char(c: char) -> bool {
    c == '|' || c == '&' || c == ';' || c == '<' || c == '>' || c == '$' || c == '`' || c == '('
        || c == ')'
}

/// The command has to be run by a shell.
pub open spec fn needs_shell(command: Seq<char>) -> bool {
    exists|i: int| 0 <= i < command.len() && is_shell_char(#[trigger] command[i])
}

/// Whether a command has to be run by a shell.
pub fn uses_shell_syntax(command: &str) -> (yes: bool)
    ensures
        yes == needs_shell(command@),
{
    let chars = chars_of(command);
    let mut i: usize = 0;
    while i < chars.len()
        invariant
            i <= chars@.len(),
            chars@ == command@,
            forall|j: int| 0 <= j < i ==> !is_shell_char(#[trigger] command@[j]),
        decreases chars@.len() - i,
    {
        let c: char = chars[i];
        if c == '|' || c == '&' || c == ';' || c == '<' || c == '>' || c == '$' || c == '`' || c
            == '(' || c == ')' {
            assert(is_shell_char(command@[i as int]));
            return true;
        }
        i += 1;
    }
    false
}

/// The words of a command start with `less`.
pub open spec fn runs_less(words: Option<Seq<Seq<char>>>) -> bool {
    words matches Some(words) && words.len() > 0 && is_less(words[0])
}

/// Whether the words of a command start with `less`.
pub fn starts_with_less(words: &Option<Vec<String>>) -> (yes: bool)
    ensures
        yes == runs_less(list_view(*words)),
{
    match words {
        Some(words) => {
            if words.len() == 0 {
                return false;
            }
            assert(texts(words@)[0] == words@[0]@);
            is_less_executable(words[0].as_str())
        },
        None => false,
    }
}

/// Whether a command runs `less`.
pub fn uses_less_pager(command: &str) -> (yes: bool)
    ensures
        yes == runs_less(shell_words(command@)),
{
    starts_with_less(&split_command(command))
}

/// The words of a `less` command with its options for scrolling sideways put in order: none
/// where lines are wrapped, the given ones where they are not.
pub open spec fn ordered_words(words: Seq<Seq<char>>, nowrap: bool) -> Seq<Seq<char>> {
    let kept = stripped(words.skip(1));
    if nowrap {
        with_extras(seq![words[0]] + stripped(kept), sideways_options())
    } else {
        seq![words[0]] + kept
    }
}

fn rest_of(words: &Vec<String>) -> (rest: Vec<String>)
    requires
        words@.len() > 0,
    ensures
        texts(rest@) == texts(words@).skip(1),
{
    let ghost all = texts(words@);
    let mut rest: Vec<String> = Vec::new();
    let mut i: usize = 1;
    assert(texts(rest@) =~= all.subrange(1, 1));
    while i < words.len()
        invariant
            1 <= i <= words@.len(),
            all == texts(words@),
            texts(rest@) == all.subrange(1, i as int),
        decreases words@.len() - i,
    {
        assert(all[i as int] == words@[i as int]@);
        let ghost before = texts(rest@);
        rest.push(copy_of(words[i].as_str()));
        assert(texts(rest@) =~= before.push(all[i as int]));
        assert(all.subrange(1, i + 1) =~= all.subrange(1, i as int).push(all[i as int]));
        i += 1;
    }
    assert(all.subrange(1, i as int) =~= all.skip(1));
    rest
}

/// The words of a `less` command with its options for scrolling sideways put in order.
pub fn order_less_words(words: &Vec<String>, nowrap: bool) -> (ordered: Vec<String>)
    requires
        words@.len() > 0,
    ensures
        texts(ordered@) == ordered_words(texts(words@), nowrap),
{
    assert(texts(words@)[0] == words@[0]@);
    let kept = strip_less_horizontal_tokens(&rest_of(words));
    let mut ordered: Vec<String> = Vec::new();
    ordered.push(copy_of(words[0].as_str()));
    assert(texts(ordered@) =~= seq![texts(words@)[0]]);
    if nowrap {
        push_all(&mut ordered, &strip_less_horizontal_tokens(&kept));
        let ghost base = texts(ordered@);
        push_extra(&mut ordered, "-S");
        push_extra(&mut ordered, "--shift=10");
        proof {
            let options = sideways_options();
            assert(options.drop_last() =~= seq!["-S"@]);
            assert(seq!["-S"@].drop_last() =~= seq![]);
            assert(seq!["--shift=10"@].drop_last() =~= seq![]);
            let one = with_extras(base, seq!["-S"@]);
            assert(with_extras(one, seq![]) == one);
            assert(with_extras(base, seq![]) == base);
        }
    } else {
        push_all(&mut ordered, &kept);
    }
    ordered
}

/// The error for a command with a nul character in it.
pub open spec fn quoting_error() -> CliErrorView {
    plain_error(
        "failed to normalise pager command: "@ + "cannot shell-quote string containing nul byte"@,
    )
}

/// A command with its options for scrolling sideways put in order, given the words that it is
/// made of. Commands that need a shell, cannot be read, or run something else than `less` stay
/// as they are.
pub open spec fn ordered_command(
    command: Seq<char>,
    words: Option<Seq<Seq<char>>>,
    nowrap: bool,
) -> Result<Seq<char>, CliErrorView> {
    if needs_shell(command) || !runs_less(words) {
        Ok(command)
    } else {
        let ordered = ordered_words(words->0, nowrap);
        if has_nul(ordered) {
            Err(quoting_error())
        } else {
            Ok(shell_line(ordered))
        }
    }
}

pub open spec fn text_result(result: Result<String, CliError>) -> Result<Seq<char>, CliErrorView> {
    match result {
        Ok(text) => Ok(text@),
        Err(error) => Err(error@),
    }
}

/// A command with its options for scrolling sideways put in order, given the words that it is
/// made of.
pub fn order_less_command(command: &str, words: Option<Vec<String>>, nowrap: bool) -> (ordered:
    Result<String, CliError>)
    ensures
        text_result(ordered) == ordered_command(command@, list_view(words), nowrap),
{
    if uses_shell_syntax(command) || !starts_with_less(&words) {
        return Ok(copy_of(command));
    }
    match words {
        Some(words) => {
            assert(texts(words@).len() == words@.len());
            let ordered = order_less_words(&words, nowrap);
            match join_command(&ordered) {
                Some(text) => Ok(text),
                None => Err(
                    CliError::plain(
                        "failed to normalise pager command: ",
                        "cannot shell-quote string containing nul byte",
                    ),
                ),
            }
        },
        None => Ok(copy_of(command)),
    }
}

/// A command with its options for scrolling sideways put in order.
pub fn normalise_less_command(command: &str, nowrap: bool) -> (ordered: Result<String, CliError>)
    ensures
        text_result(ordered) == ordered_command(command@, shell_words(command@), nowrap),
{
    order_less_command(command, split_command(command), nowrap)
}

/// Whether a command can be given files to show, going by its words.
pub open spec fn takes_files(command: Seq<char>, words: Option<Seq<Seq<char>>>) -> bool {
    !needs_shell(command) && (words matches Some(words) && words.len() > 0)
}

/// Whether a command can be given files to show.
pub fn pager_supports_file_inputs(command: &str) -> (yes: bool)
    ensures
        yes == takes_files(command@, shell_words(command@)),
{
    if uses_shell_syntax(command) {
        return false;
    }
    match split_command(command) {
        Some(words) => {
            assert(texts(words@).len() == words@.len());
            words.len() > 0
        },
        None => false,
    }
}

/// A command that says something.
pub open spec fn is_given(command: Option<Seq<char>>) -> bool {
    command matches Some(text) && trimmed(text).len() > 0
}

/// The pager command: the one asked for, that of the environment, or the default for the mode.
pub open spec fn pager_for(
    explicit: Option<Seq<char>>,
    environment: Option<Seq<char>>,
    mode: PagingMode,
    nowrap: bool,
) -> Seq<char> {
    if is_given(explicit) {
        explicit->0
    } else if is_given(environment) {
        environment->0
    } else {
        match mode {
            PagingMode::Auto => default_command(true, nowrap),
            PagingMode::Always => default_command(false, nowrap),
            PagingMode::Never => "cat"@,
        }
    }
}

fn given(command: Option<&str>) -> (yes: bool)
    ensures
        yes == is_given(opt_str(command)),
{
    match command {
        Some(text) => trim(text).as_str().unicode_len() > 0,
        None => false,
    }
}

/// The pager command: the one asked for, that of the environment, or the default for the mode.
pub fn resolve_pager_command(
    explicit: Option<&str>,
    environment: Option<&str>,
    mode: PagingMode,
    nowrap: bool,
) -> (command: String)
    ensures
        command@ == pager_for(opt_str(explicit), opt_str(environment), mode, nowrap),
{
    if given(explicit) {
        if let Some(command) = explicit {
            return copy_of(command);
        }
    }
    if given(environment) {
        if let Some(command) = environment {
            return copy_of(command);
        }
    }
    match mode {
        PagingMode::Auto => default_less_command(true, nowrap),
        PagingMode::Always => default_less_command(false, nowrap),
        PagingMode::Never => copy_of("cat"),
    }
}

/// A pager to be run on files.
#[derive(Debug)]
pub struct PagerProcessSpec {
    pub executable: String,
    pub args: Vec<String>,
    pub command: String,
    pub less_executable: bool,
}

/// The mathematical content of a `PagerProcessSpec`.
pub struct ProcessView {
    pub executable: Seq<char>,
    pub args: Seq<Seq<char>>,
    pub command: Seq<char>,
    pub less_executable: bool,
}

impl View for PagerProcessSpec {
    type V = ProcessView;

    open spec fn view(&self) -> ProcessView {
        ProcessView {
            executable: self.executable@,
            args: texts(self.args@),
            command: self.command@,
            less_executable: self.less_executable,
        }
    }
}

/// The process that shows files, given the words of its command.
pub open spec fn process_for(
    command: Seq<char>,
    words: Option<Seq<Seq<char>>>,
    paths: Seq<Seq<char>>,
) -> Result<ProcessView, CliErrorView> {
    if needs_shell(command) {
        Err(plain_error("pager command cannot accept multiple files: "@ + command))
    } else {
        match words {
            None => Err(plain_error("failed to parse pager command: "@ + command)),
            Some(words) => if words.len() == 0 {
                Err(plain_error("pager command is empty"@ + ""@))
            } else {
                Ok(
                    ProcessView {
                        executable: words[0],
                        args: words.skip(1) + paths,
                        command,
                        less_executable: is_less(words[0]),
                    },
                )
            },
        }
    }
}

pub open spec fn process_result(result: Result<PagerProcessSpec, CliError>) -> Result<
    ProcessView,
    CliErrorView,
> {
    match result {
        Ok(spec) => Ok(spec@),
        Err(error) => Err(error@),
    }
}

/// The process that shows files, given the words of its command.
pub fn process_from_words(command: String, words: Option<Vec<String>>, paths: &Vec<String>) -> (
    process: Result<PagerProcessSpec, CliError>)
    ensures
        process_result(process) == process_for(command@, list_view(words), texts(paths@)),
{
    if uses_shell_syntax(command.as_str()) {
        return Err(
            CliError::plain("pager command cannot accept multiple files: ", command.as_str()),
        );
    }
    let words = match words {
        Some(words) => words,
        None => {
            return Err(CliError::plain("failed to parse pager command: ", command.as_str()));
        },
    };
    assert(texts(words@).len() == words@.len());
    if words.len() == 0 {
        return Err(CliError::plain("pager command is empty", ""));
    }
    assert(texts(words@)[0] == words@[0]@);
    let executable = copy_of(words[0].as_str());
    let less_executable = is_less_executable(executable.as_str());
    let mut args = rest_of(&words);
    push_all(&mut args, paths);
    Ok(PagerProcessSpec { executable, args, command, less_executable })
}

/// The process that shows files with a command.
pub fn pager_process_spec(command: &str, nowrap: bool, paths: &Vec<String>) -> (process: Result<
    PagerProcessSpec,
    CliError,
>)
    ensures
        process_result(process) == match ordered_command(command@, shell_words(command@), nowrap) {
            Ok(ordered) => process_for(ordered, shell_words(ordered), texts(paths@)),
            Err(error) => Err(error),
        },
{
    match normalise_less_command(command, nowrap) {
        Ok(ordered) => {
            let words = split_command(ordered.as_str());
            process_from_words(ordered, words, paths)
        },
        Err(error) => Err(error),
    }
}

// ---------------------------------------------------------------------------
// File names

/// A character that may stand in the name of a file.
pub open spec fn is_plain(c: char) -> bool {
    is_letter(c) || '0' <= c <= '9' || c == '.' || c == '-' || c == '_'
}

/// A name with `_` in place of every character that may not stand in it.
pub open spec fn sanitised(name: Seq<char>) -> Seq<char> {
    name.map_values(
        |c: char|
            if is_plain(c) {
                c
            } else {
                '_'
            },
    )
}

/// The name of the file that holds what is shown of an input.
pub open spec fn pager_file_name(index: nat, input: Seq<char>) -> Seq<char> {
    let base = match file_name_of(input) {
        Some(name) => name,
        None => "stdin"@,
    };
    right_aligned(decimal(index + 1), 4, '0') + "-"@ + sanitised(base) + ".out"@
}

/// The name of the file that holds what is shown of an input.
pub fn rendered_pager_file_name(index: usize, input: &str) -> (name: String)
    requires
        index < usize::MAX,
    ensures
        name@ == pager_file_name(index as nat, input@),
{
    let base = match file_name(input) {
        Some(name) => name,
        None => copy_of("stdin"),
    };
    let chars = chars_of(base.as_str());
    let ghost whole = sanitised(base@);
    let mut clean = String::new();
    let mut i: usize = 0;
    assert(clean@ =~= whole.take(0));
    while i < chars.len()
        invariant
            i <= chars@.len(),
            chars@ == base@,
            whole == sanitised(base@),
            clean@ == whole.take(i as int),
        decreases chars@.len() - i,
    {
        let c: char = chars[i];
        if letter(c) || ('0' <= c && c <= '9') || c == '.' || c == '-' || c == '_' {
            push_char(&mut clean, c);
        } else {
            push_char(&mut clean, '_');
        }
        assert(whole.take(i + 1) =~= whole.take(i as int).push(whole[i as int]));
        i += 1;
    }
    assert(whole.take(i as int) =~= whole);
    let mut name = String::new();
    push_right_aligned(&mut name, decimal_text((index + 1) as u64).as_str(), 4, '0');
    name.append("-");
    name.append(clean.as_str());
    name.append(".out");
    assert(name@ =~= pager_file_name(index as nat, input@));
    name
}

// ---------------------------------------------------------------------------
// Laws

/// An option that has nothing to do with scrolling sideways.
pub open spec fn is_other(token: Seq<char>) -> bool {
    !takes_value(token) && !is_sideways(token) && !is_compact(token)
}

proof fn lemma_without_char(text: Seq<char>, c: char)
    ensures
        !without_char(text, c).contains(c),
        forall|i: int|
            0 <= i < without_char(text, c).len() ==> text.contains(
                #[trigger] without_char(text, c)[i],
            ),
    decreases text.len(),
{
    if text.len() > 0 {
        let short = text.drop_last();
        lemma_without_char(short, c);
        assert forall|i: int| 0 <= i < without_char(text, c).len() implies text.contains(
            #[trigger] without_char(text, c)[i],
        ) by {
            let x = without_char(text, c)[i];
            if i < without_char(short, c).len() {
                assert(x == without_char(short, c)[i]);
                let j = choose|j: int| 0 <= j < short.len() && short[j] == x;
                assert(text[j] == x);
            } else {
                assert(text[text.len() - 1] == x);
            }
        }
    }
}

proof fn lemma_compacted_is_other(token: Seq<char>)
    requires
        is_compact(token),
        compacted(token).len() > 0,
    ensures
        is_other(compacted(token)),
{
    let flags = token.skip(1);
    let rest = without_char(flags, 'S');
    let word = compacted(token);
    lemma_without_char(flags, 'S');
    reveal_strlit("-");
    assert(word[0] == '-');
    assert forall|i: int| 1 <= i < word.len() implies is_letter(#[trigger] word[i]) by {
        assert(word[i] == rest[i - 1]);
        assert(flags.contains(rest[i - 1]));
        let j = choose|j: int| 0 <= j < flags.len() && flags[j] == rest[i - 1];
        assert(is_letter(token[j + 1]));
    }
    assert(word.skip(1) =~= rest);
    assert(word.len() >= 2);
    assert(is_letter(word[1]) && word[1] != 'S') by {
        assert(rest[0] == word[1]);
    }
    reveal_strlit("-#");
    reveal_strlit("--shift");
    reveal_strlit("--shift=");
    reveal_strlit("-S");
    reveal_strlit("--chop-long-lines");
    assert("-#"@[1] == '#' && "--shift"@[1] == '-' && "--shift="@[1] == '-');
    assert("-S"@[1] == 'S' && "--chop-long-lines"@[1] == '-');
    if stands_at(word, 0, "-#"@) {
        assert(word.subrange(0, 2)[1] == '#');
    }
    if stands_at(word, 0, "--shift="@) {
        assert(word.subrange(0, 8)[1] == '-');
    }
}

proof fn lemma_stripped_is_other(tokens: Seq<Seq<char>>, at: int)
    requires
        0 <= at <= tokens.len(),
    ensures
        forall|i: int|
            0 <= i < stripped_from(tokens, at).len() ==> is_other(
                #[trigger] stripped_from(tokens, at)[i],
            ),
    decreases tokens.len() - at,
{
    if at < tokens.len() {
        let token = tokens[at];
        if takes_value(token) {
            if at + 2 < tokens.len() {
                lemma_stripped_is_other(tokens, at + 2);
                assert(stripped_from(tokens, at) == stripped_from(tokens, at + 2));
            } else {
                assert(stripped_from(tokens, at).len() == 0);
            }
        } else {
            lemma_stripped_is_other(tokens, at + 1);
            if !is_sideways(token) && is_compact(token) && compacted(token).len() > 0 {
                lemma_compacted_is_other(token);
            }
            let rest = stripped_from(tokens, at + 1);
            let whole = stripped_from(tokens, at);
            assert forall|i: int| 0 <= i < whole.len() implies is_other(#[trigger] whole[i]) by {
                if whole.len() == rest.len() {
                    assert(whole =~= rest);
                    assert(whole[i] == rest[i]);
                } else if i > 0 {
                    assert(whole[i] == rest[i - 1]);
                }
            }
        }
    }
}

proof fn lemma_others_stay(tokens: Seq<Seq<char>>, at: int)
    requires
        0 <= at <= tokens.len(),
        forall|i: int| 0 <= i < tokens.len() ==> is_other(#[trigger] tokens[i]),
    ensures
        stripped_from(tokens, at) == tokens.skip(at),
    decreases tokens.len() - at,
{
    if at < tokens.len() {
        lemma_others_stay(tokens, at + 1);
        assert(is_other(tokens[at]));
        assert(tokens.skip(at) =~= seq![tokens[at]] + tokens.skip(at + 1));
    } else {
        assert(tokens.skip(at) =~= seq![]);
    }
}

/// No option for scrolling sideways is left after they are taken out, and taking them out
/// once more changes nothing.
pub proof fn law_sideways_options_are_gone(tokens: Seq<Seq<char>>)
    ensures
        forall|i: int| 0 <= i < stripped(tokens).len() ==> is_other(#[trigger] stripped(tokens)[i]),
        stripped(stripped(tokens)) == stripped(tokens),
{
    lemma_stripped_is_other(tokens, 0);
    lemma_others_stay(stripped(tokens), 0);
    assert(stripped(tokens).skip(0) =~= stripped(tokens));
}

} // verus!
