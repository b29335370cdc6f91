//! Words of a text, and calls into the crate that splits and joins shell commands.
use crate::text::{chars_of, push_char, space, text_view, texts, is_space};
use vstd::prelude::*;

verus! {

broadcast use vstd::seq_lib::group_seq_properties;

/// The words of a text: those that are closed, and the one that is still open at its end.
pub open spec fn words_so_far(text: Seq<char>) -> (Seq<Seq<char>>, Seq<char>)
    decreases text.len(),
{
    if text.len() == 0 {
        (seq![], seq![])
    } else {
        let (closed, open) = words_so_far(text.drop_last());
        if !is_space(text.last()) {
            (closed, open.push(text.last()))
        } else if open.len() == 0 {
            (closed, open)
        } else {
            (closed.push(open), seq![])
        }
    }
}

/// The words of a text, between white space.
pub open spec fn words_of(text: Seq<char>) -> Seq<Seq<char>> {
    let (closed, open) = words_so_far(text);
    if open.len() == 0 {
        closed
    } else {
        closed.push(open)
    }
}

/// The words of a text, between white space.
pub fn split_words(text: &str) -> (words: Vec<String>)
    ensures
        texts(words@) == words_of(text@),
{
    let chars = chars_of(text);
    let mut words: Vec<String> = Vec::new();
    let mut open = String::new();
    let mut i: usize = 0;
    assert(texts(words@) =~= seq![]);
    assert(open@ =~= seq![]);
    assert(chars@.take(0) =~= seq![]);
    while i < chars.len()
        invariant
            i <= chars@.len(),
            words_so_far(chars@.take(i as int)) == (texts(words@), open@),
        decreases chars@.len() - i,
    {
        assert(chars@.take(i + 1).drop_last() =~= chars@.take(i as int));
        let c: char = chars[i];
        if !space(c) {
            push_char(&mut open, c);
        } else if open.as_str().unicode_len() > 0 {
            let ghost before = texts(words@);
            let ghost word = open@;
            words.push(open);
            open = String::new();
            assert(open@ =~= seq![]);
            assert(texts(words@) =~= before.push(word));
        }
        i += 1;
    }
    assert(chars@.take(i as int) =~= chars@);
    if open.as_str().unicode_len() > 0 {
        let ghost before = texts(words@);
        let ghost word = open@;
        words.push(open);
        assert(texts(words@) =~= before.push(word));
    }
    words
}

// ---------------------------------------------------------------------------
// Shell commands

/// The words of a command as `shlex::split` gives them; none for broken quoting.
pub uninterp spec fn shell_words(command: Seq<char>) -> Option<Seq<Seq<char>>>;

/// Words as a command, as `shlex::try_join` writes them.
pub uninterp spec fn shell_line(words: Seq<Seq<char>>) -> Seq<char>;

pub open spec fn list_view(words: Option<Vec<String>>) -> Option<Seq<Seq<char>>> {
    match words {
        Some(words) => Some(texts(words@)),
        None => None,
    }
}

/// A word with a nul character in it.
pub open spec fn has_nul(words: Seq<Seq<char>>) -> bool {
    exists|i: int| 0 <= i < words.len() && (#[trigger] words[i]).contains('\0')
}

/// `shlex::split`.
#[verifier::external_body]
pub(crate) fn split_command(command: &str) -> (words: Option<Vec<String>>)
    ensures
        list_view(words) == shell_words(command@),
{
    shlex::split(command)
}

/// `shlex::try_join`. Its one error is a nul character in a word.
#[verifier::external_body]
pub(crate) fn join_command(words: &Vec<String>) -> (command: Option<String>)
    ensures
        text_view(command) == if has_nul(texts(words@)) {
            None
        } else {
            Some(shell_line(texts(words@)))
        },
{
    shlex::try_join(words.iter().map(|word| word.as_str())).ok()
}

} // verus!
