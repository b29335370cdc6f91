//! The version banner.
use crate::text::{chars_of, copy_of, text_between};
use vstd::prelude::*;
use vstd::string::StringExecFns;

verus! {

/// The bytes that a character takes in UTF-8.
pub open spec fn utf8_width(c: char) -> nat {
    if (c as u32) < 0x80 {
        1
    } else if (c as u32) < 0x800 {
        2
    } else if (c as u32) < 0x10000 {
        3
    } else {
        4
    }
}

/// How many characters from `at` on take exactly `bytes` bytes; none where no cut between
/// characters leaves that many bytes.
pub open spec fn cut_after(text: Seq<char>, at: int, bytes: nat) -> Option<int>
    decreases bytes,
{
    if bytes == 0 {
        Some(at)
    } else if at < 0 || at >= text.len() || utf8_width(text[at]) > bytes {
        None
    } else {
        cut_after(text, at + 1, (bytes - utf8_width(text[at])) as nat)
    }
}

/// The branch that a build names, `main` where it names none.
pub open spec fn branch_text(given: Option<&str>) -> Seq<char> {
    match given {
        Some(name) => name@,
        None => "main"@,
    }
}

/// A commit cut to its first seven bytes; whole where it cannot be cut there.
pub open spec fn short_commit(raw: Seq<char>) -> Seq<char> {
    match cut_after(raw, 0, 7) {
        Some(end) => raw.take(end),
        None => raw,
    }
}

pub open spec fn commit_text(given: Option<&str>) -> Seq<char> {
    match given {
        Some(raw) => short_commit(raw@),
        None => short_commit("0000000"@),
    }
}

pub open spec fn compiler_text(given: Option<&str>) -> Seq<char> {
    match given {
        Some(version) => version@,
        None => "unknown"@,
    }
}

fn width(c: char) -> (bytes: usize)
    ensures
        bytes == utf8_width(c),
{
    let code: u32 = c as u32;
    if code < 0x80 {
        1
    } else if code < 0x800 {
        2
    } else if code < 0x10000 {
        3
    } else {
        4
    }
}

/// The branch that went into a build.
pub fn branch<'a>(given: Option<&'a str>) -> (name: &'a str)
    ensures
        name@ == branch_text(given),
{
    match given {
        Some(name) => name,
        None => "main",
    }
}

/// The short commit that went into a build.
pub fn sha(given: Option<&str>) -> (short: String)
    ensures
        short@ == commit_text(given),
{
    let raw: &str = match given {
        Some(raw) => raw,
        None => "0000000",
    };
    let chars = chars_of(raw);
    let mut at: usize = 0;
    let mut left: usize = 7;
    while left > 0
        invariant
            chars@ == raw@,
            0 <= at <= chars@.len(),
            cut_after(raw@, 0, 7) == cut_after(raw@, at as int, left as nat),
            raw@ == (match given {
                Some(raw) => raw@,
                None => "0000000"@,
            }),
        decreases left,
    {
        if at >= chars.len() || width(chars[at]) > left {
            return copy_of(raw);
        }
        left = left - width(chars[at]);
        at += 1;
    }
    text_between(&chars, 0, at)
}

/// The compiler version baked into a build.
pub fn rust_version<'a>(given: Option<&'a str>) -> (version: &'a str)
    ensures
        version@ == compiler_text(given),
{
    match given {
        Some(version) => version,
        None => "unknown",
    }
}

/// The version banner, with branch and commit.
pub fn version_string(version: &str, branch: &str, sha: &str, rust_version: &str) -> (text: String)
    ensures
        text@ == "fixdecoder "@ + version@ + " (branch:"@ + branch@ + ", commit:"@ + sha@
            + ") [rust:"@ + rust_version@ + "]"@,
{
    let mut text = copy_of("fixdecoder ");
    text.append(version);
    text.append(" (branch:");
    text.append(branch);
    text.append(", commit:");
    text.append(sha);
    text.append(") [rust:");
    text.append(rust_version);
    text.append("]");
    text
}

} // verus!
