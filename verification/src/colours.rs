//! Colours of terminal output, and the indents of its lines.
use vstd::prelude::*;

verus! {

/// How far the fields of a message stand in.
pub const BASE_INDENT: usize = 2;

/// How much further the fields of a group entry stand in.
pub const ENTRY_FIELD_INDENT: usize = 4;

/// Where the name starts in a field line, behind the tag.
pub const NAME_TEXT_OFFSET: usize = 5;

/// How much further the parts of a component or group stand in.
pub const NEST_INDENT: usize = 4;

/// How wide a tag is written.
pub const TAG_WIDTH: usize = 4;

/// The escape sequences that switch the colours of terminal output.
#[derive(Debug, Clone, Copy)]
pub struct ColourPalette {
    pub reset: &'static str,
    pub line: &'static str,
    pub message: &'static str,
    pub title: &'static str,
    pub tag: &'static str,
    pub name: &'static str,
    pub value: &'static str,
    pub enumeration: &'static str,
    pub error: &'static str,
    pub file: &'static str,
}

impl ColourPalette {
    /// The colours of a terminal.
    pub fn standard() -> (palette: ColourPalette)
        ensures
            palette.reset@ == "\u{1b}[0m"@,
            palette.line@ == "\u{1b}[38;5;244m"@,
            palette.message@ == "\u{1b}[97m"@,
            palette.title@ == "\u{1b}[31m"@,
            palette.tag@ == "\u{1b}[38;5;81m"@,
            palette.name@ == "\u{1b}[38;5;151m"@,
            palette.value@ == "\u{1b}[38;5;228m"@,
            palette.enumeration@ == "\u{1b}[38;5;214m"@,
            palette.error@ == "\u{1b}[31m"@,
            palette.file@ == "\u{1b}[95m"@,
    {
        ColourPalette {
            reset: "\u{1b}[0m",
            line: "\u{1b}[38;5;244m",
            message: "\u{1b}[97m",
            title: "\u{1b}[31m",
            tag: "\u{1b}[38;5;81m",
            name: "\u{1b}[38;5;151m",
            value: "\u{1b}[38;5;228m",
            enumeration: "\u{1b}[38;5;214m",
            error: "\u{1b}[31m",
            file: "\u{1b}[95m",
        }
    }

    /// No colours at all.
    pub fn plain() -> (palette: ColourPalette)
        ensures
            palette.reset@ == ""@,
            palette.line@ == ""@,
            palette.message@ == ""@,
            palette.title@ == ""@,
            palette.tag@ == ""@,
            palette.name@ == ""@,
            palette.value@ == ""@,
            palette.enumeration@ == ""@,
            palette.error@ == ""@,
            palette.file@ == ""@,
    {
        ColourPalette {
            reset: "",
            line: "",
            message: "",
            title: "",
            tag: "",
            name: "",
            value: "",
            enumeration: "",
            error: "",
            file: "",
        }
    }
}

} // verus!
