//! What is said of a command line that cannot be followed.
use crate::text::copy_of;
use vstd::prelude::*;

verus! {

/// What is wrong, and whether the usage is shown with it.
#[derive(Debug)]
pub struct CliError {
    pub message: String,
    pub show_usage: bool,
}

/// The mathematical content of a `CliError`.
pub struct CliErrorView {
    pub message: Seq<char>,
    pub show_usage: bool,
}

impl View for CliError {
    type V = CliErrorView;

    open spec fn view(&self) -> CliErrorView {
        CliErrorView { message: self.message@, show_usage: self.show_usage }
    }
}

/// An error that stands alone.
pub open spec fn plain_error(message: Seq<char>) -> CliErrorView {
    CliErrorView { message, show_usage: false }
}

/// An error that comes with the usage.
pub open spec fn usage_error(message: Seq<char>) -> CliErrorView {
    CliErrorView { message, show_usage: true }
}

impl CliError {
    pub(crate) fn plain(text: &str, detail: &str) -> (error: CliError)
        ensures
            error@ == plain_error(text@ + detail@),
    {
        let mut message = copy_of(text);
        message.append(detail);
        CliError { message, show_usage: false }
    }

    pub(crate) fn with_usage(text: &str, detail: &str) -> (error: CliError)
        ensures
            error@ == usage_error(text@ + detail@),
    {
        let mut message = copy_of(text);
        message.append(detail);
        CliError { message, show_usage: true }
    }
}

} // verus!
