//! The closed set of parse failures, each carrying the offending name.

use vstd::prelude::*;

verus! {

/// Represents all possible errors that can occur during parsing.
#[derive(Debug, PartialEq)]
pub enum ArgParseError {
    /// An unknown argument was provided (for example `--foo`).
    UnknownArgument(String),
    /// An option was provided without its required value (for example a bare
    /// `--output` at the end of the token list).
    MissingValueForOption(String),
    /// A value-bearing option appeared before the end of a group of short
    /// flags (for example `-ovf` where `o` takes a value).
    OptionInMiddleOfGroup(String),
    /// The user requested the help message (with `--help` or `-h`).
    HelpRequested,
    /// A required argument was not provided.
    MissingRequiredArgument(String),
}

/// The mathematical model of a parse failure: the same variants over
/// sequences of characters.
pub ghost enum ParseErrorView {
    UnknownArgument(Seq<char>),
    MissingValueForOption(Seq<char>),
    OptionInMiddleOfGroup(Seq<char>),
    HelpRequested,
    MissingRequiredArgument(Seq<char>),
}

impl View for ArgParseError {
    type V = ParseErrorView;

    open spec fn view(&self) -> ParseErrorView {
        match self {
            ArgParseError::UnknownArgument(name) => ParseErrorView::UnknownArgument(name@),
            ArgParseError::MissingValueForOption(name) => ParseErrorView::MissingValueForOption(
                name@,
            ),
            ArgParseError::OptionInMiddleOfGroup(name) => ParseErrorView::OptionInMiddleOfGroup(
                name@,
            ),
            ArgParseError::HelpRequested => ParseErrorView::HelpRequested,
            ArgParseError::MissingRequiredArgument(name) => {
                ParseErrorView::MissingRequiredArgument(name@)
            },
        }
    }
}

/// The diagnostic line that [`ArgParseError::message`] renders for each
/// failure; a help request carries no message of its own.
pub open spec fn message_view(e: ParseErrorView) -> Seq<char> {
    match e {
        ParseErrorView::UnknownArgument(name) => "unknown argument: '"@ + name + "'"@,
        ParseErrorView::MissingValueForOption(name) => "missing value for option: '"@ + name
            + "'"@,
        ParseErrorView::OptionInMiddleOfGroup(name) => "Option '"@ + name
            + "' cannot be in the middle of the group"@,
        ParseErrorView::HelpRequested => Seq::empty(),
        ParseErrorView::MissingRequiredArgument(name) => "missing required argument '"@ + name
            + "'"@,
    }
}

impl ArgParseError {
    /// Renders the error as a human-readable diagnostic line.
    pub fn message(&self) -> (r: String)
        ensures
            r@ == message_view(self@),
    {
        let mut out = String::new();
        match self {
            ArgParseError::UnknownArgument(name) => {
                out.append("unknown argument: '");
                out.append(name.as_str());
                out.append("'");
            },
            ArgParseError::MissingValueForOption(name) => {
                out.append("missing value for option: '");
                out.append(name.as_str());
                out.append("'");
            },
            ArgParseError::OptionInMiddleOfGroup(name) => {
                out.append("Option '");
                out.append(name.as_str());
                out.append("' cannot be in the middle of the group");
            },
            ArgParseError::HelpRequested => {},
            ArgParseError::MissingRequiredArgument(name) => {
                out.append("missing required argument '");
                out.append(name.as_str());
                out.append("'");
            },
        }
        out
    }
}

} // verus!
