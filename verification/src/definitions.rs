//! Argument definitions: the kinds of arguments a parser can register and the
//! record the registry keeps for each of them.

use vstd::prelude::*;

verus! {

/// The kind of a registered argument.
#[derive(Clone, Copy, PartialEq, Eq, Structural)]
pub enum ArgumentKind {
    /// A boolean-presence argument that takes no value.
    Flag,
    /// A value-bearing argument: it consumes the following token as its value.
    Opt,
    /// An argument identified by its position rather than by a name token.
    Positional,
}

/// One registered argument definition.
pub struct Argument {
    pub kind: ArgumentKind,
    pub short_name: Option<char>,
    pub long_name: String,
    pub help: String,
    pub required: bool,
}

/// The mathematical model of a registered argument definition: the same
/// record with every string read as a sequence of characters.
pub ghost struct ArgumentView {
    pub kind: ArgumentKind,
    pub short_name: Option<char>,
    pub long_name: Seq<char>,
    pub help: Seq<char>,
    pub required: bool,
}

impl View for Argument {
    type V = ArgumentView;

    open spec fn view(&self) -> ArgumentView {
        ArgumentView {
            kind: self.kind,
            short_name: self.short_name,
            long_name: self.long_name@,
            help: self.help@,
            required: self.required,
        }
    }
}

impl DeepView for Argument {
    type V = ArgumentView;

    open spec fn deep_view(&self) -> ArgumentView {
        self@
    }
}

} // verus!
