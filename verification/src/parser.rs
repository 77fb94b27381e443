//! The definition registry: building up argument definitions before a parse.

use vstd::prelude::*;

use crate::definitions::Argument;
use crate::definitions::ArgumentKind;
use crate::definitions::ArgumentView;

verus! {

/// The registry of argument definitions and the entry point for parsing.
pub struct Parser {
    pub(crate) definitions: Vec<Argument>,
}

impl View for Parser {
    type V = Seq<ArgumentView>;

    closed spec fn view(&self) -> Seq<ArgumentView> {
        self.definitions.deep_view()
    }
}

/// The definition a freshly registered argument starts from: no short name,
/// empty help text, not required.
pub open spec fn fresh_definition(kind: ArgumentKind, long_name: Seq<char>) -> ArgumentView {
    ArgumentView { kind, short_name: None, long_name, help: Seq::empty(), required: false }
}

impl Parser {
    /// The registry a parser models is exactly its definition list.
    pub(crate) proof fn lemma_view(&self)
        ensures
            self@ == self.definitions.deep_view(),
    {
    }

    /// Creates a new, empty parser.
    pub fn new() -> (r: Self)
        ensures
            r@ == Seq::<ArgumentView>::empty(),
    {
        Parser { definitions: Vec::new() }
    }

    /// Appends a fresh definition of the given kind.
    fn add(&mut self, long_name: &str, kind: ArgumentKind)
        ensures
            final(self)@ == old(self)@.push(fresh_definition(kind, long_name@)),
    {
        self.definitions.push(Argument {
            kind,
            short_name: None,
            long_name: long_name.to_owned(),
            help: String::new(),
            required: false,
        });
        assert(final(self)@ =~= old(self)@.push(fresh_definition(kind, long_name@)));
    }

    /// Defines a flag argument (for example `--verbose`, `-v`).
    ///
    /// Returns an [`ArgumentBuilder`] through which the definition just added
    /// can be configured further.
    pub fn add_flag(&mut self, long_name: &str) -> (r: ArgumentBuilder)
        ensures
            (*r.parser)@ == old(self)@.push(fresh_definition(ArgumentKind::Flag, long_name@)),
            *final(self) == *final(r.parser),
    {
        self.add(long_name, ArgumentKind::Flag);
        ArgumentBuilder { parser: self }
    }

    /// Defines an option argument that takes a value (for example
    /// `--output <file>`).
    ///
    /// Returns an [`ArgumentBuilder`] through which the definition just added
    /// can be configured further.
    pub fn add_option(&mut self, long_name: &str) -> (r: ArgumentBuilder)
        ensures
            (*r.parser)@ == old(self)@.push(fresh_definition(ArgumentKind::Opt, long_name@)),
            *final(self) == *final(r.parser),
    {
        self.add(long_name, ArgumentKind::Opt);
        ArgumentBuilder { parser: self }
    }

    /// Defines a positional argument (for example `<input-file>`).
    ///
    /// Returns an [`ArgumentBuilder`] through which the definition just added
    /// can be configured further.
    pub fn add_positional(&mut self, long_name: &str) -> (r: ArgumentBuilder)
        ensures
            (*r.parser)@ == old(self)@.push(
                fresh_definition(ArgumentKind::Positional, long_name@),
            ),
            *final(self) == *final(r.parser),
    {
        self.add(long_name, ArgumentKind::Positional);
        ArgumentBuilder { parser: self }
    }
}

/// A transient handle to the definition most recently added to a [`Parser`],
/// returned by `add_flag`, `add_option` and `add_positional` so that
/// configuration calls such as `with_short_name` can be chained.
pub struct ArgumentBuilder<'a> {
    pub parser: &'a mut Parser,
}

/// The registry after the help text of its most recently added definition is
/// replaced; an empty registry is left unchanged.
pub open spec fn with_last_help(defs: Seq<ArgumentView>, help: Seq<char>) -> Seq<ArgumentView> {
    if defs.len() == 0 {
        defs
    } else {
        defs.update(defs.len() - 1, ArgumentView { help, ..defs.last() })
    }
}

/// The registry after the short name of its most recently added definition is
/// replaced; an empty registry is left unchanged.
pub open spec fn with_last_short_name(defs: Seq<ArgumentView>, short_name: char) -> Seq<
    ArgumentView,
> {
    if defs.len() == 0 {
        defs
    } else {
        defs.update(defs.len() - 1, ArgumentView { short_name: Some(short_name), ..defs.last() })
    }
}

/// The registry after its most recently added definition is marked required;
/// an empty registry is left unchanged.
pub open spec fn with_last_required(defs: Seq<ArgumentView>) -> Seq<ArgumentView> {
    if defs.len() == 0 {
        defs
    } else {
        defs.update(defs.len() - 1, ArgumentView { required: true, ..defs.last() })
    }
}

impl<'a> ArgumentBuilder<'a> {
    /// Adds a help message to the argument.
    pub fn with_help(self, help_text: &str) -> (r: Self)
        ensures
            (*r.parser)@ == with_last_help((*old(self.parser))@, help_text@),
            *final(r.parser) == *final(self.parser),
    {
        let mut this = self;
        let ghost defs0 = (*this.parser)@;
        match this.parser.definitions.pop() {
            Some(mut arg) => {
                arg.help = help_text.to_owned();
                this.parser.definitions.push(arg);
                assert((*this.parser)@ =~= with_last_help(defs0, help_text@));
            },
            None => {},
        }
        this
    }

    /// Adds a short name (for example `'s'`, matched by `-s`) to the argument.
    pub fn with_short_name(self, short_name: char) -> (r: Self)
        ensures
            (*r.parser)@ == with_last_short_name((*old(self.parser))@, short_name),
            *final(r.parser) == *final(self.parser),
    {
        let mut this = self;
        match this.parser.definitions.pop() {
            Some(mut arg) => {
                arg.short_name = Some(short_name);
                this.parser.definitions.push(arg);
            },
            None => {},
        }
        this
    }

    /// Marks the argument as required.
    ///
    /// The parser will return an error if this argument is not provided.
    pub fn required(self) -> (r: Self)
        ensures
            (*r.parser)@ == with_last_required((*old(self.parser))@),
            *final(r.parser) == *final(self.parser),
    {
        let mut this = self;
        match this.parser.definitions.pop() {
            Some(mut arg) => {
                arg.required = true;
                this.parser.definitions.push(arg);
            },
            None => {},
        }
        this
    }
}

} // verus!
