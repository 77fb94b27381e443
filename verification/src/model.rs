//! The mathematical model of parsing: how a token list is classified against
//! a registry of definitions, and what result or failure that yields.
//!
//! Every executable entry point states its contract in terms of the spec
//! functions in this module; [`spec_parse`] is the complete functional
//! description of [`crate::Parser::parse`].

use vstd::prelude::*;

use crate::definitions::ArgumentKind;
use crate::definitions::ArgumentView;
use crate::errors::ParseErrorView;

verus! {

/// The model of a parse result: which flags were seen, the value each option
/// ended up with, and the positional tokens in encounter order.
#[verifier::ext_equal]
pub ghost struct ParsedView {
    pub flags: Set<Seq<char>>,
    pub options: Map<Seq<char>, Seq<char>>,
    pub positional: Seq<Seq<char>>,
}

/// The result set a parse starts from: nothing seen yet.
pub open spec fn empty_parsed() -> ParsedView {
    ParsedView {
        flags: Set::empty(),
        options: Map::empty(),
        positional: Seq::empty(),
    }
}

/// The result set after a flag with this long name is recorded.
pub open spec fn with_flag(acc: ParsedView, long_name: Seq<char>) -> ParsedView {
    ParsedView { flags: acc.flags.insert(long_name), ..acc }
}

/// The result set after an option value is recorded; an earlier value for
/// the same option is overwritten.
pub open spec fn with_option(acc: ParsedView, long_name: Seq<char>, value: Seq<char>) -> ParsedView {
    ParsedView { options: acc.options.insert(long_name, value), ..acc }
}

/// The result set after a positional token is appended.
pub open spec fn with_positional(acc: ParsedView, token: Seq<char>) -> ParsedView {
    ParsedView { positional: acc.positional.push(token), ..acc }
}

/// Whether a token asks for help; this check precedes every other
/// classification, and `help` or `h` being registered does not override it.
pub open spec fn is_help_token(t: Seq<char>) -> bool {
    t == "--help"@ || t == "-h"@
}

/// Whether a token names an argument by long name (`--name`).
pub open spec fn is_long_token(t: Seq<char>) -> bool {
    t.len() >= 2 && t[0] == '-' && t[1] == '-'
}

/// Whether a token is a group of short names (`-avz`); a lone `-` is not,
/// and counts as a positional token.
pub open spec fn is_short_token(t: Seq<char>) -> bool {
    !is_long_token(t) && t.len() >= 2 && t[0] == '-'
}

/// The long name carried by a `--name` token.
pub open spec fn long_name_of(t: Seq<char>) -> Seq<char> {
    t.subrange(2, t.len() as int)
}

/// The characters of a short-group token after the `-` prefix.
pub open spec fn cluster_of(t: Seq<char>) -> Seq<char> {
    t.subrange(1, t.len() as int)
}

/// Whether a definition can be matched by the long name of a prefixed token.
/// Positional definitions have no name-lookup path: a `--name` token never
/// matches one, whatever its long name is.
pub open spec fn matches_long(d: ArgumentView, name: Seq<char>) -> bool {
    !(d.kind is Positional) && d.long_name == name
}

/// Whether a definition can be matched by a short-group character; positional
/// definitions are never matched, as with long names.
pub open spec fn matches_short(d: ArgumentView, c: char) -> bool {
    !(d.kind is Positional) && d.short_name == Some(c)
}

/// The first definition, in registration order, matched by this long name.
/// Duplicate long names are not rejected at registration; the first
/// registered definition always wins.
pub open spec fn find_long(defs: Seq<ArgumentView>, name: Seq<char>) -> Option<ArgumentView>
    decreases defs.len(),
{
    if defs.len() == 0 {
        None
    } else if matches_long(defs[0], name) {
        Some(defs[0])
    } else {
        find_long(defs.drop_first(), name)
    }
}

/// The first definition, in registration order, matched by this short name.
pub open spec fn find_short(defs: Seq<ArgumentView>, c: char) -> Option<ArgumentView>
    decreases defs.len(),
{
    if defs.len() == 0 {
        None
    } else if matches_short(defs[0], c) {
        Some(defs[0])
    } else {
        find_short(defs.drop_first(), c)
    }
}

/// What resolving the characters of one short group comes to.
pub ghost enum ClusterOutcome {
    /// Every character was a flag; the result set grew accordingly.
    Done(ParsedView),
    /// The final character was an option with this long name: it still needs
    /// the following token as its value.
    NeedsValue(ParsedView, Seq<char>),
    /// A character failed to resolve; the whole parse fails with this error.
    Fail(ParseErrorView),
}

/// Resolves the characters of a short group left to right: flags accumulate,
/// an option is legal only as the last character, and an unknown character
/// fails the parse.
pub open spec fn scan_cluster(
    defs: Seq<ArgumentView>,
    chars: Seq<char>,
    acc: ParsedView,
) -> ClusterOutcome
    decreases chars.len(),
{
    if chars.len() == 0 {
        ClusterOutcome::Done(acc)
    } else {
        match find_short(defs, chars[0]) {
            Option::None => ClusterOutcome::Fail(
                ParseErrorView::UnknownArgument(seq![chars[0]]),
            ),
            Option::Some(d) => {
                if d.kind is Flag {
                    scan_cluster(defs, chars.drop_first(), with_flag(acc, d.long_name))
                } else if chars.len() == 1 {
                    ClusterOutcome::NeedsValue(acc, d.long_name)
                } else {
                    ClusterOutcome::Fail(ParseErrorView::OptionInMiddleOfGroup(d.long_name))
                }
            },
        }
    }
}

/// Scans the token list from position `i` onward, token by token, growing the
/// result set; the token at position 0 is the program name and is never
/// scanned.
pub open spec fn scan_from(
    defs: Seq<ArgumentView>,
    toks: Seq<Seq<char>>,
    i: int,
    acc: ParsedView,
) -> Result<ParsedView, ParseErrorView>
    decreases toks.len() - i,
{
    if !(0 <= i < toks.len()) {
        Ok(acc)
    } else {
        let t = toks[i];
        if is_help_token(t) {
            Err(ParseErrorView::HelpRequested)
        } else if is_long_token(t) {
            let name = long_name_of(t);
            match find_long(defs, name) {
                Option::None => Err(ParseErrorView::UnknownArgument(name)),
                Option::Some(d) => {
                    if d.kind is Flag {
                        scan_from(defs, toks, i + 1, with_flag(acc, d.long_name))
                    } else if i + 1 < toks.len() {
                        scan_from(defs, toks, i + 2, with_option(acc, d.long_name, toks[i + 1]))
                    } else {
                        Err(ParseErrorView::MissingValueForOption(d.long_name))
                    }
                },
            }
        } else if is_short_token(t) {
            match scan_cluster(defs, cluster_of(t), acc) {
                ClusterOutcome::Done(acc2) => scan_from(defs, toks, i + 1, acc2),
                ClusterOutcome::NeedsValue(acc2, name) => {
                    if i + 1 < toks.len() {
                        scan_from(defs, toks, i + 2, with_option(acc2, name, toks[i + 1]))
                    } else {
                        Err(ParseErrorView::MissingValueForOption(name))
                    }
                },
                ClusterOutcome::Fail(e) => Err(e),
            }
        } else {
            scan_from(defs, toks, i + 1, with_positional(acc, t))
        }
    }
}

/// Whether a definition's required-ness is satisfied by a result set. A
/// required positional definition asks only that at least one positional
/// token is present; with several required positional definitions the check
/// cannot tell them apart.
pub open spec fn satisfied(d: ArgumentView, st: ParsedView) -> bool {
    !d.required || (match d.kind {
        ArgumentKind::Flag => st.flags.contains(d.long_name),
        ArgumentKind::Opt => st.options.contains_key(d.long_name),
        ArgumentKind::Positional => st.positional.len() > 0,
    })
}

/// The long name of the first definition, in registration order, whose
/// required-ness is not satisfied; `None` when all are.
pub open spec fn first_missing(defs: Seq<ArgumentView>, st: ParsedView) -> Option<Seq<char>>
    decreases defs.len(),
{
    if defs.len() == 0 {
        None
    } else if !satisfied(defs[0], st) {
        Some(defs[0].long_name)
    } else {
        first_missing(defs.drop_first(), st)
    }
}

/// The complete model of a parse: the first token is discarded as the
/// program name, the rest are scanned, and the required-argument check runs
/// on the scan's result.
pub open spec fn spec_parse(defs: Seq<ArgumentView>, toks: Seq<Seq<char>>) -> Result<
    ParsedView,
    ParseErrorView,
> {
    match scan_from(defs, toks, 1, empty_parsed()) {
        Ok(st) => match first_missing(defs, st) {
            Option::Some(name) => Err(ParseErrorView::MissingRequiredArgument(name)),
            Option::None => Ok(st),
        },
        Err(e) => Err(e),
    }
}

} // verus!
