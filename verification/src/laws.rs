//! Laws of the parsing model: what holds of every registry and every token
//! list, proved once and for all against the spec functions in
//! [`crate::model`].

use vstd::prelude::*;

use crate::definitions::ArgumentView;
use crate::errors::ParseErrorView;
use crate::model::ClusterOutcome;
use crate::model::ParsedView;
use crate::model::cluster_of;
use crate::model::empty_parsed;
use crate::model::find_long;
use crate::model::find_short;
use crate::model::first_missing;
use crate::model::is_help_token;
use crate::model::is_long_token;
use crate::model::is_short_token;
use crate::model::long_name_of;
use crate::model::satisfied;
use crate::model::scan_cluster;
use crate::model::scan_from;
use crate::model::spec_parse;
use crate::model::with_flag;
use crate::model::with_option;
use crate::model::with_positional;

verus! {

/// Whether one short group resolves the same way from two different
/// accumulated states: the outcome's shape, the name an option still needs,
/// and any failure depend only on the registry and the characters.
proof fn lemma_cluster_shape(
    defs: Seq<ArgumentView>,
    chars: Seq<char>,
    acc1: ParsedView,
    acc2: ParsedView,
)
    ensures
        ({
            let r1 = scan_cluster(defs, chars, acc1);
            let r2 = scan_cluster(defs, chars, acc2);
            &&& (r1 is Done <==> r2 is Done)
            &&& (r1 is Fail <==> r2 is Fail)
            &&& (r1 matches ClusterOutcome::NeedsValue(s1, n1) ==> r2 matches
                ClusterOutcome::NeedsValue(s2, n2) && n1 == n2)
            &&& (r1 matches ClusterOutcome::Fail(e1) ==> r2 matches ClusterOutcome::Fail(e2)
                && e1 == e2)
        }),
    decreases chars.len(),
{
    if chars.len() != 0 {
        match find_short(defs, chars[0]) {
            Option::None => {},
            Option::Some(d) => {
                if d.kind is Flag {
                    lemma_cluster_shape(
                        defs,
                        chars.drop_first(),
                        with_flag(acc1, d.long_name),
                        with_flag(acc2, d.long_name),
                    );
                }
            },
        }
    }
}

/// A short group only gathers flags: however it leaves the scan, the options
/// and the positional tokens are exactly those it started from, and every
/// flag it started from is still present.
proof fn lemma_cluster_effect(defs: Seq<ArgumentView>, chars: Seq<char>, acc: ParsedView)
    ensures
        ({
            let r = scan_cluster(defs, chars, acc);
            &&& (r matches ClusterOutcome::Done(a2) ==> a2.options == acc.options && a2.positional
                == acc.positional && acc.flags.subset_of(a2.flags))
            &&& (r matches ClusterOutcome::NeedsValue(a2, n) ==> a2.options == acc.options
                && a2.positional == acc.positional && acc.flags.subset_of(a2.flags))
        }),
    decreases chars.len(),
{
    if chars.len() != 0 {
        match find_short(defs, chars[0]) {
            Option::None => {},
            Option::Some(d) => {
                if d.kind is Flag {
                    lemma_cluster_effect(defs, chars.drop_first(), with_flag(acc, d.long_name));
                }
            },
        }
    }
}

/// How one token, taken on its own, moves the scan along.
pub ghost enum TokenStep {
    /// The token stops the whole parse with this failure.
    Halt(ParseErrorView),
    /// The token is an option reference: it consumes the next token as the
    /// value of this long name.
    TakesValue(Seq<char>),
    /// The token is done with itself alone: a flag reference, a group of
    /// flags, or a positional token.
    Plain,
}

/// Classifies one token against a registry. The classification does not
/// depend on what was already parsed, which is what makes the laws below
/// statable about a token anywhere in the stream.
pub open spec fn token_step(defs: Seq<ArgumentView>, t: Seq<char>) -> TokenStep {
    if is_help_token(t) {
        TokenStep::Halt(ParseErrorView::HelpRequested)
    } else if is_long_token(t) {
        match find_long(defs, long_name_of(t)) {
            Option::None => TokenStep::Halt(ParseErrorView::UnknownArgument(long_name_of(t))),
            Option::Some(d) => if d.kind is Flag {
                TokenStep::Plain
            } else {
                TokenStep::TakesValue(d.long_name)
            },
        }
    } else if is_short_token(t) {
        match scan_cluster(defs, cluster_of(t), empty_parsed()) {
            ClusterOutcome::Done(_) => TokenStep::Plain,
            ClusterOutcome::NeedsValue(_, name) => TokenStep::TakesValue(name),
            ClusterOutcome::Fail(e) => TokenStep::Halt(e),
        }
    } else {
        TokenStep::Plain
    }
}

/// Whether the scan, started after the program name, arrives at position
/// `i` as the start of a token: position 1 always, a later position when
/// the previous token finished on its own, or the one before that consumed
/// the token in between as its value. A position after a failure, or one
/// swallowed as an option value, is never reached.
pub open spec fn scan_reaches(defs: Seq<ArgumentView>, toks: Seq<Seq<char>>, i: int) -> bool
    decreases i,
{
    if i <= 1 {
        i == 1
    } else {
        ||| (i - 1 < toks.len() && scan_reaches(defs, toks, i - 1) && token_step(
            defs,
            toks[i - 1],
        ) is Plain)
        ||| (i - 2 >= 1 && i - 1 < toks.len() && scan_reaches(defs, toks, i - 2) && token_step(
            defs,
            toks[i - 2],
        ) is TakesValue)
    }
}

/// Scanning onward from a reached position tells the whole story: whatever
/// the scan of the full list returns, it equals the scan from position `i`
/// out of some intermediate state.
proof fn lemma_scan_splits_at_reached(
    defs: Seq<ArgumentView>,
    toks: Seq<Seq<char>>,
    i: int,
    acc: ParsedView,
)
    requires
        scan_reaches(defs, toks, i),
    ensures
        exists|mid: ParsedView|
            scan_from(defs, toks, 1, acc) == #[trigger] scan_from(defs, toks, i, mid),
    decreases i,
{
    if i == 1 {
        assert(scan_from(defs, toks, 1, acc) == scan_from(defs, toks, i, acc));
    } else if i - 1 < toks.len() && scan_reaches(defs, toks, i - 1) && token_step(
        defs,
        toks[i - 1],
    ) is Plain {
        lemma_scan_splits_at_reached(defs, toks, i - 1, acc);
        let mid = choose|mid: ParsedView|
            scan_from(defs, toks, 1, acc) == #[trigger] scan_from(defs, toks, i - 1, mid);
        let t = toks[i - 1];
        if is_long_token(t) {
            let d = find_long(defs, long_name_of(t))->Some_0;
            assert(scan_from(defs, toks, i - 1, mid) == scan_from(
                defs,
                toks,
                i,
                with_flag(mid, d.long_name),
            ));
        } else if is_short_token(t) {
            lemma_cluster_shape(defs, cluster_of(t), empty_parsed(), mid);
            let a2 = scan_cluster(defs, cluster_of(t), mid)->Done_0;
            assert(scan_from(defs, toks, i - 1, mid) == scan_from(defs, toks, i, a2));
        } else {
            assert(scan_from(defs, toks, i - 1, mid) == scan_from(
                defs,
                toks,
                i,
                with_positional(mid, t),
            ));
        }
    } else {
        lemma_scan_splits_at_reached(defs, toks, i - 2, acc);
        let mid = choose|mid: ParsedView|
            scan_from(defs, toks, 1, acc) == #[trigger] scan_from(defs, toks, i - 2, mid);
        let t = toks[i - 2];
        if is_long_token(t) {
            let d = find_long(defs, long_name_of(t))->Some_0;
            assert(scan_from(defs, toks, i - 2, mid) == scan_from(
                defs,
                toks,
                i,
                with_option(mid, d.long_name, toks[i - 1]),
            ));
        } else {
            lemma_cluster_shape(defs, cluster_of(t), empty_parsed(), mid);
            let a2 = scan_cluster(defs, cluster_of(t), mid)->NeedsValue_0;
            let name = scan_cluster(defs, cluster_of(t), mid)->NeedsValue_1;
            assert(scan_from(defs, toks, i - 2, mid) == scan_from(
                defs,
                toks,
                i,
                with_option(a2, name, toks[i - 1]),
            ));
        }
    }
}

/// LAW: a token that halts the scan on its own — a help request, an unknown
/// long name, an unknown short character, or an option before the end of
/// its group — fails the whole parse with exactly that error, whatever was
/// parsed before it and whatever follows.
pub proof fn lemma_reached_halt_fails_parse(
    defs: Seq<ArgumentView>,
    toks: Seq<Seq<char>>,
    i: int,
    e: ParseErrorView,
)
    requires
        1 <= i < toks.len(),
        scan_reaches(defs, toks, i),
        token_step(defs, toks[i]) == TokenStep::Halt(e),
    ensures
        spec_parse(defs, toks) == Err::<ParsedView, ParseErrorView>(e),
{
    lemma_scan_splits_at_reached(defs, toks, i, empty_parsed());
    let mid = choose|mid: ParsedView|
        scan_from(defs, toks, 1, empty_parsed()) == #[trigger] scan_from(defs, toks, i, mid);
    let t = toks[i];
    if !is_help_token(t) && is_short_token(t) {
        lemma_cluster_shape(defs, cluster_of(t), empty_parsed(), mid);
    }
    assert(scan_from(defs, toks, i, mid) == Err::<ParsedView, ParseErrorView>(e));
}

/// LAW: a `--help` or `-h` token that the scan reaches fails the whole
/// parse with `HelpRequested`, before any other interpretation — even when
/// `help` or `h` is itself a registered name.
pub proof fn lemma_help_requested(defs: Seq<ArgumentView>, toks: Seq<Seq<char>>, i: int)
    requires
        1 <= i < toks.len(),
        scan_reaches(defs, toks, i),
        is_help_token(toks[i]),
    ensures
        spec_parse(defs, toks) == Err::<ParsedView, ParseErrorView>(
            ParseErrorView::HelpRequested,
        ),
{
    lemma_reached_halt_fails_parse(defs, toks, i, ParseErrorView::HelpRequested);
}

/// LAW: an option reference standing as the final token has no value to
/// consume, and the whole parse fails with `MissingValueForOption` carrying
/// that option's long name.
pub proof fn lemma_missing_value_for_option(
    defs: Seq<ArgumentView>,
    toks: Seq<Seq<char>>,
    i: int,
    name: Seq<char>,
)
    requires
        1 <= i,
        i == toks.len() - 1,
        scan_reaches(defs, toks, i),
        token_step(defs, toks[i]) == TokenStep::TakesValue(name),
    ensures
        spec_parse(defs, toks) == Err::<ParsedView, ParseErrorView>(
            ParseErrorView::MissingValueForOption(name),
        ),
{
    lemma_scan_splits_at_reached(defs, toks, i, empty_parsed());
    let mid = choose|mid: ParsedView|
        scan_from(defs, toks, 1, empty_parsed()) == #[trigger] scan_from(defs, toks, i, mid);
    let t = toks[i];
    if !is_help_token(t) && is_short_token(t) {
        lemma_cluster_shape(defs, cluster_of(t), empty_parsed(), mid);
    }
    assert(scan_from(defs, toks, i, mid) == Err::<ParsedView, ParseErrorView>(
        ParseErrorView::MissingValueForOption(name),
    ));
}

/// Flags only accumulate: a scan that ends well keeps every flag its
/// starting state already held.
proof fn lemma_scan_flags_monotone(
    defs: Seq<ArgumentView>,
    toks: Seq<Seq<char>>,
    j: int,
    acc: ParsedView,
    st: ParsedView,
)
    requires
        scan_from(defs, toks, j, acc) == Ok::<ParsedView, ParseErrorView>(st),
    ensures
        acc.flags.subset_of(st.flags),
    decreases toks.len() - j,
{
    if 0 <= j < toks.len() {
        let t = toks[j];
        if is_help_token(t) {
        } else if is_long_token(t) {
            match find_long(defs, long_name_of(t)) {
                Option::None => {},
                Option::Some(d) => {
                    if d.kind is Flag {
                        lemma_scan_flags_monotone(defs, toks, j + 1, with_flag(acc, d.long_name), st);
                    } else if j + 1 < toks.len() {
                        lemma_scan_flags_monotone(
                            defs,
                            toks,
                            j + 2,
                            with_option(acc, d.long_name, toks[j + 1]),
                            st,
                        );
                    }
                },
            }
        } else if is_short_token(t) {
            lemma_cluster_effect(defs, cluster_of(t), acc);
            match scan_cluster(defs, cluster_of(t), acc) {
                ClusterOutcome::Done(a2) => {
                    lemma_scan_flags_monotone(defs, toks, j + 1, a2, st);
                },
                ClusterOutcome::NeedsValue(a2, name) => {
                    if j + 1 < toks.len() {
                        lemma_scan_flags_monotone(
                            defs,
                            toks,
                            j + 2,
                            with_option(a2, name, toks[j + 1]),
                            st,
                        );
                    }
                },
                ClusterOutcome::Fail(_) => {},
            }
        } else {
            lemma_scan_flags_monotone(
                defs,
                toks,
                j + 1,
                with_positional(acc, t),
                st,
            );
        }
    }
}

/// LAW: a reached `--name` token naming a registered flag puts that flag's
/// long name into the flags set of any successful parse, however often the
/// flag is repeated elsewhere.
pub proof fn lemma_long_flag_recorded(
    defs: Seq<ArgumentView>,
    toks: Seq<Seq<char>>,
    i: int,
    st: ParsedView,
)
    requires
        1 <= i < toks.len(),
        scan_reaches(defs, toks, i),
        is_long_token(toks[i]),
        find_long(defs, long_name_of(toks[i])) matches Some(d) && d.kind is Flag,
        spec_parse(defs, toks) == Ok::<ParsedView, ParseErrorView>(st),
    ensures
        st.flags.contains(find_long(defs, long_name_of(toks[i]))->Some_0.long_name),
{
    lemma_scan_splits_at_reached(defs, toks, i, empty_parsed());
    let mid = choose|mid: ParsedView|
        scan_from(defs, toks, 1, empty_parsed()) == #[trigger] scan_from(defs, toks, i, mid);
    let d = find_long(defs, long_name_of(toks[i]))->Some_0;
    assert(scan_from(defs, toks, i, mid) == scan_from(
        defs,
        toks,
        i + 1,
        with_flag(mid, d.long_name),
    ));
    lemma_scan_flags_monotone(defs, toks, i + 1, with_flag(mid, d.long_name), st);
}

/// A scan over tokens none of which writes this option name leaves the
/// option's recorded value exactly as it found it.
proof fn lemma_scan_preserves_option(
    defs: Seq<ArgumentView>,
    toks: Seq<Seq<char>>,
    j: int,
    acc: ParsedView,
    st: ParsedView,
    name: Seq<char>,
)
    requires
        1 <= j,
        scan_reaches(defs, toks, j),
        scan_from(defs, toks, j, acc) == Ok::<ParsedView, ParseErrorView>(st),
        acc.options.contains_key(name),
        forall|k: int|
            j <= k < toks.len() && scan_reaches(defs, toks, k) ==> #[trigger] token_step(
                defs,
                toks[k],
            ) != TokenStep::TakesValue(name),
    ensures
        st.options.contains_key(name),
        st.options[name] == acc.options[name],
    decreases toks.len() - j,
{
    if 0 <= j < toks.len() {
        let t = toks[j];
        if is_help_token(t) {
        } else if is_long_token(t) {
            match find_long(defs, long_name_of(t)) {
                Option::None => {},
                Option::Some(d) => {
                    if d.kind is Flag {
                        assert(scan_reaches(defs, toks, j + 1));
                        lemma_scan_preserves_option(
                            defs,
                            toks,
                            j + 1,
                            with_flag(acc, d.long_name),
                            st,
                            name,
                        );
                    } else if j + 1 < toks.len() {
                        assert(token_step(defs, t) == TokenStep::TakesValue(d.long_name));
                        assert(d.long_name != name);
                        assert(scan_reaches(defs, toks, j + 2));
                        lemma_scan_preserves_option(
                            defs,
                            toks,
                            j + 2,
                            with_option(acc, d.long_name, toks[j + 1]),
                            st,
                            name,
                        );
                    }
                },
            }
        } else if is_short_token(t) {
            lemma_cluster_shape(defs, cluster_of(t), empty_parsed(), acc);
            lemma_cluster_effect(defs, cluster_of(t), acc);
            match scan_cluster(defs, cluster_of(t), acc) {
                ClusterOutcome::Done(a2) => {
                    assert(token_step(defs, t) is Plain);
                    assert(scan_reaches(defs, toks, j + 1));
                    lemma_scan_preserves_option(defs, toks, j + 1, a2, st, name);
                },
                ClusterOutcome::NeedsValue(a2, m) => {
                    if j + 1 < toks.len() {
                        assert(token_step(defs, t) == TokenStep::TakesValue(m));
                        assert(m != name);
                        assert(scan_reaches(defs, toks, j + 2));
                        lemma_scan_preserves_option(
                            defs,
                            toks,
                            j + 2,
                            with_option(a2, m, toks[j + 1]),
                            st,
                            name,
                        );
                    }
                },
                ClusterOutcome::Fail(_) => {},
            }
        } else {
            assert(scan_reaches(defs, toks, j + 1));
            lemma_scan_preserves_option(
                defs,
                toks,
                j + 1,
                with_positional(acc, t),
                st,
                name,
            );
        }
    }
}

/// LAW: the last write wins. When a reached token sets an option's value
/// from the token after it, and no later reached token sets the same
/// option, a successful parse maps that option to exactly that value. A
/// single occurrence is the special case with nothing after it.
pub proof fn lemma_last_option_value_wins(
    defs: Seq<ArgumentView>,
    toks: Seq<Seq<char>>,
    i: int,
    name: Seq<char>,
    st: ParsedView,
)
    requires
        1 <= i,
        i + 1 < toks.len(),
        scan_reaches(defs, toks, i),
        token_step(defs, toks[i]) == TokenStep::TakesValue(name),
        forall|k: int|
            i < k < toks.len() && scan_reaches(defs, toks, k) ==> #[trigger] token_step(
                defs,
                toks[k],
            ) != TokenStep::TakesValue(name),
        spec_parse(defs, toks) == Ok::<ParsedView, ParseErrorView>(st),
    ensures
        st.options.contains_key(name),
        st.options[name] == toks[i + 1],
{
    lemma_scan_splits_at_reached(defs, toks, i, empty_parsed());
    let mid = choose|mid: ParsedView|
        scan_from(defs, toks, 1, empty_parsed()) == #[trigger] scan_from(defs, toks, i, mid);
    let t = toks[i];
    assert(scan_reaches(defs, toks, i + 2));
    if is_long_token(t) {
        let d = find_long(defs, long_name_of(t))->Some_0;
        let acc2 = with_option(mid, d.long_name, toks[i + 1]);
        assert(scan_from(defs, toks, i, mid) == scan_from(defs, toks, i + 2, acc2));
        lemma_scan_preserves_option(defs, toks, i + 2, acc2, st, name);
    } else {
        lemma_cluster_shape(defs, cluster_of(t), empty_parsed(), mid);
        let a2 = scan_cluster(defs, cluster_of(t), mid)->NeedsValue_0;
        let acc2 = with_option(a2, name, toks[i + 1]);
        assert(scan_from(defs, toks, i, mid) == scan_from(defs, toks, i + 2, acc2));
        lemma_scan_preserves_option(defs, toks, i + 2, acc2, st, name);
    }
}

/// LAW: a short group whose characters all name registered flags resolves
/// completely, records every one of those flags, and touches nothing else.
pub proof fn lemma_group_of_flags_collects_all(
    defs: Seq<ArgumentView>,
    chars: Seq<char>,
    acc: ParsedView,
)
    requires
        forall|k: int|
            0 <= k < chars.len() ==> ((#[trigger] find_short(defs, chars[k])) matches Some(d)
                && d.kind is Flag),
    ensures
        scan_cluster(defs, chars, acc) matches ClusterOutcome::Done(r) && r.options == acc.options
            && r.positional == acc.positional && (forall|k: int|
            0 <= k < chars.len() ==> r.flags.contains(
                (#[trigger] find_short(defs, chars[k]))->Some_0.long_name,
            )),
    decreases chars.len(),
{
    if chars.len() != 0 {
        let d0 = find_short(defs, chars[0])->Some_0;
        let acc1 = with_flag(acc, d0.long_name);
        assert(forall|k: int|
            0 <= k < chars.drop_first().len() ==> chars.drop_first()[k] == chars[k + 1]);
        lemma_group_of_flags_collects_all(defs, chars.drop_first(), acc1);
        lemma_cluster_effect(defs, chars.drop_first(), acc1);
        assert forall|k: int| 0 <= k < chars.len() implies scan_cluster(
            defs,
            chars,
            acc,
        )->Done_0.flags.contains((#[trigger] find_short(defs, chars[k]))->Some_0.long_name) by {
            if k > 0 {
                assert(chars.drop_first()[k - 1] == chars[k]);
            }
        }
    }
}

/// LAW: a value-bearing option inside a short group is legal only as the
/// final character. As the final character, after any run of flags, the
/// group resolves to the option waiting for its value; anywhere earlier,
/// the group fails with `OptionInMiddleOfGroup` carrying the option's long
/// name.
pub proof fn lemma_option_must_be_last_in_group(
    defs: Seq<ArgumentView>,
    chars: Seq<char>,
    acc: ParsedView,
    p: int,
)
    requires
        0 <= p < chars.len(),
        forall|k: int|
            0 <= k < p ==> ((#[trigger] find_short(defs, chars[k])) matches Some(d)
                && d.kind is Flag),
        find_short(defs, chars[p]) matches Some(d) && d.kind is Opt,
    ensures
        ({
            let d = find_short(defs, chars[p])->Some_0;
            if p == chars.len() - 1 {
                scan_cluster(defs, chars, acc) matches ClusterOutcome::NeedsValue(r, name)
                    && name == d.long_name
            } else {
                scan_cluster(defs, chars, acc) == ClusterOutcome::Fail(
                    ParseErrorView::OptionInMiddleOfGroup(d.long_name),
                )
            }
        }),
    decreases p,
{
    if p == 0 {
    } else {
        let d0 = find_short(defs, chars[0])->Some_0;
        assert(forall|k: int|
            0 <= k < chars.drop_first().len() ==> chars.drop_first()[k] == chars[k + 1]);
        lemma_option_must_be_last_in_group(
            defs,
            chars.drop_first(),
            with_flag(acc, d0.long_name),
            p - 1,
        );
    }
}

/// LAW: after a scan that ends well, the parse as a whole succeeds exactly
/// when every definition's required-ness is satisfied; otherwise it fails
/// with `MissingRequiredArgument` carrying the long name of the first
/// unsatisfied definition in registration order.
pub proof fn lemma_first_missing_characterization(defs: Seq<ArgumentView>, st: ParsedView)
    ensures
        first_missing(defs, st) is None <==> (forall|k: int|
            0 <= k < defs.len() ==> satisfied(#[trigger] defs[k], st)),
        first_missing(defs, st) matches Some(name) ==> exists|k: int|
            0 <= k < defs.len() && !satisfied(#[trigger] defs[k], st) && name
                == defs[k].long_name && (forall|m: int|
                0 <= m < k ==> satisfied(#[trigger] defs[m], st)),
    decreases defs.len(),
{
    if defs.len() != 0 {
        lemma_first_missing_characterization(defs.drop_first(), st);
        assert(forall|k: int|
            0 <= k < defs.drop_first().len() ==> defs.drop_first()[k] == defs[k + 1]);
        if forall|k: int| 0 <= k < defs.len() ==> satisfied(#[trigger] defs[k], st) {
            assert forall|k: int| 0 <= k < defs.drop_first().len() implies satisfied(
                #[trigger] defs.drop_first()[k],
                st,
            ) by {
                assert(defs.drop_first()[k] == defs[k + 1]);
            }
        }
        if first_missing(defs, st) is None {
            assert forall|k: int| 0 <= k < defs.len() implies satisfied(
                #[trigger] defs[k],
                st,
            ) by {
                if k > 0 {
                    assert(defs.drop_first()[k - 1] == defs[k]);
                    assert(satisfied(defs.drop_first()[k - 1], st));
                }
            }
        }
        if satisfied(defs[0], st) {
            match first_missing(defs.drop_first(), st) {
                Option::Some(name) => {
                    let k = choose|k: int|
                        0 <= k < defs.drop_first().len() && !satisfied(
                            #[trigger] defs.drop_first()[k],
                            st,
                        ) && name == defs.drop_first()[k].long_name && (forall|m: int|
                            0 <= m < k ==> satisfied(
                                #[trigger] defs.drop_first()[m],
                                st,
                            ));
                    assert forall|m: int| 0 <= m < k + 1 implies satisfied(
                        #[trigger] defs[m],
                        st,
                    ) by {
                        if m > 0 {
                            assert(defs.drop_first()[m - 1] == defs[m]);
                        }
                    }
                    assert(!satisfied(defs[k + 1], st) && name == defs[k
                        + 1].long_name);
                },
                Option::None => {},
            }
        }
    }
}

/// LAW: the validation pass decides a parse whose scan succeeded. With the
/// scan's result in hand, the parse returns it exactly when every required
/// definition is satisfied, and otherwise fails with the first unsatisfied
/// definition's long name.
pub proof fn lemma_required_arguments_enforced(
    defs: Seq<ArgumentView>,
    toks: Seq<Seq<char>>,
    st: ParsedView,
)
    requires
        scan_from(defs, toks, 1, empty_parsed()) == Ok::<ParsedView, ParseErrorView>(st),
    ensures
        spec_parse(defs, toks) == Ok::<ParsedView, ParseErrorView>(st) <==> (forall|k: int|
            0 <= k < defs.len() ==> satisfied(#[trigger] defs[k], st)),
        spec_parse(defs, toks) matches Err(e) ==> e matches
            ParseErrorView::MissingRequiredArgument(name) && exists|k: int|
            0 <= k < defs.len() && !satisfied(#[trigger] defs[k], st) && name
                == defs[k].long_name && (forall|m: int|
                0 <= m < k ==> satisfied(#[trigger] defs[m], st)),
{
    lemma_first_missing_characterization(defs, st);
}

} // verus!

