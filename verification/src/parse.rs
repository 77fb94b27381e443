//! The tokenizer/parser pass and the required-argument validation pass.

use vstd::prelude::*;
use vstd::pervasive::unreached;

use crate::definitions::Argument;
use crate::definitions::ArgumentKind;
use crate::errors::ArgParseError;
use crate::errors::ParseErrorView;
use crate::model::ClusterOutcome;
use crate::model::ParsedView;
use crate::model::cluster_of;
use crate::model::empty_parsed;
use crate::model::find_long;
use crate::model::find_short;
use crate::model::first_missing;
use crate::model::is_long_token;
use crate::model::is_short_token;
use crate::model::matches_long;
use crate::model::matches_short;
use crate::model::satisfied;
use crate::model::scan_cluster;
use crate::model::scan_from;
use crate::model::spec_parse;
use crate::parsed::ParsedArgs;
use crate::parser::Parser;
use crate::text::str_eq;

verus! {

/// How one short group left the scan: complete, waiting for a value token,
/// or failed.
enum ClusterStep {
    Done,
    NeedsValue(String),
    Failed(ArgParseError),
}

impl Parser {
    /// The first definition, in registration order, that a long name
    /// matches; positional definitions are passed over.
    fn find_named(&self, name: &str) -> (r: Option<&Argument>)
        ensures
            match r {
                Some(d) => find_long(self@, name@) == Some(d@) && matches_long(d@, name@),
                None => find_long(self@, name@) is None,
            },
    {
        proof {
            self.lemma_view();
        }
        let ghost defs = self@;
        proof {
            assert(defs.skip(0) =~= defs);
        }
        let mut i: usize = 0;
        while i < self.definitions.len()
            invariant
                i <= self.definitions.len(),
                defs == self@,
                self@ == self.definitions.deep_view(),
                find_long(defs, name@) == find_long(defs.skip(i as int), name@),
            decreases self.definitions.len() - i,
        {
            proof {
                assert(defs.skip(i as int)[0] == defs[i as int]);
                assert(defs.skip(i as int).drop_first() =~= defs.skip(i + 1));
            }
            let d = &self.definitions[i];
            let is_positional = match d.kind {
                ArgumentKind::Positional => true,
                _ => false,
            };
            if !is_positional && str_eq(d.long_name.as_str(), name) {
                proof {
                    assert(d@ == defs[i as int]);
                }
                return Some(d);
            }
            i += 1;
        }
        proof {
            assert(defs.skip(self.definitions.len() as int) =~= Seq::<
                crate::definitions::ArgumentView,
            >::empty());
        }
        None
    }

    /// The first definition, in registration order, that a short name
    /// matches; positional definitions are passed over.
    fn find_by_short(&self, c: char) -> (r: Option<&Argument>)
        ensures
            match r {
                Some(d) => find_short(self@, c) == Some(d@) && matches_short(d@, c),
                None => find_short(self@, c) is None,
            },
    {
        proof {
            self.lemma_view();
        }
        let ghost defs = self@;
        proof {
            assert(defs.skip(0) =~= defs);
        }
        let mut i: usize = 0;
        while i < self.definitions.len()
            invariant
                i <= self.definitions.len(),
                defs == self@,
                self@ == self.definitions.deep_view(),
                find_short(defs, c) == find_short(defs.skip(i as int), c),
            decreases self.definitions.len() - i,
        {
            proof {
                assert(defs.skip(i as int)[0] == defs[i as int]);
                assert(defs.skip(i as int).drop_first() =~= defs.skip(i + 1));
            }
            let d = &self.definitions[i];
            let is_positional = match d.kind {
                ArgumentKind::Positional => true,
                _ => false,
            };
            let short_matches = match d.short_name {
                Some(sc) => sc == c,
                None => false,
            };
            if !is_positional && short_matches {
                proof {
                    assert(d@ == defs[i as int]);
                }
                return Some(d);
            }
            i += 1;
        }
        proof {
            assert(defs.skip(self.definitions.len() as int) =~= Seq::<
                crate::definitions::ArgumentView,
            >::empty());
        }
        None
    }

    /// Resolves one short-group token character by character, recording the
    /// flags it names.
    fn apply_cluster(&self, token: &str, results: &mut ParsedArgs) -> (r: ClusterStep)
        requires
            old(results).wf(),
            is_short_token(token@),
        ensures
            final(results).wf(),
            match r {
                ClusterStep::Done => scan_cluster(self@, cluster_of(token@), old(results)@)
                    == ClusterOutcome::Done(final(results)@),
                ClusterStep::NeedsValue(name) => scan_cluster(
                    self@,
                    cluster_of(token@),
                    old(results)@,
                ) == ClusterOutcome::NeedsValue(final(results)@, name@),
                ClusterStep::Failed(e) => scan_cluster(self@, cluster_of(token@), old(results)@)
                    == ClusterOutcome::Fail(e@),
            },
    {
        let len: usize = token.unicode_len();
        let mut j: usize = 1;
        #[verifier::loop_isolation(false)]
        while j < len
            invariant
                1 <= j <= len,
                results.wf(),
                scan_cluster(self@, cluster_of(token@), old(results)@) == scan_cluster(
                    self@,
                    token@.subrange(j as int, len as int),
                    results@,
                ),
            decreases len - j,
        {
            let ghost rest = token@.subrange(j as int, len as int);
            proof {
                assert(rest[0] == token@[j as int]);
                assert(rest.drop_first() =~= token@.subrange(j + 1, len as int));
            }
            let c = token.get_char(j);
            match self.find_by_short(c) {
                None => {
                    let c_text = token.substring_char(j, j + 1);
                    proof {
                        assert(c_text@ =~= seq![token@[j as int]]);
                    }
                    return ClusterStep::Failed(ArgParseError::UnknownArgument(c_text.to_owned()));
                },
                Some(d) => {
                    match d.kind {
                        ArgumentKind::Flag => {
                            results.record_flag(&d.long_name);
                        },
                        ArgumentKind::Opt => {
                            if j == len - 1 {
                                return ClusterStep::NeedsValue(d.long_name.clone());
                            } else {
                                return ClusterStep::Failed(
                                    ArgParseError::OptionInMiddleOfGroup(d.long_name.clone()),
                                );
                            }
                        },
                        ArgumentKind::Positional => {
                            return unreached();
                        },
                    }
                },
            }
            j += 1;
        }
        proof {
            assert(token@.subrange(len as int, len as int) =~= Seq::<char>::empty());
        }
        ClusterStep::Done
    }

    /// Checks every required definition, in registration order, against the
    /// result set; the first unsatisfied one fails the parse.
    fn validate_args(&self, results: &ParsedArgs) -> (r: Result<(), ArgParseError>)
        ensures
            match r {
                Ok(()) => first_missing(self@, results@) is None,
                Err(e) => first_missing(self@, results@) matches Some(name) && e@
                    == ParseErrorView::MissingRequiredArgument(name),
            },
    {
        proof {
            self.lemma_view();
        }
        let ghost defs = self@;
        proof {
            assert(defs.skip(0) =~= defs);
        }
        let mut i: usize = 0;
        while i < self.definitions.len()
            invariant
                i <= self.definitions.len(),
                defs == self@,
                self@ == self.definitions.deep_view(),
                first_missing(defs, results@) == first_missing(defs.skip(i as int), results@),
            decreases self.definitions.len() - i,
        {
            proof {
                assert(defs.skip(i as int)[0] == defs[i as int]);
                assert(defs.skip(i as int).drop_first() =~= defs.skip(i + 1));
            }
            let d = &self.definitions[i];
            if d.required {
                let was_provided = match d.kind {
                    ArgumentKind::Flag => results.has_flag(d.long_name.as_str()),
                    ArgumentKind::Opt => results.option_value(d.long_name.as_str()).is_some(),
                    ArgumentKind::Positional => results.positional.len() > 0,
                };
                if !was_provided {
                    proof {
                        assert(!satisfied(defs[i as int], results@));
                    }
                    return Err(ArgParseError::MissingRequiredArgument(d.long_name.clone()));
                }
            }
            i += 1;
        }
        proof {
            assert(defs.skip(self.definitions.len() as int) =~= Seq::<
                crate::definitions::ArgumentView,
            >::empty());
        }
        Ok(())
    }

    /// Parses a list of raw argument tokens against the registered
    /// definitions.
    ///
    /// The first token is discarded as the program name; every later token
    /// is classified as a help request, a `--name` lookup, a short group or
    /// a positional argument, exactly as [`spec_parse`] lays out.
    ///
    /// # Errors
    ///
    /// Returns an [`ArgParseError`] variant if parsing fails, if `--help` or
    /// `-h` is encountered, or if a required argument is missing.
    pub fn parse(&self, args: &Vec<String>) -> (r: Result<ParsedArgs, ArgParseError>)
        ensures
            match r {
                Ok(parsed) => spec_parse(self@, args.deep_view()) == Ok::<
                    ParsedView,
                    ParseErrorView,
                >(parsed@) && parsed.wf(),
                Err(e) => spec_parse(self@, args.deep_view()) == Err::<
                    ParsedView,
                    ParseErrorView,
                >(e@),
            },
    {
        let ghost toks = args.deep_view();
        let mut results = ParsedArgs::new();
        let mut i: usize = 1;
        #[verifier::loop_isolation(false)]
        while i < args.len()
            invariant
                1 <= i,
                results.wf(),
                scan_from(self@, toks, 1, empty_parsed()) == scan_from(
                    self@,
                    toks,
                    i as int,
                    results@,
                ),
            decreases args.len() - i,
        {
            proof {
                assert(toks[i as int] == args@[i as int]@);
            }
            let token = args[i].as_str();
            let token_len: usize = token.unicode_len();
            if str_eq(token, "--help") || str_eq(token, "-h") {
                return Err(ArgParseError::HelpRequested);
            }
            if token_len >= 2 && token.get_char(0) == '-' && token.get_char(1) == '-' {
                proof {
                    assert(is_long_token(toks[i as int]));
                }
                let name = token.substring_char(2, token_len);
                match self.find_named(name) {
                    None => {
                        return Err(ArgParseError::UnknownArgument(name.to_owned()));
                    },
                    Some(d) => {
                        match d.kind {
                            ArgumentKind::Flag => {
                                results.record_flag(&d.long_name);
                                i += 1;
                            },
                            ArgumentKind::Opt => {
                                if i + 1 < args.len() {
                                    proof {
                                        assert(toks[i + 1] == args@[i + 1]@);
                                    }
                                    let value = args[i + 1].clone();
                                    results.record_option(&d.long_name, value);
                                    i += 2;
                                } else {
                                    return Err(
                                        ArgParseError::MissingValueForOption(d.long_name.clone()),
                                    );
                                }
                            },
                            ArgumentKind::Positional => {
                                return unreached();
                            },
                        }
                    },
                }
            } else if token_len >= 2 && token.get_char(0) == '-' {
                proof {
                    assert(is_short_token(toks[i as int]));
                }
                match self.apply_cluster(token, &mut results) {
                    ClusterStep::Done => {
                        i += 1;
                    },
                    ClusterStep::NeedsValue(name) => {
                        if i + 1 < args.len() {
                            proof {
                                assert(toks[i + 1] == args@[i + 1]@);
                            }
                            let value = args[i + 1].clone();
                            results.record_option(&name, value);
                            i += 2;
                        } else {
                            return Err(ArgParseError::MissingValueForOption(name));
                        }
                    },
                    ClusterStep::Failed(e) => {
                        return Err(e);
                    },
                }
            } else {
                proof {
                    assert(!is_long_token(toks[i as int]) && !is_short_token(toks[i as int]));
                }
                results.record_positional(args[i].clone());
                i += 1;
            }
        }
        match self.validate_args(&results) {
            Ok(()) => Ok(results),
            Err(e) => Err(e),
        }
    }
}

} // verus!
