//! The result of a successful parse, and its typed accessor.

use vstd::prelude::*;
use vstd::pervasive::VecAdditionalExecFns;

use crate::model::ParsedView;
use crate::model::with_flag;
use crate::model::with_option;
use crate::model::with_positional;
use crate::text::str_eq;

verus! {

/// The option mapping an association list denotes: pairs are folded in
/// order, so a later pair for the same name overwrites an earlier one.
pub open spec fn assoc_map(s: Seq<(Seq<char>, Seq<char>)>) -> Map<Seq<char>, Seq<char>>
    decreases s.len(),
{
    if s.len() == 0 {
        Map::empty()
    } else {
        assoc_map(s.drop_last()).insert(s.last().0, s.last().1)
    }
}

/// Whether the names in an association list are pairwise distinct.
pub open spec fn unique_keys(s: Seq<(Seq<char>, Seq<char>)>) -> bool {
    forall|i: int, j: int| 0 <= i < j < s.len() ==> s[i].0 != s[j].0
}

/// Whether the elements of a sequence are pairwise distinct.
pub open spec fn no_duplicates(s: Seq<Seq<char>>) -> bool {
    forall|i: int, j: int| 0 <= i < j < s.len() ==> s[i] != s[j]
}

/// Replacing the value of the one pair that carries this name denotes the
/// same mapping as inserting the name afresh.
proof fn lemma_assoc_map_update(
    s: Seq<(Seq<char>, Seq<char>)>,
    j: int,
    name: Seq<char>,
    value: Seq<char>,
)
    requires
        unique_keys(s),
        0 <= j < s.len(),
        s[j].0 == name,
    ensures
        assoc_map(s.update(j, (name, value))) == assoc_map(s).insert(name, value),
    decreases s.len(),
{
    let updated = s.update(j, (name, value));
    if j == s.len() - 1 {
        assert(updated.drop_last() =~= s.drop_last());
        assert(assoc_map(updated) =~= assoc_map(s).insert(name, value));
    } else {
        assert(updated.drop_last() =~= s.drop_last().update(j, (name, value)));
        lemma_assoc_map_update(s.drop_last(), j, name, value);
        assert(s.last().0 != name);
        assert(assoc_map(updated) =~= assoc_map(s).insert(name, value));
    }
}

/// Represents a set of parsed arguments.
///
/// You get this struct back after a successful call to [`crate::Parser::parse`].
#[derive(Debug)]
pub struct ParsedArgs {
    /// All flags that were present, each long name recorded once.
    pub flags: Vec<String>,
    /// Every option that received a value, as name/value pairs; a later
    /// pair for a name shadows an earlier one, and a parse records each
    /// name at most once.
    pub options: Vec<(String, String)>,
    /// All positional arguments in the order they appeared.
    pub positional: Vec<String>,
}

impl View for ParsedArgs {
    type V = ParsedView;

    open spec fn view(&self) -> ParsedView {
        ParsedView {
            flags: self.flags.deep_view().to_set(),
            options: assoc_map(self.options.deep_view()),
            positional: self.positional.deep_view(),
        }
    }
}

impl ParsedArgs {
    /// Whether the representation is in normal form: no flag and no option
    /// name is recorded twice. Every result a parse returns is.
    pub open spec fn wf(&self) -> bool {
        no_duplicates(self.flags.deep_view()) && unique_keys(self.options.deep_view())
    }

    /// Creates an empty result set.
    pub fn new() -> (r: Self)
        ensures
            r@ == crate::model::empty_parsed(),
            r.wf(),
    {
        let r = ParsedArgs { flags: Vec::new(), options: Vec::new(), positional: Vec::new() };
        proof {
            assert(r@ =~= crate::model::empty_parsed());
        }
        r
    }

    /// Whether a flag with this long name was present.
    pub fn has_flag(&self, name: &str) -> (r: bool)
        ensures
            r == self@.flags.contains(name@),
    {
        let mut i: usize = 0;
        while i < self.flags.len()
            invariant
                i <= self.flags.len(),
                forall|j: int| 0 <= j < i ==> self.flags.deep_view()[j] != name@,
            decreases self.flags.len() - i,
        {
            if str_eq(self.flags[i].as_str(), name) {
                proof {
                    assert(self.flags.deep_view()[i as int] == name@);
                    assert(self.flags.deep_view().contains(name@));
                }
                return true;
            }
            i += 1;
        }
        false
    }

    /// The value recorded for an option, if any; with several pairs carrying
    /// the same name, the latest one wins, as in the mapping they denote.
    pub fn option_value(&self, name: &str) -> (r: Option<&String>)
        ensures
            match r {
                Some(v) => self@.options.contains_key(name@) && v@ == self@.options[name@],
                None => !self@.options.contains_key(name@),
            },
    {
        let ghost dv = self.options.deep_view();
        let mut found: Option<&String> = None;
        let mut i: usize = 0;
        while i < self.options.len()
            invariant
                i <= self.options.len(),
                dv == self.options.deep_view(),
                match found {
                    Some(v) => assoc_map(dv.take(i as int)).contains_key(name@) && v@
                        == assoc_map(dv.take(i as int))[name@],
                    None => !assoc_map(dv.take(i as int)).contains_key(name@),
                },
            decreases self.options.len() - i,
        {
            proof {
                assert(dv.take(i + 1).drop_last() =~= dv.take(i as int));
                assert(dv.take(i + 1).last() == dv[i as int]);
            }
            if str_eq(self.options[i].0.as_str(), name) {
                found = Some(&self.options[i].1);
            }
            i += 1;
        }
        proof {
            assert(dv.take(self.options.len() as int) =~= dv);
        }
        found
    }

    /// Gets and parses the value of an option into a specific type.
    ///
    /// This method attempts to find an option by its name and then hands its
    /// string value to `convert`, the target type's textual parse (for a
    /// `FromStr` type, `|s: &str| s.parse()`).
    ///
    /// # Returns
    ///
    /// * `None`: if the option was not provided by the user.
    /// * `Some(Ok(value))`: if the option was found and successfully parsed.
    /// * `Some(Err(error))`: if the option was found but parsing failed.
    pub fn get_value_as<T, E, F: Fn(&str) -> Result<T, E>>(&self, name: &str, convert: F) -> (r:
        Option<Result<T, E>>)
        requires
            forall|s: &str| call_requires(convert, (s,)),
        ensures
            r is Some <==> self@.options.contains_key(name@),
            r matches Some(res) ==> exists|s: &str|
                s@ == self@.options[name@] && call_ensures(convert, (s,), res),
    {
        match self.option_value(name) {
            Some(value) => Some(convert(value.as_str())),
            None => None,
        }
    }

    /// Records a flag; recording one already present changes nothing, so a
    /// repeated flag is still present exactly once.
    pub(crate) fn record_flag(&mut self, name: &String)
        requires
            old(self).wf(),
        ensures
            final(self)@ == with_flag(old(self)@, name@),
            final(self).wf(),
    {
        if !self.has_flag(name.as_str()) {
            self.flags.push(name.clone());
            proof {
                assert(self.flags.deep_view() =~= old(self).flags.deep_view().push(name@));
                old(self).flags.deep_view().lemma_push_to_set_commute(name@);
                assert(self@.flags =~= old(self)@.flags.insert(name@));
            }
        } else {
            proof {
                assert(self@.flags =~= old(self)@.flags.insert(name@));
            }
        }
        proof {
            assert(self@ =~= with_flag(old(self)@, name@));
        }
    }

    /// Records an option value, overwriting any earlier value for the name.
    pub(crate) fn record_option(&mut self, name: &String, value: String)
        requires
            old(self).wf(),
        ensures
            final(self)@ == with_option(old(self)@, name@, value@),
            final(self).wf(),
    {
        let ghost dv = self.options.deep_view();
        let mut i: usize = 0;
        #[verifier::loop_isolation(false)]
        while i < self.options.len()
            invariant
                i <= self.options.len(),
                *self == *old(self),
                dv == self.options.deep_view(),
                forall|j: int| 0 <= j < i ==> dv[j].0 != name@,
            decreases self.options.len() - i,
        {
            if str_eq(self.options[i].0.as_str(), name) {
                self.options.set(i, (name.clone(), value));
                proof {
                    assert(self.options.deep_view() =~= dv.update(i as int, (name@, value@)));
                    lemma_assoc_map_update(dv, i as int, name@, value@);
                    assert(forall|m: int|
                        0 <= m < dv.len() ==> self.options.deep_view()[m].0 == dv[m].0);
                    assert(self@ =~= with_option(old(self)@, name@, value@));
                }
                return ;
            }
            i += 1;
        }
        self.options.push((name.clone(), value));
        proof {
            assert(self.options.deep_view() =~= dv.push((name@, value@)));
            assert(self.options.deep_view().drop_last() =~= dv);
            assert(self@ =~= with_option(old(self)@, name@, value@));
        }
    }

    /// Appends a positional token.
    pub(crate) fn record_positional(&mut self, token: String)
        requires
            old(self).wf(),
        ensures
            final(self)@ == with_positional(old(self)@, token@),
            final(self).wf(),
    {
        self.positional.push(token);
        proof {
            assert(self.positional.deep_view() =~= old(self).positional.deep_view().push(
                token@,
            ));
            assert(self@ =~= with_positional(old(self)@, token@));
        }
    }
}

} // verus!
