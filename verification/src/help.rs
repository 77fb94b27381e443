//! The help renderer: a two-section listing of the registered definitions,
//! with fixed-width columns.

use vstd::prelude::*;

use crate::definitions::ArgumentKind;
use crate::definitions::ArgumentView;
use crate::parser::Parser;
use crate::text::char_to_string;

verus! {

/// A run of `n` spaces (empty when `n` is not positive).
pub open spec fn spaces(n: int) -> Seq<char>
    decreases n,
{
    if n <= 0 {
        Seq::empty()
    } else {
        spaces(n - 1).push(' ')
    }
}

/// The text padded with spaces to the given column width; text already that
/// wide or wider is kept as it is.
pub open spec fn pad_to(s: Seq<char>, width: int) -> Seq<char> {
    s + spaces(width - s.len())
}

/// The column a flag or option line starts with: `-x, ` for a short name
/// `x`, otherwise four spaces.
pub open spec fn short_prefix(short_name: Option<char>) -> Seq<char> {
    match short_name {
        Some(c) => "-"@ + seq![c] + ", "@,
        None => "    "@,
    }
}

/// The help line of one flag or option definition.
pub open spec fn named_line(d: ArgumentView) -> Seq<char> {
    "  "@ + short_prefix(d.short_name) + pad_to(d.long_name, 20) + " "@ + d.help + "\n"@
}

/// The help line of one positional definition.
pub open spec fn positional_line(d: ArgumentView) -> Seq<char> {
    "  "@ + pad_to(d.long_name, 22) + " "@ + d.help + "\n"@
}

/// The flag and option lines, in registration order.
pub open spec fn named_section(defs: Seq<ArgumentView>) -> Seq<char>
    decreases defs.len(),
{
    if defs.len() == 0 {
        Seq::empty()
    } else {
        named_section(defs.drop_last()) + (if defs.last().kind is Positional {
            Seq::<char>::empty()
        } else {
            named_line(defs.last())
        })
    }
}

/// The positional lines, in registration order.
pub open spec fn positional_section(defs: Seq<ArgumentView>) -> Seq<char>
    decreases defs.len(),
{
    if defs.len() == 0 {
        Seq::empty()
    } else {
        positional_section(defs.drop_last()) + (if defs.last().kind is Positional {
            positional_line(defs.last())
        } else {
            Seq::<char>::empty()
        })
    }
}

/// The full help text for a registry: a usage line, the flag/option section,
/// then the positional section.
pub open spec fn spec_help(defs: Seq<ArgumentView>) -> Seq<char> {
    "Usage: [PROGRAM_NAME] [OPTIONS] [ARGUMENTS]\n\nOptions:\n"@ + named_section(defs)
        + "\nArguments:\n"@ + positional_section(defs)
}

/// Appends the text padded with spaces to the given column width.
fn append_padded(out: &mut String, s: &String, width: usize)
    ensures
        final(out)@ == old(out)@ + pad_to(s@, width as int),
{
    out.append(s.as_str());
    let mut n: usize = s.as_str().unicode_len();
    proof {
        assert(out@ =~= old(out)@ + s@ + spaces(n - s@.len()));
    }
    #[verifier::loop_isolation(false)]
    while n < width
        invariant
            s@.len() <= n,
            n <= width || n == s@.len(),
            out@ == old(out)@ + s@ + spaces(n - s@.len()),
        decreases width - n,
    {
        out.append(" ");
        proof {
            reveal_strlit(" ");
            assert(" "@ =~= seq![' ']);
            assert(spaces(n + 1 - s@.len()) == spaces(n - s@.len()).push(' '));
            assert(out@ =~= old(out)@ + s@ + spaces(n + 1 - s@.len()));
        }
        n += 1;
    }
    proof {
        assert(spaces(width - s@.len()) =~= spaces(n - s@.len()));
        assert(out@ =~= old(out)@ + pad_to(s@, width as int));
    }
}

impl Parser {
    /// Generates a formatted help message based on the defined arguments:
    /// flags and options first, then positional arguments, each section in
    /// registration order.
    #[verifier::rlimit(60)]
    pub fn generate_help(&self) -> (r: String)
        ensures
            r@ == spec_help(self@),
    {
        proof {
            self.lemma_view();
        }
        let ghost defs = self@;
        let mut out = String::new();
        out.append("Usage: [PROGRAM_NAME] [OPTIONS] [ARGUMENTS]\n\nOptions:\n");
        let ghost header = out@;
        let mut i: usize = 0;
        #[verifier::loop_isolation(false)]
        while i < self.definitions.len()
            invariant
                i <= self.definitions.len(),
                out@ == header + named_section(defs.take(i as int)),
            decreases self.definitions.len() - i,
        {
            proof {
                assert(defs.take(i + 1).drop_last() =~= defs.take(i as int));
                assert(defs.take(i + 1).last() == defs[i as int]);
            }
            let d = &self.definitions[i];
            match d.kind {
                ArgumentKind::Positional => {
                    proof {
                        assert(out@ =~= header + named_section(defs.take(i + 1)));
                    }
                },
                _ => {
                    out.append("  ");
                    match d.short_name {
                        Some(c) => {
                            out.append("-");
                            let c_text = char_to_string(c);
                            out.append(c_text.as_str());
                            out.append(", ");
                        },
                        None => {
                            out.append("    ");
                        },
                    }
                    append_padded(&mut out, &d.long_name, 20);
                    out.append(" ");
                    out.append(d.help.as_str());
                    out.append("\n");
                    proof {
                        assert(out@ =~= header + named_section(defs.take(i + 1)));
                    }
                },
            }
            i += 1;
        }
        proof {
            assert(defs.take(self.definitions.len() as int) =~= defs);
        }
        out.append("\nArguments:\n");
        let ghost upper = out@;
        let mut i: usize = 0;
        #[verifier::loop_isolation(false)]
        while i < self.definitions.len()
            invariant
                i <= self.definitions.len(),
                out@ == upper + positional_section(defs.take(i as int)),
            decreases self.definitions.len() - i,
        {
            proof {
                assert(defs.take(i + 1).drop_last() =~= defs.take(i as int));
                assert(defs.take(i + 1).last() == defs[i as int]);
            }
            let d = &self.definitions[i];
            match d.kind {
                ArgumentKind::Positional => {
                    out.append("  ");
                    append_padded(&mut out, &d.long_name, 22);
                    out.append(" ");
                    out.append(d.help.as_str());
                    out.append("\n");
                    proof {
                        assert(out@ =~= upper + positional_section(defs.take(i + 1)));
                    }
                },
                _ => {
                    proof {
                        assert(out@ =~= upper + positional_section(defs.take(i + 1)));
                    }
                },
            }
            i += 1;
        }
        proof {
            assert(defs.take(self.definitions.len() as int) =~= defs);
            assert(out@ =~= spec_help(defs));
        }
        out
    }
}

} // verus!
