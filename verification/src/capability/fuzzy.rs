//! Fuzzy matching by nucleo: a query parsed into atoms, and the score each
//! atom gives a text.
use vstd::prelude::*;
use crate::capability::calculator::utf8_len;
use nucleo_matcher::pattern::{CaseMatching, Normalization, Pattern};
use nucleo_matcher::{Config, Matcher, Utf32Str};

verus! {

#[verifier::external_type_specification]
#[verifier::external_body]
pub struct ExPattern(Pattern);

#[verifier::external_type_specification]
#[verifier::external_body]
pub struct ExMatcher(Matcher);

/// The number of atoms of the pattern that nucleo's `Pattern::parse` makes
/// of `query` (with smart normalization; case ignored, or smart when
/// `smart`).
pub uninterp spec fn atom_count(query: Seq<char>, smart: bool) -> nat;

/// The score that atom `atom` of that pattern gives `haystack`, if it
/// matches.
pub uninterp spec fn atom_score(query: Seq<char>, smart: bool, atom: int, haystack: Seq<char>) -> Option<u16>;

/// A nucleo pattern, with the query it was parsed from, its case setting
/// and its number of atoms.
pub struct QueryPattern {
    query: Ghost<Seq<char>>,
    smart: bool,
    atoms: usize,
    pattern: Pattern,
}

impl QueryPattern {
    #[verifier::type_invariant]
    spec fn counted(&self) -> bool {
        self.atoms == atom_count(self.query@, self.smart)
    }

    pub closed spec fn query(&self) -> Seq<char> {
        self.query@
    }

    pub closed spec fn smart(&self) -> bool {
        self.smart
    }

    pub closed spec fn atom_len(&self) -> nat {
        self.atoms as nat
    }

    /// The number of atoms.
    pub fn atoms(&self) -> (n: usize)
        ensures
            n == atom_count(self.query(), self.smart()),
    {
        proof {
            use_type_invariant(self);
        }
        self.atoms
    }
}

/// Calls `Pattern::parse` with smart normalization, case ignored or smart:
/// the result is the pattern of `query`, a function of `query` and the case
/// setting alone, with its number of atoms.
#[verifier::external_body]
pub(crate) fn parse_pattern(query: &str, smart: bool) -> (r: QueryPattern)
    ensures
        r.query() == query@,
        r.smart() == smart,
        r.atom_len() == atom_count(query@, smart),
{
    let case = if smart { CaseMatching::Smart } else { CaseMatching::Ignore };
    let pattern = Pattern::parse(query, case, Normalization::Smart);
    let atoms = pattern.atoms.len();
    QueryPattern { query: Ghost(query@), smart, atoms, pattern }
}

/// A nucleo matcher with the default configuration. The matcher is a
/// private field set only by [`new_matcher`], so no code can change its
/// configuration; what it keeps between calls is scratch space.
pub struct DefaultMatcher {
    matcher: Matcher,
}

/// Calls `Matcher::new(Config::DEFAULT)`. Nothing is stated of the matcher:
/// it holds scratch space and the default configuration.
#[verifier::external_body]
pub(crate) fn new_matcher() -> DefaultMatcher {
    DefaultMatcher { matcher: Matcher::new(Config::DEFAULT) }
}

impl DefaultMatcher {
    /// A matcher with the default configuration, to score with.
    pub fn new() -> Self {
        new_matcher()
    }
}

/// Calls `Atom::score` for atom `i` on `haystack`: the result depends on the
/// atom and the haystack alone, since the atom sets the matcher's case and
/// normalization and the rest of the configuration of a [`DefaultMatcher`]
/// is nucleo's default, which nothing can change.
/// nucleo asserts that the haystack's length is at most `u32::MAX`; that
/// length is the byte count when `Utf32Str::new` keeps the text as ASCII
/// bytes and the character count otherwise, so at most `u32::MAX` bytes
/// rules the assertion out.
#[verifier::external_body]
pub(crate) fn score_atom(p: &QueryPattern, i: usize, haystack: &str, matcher: &mut DefaultMatcher, buf: &mut Vec<char>) -> (r: Option<u16>)
    requires
        i < atom_count(p.query(), p.smart()),
        utf8_len(haystack@) <= u32::MAX,
    ensures
        r == atom_score(p.query(), p.smart(), i as int, haystack@),
{
    p.pattern.atoms[i].score(Utf32Str::new(haystack, buf), &mut matcher.matcher)
}

} // verus!
