//! The path filter: skip patterns are regular expressions tested against an
//! entry's canonical path.  Compiling and matching come from the `regex`
//! crate and are trusted; the library only names their results.

use vstd::prelude::*;

verus! {

#[verifier::external_type_specification]
#[verifier::external_body]
pub struct ExRegex(regex::Regex);

/// The pattern text a compiled regular expression came from.
pub uninterp spec fn regex_src(re: regex::Regex) -> Seq<char>;

/// Whether a pattern is a well-formed regular expression.
pub uninterp spec fn regex_ok(pattern: Seq<char>) -> bool;

/// Whether the pattern matches somewhere in the text: a deterministic
/// function of the pattern and the text.
pub uninterp spec fn regex_match(pattern: Seq<char>, text: Seq<char>) -> bool;

/// Relies on `regex::Regex::new`: compiling depends on the pattern text
/// alone.
#[verifier::external_body]
pub(crate) fn compile_pattern(pattern: &str) -> (r: Option<regex::Regex>)
    ensures
        r is Some <==> regex_ok(pattern@),
        r matches Some(re) ==> regex_src(re) == pattern@,
{
    regex::Regex::new(pattern).ok()
}

/// Relies on `regex::Regex::is_match`: the answer depends on the compiled
/// pattern and the text alone.
#[verifier::external_body]
pub(crate) fn pattern_matches(re: &regex::Regex, text: &str) -> (r: bool)
    ensures
        r == regex_match(regex_src(*re), text@),
{
    re.is_match(text)
}

/// The pattern texts of a list of compiled patterns.
pub open spec fn pattern_srcs(ps: Seq<regex::Regex>) -> Seq<Seq<char>> {
    ps.map_values(|re: regex::Regex| regex_src(re))
}

/// Whether any of the patterns matches the text: such an entry is excluded
/// from matching, reporting, measuring and deletion.
pub open spec fn skipped_v(patterns: Seq<Seq<char>>, text: Seq<char>) -> bool {
    exists|j: int| 0 <= j < patterns.len() && regex_match(patterns[j], text)
}

/// Tests the text against every pattern; any match short-circuits.
pub(crate) fn any_pattern_matches(patterns: &Vec<regex::Regex>, text: &str) -> (r: bool)
    ensures
        r == skipped_v(pattern_srcs(patterns@), text@),
{
    let mut i: usize = 0;
    while i < patterns.len()
        invariant
            0 <= i <= patterns@.len(),
            forall|j: int| 0 <= j < i ==> !regex_match(pattern_srcs(patterns@)[j], text@),
        decreases patterns@.len() - i,
    {
        if pattern_matches(&patterns[i], text) {
            assert(regex_match(pattern_srcs(patterns@)[i as int], text@));
            return true;
        }
        i = i + 1;
    }
    false
}

} // verus!
