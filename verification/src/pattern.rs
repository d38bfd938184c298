use vstd::prelude::*;

verus! {

/// Whether `regex::RegexBuilder` builds a regular expression from `pattern`,
/// case-insensitive when `case_insensitive` holds: a function of its arguments
/// alone, whose rules take the crate's syntax documentation to state.
pub uninterp spec fn regex_builds(pattern: Seq<char>, case_insensitive: bool) -> bool;

/// Whether the regular expression built from `pattern` (case-insensitive when
/// `case_insensitive` holds) matches somewhere in `haystack` (`Regex::is_match`).
pub uninterp spec fn regex_matches(pattern: Seq<char>, case_insensitive: bool, haystack: Seq<char>) -> bool;

/// Whether `Regex::new` accepts `pattern`: it builds with the default options.
pub open spec fn regex_compiles(pattern: Seq<char>) -> bool {
    regex_builds(pattern, false)
}

/// Whether `pattern` builds (case-insensitive when asked) and matches somewhere in
/// `haystack`; a pattern that does not build matches nothing.
pub open spec fn regex_finds(pattern: Seq<char>, case_insensitive: bool, haystack: Seq<char>) -> bool {
    regex_builds(pattern, case_insensitive) && regex_matches(pattern, case_insensitive, haystack)
}

/// Calls `regex::Regex::new`, which builds with `RegexBuilder::new(pattern)` and
/// the default options; says whether it succeeded.
#[verifier::external_body]
pub(crate) fn regex_is_valid(pattern: &str) -> (ok: bool)
    ensures
        ok == regex_compiles(pattern@),
{
    regex::Regex::new(pattern).is_ok()
}

/// Builds `pattern` with `regex::RegexBuilder`, case-insensitive when asked, and
/// calls `Regex::is_match` on `haystack` with what was built; `None` when the
/// pattern does not build.
#[verifier::external_body]
fn regex_build_and_match(pattern: &str, case_insensitive: bool, haystack: &str) -> (r: Option<bool>)
    ensures
        r is Some <==> regex_builds(pattern@, case_insensitive),
        r matches Some(m) ==> m == regex_matches(pattern@, case_insensitive, haystack@),
{
    match regex::RegexBuilder::new(pattern).case_insensitive(case_insensitive).build() {
        Ok(re) => Some(re.is_match(haystack)),
        Err(_) => None,
    }
}

/// Whether `pattern` builds (case-insensitive when asked) and matches somewhere in
/// `haystack`.
pub(crate) fn regex_is_match(pattern: &str, case_insensitive: bool, haystack: &str) -> (m: bool)
    ensures
        m == regex_finds(pattern@, case_insensitive, haystack@),
{
    match regex_build_and_match(pattern, case_insensitive, haystack) {
        Some(m) => m,
        None => false,
    }
}

} // verus!
