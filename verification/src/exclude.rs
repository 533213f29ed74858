//! Exclude filters: shell-style glob patterns tested against file paths.

use vstd::prelude::*;

verus! {

/// Whether a glob pattern matches a path, as the glob crate decides it with
/// case-sensitive matching where `*`, `?` and `[...]` do not cross a path
/// separator and a leading dot is not special.
pub uninterp spec fn glob_match(pattern: Seq<char>, path: Seq<char>) -> bool;

/// Relies on `glob::Pattern::new` and `glob::Pattern::matches_with`: whether
/// the pattern matches the path, a function of the two strings alone. The
/// options fix case-sensitive matching, wildcards that stop at a path
/// separator, and no special treatment of a leading dot. A malformed pattern
/// matches nothing.
#[verifier::external_body]
fn pattern_matches(pattern: &str, path: &str) -> (r: bool)
    ensures
        r == glob_match(pattern@, path@),
{
    let options = glob::MatchOptions {
        case_sensitive: true,
        require_literal_separator: true,
        require_literal_leading_dot: false,
    };
    match glob::Pattern::new(pattern) {
        Ok(p) => p.matches_with(path, options),
        Err(_) => false,
    }
}

/// Whether some pattern of the list matches the path.
pub open spec fn excluded_spec(patterns: Seq<String>, path: Seq<char>) -> bool {
    exists|i: int| 0 <= i < patterns.len() && glob_match(patterns[i]@, path)
}

/// Whether a path is excluded: any matching pattern excludes it.
pub fn is_excluded(patterns: &Vec<String>, path: &String) -> (r: bool)
    ensures
        r == excluded_spec(patterns@, path@),
{
    let mut i: usize = 0;
    while i < patterns.len()
        invariant
            i <= patterns@.len(),
            forall|j: int| 0 <= j < i ==> !glob_match(patterns@[j]@, path@),
        decreases patterns@.len() - i,
    {
        if pattern_matches(patterns[i].as_str(), path.as_str()) {
            return true;
        }
        i += 1;
    }
    false
}

} // verus!
