//! Regular expressions and file name patterns.

use vstd::prelude::*;
use crate::text::split::{opt_view, views};

verus! {

/// Why a text is not a regular expression; nothing where it is one.
pub uninterp spec fn regex_problem(pattern: Seq<char>) -> Option<Seq<char>>;

/// The regular expression matches somewhere in the text.
pub uninterp spec fn regex_finds(pattern: Seq<char>, text: Seq<char>) -> bool;

/// Compiles a regular expression: `regex::Regex::new`.
///
/// The claim: whether it compiles, and what the error says if it does not, is
/// a function of the pattern.
#[verifier::external_body]
pub(crate) fn check_regex(pattern: &str) -> (r: Option<String>)
    ensures
        match r {
            Some(e) => regex_problem(pattern@) == Some(e@),
            None => regex_problem(pattern@) is None,
        },
{
    regex::Regex::new(pattern).err().map(|e| e.to_string())
}

/// Matches a text: `is_match` of the `regex::Regex` that the pattern compiles
/// to.
///
/// The claim: for a pattern that compiles, the answer is a function of the
/// pattern and the text.
#[verifier::external_body]
pub(crate) fn regex_is_match(pattern: &str, text: &str) -> (r: Option<bool>)
    ensures
        r is Some == (regex_problem(pattern@) is None),
        r is Some ==> r->0 == regex_finds(pattern@, text@),
{
    regex::Regex::new(pattern).ok().map(|re| re.is_match(text))
}

/// The texts that a regular expression matches one after another.
pub uninterp spec fn regex_matches(pattern: Seq<char>, text: Seq<char>) -> Seq<Seq<char>>;

/// Finds all matches: `find_iter` of the `regex::Regex` that the pattern
/// compiles to.
///
/// The claim: for a pattern that compiles, the matched texts are a function
/// of the pattern and the text.
#[verifier::external_body]
pub(crate) fn regex_find_all(pattern: &str, text: &str) -> (r: Option<Vec<String>>)
    ensures
        r is Some == (regex_problem(pattern@) is None),
        r is Some ==> views(r->0@) == regex_matches(pattern@, text@),
{
    let re = regex::Regex::new(pattern).ok()?;
    Some(re.find_iter(text).map(|m| m.as_str().to_owned()).collect())
}

/// What the first group of a regular expression holds in its first match.
pub uninterp spec fn regex_group(pattern: Seq<char>, text: Seq<char>) -> Option<Seq<char>>;

/// The first group of the first match: `captures` of the `regex::Regex` that
/// the pattern compiles to, and `get` of the result.
///
/// The claim: for a pattern that compiles, what the group holds, if anything,
/// is a function of the pattern and the text. A pattern that does not compile
/// has no group.
#[verifier::external_body]
pub(crate) fn regex_first_group(pattern: &str, text: &str) -> (r: Option<String>)
    ensures
        regex_problem(pattern@) is Some ==> r is None,
        regex_problem(pattern@) is None ==> opt_view(r) == regex_group(pattern@, text@),
{
    let re = regex::Regex::new(pattern).ok()?;
    re.captures(text).and_then(|c| c.get(1).map(|m| m.as_str().to_owned()))
}

/// A text without what a regular expression matches in it.
pub uninterp spec fn regex_removed(pattern: Seq<char>, text: Seq<char>) -> Seq<char>;

/// Removes all matches: `replace_all` of the `regex::Regex` that the pattern
/// compiles to, with nothing.
///
/// The claim: for a pattern that compiles, the result is a function of the
/// pattern and the text.
#[verifier::external_body]
pub(crate) fn regex_remove_all(pattern: &str, text: &str) -> (r: Option<String>)
    ensures
        r is Some == (regex_problem(pattern@) is None),
        r is Some ==> r->0@ == regex_removed(pattern@, text@),
{
    let re = regex::Regex::new(pattern).ok()?;
    Some(re.replace_all(text, "").into_owned())
}

/// Why a text is not a glob pattern; nothing where it is one.
pub uninterp spec fn glob_problem(pattern: Seq<char>) -> Option<Seq<char>>;

/// The glob pattern matches the path.
pub uninterp spec fn glob_matches(pattern: Seq<char>, path: Seq<char>) -> bool;

/// Compiles a glob pattern: `globset::Glob::new` and `globset::GlobSet::new`.
///
/// The claim: whether it compiles, and what the error says if it does not, is
/// a function of the pattern.
#[verifier::external_body]
pub(crate) fn check_glob(pattern: &str) -> (r: Option<String>)
    ensures
        match r {
            Some(e) => glob_problem(pattern@) == Some(e@),
            None => glob_problem(pattern@) is None,
        },
{
    let set = globset::Glob::new(pattern).and_then(|g| globset::GlobSet::new([g]));
    set.err().map(|e| e.to_string())
}

/// Matches a path: `is_match` of the `globset::GlobSet` of that one pattern.
///
/// The claim: for a pattern that compiles, the answer is a function of the
/// pattern and the path. Paths are separated by `/` alone, as on the systems
/// this library is for.
#[verifier::external_body]
pub(crate) fn glob_is_match(pattern: &str, path: &str) -> (r: Option<bool>)
    ensures
        r is Some == (glob_problem(pattern@) is None),
        r is Some ==> r->0 == glob_matches(pattern@, path@),
{
    let set = globset::Glob::new(pattern).and_then(|g| globset::GlobSet::new([g]));
    set.ok().map(|s| s.is_match(path))
}

/// The lower-case form of a text by Unicode's rules.
pub uninterp spec fn lowercase_of(s: Seq<char>) -> Seq<char>;

/// Lower-cases a text: `str::to_lowercase` of the standard library.
///
/// The claim: the result is a function of the text.
#[verifier::external_body]
pub(crate) fn lowercase(s: &str) -> (r: String)
    ensures
        r@ == lowercase_of(s@),
{
    s.to_lowercase()
}

} // verus!
