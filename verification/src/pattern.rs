//! Regular expressions, as the `regex` crate reads and runs them. None of
//! the functions here is proved: each states what the crate's documentation
//! says of the call it makes.

use crate::text::is_white_space;
use regex::Regex;
use vstd::prelude::*;

verus! {

/// Whether `regex::Regex::new` accepts `pattern`.
pub uninterp spec fn compiles(pattern: Seq<char>) -> bool;

/// Whether `regex::Regex::is_match` finds a match of `pattern` somewhere in
/// `text`.
pub uninterp spec fn found(pattern: Seq<char>, text: Seq<char>) -> bool;

/// What `regex::Regex::captures` gives for the leftmost match of `pattern`
/// in `text`: nothing where there is no match, else what each capture group
/// matched, by the group's index. Group 0 is the whole match; a group that
/// took no part in the match has no text.
pub uninterp spec fn captured(pattern: Seq<char>, text: Seq<char>) -> Option<
    Seq<Option<Seq<char>>>,
>;

/// The pattern `\s+`: one or more white-space characters.
pub open spec fn white_space_run() -> Seq<char> {
    seq!['\\', 's', '+']
}

/// `text` with each maximal run of white-space characters replaced by one
/// space.
pub open spec fn collapse_white_space(text: Seq<char>) -> Seq<char>
    decreases text.len(),
{
    if text.len() == 0 {
        text
    } else if !is_white_space(text[0]) {
        seq![text[0]] + collapse_white_space(text.drop_first())
    } else if text.len() > 1 && is_white_space(text[1]) {
        collapse_white_space(text.drop_first())
    } else {
        seq![' '] + collapse_white_space(text.drop_first())
    }
}

/// `regex::Regex::new`: says whether the pattern is one that the crate
/// accepts.
#[verifier::external_body]
pub(crate) fn valid_pattern(pattern: &str) -> (ok: bool)
    ensures
        ok == compiles(pattern@),
{
    Regex::new(pattern).is_ok()
}

/// `regex::Regex::is_match`, on the pattern compiled by `Regex::new`: says
/// whether the pattern matches somewhere in `text`.
#[verifier::external_body]
pub(crate) fn is_match(pattern: &str, text: &str) -> (r: bool)
    requires
        compiles(pattern@),
    ensures
        r == found(pattern@, text@),
{
    Regex::new(pattern).unwrap().is_match(text)
}

/// `regex::Regex::captures`, on the pattern compiled by `Regex::new`: the
/// text of each capture group of the leftmost match, by index, as
/// `Captures::iter` hands the groups out.
#[verifier::external_body]
pub(crate) fn captures(pattern: &str, text: &str) -> (r: Option<Vec<Option<String>>>)
    requires
        compiles(pattern@),
    ensures
        r.deep_view() == captured(pattern@, text@),
{
    let found = Regex::new(pattern).unwrap().captures(text);
    found.map(|groups| groups.iter().map(|group| group.map(|m| m.as_str().to_string())).collect())
}

/// `regex::Regex::replace_all`, on the pattern compiled by `Regex::new`, for
/// the pattern `\s+` and a single space as the replacement. The crate accepts
/// this pattern. Its `\s` is the class of the characters with the property
/// `White_Space`, and `+` takes as many of them as there are, so that the
/// matches are the maximal runs of white space. `replace_all` puts the
/// replacement in place of each match and keeps what stands between the
/// matches; a replacement that holds no `$` is taken as it is.
#[verifier::external_body]
pub(crate) fn replace_all(pattern: &str, text: &str, replacement: &str) -> (out: String)
    requires
        pattern@ == white_space_run(),
        replacement@ == seq![' '],
    ensures
        out@ == collapse_white_space(text@),
{
    Regex::new(pattern).unwrap().replace_all(text, replacement).into_owned()
}

} // verus!
