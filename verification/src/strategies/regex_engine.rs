//! The regular-expression engine (`regex`) as the pattern matcher sees
//! it. Every contract in this file is believed, not proved.

use vstd::prelude::*;
use crate::strategies::views;

verus! {

/// `regex::Regex`, carried as an opaque value.
#[verifier::external_type_specification]
#[verifier::external_body]
pub struct ExRegex(regex::Regex);

/// `regex::RegexSet`, carried as an opaque value.
#[verifier::external_type_specification]
#[verifier::external_body]
pub struct ExRegexSet(regex::RegexSet);

/// `regex::Error`, carried as an opaque value.
#[verifier::external_type_specification]
#[verifier::external_body]
pub struct ExRegexError(regex::Error);

/// The pattern text that a regex was compiled from (`Regex::as_str`).
pub uninterp spec fn regex_source(regex: regex::Regex) -> Seq<char>;

/// The regex was compiled with the builder's defaults and Unicode mode
/// on, as `compile_regex` does it.
pub uninterp spec fn regex_plain(regex: regex::Regex) -> bool;

/// The pattern texts that a set was compiled from, in the order given to
/// its builder (`RegexSet::patterns`).
pub uninterp spec fn regex_set_sources(set: regex::RegexSet) -> Seq<Seq<char>>;

/// The set was compiled with the builder's defaults and Unicode mode on,
/// as `compile_regex_set` does it.
pub uninterp spec fn regex_set_plain(set: regex::RegexSet) -> bool;

/// Whether `RegexBuilder::build` accepts the pattern under the defaults
/// with Unicode mode on: it is valid syntax, and its compiled form is
/// within the size limit that the engine sets by default.
pub uninterp spec fn regex_compiles(pattern: Seq<char>) -> bool;

/// Whether `RegexSetBuilder::build` accepts the patterns together under
/// the defaults with Unicode mode on. The size limit then holds for the
/// whole set, so patterns that compile one by one may be refused as a set.
pub uninterp spec fn regex_set_compiles(patterns: Seq<Seq<char>>) -> bool;

/// Byte offsets `(start, end)` of the first match that a plain regex of
/// this pattern finds in the haystack (`Regex::find`), if it finds one.
pub uninterp spec fn first_match(pattern: Seq<char>, haystack: Seq<char>) -> Option<(usize, usize)>;

/// Indices of the patterns of a plain set that match somewhere in the
/// haystack, in the order in which `SetMatches` yields them.
pub uninterp spec fn matching_patterns(patterns: Seq<Seq<char>>, haystack: Seq<char>) -> Seq<usize>;

/// Each index is larger than those before it.
pub open spec fn ascending(indices: Seq<usize>) -> bool {
    forall|j: int, k: int| 0 <= j < k < indices.len() ==> indices[j] < indices[k]
}

/// `indices` are below `bound` and ascending.
pub open spec fn ascending_below(indices: Seq<usize>, bound: nat) -> bool {
    &&& forall|k: int| 0 <= k < indices.len() ==> #[trigger] indices[k] < bound
    &&& ascending(indices)
}

/// `RegexBuilder::new(pattern).unicode(true).build()`. The regex keeps
/// the text it was given.
#[verifier::external_body]
pub(crate) fn compile_regex(pattern: &str) -> (r: Result<regex::Regex, regex::Error>)
    ensures
        r is Ok == regex_compiles(pattern@),
        r matches Ok(regex) ==> regex_source(regex) == pattern@ && regex_plain(regex),
{
    regex::RegexBuilder::new(pattern).unicode(true).build()
}

/// `RegexSetBuilder::new(patterns).unicode(true).build()`. The set keeps
/// the texts it was given, in their order.
#[verifier::external_body]
pub(crate) fn compile_regex_set(patterns: &Vec<String>) -> (r: Result<
    regex::RegexSet,
    regex::Error,
>)
    ensures
        r is Ok == regex_set_compiles(views(patterns@)),
        r matches Ok(set) ==> regex_set_sources(set) == views(patterns@) && regex_set_plain(
            set,
        ),
{
    regex::RegexSetBuilder::new(patterns).unicode(true).build()
}

/// `RegexSet::patterns`: the texts that the set was compiled from.
#[verifier::external_body]
pub(crate) fn set_patterns(set: &regex::RegexSet) -> (r: &[String])
    ensures
        views(r@) == regex_set_sources(*set),
{
    set.patterns()
}

/// `RegexSet::matches`, then the indices that `SetMatches` yields. It
/// yields the index of each regex in the set that matches, always in
/// ascending order; an index is a position in the set.
#[verifier::external_body]
pub(crate) fn matching_indices(set: &regex::RegexSet, haystack: &str) -> (r: Vec<usize>)
    requires
        regex_set_plain(*set),
    ensures
        r@ == matching_patterns(regex_set_sources(*set), haystack@),
        ascending_below(r@, regex_set_sources(*set).len()),
{
    set.matches(haystack).into_iter().collect()
}

/// `Regex::find`, the match taken as its two byte offsets.
#[verifier::external_body]
pub(crate) fn find_first(regex: &regex::Regex, haystack: &str) -> (r: Option<(usize, usize)>)
    requires
        regex_plain(*regex),
    ensures
        r == first_match(regex_source(*regex), haystack@),
{
    regex.find(haystack).map(|m| (m.start(), m.end()))
}

} // verus!
