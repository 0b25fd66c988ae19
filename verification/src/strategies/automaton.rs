//! The multi-pattern substring automaton (`aho_corasick`) as the domain
//! matcher sees it. Every contract in this file is believed, not proved.

use vstd::prelude::*;
use crate::strategies::{encoded, views};

verus! {

/// `aho_corasick::AhoCorasick`, carried as an opaque value.
#[verifier::external_type_specification]
#[verifier::external_body]
pub struct ExAutomaton(aho_corasick::AhoCorasick);

/// `aho_corasick::BuildError`, carried as an opaque value.
#[verifier::external_type_specification]
#[verifier::external_body]
pub struct ExAutomatonBuildError(aho_corasick::BuildError);

/// One place where a registered pattern occurs in a haystack: the
/// pattern's index and the byte range `start..end` that it occupies.
#[derive(Clone, Copy, Debug, PartialEq, Eq, Structural)]
pub struct Occurrence {
    pub pattern: usize,
    pub start: usize,
    pub end: usize,
}

/// The byte strings that an automaton searches for, in the order in which
/// they were handed to its constructor.
pub uninterp spec fn automaton_patterns(automaton: aho_corasick::AhoCorasick) -> Seq<Seq<u8>>;

/// The automaton has the configuration that `AhoCorasick::new` gives:
/// standard match semantics, unanchored search, exact (case-sensitive)
/// bytes. Only such an automaton supports the overlapping search.
pub uninterp spec fn default_configured(automaton: aho_corasick::AhoCorasick) -> bool;

/// Whether `AhoCorasick::new` accepts these patterns. It refuses inputs
/// that are too large for its state and pattern identifiers.
pub uninterp spec fn automaton_compiles(patterns: Seq<Seq<u8>>) -> bool;

/// What the overlapping search of a default-configured automaton over
/// `patterns` yields on `haystack`, in the order in which it yields it.
pub uninterp spec fn overlapping_occurrences(patterns: Seq<Seq<u8>>, haystack: Seq<u8>) -> Seq<
    Occurrence,
>;

/// Pattern `o.pattern` stands in `haystack` at exactly `o.start..o.end`.
pub open spec fn occurs(patterns: Seq<Seq<u8>>, haystack: Seq<u8>, o: Occurrence) -> bool {
    &&& o.pattern < patterns.len()
    &&& o.start <= o.end <= haystack.len()
    &&& haystack.subrange(o.start as int, o.end as int) == patterns[o.pattern as int]
}

/// `report` lists occurrences only, and misses none.
pub open spec fn reports_every_occurrence(
    report: Seq<Occurrence>,
    patterns: Seq<Seq<u8>>,
    haystack: Seq<u8>,
) -> bool {
    &&& forall|k: int| 0 <= k < report.len() ==> occurs(patterns, haystack, #[trigger] report[k])
    &&& forall|o: Occurrence| #[trigger] occurs(patterns, haystack, o) ==> report.contains(o)
}

/// `AhoCorasick::new` on the pattern texts. The constructor reads each
/// text as its bytes and builds with the default configuration; it fails
/// on no other ground than the size of its input.
#[verifier::external_body]
pub(crate) fn compile_automaton(patterns: &Vec<String>) -> (r: Result<
    aho_corasick::AhoCorasick,
    aho_corasick::BuildError,
>)
    ensures
        r is Ok == automaton_compiles(encoded(views(patterns@))),
        r matches Ok(automaton) ==> automaton_patterns(automaton) == encoded(views(patterns@)),
        r matches Ok(automaton) ==> default_configured(automaton),
{
    aho_corasick::AhoCorasick::new(patterns)
}

/// `AhoCorasick::find_overlapping_iter`, each match taken as an
/// `Occurrence`. The iterator yields every match at every position, so
/// the result lists each place where a pattern stands in the haystack,
/// empty patterns included, and nothing else. The call panics on an
/// automaton without standard match semantics, which `requires` excludes.
#[verifier::external_body]
pub(crate) fn find_occurrences(automaton: &aho_corasick::AhoCorasick, haystack: &[u8]) -> (r: Vec<
    Occurrence,
>)
    requires
        default_configured(*automaton),
    ensures
        r@ == overlapping_occurrences(automaton_patterns(*automaton), haystack@),
        reports_every_occurrence(r@, automaton_patterns(*automaton), haystack@),
{
    automaton
        .find_overlapping_iter(haystack)
        .map(|m| Occurrence { pattern: m.pattern().as_usize(), start: m.start(), end: m.end() })
        .collect()
}

} // verus!
