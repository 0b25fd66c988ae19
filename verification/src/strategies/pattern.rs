//! First-match-wins matching of a segment against an ordered list of
//! regular expressions. The earliest registered expression that matches
//! anywhere in the segment decides, and it yields its slot only where its
//! match covers the whole segment.

use vstd::prelude::*;
use vstd::utf8::encode_utf8;
use crate::strategies::{
    slots_of, texts, views, Builder, PatternCompilationError, Slot, Strategy,
};
use crate::strategies::regex_engine::{
    ascending, ascending_below, compile_regex, compile_regex_set, find_first, first_match,
    matching_indices, matching_patterns, regex_compiles, regex_plain, regex_set_compiles,
    regex_set_plain, regex_set_sources, regex_source, set_patterns,
};

verus! {

/// The first of the indices that the set reported, which is the lowest
/// where they ascend.
pub open spec fn winner(matched: Seq<usize>) -> Option<usize> {
    if matched.len() == 0 {
        None
    } else {
        Some(matched[0])
    }
}

/// `slot` where the match found is exactly `0..len`, else nothing.
pub open spec fn whole_segment_slot(found: Option<(usize, usize)>, len: nat, slot: Slot) -> Option<
    Slot,
> {
    match found {
        Some((start, end)) => if start == 0 && end == len {
            Some(slot)
        } else {
            None
        },
        None => None,
    }
}

/// What a segment resolves to under the registrations
/// `(patterns[i], slots[i])`.
pub open spec fn resolve_segment(
    patterns: Seq<Seq<char>>,
    slots: Seq<Slot>,
    segment: Seq<char>,
) -> Option<Slot> {
    match winner(matching_patterns(patterns, segment)) {
        Some(i) => whole_segment_slot(
            first_match(patterns[i as int], segment),
            encode_utf8(segment).len(),
            slots[i as int],
        ),
        None => None,
    }
}

/// Index `i` holds the first text that does not compile on its own.
pub open spec fn is_first_refused(patterns: Seq<Seq<char>>, i: int) -> bool {
    &&& 0 <= i < patterns.len()
    &&& !regex_compiles(patterns[i])
    &&& forall|j: int| 0 <= j < i ==> regex_compiles(#[trigger] patterns[j])
}

/// Picks the expression that decides: the earliest registered among
/// those that the set reported.
pub fn pick_winner(matched: &Vec<usize>) -> (r: Option<usize>)
    ensures
        r == winner(matched@),
        r matches Some(i) ==> matched@.contains(i),
        ascending(matched@) ==> forall|k: int|
            0 <= k < matched.len() ==> r->0 <= #[trigger] matched[k],
{
    if matched.len() == 0 {
        None
    } else {
        Some(matched[0])
    }
}

/// Tests that the deciding expression's match spans the segment.
pub fn accept_whole_segment(found: Option<(usize, usize)>, len: usize, slot: Slot) -> (r: Option<
    Slot,
>)
    ensures
        r == whole_segment_slot(found, len as nat, slot),
{
    match found {
        Some((start, end)) => if start == 0 && end == len {
            Some(slot)
        } else {
            None
        },
        None => None,
    }
}

/// Regular expressions compiled into one set and one by one, with the
/// slot of each.
pub struct RegexStrategy {
    regex_set: regex::RegexSet,
    regexes: Vec<regex::Regex>,
    table: Vec<Slot>,
}

impl RegexStrategy {
    /// Set, single expressions and table stand for the same
    /// registrations, index by index.
    #[verifier::type_invariant]
    spec fn inv(&self) -> bool {
        &&& regex_set_plain(self.regex_set)
        &&& self.regexes.len() == regex_set_sources(self.regex_set).len()
        &&& self.table.len() == regex_set_sources(self.regex_set).len()
        &&& forall|i: int|
            0 <= i < self.regexes.len() ==> regex_plain(#[trigger] self.regexes@[i])
                && regex_source(self.regexes@[i]) == regex_set_sources(self.regex_set)[i]
    }

    /// The pattern texts, in registration order.
    pub fn patterns(&self) -> (p: &[String])
        ensures
            views(p@) == texts(self.registered()),
    {
        proof {
            use_type_invariant(self);
            assert(regex_set_sources(self.regex_set) =~= texts(self.registered()));
        }
        set_patterns(&self.regex_set)
    }

    /// The slots, in registration order.
    pub fn table(&self) -> (t: &Vec<Slot>)
        ensures
            t@ == slots_of(self.registered()),
    {
        proof {
            assert(self.table@ =~= slots_of(self.registered()));
        }
        &self.table
    }
}

impl Strategy for RegexStrategy {
    type Builder = RegexStrategyBuilder;

    closed spec fn registered(&self) -> Seq<(Seq<char>, Slot)> {
        Seq::new(
            self.table@.len(),
            |i: int| (regex_set_sources(self.regex_set)[i], self.table@[i]),
        )
    }

    open spec fn spec_match(&self, input: Seq<char>) -> Option<Slot> {
        resolve_segment(texts(self.registered()), slots_of(self.registered()), input)
    }

    fn builder() -> (b: RegexStrategyBuilder) {
        RegexStrategyBuilder::default()
    }

    /// The set is asked which expressions match somewhere in `input`; it
    /// answers in ascending order, so the first index it gives is the
    /// earliest registration. That expression alone is then searched for.
    fn match_input(&self, input: &str) -> (r: Option<Slot>)
        ensures
            ascending_below(
                matching_patterns(texts(self.registered()), input@),
                self.registered().len(),
            ),
    {
        proof {
            use_type_invariant(self);
            assert(regex_set_sources(self.regex_set) =~= texts(self.registered()));
            assert(self.table@ =~= slots_of(self.registered()));
        }
        let matched = matching_indices(&self.regex_set, input);
        match pick_winner(&matched) {
            Some(i) => {
                assert(regex_plain(self.regexes@[i as int]));
                let found = find_first(&self.regexes[i], input);
                accept_whole_segment(found, input.as_bytes().len(), self.table[i])
            },
            None => None,
        }
    }
}

/// Collects regular expressions and their slots.
pub struct RegexStrategyBuilder {
    patterns: Vec<String>,
    table: Vec<Slot>,
}

impl RegexStrategyBuilder {
    #[verifier::type_invariant]
    spec fn inv(&self) -> bool {
        self.patterns.len() == self.table.len()
    }

    /// The pattern texts registered so far.
    pub fn patterns(&self) -> (p: &Vec<String>)
        ensures
            views(p@) == texts(self.registered()),
    {
        proof {
            use_type_invariant(self);
            assert(views(self.patterns@) =~= texts(self.registered()));
        }
        &self.patterns
    }

    /// The slots registered so far.
    pub fn table(&self) -> (t: &Vec<Slot>)
        ensures
            t@ == slots_of(self.registered()),
    {
        proof {
            use_type_invariant(self);
            assert(self.table@ =~= slots_of(self.registered()));
        }
        &self.table
    }
}

impl Default for RegexStrategyBuilder {
    fn default() -> (b: Self)
        ensures
            b.registered() == Seq::<(Seq<char>, Slot)>::empty(),
    {
        let b = RegexStrategyBuilder { patterns: Vec::new(), table: Vec::new() };
        assert(b.registered() =~= Seq::<(Seq<char>, Slot)>::empty());
        b
    }
}

impl Builder for RegexStrategyBuilder {
    type Strategy = RegexStrategy;

    closed spec fn registered(&self) -> Seq<(Seq<char>, Slot)> {
        Seq::new(self.patterns@.len(), |i: int| (self.patterns@[i]@, self.table@[i]))
    }

    open spec fn compiles(&self) -> bool {
        &&& forall|i: int|
            0 <= i < self.registered().len() ==> regex_compiles(#[trigger] texts(self.registered())[i])
        &&& regex_set_compiles(texts(self.registered()))
    }

    fn add(&mut self, pattern: &str, slot: Slot) -> (chain: &mut Self) {
        let mut taken = RegexStrategyBuilder::default();
        std::mem::swap(self, &mut taken);
        *self = taken.add_owned(pattern, slot);
        self
    }

    fn add_owned(self, pattern: &str, slot: Slot) -> (b: Self) {
        proof {
            use_type_invariant(&self);
        }
        let mut patterns = self.patterns;
        let mut table = self.table;
        patterns.push(pattern.to_owned());
        table.push(slot);
        RegexStrategyBuilder { patterns, table }
    }

    /// Every expression is compiled on its own before the set is, so
    /// that a refusal can name the first expression that is at fault.
    fn build(self) -> (r: Result<RegexStrategy, PatternCompilationError>)
        ensures
            r matches Ok(strategy) ==> strategy.registered() == self.registered(),
            r matches Err(e) ==> match e.pattern {
                Some(text) => exists|i: int|
                    is_first_refused(texts(self.registered()), i) && text@ == texts(
                        self.registered(),
                    )[i],
                None => forall|i: int|
                    0 <= i < self.registered().len() ==> regex_compiles(
                        #[trigger] texts(self.registered())[i],
                    ),
            },
    {
        proof {
            use_type_invariant(&self);
            assert(views(self.patterns@) =~= texts(self.registered()));
            assert(self.table@ =~= slots_of(self.registered()));
        }
        let ghost sources = texts(self.registered());
        let mut regexes: Vec<regex::Regex> = Vec::new();
        let mut i: usize = 0;
        while i < self.patterns.len()
            invariant
                i <= self.patterns.len(),
                regexes.len() == i,
                sources == views(self.patterns@),
                sources == texts(self.registered()),
                self.patterns.len() == self.table.len(),
                forall|k: int| 0 <= k < i ==> regex_compiles(#[trigger] sources[k]),
                forall|k: int|
                    0 <= k < i ==> regex_plain(#[trigger] regexes@[k]) && regex_source(regexes@[k])
                        == sources[k],
            decreases self.patterns.len() - i,
        {
            match compile_regex(self.patterns[i].as_str()) {
                Ok(regex) => {
                    regexes.push(regex);
                },
                Err(e) => {
                    proof {
                        assert(is_first_refused(sources, i as int));
                    }
                    return Err(
                        PatternCompilationError {
                            pattern: Some(self.patterns[i].clone()),
                            diagnostic: e.to_string(),
                        },
                    );
                },
            }
            i += 1;
        }
        match compile_regex_set(&self.patterns) {
            Ok(regex_set) => {
                let strategy = RegexStrategy { regex_set, regexes, table: self.table };
                assert(strategy.registered() =~= self.registered());
                Ok(strategy)
            },
            Err(e) => Err(PatternCompilationError { pattern: None, diagnostic: e.to_string() }),
        }
    }
}

} // verus!
