//! The matching capability shared by every strategy, and the values that
//! cross it: slots, registrations and compilation errors.

use vstd::prelude::*;
use vstd::utf8::encode_utf8;

pub mod automaton;
pub mod domain_levels;
pub mod pattern;
pub mod regex_engine;
pub mod text;

verus! {

/// Handle of one row in the routing table that the caller owns. The
/// matching code never interprets the number.
#[derive(Clone, Copy, Debug, PartialEq, Eq, Structural)]
pub struct Slot(pub usize);

/// Why a builder could not be compiled into a strategy.
#[derive(Debug)]
pub struct PatternCompilationError {
    /// Text of the registration that the engine refused, where the
    /// refusal is tied to a single one.
    pub pattern: Option<String>,
    /// The engine's own account of the failure.
    pub diagnostic: String,
}

/// The text of each string.
pub open spec fn views(strings: Seq<String>) -> Seq<Seq<char>> {
    Seq::new(strings.len(), |i: int| strings[i]@)
}

/// The UTF-8 bytes of each text.
pub open spec fn encoded(texts: Seq<Seq<char>>) -> Seq<Seq<u8>> {
    Seq::new(texts.len(), |i: int| encode_utf8(texts[i]))
}

/// The pattern text of each registration.
pub open spec fn texts(registered: Seq<(Seq<char>, Slot)>) -> Seq<Seq<char>> {
    Seq::new(registered.len(), |i: int| registered[i].0)
}

/// The slot of each registration.
pub open spec fn slots_of(registered: Seq<(Seq<char>, Slot)>) -> Seq<Slot> {
    Seq::new(registered.len(), |i: int| registered[i].1)
}

/// A compiled, read-only matcher from an input string to at most one
/// slot.
pub trait Strategy: Sized {
    type Builder: Builder;

    /// The registrations that the strategy was compiled from, oldest
    /// first. The compiled engine's pattern `i` is registration `i`.
    spec fn registered(&self) -> Seq<(Seq<char>, Slot)>;

    /// What a lookup of `input` yields. Lookups have no other input than
    /// the strategy and the text, and no effect.
    spec fn spec_match(&self, input: Seq<char>) -> Option<Slot>;

    /// An empty builder for this kind of strategy.
    fn builder() -> (b: Self::Builder)
        ensures
            b.registered() == Seq::<(Seq<char>, Slot)>::empty(),
    ;

    /// Looks `input` up.
    fn match_input(&self, input: &str) -> (r: Option<Slot>)
        ensures
            r == self.spec_match(input@),
            r matches Some(slot) ==> slots_of(self.registered()).contains(slot),
    ;
}

/// Accumulates `(pattern, slot)` registrations and compiles them into a
/// strategy.
pub trait Builder: Sized {
    type Strategy;

    /// The registrations made so far, oldest first.
    spec fn registered(&self) -> Seq<(Seq<char>, Slot)>;

    /// Registers one pattern. Nothing is validated before `build`.
    fn add(&mut self, pattern: &str, slot: Slot) -> (chain: &mut Self)
        ensures
            chain.registered() == old(self).registered().push((pattern@, slot)),
            *final(self) == *final(chain),
    ;

    /// `add` for a builder that is passed by value.
    fn add_owned(self, pattern: &str, slot: Slot) -> (b: Self)
        ensures
            b.registered() == self.registered().push((pattern@, slot)),
    ;

    /// Whether the matching engine accepts every registration made so
    /// far, and all of them together.
    spec fn compiles(&self) -> bool;

    /// Compiles the registrations. The builder is used up either way, and
    /// no strategy comes out of registrations that the engine refuses.
    fn build(self) -> (r: Result<Self::Strategy, PatternCompilationError>)
        ensures
            r is Ok == self.compiles(),
    ;
}

/// Looking the same text up twice on one strategy gives the same answer.
pub proof fn lemma_match_repeatable<S: Strategy>(strategy: S, first: Seq<char>, second: Seq<char>)
    requires
        first == second,
    ensures
        strategy.spec_match(first) == strategy.spec_match(second),
{
}

} // verus!
