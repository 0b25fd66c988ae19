//! Most-specific matching of a hostname against registered domain
//! suffixes. A pattern applies to a hostname when it is the whole name or
//! a suffix of it that begins right after a `.`; among the patterns that
//! apply, the longest one decides.

use vstd::prelude::*;
use vstd::utf8::{
    decode_utf8, decode_utf8_encode_utf8, encode_utf8, encode_utf8_decode_utf8,
    encode_utf8_valid_utf8, valid_utf8,
};
use crate::strategies::{
    encoded, slots_of, texts, views, Builder, PatternCompilationError, Slot, Strategy,
};
use crate::strategies::text::{
    lemma_encode_concat, lemma_encode_injective, lemma_encode_last,
    lemma_encode_separator, lemma_encode_without_separator, LABEL_SEPARATOR,
    LABEL_SEPARATOR_CHAR,
};
use crate::strategies::automaton::{
    automaton_compiles, automaton_patterns, compile_automaton, default_configured,
    find_occurrences, occurs, overlapping_occurrences, reports_every_occurrence, Occurrence,
};

verus! {

/// `pattern` is `host` itself, or a suffix of `host` that starts at a
/// label boundary.
pub open spec fn is_label_suffix(pattern: Seq<u8>, host: Seq<u8>) -> bool {
    &&& pattern.len() <= host.len()
    &&& host.subrange(host.len() - pattern.len(), host.len() as int) == pattern
    &&& (pattern.len() == host.len() || host[host.len() - pattern.len() - 1] == LABEL_SEPARATOR)
}

/// The occurrence ends where `host` ends and begins at a label boundary.
pub open spec fn admissible(o: Occurrence, host: Seq<u8>) -> bool {
    &&& o.start <= o.end
    &&& o.end == host.len()
    &&& (o.start == 0 || host[o.start - 1] == LABEL_SEPARATOR)
}

/// `report[k]` is admissible, no admissible occurrence starts before it,
/// and none that comes earlier in the report starts at the same offset.
pub open spec fn is_most_specific(report: Seq<Occurrence>, host: Seq<u8>, k: int) -> bool {
    &&& 0 <= k < report.len()
    &&& admissible(report[k], host)
    &&& forall|j: int|
        0 <= j < report.len() && admissible(#[trigger] report[j], host) ==> report[k].start
            <= report[j].start
    &&& forall|j: int|
        0 <= j < k && admissible(#[trigger] report[j], host) ==> report[k].start < report[j].start
}

/// The admissible occurrence with the smallest start offset, the first
/// such in the report where several share it; `None` where no occurrence
/// is admissible.
pub open spec fn most_specific(report: Seq<Occurrence>, host: Seq<u8>) -> Option<Occurrence> {
    if exists|k: int| is_most_specific(report, host, k) {
        Some(report[choose|k: int| is_most_specific(report, host, k)])
    } else {
        None
    }
}

/// At most one index of a report is the most specific one.
pub proof fn lemma_most_specific_unique(report: Seq<Occurrence>, host: Seq<u8>, a: int, b: int)
    requires
        is_most_specific(report, host, a),
        is_most_specific(report, host, b),
    ensures
        a == b,
{
    if a < b {
        assert(report[b].start < report[a].start);
    } else if b < a {
        assert(report[a].start < report[b].start);
    }
}

/// Picks, from what the automaton reported, the occurrence that decides
/// the lookup.
pub fn select_most_specific(report: &Vec<Occurrence>, host: &[u8]) -> (r: Option<Occurrence>)
    ensures
        r == most_specific(report@, host@),
        r matches Some(o) ==> report@.contains(o) && admissible(o, host@),
        r is None ==> forall|k: int| 0 <= k < report.len() ==> !admissible(report[k], host@),
{
    let mut best: Option<usize> = None;
    let mut k: usize = 0;
    while k < report.len()
        invariant
            k <= report.len(),
            best matches Some(b) ==> b < k && is_most_specific(report@.take(k as int), host@, b as int),
            best is None ==> forall|j: int| 0 <= j < k ==> !admissible(report[j], host@),
        decreases report.len() - k,
    {
        let o = report[k];
        let fits = o.start <= o.end && o.end == host.len() && (o.start == 0 || host[o.start - 1]
            == LABEL_SEPARATOR);
        let better = match best {
            Some(b) => o.start < report[b].start,
            None => true,
        };
        proof {
            let before = report@.take(k as int);
            let after = report@.take(k + 1);
            assert(forall|j: int| 0 <= j < k ==> before[j] == after[j]);
            assert(after[k as int] == o);
        }
        if fits && better {
            best = Some(k);
        }
        k += 1;
    }
    proof {
        assert(report@.take(k as int) =~= report@);
    }
    match best {
        Some(b) => {
            proof {
                let chosen = choose|j: int| is_most_specific(report@, host@, j);
                lemma_most_specific_unique(report@, host@, b as int, chosen);
            }
            Some(report[b])
        },
        None => None,
    }
}

/// The slot that a report decides on: that of the most specific
/// occurrence's pattern.
pub open spec fn resolve(report: Seq<Occurrence>, slots: Seq<Slot>, host: Seq<u8>) -> Option<Slot> {
    match most_specific(report, host) {
        Some(o) => if o.pattern < slots.len() {
            Some(slots[o.pattern as int])
        } else {
            None
        },
        None => None,
    }
}

/// Pattern `i` is a label suffix of `host`, and no pattern that is one
/// is longer.
pub open spec fn is_longest_label_suffix(patterns: Seq<Seq<u8>>, host: Seq<u8>, i: int) -> bool {
    &&& 0 <= i < patterns.len()
    &&& is_label_suffix(patterns[i], host)
    &&& forall|j: int|
        0 <= j < patterns.len() && is_label_suffix(#[trigger] patterns[j], host) ==> patterns[j].len()
            <= patterns[i].len()
}

/// `r` is a right answer for `host` under the registrations
/// `(patterns[i], slots[i])`: nothing where no pattern is a label suffix
/// of `host`, else the slot of a longest pattern that is one.
pub open spec fn resolves(
    patterns: Seq<Seq<u8>>,
    slots: Seq<Slot>,
    host: Seq<u8>,
    r: Option<Slot>,
) -> bool {
    &&& patterns.len() == slots.len()
    &&& match r {
        None => forall|i: int|
            0 <= i < patterns.len() ==> !is_label_suffix(#[trigger] patterns[i], host),
        Some(slot) => exists|i: int|
            #[trigger] is_longest_label_suffix(patterns, host, i) && slots[i] == slot,
    }
}

/// The occurrence that a label suffix of `host` gives rise to.
pub open spec fn suffix_occurrence(patterns: Seq<Seq<u8>>, host: Seq<u8>, i: int) -> Occurrence {
    Occurrence {
        pattern: i as usize,
        start: (host.len() - patterns[i].len()) as usize,
        end: host.len() as usize,
    }
}

/// On a report that lists every occurrence and nothing else, the most
/// specific occurrence names a longest registered label suffix.
pub proof fn lemma_report_resolves(
    report: Seq<Occurrence>,
    patterns: Seq<Seq<u8>>,
    slots: Seq<Slot>,
    host: Seq<u8>,
)
    requires
        reports_every_occurrence(report, patterns, host),
        patterns.len() == slots.len(),
        patterns.len() <= usize::MAX,
        host.len() <= usize::MAX,
    ensures
        resolves(patterns, slots, host, resolve(report, slots, host)),
{
    assert forall|j: int| 0 <= j < patterns.len() && is_label_suffix(#[trigger] patterns[j], host)
        implies occurs(patterns, host, suffix_occurrence(patterns, host, j)) && admissible(
        suffix_occurrence(patterns, host, j),
        host,
    ) && report.contains(suffix_occurrence(patterns, host, j)) by {
        let o = suffix_occurrence(patterns, host, j);
        assert(occurs(patterns, host, o));
    }
    if exists|k: int| is_most_specific(report, host, k) {
        let k = choose|k: int| is_most_specific(report, host, k);
        let o = report[k];
        assert(occurs(patterns, host, o));
        let i = o.pattern as int;
        assert(patterns[i].len() == o.end - o.start);
        assert(is_label_suffix(patterns[i], host));
        assert forall|j: int|
            0 <= j < patterns.len() && is_label_suffix(#[trigger] patterns[j], host)
            implies patterns[j].len() <= patterns[i].len() by {
            let oj = suffix_occurrence(patterns, host, j);
            assert(report.contains(oj));
            let m = choose|m: int| 0 <= m < report.len() && report[m] == oj;
            assert(admissible(report[m], host));
        }
        assert(is_longest_label_suffix(patterns, host, i));
    } else {
        assert forall|i: int| 0 <= i < patterns.len() implies !is_label_suffix(
            #[trigger] patterns[i],
            host,
        ) by {
            if is_label_suffix(patterns[i], host) {
                let oi = suffix_occurrence(patterns, host, i);
                assert(report.contains(oi));
                let m = choose|m: int| 0 <= m < report.len() && report[m] == oi;
                lemma_some_most_specific(report, host, m);
            }
        }
    }
}

/// A report with an admissible occurrence has a most specific one.
pub proof fn lemma_some_most_specific(report: Seq<Occurrence>, host: Seq<u8>, m: int)
    requires
        0 <= m < report.len(),
        admissible(report[m], host),
    ensures
        exists|k: int| is_most_specific(report, host, k),
    decreases report.len(),
{
    let shorter = report.drop_last();
    let last = report.len() - 1;
    if exists|j: int| 0 <= j < last && admissible(shorter[j], host) {
        let j = choose|j: int| 0 <= j < last && admissible(shorter[j], host);
        lemma_some_most_specific(shorter, host, j);
        let k = choose|k: int| is_most_specific(shorter, host, k);
        assert(forall|j: int| 0 <= j < last ==> shorter[j] == report[j]);
        if admissible(report[last], host) && report[last].start < report[k].start {
            assert(is_most_specific(report, host, last));
        } else {
            assert(is_most_specific(report, host, k));
        }
    } else {
        assert(forall|j: int| 0 <= j < last ==> shorter[j] == report[j]);
        assert(is_most_specific(report, host, last));
    }
}

/// `r` is a right answer for the hostname `host` under the
/// registrations, all of them read as UTF-8 bytes.
pub open spec fn resolves_name(
    registered: Seq<(Seq<char>, Slot)>,
    host: Seq<char>,
    r: Option<Slot>,
) -> bool {
    resolves(encoded(texts(registered)), slots_of(registered), encode_utf8(host), r)
}

/// Domain suffixes compiled into one automaton, with the slot of each.
pub struct DomainLevelsStrategy {
    matcher: aho_corasick::AhoCorasick,
    table: Vec<Slot>,
}

impl DomainLevelsStrategy {
    /// The automaton searches exhaustively for texts, and the table has
    /// one slot for each of them.
    #[verifier::type_invariant]
    spec fn inv(&self) -> bool {
        &&& default_configured(self.matcher)
        &&& automaton_patterns(self.matcher).len() == self.table.len()
        &&& forall|i: int|
            0 <= i < self.table.len() ==> valid_utf8(#[trigger] automaton_patterns(self.matcher)[i])
    }

    /// The slots, in registration order.
    pub fn table(&self) -> (t: &Vec<Slot>)
        ensures
            t@ == slots_of(self.registered()),
    {
        proof {
            assert(self.table@ =~= slots_of(self.registered()));
        }
        &self.table
    }
}

impl Strategy for DomainLevelsStrategy {
    type Builder = DomainLevelsStrategyBuilder;

    closed spec fn registered(&self) -> Seq<(Seq<char>, Slot)> {
        Seq::new(
            self.table@.len(),
            |i: int| (decode_utf8(automaton_patterns(self.matcher)[i]), self.table@[i]),
        )
    }

    open spec fn spec_match(&self, input: Seq<char>) -> Option<Slot> {
        resolve(
            overlapping_occurrences(encoded(texts(self.registered())), encode_utf8(input)),
            slots_of(self.registered()),
            encode_utf8(input),
        )
    }

    fn builder() -> (b: DomainLevelsStrategyBuilder) {
        DomainLevelsStrategyBuilder::default()
    }

    /// The automaton reports every place where a registered suffix
    /// stands in `input`; the longest one that is a label suffix decides.
    fn match_input(&self, input: &str) -> (r: Option<Slot>)
        ensures
            resolves_name(self.registered(), input@, r),
    {
        proof {
            use_type_invariant(self);
        }
        let host = input.as_bytes();
        let report = find_occurrences(&self.matcher, host);
        proof {
            let patterns = automaton_patterns(self.matcher);
            assert forall|i: int| 0 <= i < patterns.len() implies encode_utf8(
                decode_utf8(#[trigger] patterns[i]),
            ) == patterns[i] by {
                decode_utf8_encode_utf8(patterns[i]);
            }
            assert(encoded(texts(self.registered())) =~= patterns);
            assert(slots_of(self.registered()) =~= self.table@);
            assert(host@.len() == host.len());
            lemma_report_resolves(report@, patterns, self.table@, host@);
        }
        match select_most_specific(&report, host) {
            Some(o) => {
                assert(occurs(automaton_patterns(self.matcher), host@, o));
                Some(self.table[o.pattern])
            },
            None => None,
        }
    }
}

/// Collects domain suffixes and their slots.
pub struct DomainLevelsStrategyBuilder {
    patterns: Vec<String>,
    table: Vec<Slot>,
}

impl DomainLevelsStrategyBuilder {
    #[verifier::type_invariant]
    spec fn inv(&self) -> bool {
        self.patterns.len() == self.table.len()
    }

    /// The pattern texts registered so far.
    pub fn patterns(&self) -> (p: &Vec<String>)
        ensures
            views(p@) == texts(self.registered()),
    {
        proof {
            use_type_invariant(self);
            assert(views(self.patterns@) =~= texts(self.registered()));
        }
        &self.patterns
    }

    /// The slots registered so far.
    pub fn table(&self) -> (t: &Vec<Slot>)
        ensures
            t@ == slots_of(self.registered()),
    {
        proof {
            use_type_invariant(self);
            assert(self.table@ =~= slots_of(self.registered()));
        }
        &self.table
    }
}

impl Default for DomainLevelsStrategyBuilder {
    fn default() -> (b: Self)
        ensures
            b.registered() == Seq::<(Seq<char>, Slot)>::empty(),
    {
        let b = DomainLevelsStrategyBuilder { patterns: Vec::new(), table: Vec::new() };
        assert(b.registered() =~= Seq::<(Seq<char>, Slot)>::empty());
        b
    }
}

impl Builder for DomainLevelsStrategyBuilder {
    type Strategy = DomainLevelsStrategy;

    closed spec fn registered(&self) -> Seq<(Seq<char>, Slot)> {
        Seq::new(self.patterns@.len(), |i: int| (self.patterns@[i]@, self.table@[i]))
    }

    open spec fn compiles(&self) -> bool {
        automaton_compiles(encoded(texts(self.registered())))
    }

    fn add(&mut self, pattern: &str, slot: Slot) -> (chain: &mut Self) {
        let mut taken = DomainLevelsStrategyBuilder::default();
        std::mem::swap(self, &mut taken);
        *self = taken.add_owned(pattern, slot);
        self
    }

    fn add_owned(self, pattern: &str, slot: Slot) -> (b: Self) {
        proof {
            use_type_invariant(&self);
        }
        let mut patterns = self.patterns;
        let mut table = self.table;
        patterns.push(pattern.to_owned());
        table.push(slot);
        DomainLevelsStrategyBuilder { patterns, table }
    }

    /// The automaton takes any text as a pattern, the empty one too; it
    /// refuses only what is too large for it, and names no single
    /// pattern when it does.
    fn build(self) -> (r: Result<DomainLevelsStrategy, PatternCompilationError>)
        ensures
            r matches Ok(strategy) ==> strategy.registered() == self.registered(),
            r matches Err(e) ==> e.pattern is None,
    {
        proof {
            use_type_invariant(&self);
            assert(views(self.patterns@) =~= texts(self.registered()));
        }
        match compile_automaton(&self.patterns) {
            Ok(matcher) => {
                proof {
                    let patterns = automaton_patterns(matcher);
                    assert forall|i: int| 0 <= i < patterns.len() implies valid_utf8(
                        #[trigger] patterns[i],
                    ) && decode_utf8(patterns[i]) == self.patterns@[i]@ by {
                        encode_utf8_valid_utf8(self.patterns@[i]@);
                        encode_utf8_decode_utf8(self.patterns@[i]@);
                    }
                }
                let strategy = DomainLevelsStrategy { matcher, table: self.table };
                assert(strategy.registered() =~= self.registered());
                Ok(strategy)
            },
            Err(e) => Err(PatternCompilationError { pattern: None, diagnostic: e.to_string() }),
        }
    }
}

/// A hostname that is itself registered resolves to the slot it was
/// registered with. Where the same text was registered more than once,
/// the registrations must agree on the slot: which of them the automaton
/// reports first is its own affair.
pub proof fn lemma_exact_bytes_resolve(
    patterns: Seq<Seq<u8>>,
    slots: Seq<Slot>,
    host: Seq<u8>,
    r: Option<Slot>,
    i: int,
)
    requires
        resolves(patterns, slots, host, r),
        0 <= i < patterns.len(),
        host == patterns[i],
        forall|j: int| 0 <= j < patterns.len() && patterns[j] == patterns[i] ==> slots[j] == slots[i],
    ensures
        r == Some(slots[i]),
{
    assert(host.subrange(0, host.len() as int) =~= host);
    assert(is_label_suffix(patterns[i], host));
    let j = choose|j: int| #[trigger]
        is_longest_label_suffix(patterns, host, j) && slots[j] == r->0;
    assert(patterns[j].len() == host.len());
    assert(patterns[j] =~= host);
}

/// A hostname made of one more label, a separator and a registered
/// pattern resolves to that pattern's slot. Left out are the hostnames
/// that are registered themselves with another slot, which is then the
/// more specific answer, and patterns registered twice with two slots.
pub proof fn lemma_subdomain_bytes_resolve(
    patterns: Seq<Seq<u8>>,
    slots: Seq<Slot>,
    host: Seq<u8>,
    r: Option<Slot>,
    i: int,
    label: Seq<u8>,
)
    requires
        resolves(patterns, slots, host, r),
        0 <= i < patterns.len(),
        label.len() > 0,
        !label.contains(LABEL_SEPARATOR),
        host == label + seq![LABEL_SEPARATOR] + patterns[i],
        forall|j: int|
            0 <= j < patterns.len() && (patterns[j] == patterns[i] || patterns[j] == host)
                ==> slots[j] == slots[i],
    ensures
        r == Some(slots[i]),
{
    let p = patterns[i];
    let cut = label.len() as int + 1;
    assert(host.len() == cut + p.len());
    assert(host.subrange(cut, host.len() as int) =~= p);
    assert(host[cut - 1] == LABEL_SEPARATOR);
    assert(is_label_suffix(p, host));
    let j = choose|j: int| #[trigger]
        is_longest_label_suffix(patterns, host, j) && slots[j] == r->0;
    let q = patterns[j];
    let start = host.len() - q.len();
    if start == 0 {
        assert(host.subrange(0, host.len() as int) =~= host);
    } else {
        if start - 1 < label.len() {
            assert(host[start - 1] == label[start - 1]);
            assert(label.contains(label[start - 1]));
        }
        assert(q.len() == p.len());
        assert(q =~= p);
    }
}

/// A hostname that ends in a registered pattern, with the pattern
/// beginning inside a label, is not resolved through that pattern: the
/// pattern is no label suffix of it. The pattern's slot can still come
/// back where a registration of another text carries it too, so those
/// registrations are left out.
pub proof fn lemma_inside_label_bytes_rejected(
    patterns: Seq<Seq<u8>>,
    slots: Seq<Slot>,
    host: Seq<u8>,
    r: Option<Slot>,
    i: int,
    prefix: Seq<u8>,
)
    requires
        resolves(patterns, slots, host, r),
        0 <= i < patterns.len(),
        prefix.len() > 0,
        prefix.last() != LABEL_SEPARATOR,
        host == prefix + patterns[i],
        forall|j: int| 0 <= j < patterns.len() && slots[j] == slots[i] ==> patterns[j] == patterns[i],
    ensures
        !is_label_suffix(patterns[i], host),
        r != Some(slots[i]),
{
    let p = patterns[i];
    assert(host.len() == prefix.len() + p.len());
    assert(host[prefix.len() - 1] == prefix.last());
    assert(!is_label_suffix(p, host));
}

/// A hostname that is itself a registered pattern resolves to the slot
/// it was registered with. Where the same text was registered more than
/// once, the registrations must agree on the slot: which of them the
/// automaton reports first is its own affair.
pub proof fn lemma_exact_name_resolves(
    registered: Seq<(Seq<char>, Slot)>,
    host: Seq<char>,
    r: Option<Slot>,
    i: int,
)
    requires
        resolves_name(registered, host, r),
        0 <= i < registered.len(),
        host == registered[i].0,
        forall|j: int|
            0 <= j < registered.len() && registered[j].0 == registered[i].0 ==> registered[j].1
                == registered[i].1,
    ensures
        r == Some(registered[i].1),
{
    let patterns = encoded(texts(registered));
    let slots = slots_of(registered);
    assert forall|j: int| 0 <= j < patterns.len() && patterns[j] == patterns[i] implies slots[j]
        == slots[i] by {
        lemma_encode_injective(registered[j].0, registered[i].0);
    }
    lemma_exact_bytes_resolve(patterns, slots, encode_utf8(host), r, i);
}

/// A hostname formed as a label without a separator, a separator and a
/// registered pattern resolves to that pattern's slot: a sub-domain
/// matches its registered parent. Left out are the hostnames that are
/// registered themselves with another slot, which is then the more
/// specific answer, and patterns registered twice with two slots.
pub proof fn lemma_subdomain_resolves(
    registered: Seq<(Seq<char>, Slot)>,
    host: Seq<char>,
    r: Option<Slot>,
    i: int,
    label: Seq<char>,
)
    requires
        resolves_name(registered, host, r),
        0 <= i < registered.len(),
        label.len() > 0,
        !label.contains(LABEL_SEPARATOR_CHAR),
        host == label + seq![LABEL_SEPARATOR_CHAR] + registered[i].0,
        forall|j: int|
            0 <= j < registered.len() && (registered[j].0 == registered[i].0 || registered[j].0
                == host) ==> registered[j].1 == registered[i].1,
    ensures
        r == Some(registered[i].1),
{
    let patterns = encoded(texts(registered));
    let slots = slots_of(registered);
    let dot = seq![LABEL_SEPARATOR_CHAR];
    assert forall|j: int|
        0 <= j < patterns.len() && (patterns[j] == patterns[i] || patterns[j] == encode_utf8(
            host,
        )) implies slots[j] == slots[i] by {
        if patterns[j] == patterns[i] {
            lemma_encode_injective(registered[j].0, registered[i].0);
        } else {
            lemma_encode_injective(registered[j].0, host);
        }
    }
    lemma_encode_concat(label + dot, registered[i].0);
    lemma_encode_concat(label, dot);
    lemma_encode_separator();
    lemma_encode_last(label);
    lemma_encode_without_separator(label);
    lemma_subdomain_bytes_resolve(patterns, slots, encode_utf8(host), r, i, encode_utf8(label));
}

/// A hostname formed as a prefix and a registered pattern, where the
/// prefix does not end in a separator, is not resolved through that
/// pattern: the pattern begins inside a label. The pattern's slot can
/// still come back where a registration of another text carries it too,
/// so those registrations are left out.
pub proof fn lemma_inside_label_rejected(
    registered: Seq<(Seq<char>, Slot)>,
    host: Seq<char>,
    r: Option<Slot>,
    i: int,
    prefix: Seq<char>,
)
    requires
        resolves_name(registered, host, r),
        0 <= i < registered.len(),
        prefix.len() > 0,
        prefix.last() != LABEL_SEPARATOR_CHAR,
        host == prefix + registered[i].0,
        forall|j: int|
            0 <= j < registered.len() && registered[j].1 == registered[i].1 ==> registered[j].0
                == registered[i].0,
    ensures
        !is_label_suffix(encode_utf8(registered[i].0), encode_utf8(host)),
        r != Some(registered[i].1),
{
    let patterns = encoded(texts(registered));
    let slots = slots_of(registered);
    lemma_encode_concat(prefix, registered[i].0);
    lemma_encode_last(prefix);
    lemma_inside_label_bytes_rejected(
        patterns,
        slots,
        encode_utf8(host),
        r,
        i,
        encode_utf8(prefix),
    );
}

} // verus!
