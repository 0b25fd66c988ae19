use bolt_router::strategies::automaton::Occurrence;
use bolt_router::strategies::domain_levels::{
    select_most_specific, DomainLevelsStrategy, DomainLevelsStrategyBuilder,
};
use bolt_router::strategies::{Builder, Slot, Strategy};

fn example_strategy() -> DomainLevelsStrategy {
    DomainLevelsStrategy::builder()
        .add_owned("www.example.com", Slot(10))
        .add_owned("example.com", Slot(11))
        .build()
        .unwrap()
}

#[test]
fn domain_builder_starts_empty() {
    let builder = DomainLevelsStrategy::builder();

    assert_eq!(*builder.patterns(), Vec::<String>::new());
    assert_eq!(*builder.table(), Vec::<Slot>::new());

    let default = DomainLevelsStrategyBuilder::default();
    assert!(default.patterns().is_empty());
    assert!(default.table().is_empty());
}

#[test]
fn domain_builder_add_appends_in_lockstep() {
    let mut builder = DomainLevelsStrategy::builder();
    builder.add("example.com", Slot(1)).add("example.org", Slot(2));

    assert_eq!(
        *builder.patterns(),
        vec!["example.com".to_string(), "example.org".to_string()]
    );
    assert_eq!(*builder.table(), vec![Slot(1), Slot(2)]);
}

#[test]
fn domain_build_keeps_the_table() {
    let strategy = example_strategy();

    assert_eq!(*strategy.table(), vec![Slot(10), Slot(11)]);
}

#[test]
fn exact_name_gets_its_own_slot() {
    let strategy = example_strategy();

    assert_eq!(strategy.match_input("example.com"), Some(Slot(11)));
    assert_eq!(strategy.match_input("www.example.com"), Some(Slot(10)));
}

#[test]
fn subdomain_gets_the_slot_of_its_parent() {
    let strategy = example_strategy();

    assert_eq!(strategy.match_input("sub.example.com"), Some(Slot(11)));
    assert_eq!(strategy.match_input("subdomain.example.com"), Some(Slot(11)));
    assert_eq!(strategy.match_input("a.b.example.com"), Some(Slot(11)));
    assert_eq!(strategy.match_input("mail.www.example.com"), Some(Slot(10)));
}

#[test]
fn most_specific_suffix_wins_whatever_the_order() {
    let reversed = DomainLevelsStrategy::builder()
        .add_owned("example.com", Slot(11))
        .add_owned("www.example.com", Slot(10))
        .build()
        .unwrap();

    assert_eq!(reversed.match_input("www.example.com"), Some(Slot(10)));
    assert_eq!(reversed.match_input("sub.example.com"), Some(Slot(11)));
}

#[test]
fn pattern_inside_a_label_does_not_match() {
    let strategy = DomainLevelsStrategy::builder()
        .add_owned("example.com", Slot(3))
        .build()
        .unwrap();

    assert_eq!(strategy.match_input("evilexample.com"), None);
    assert_eq!(strategy.match_input("notexample.com"), None);
    assert_eq!(strategy.match_input("xexample.com"), None);
    assert_eq!(strategy.match_input("sub.evilexample.com"), None);
}

#[test]
fn unregistered_domain_yields_nothing() {
    let strategy = example_strategy();

    assert_eq!(strategy.match_input("beispiel.de"), None);
    assert_eq!(strategy.match_input("example.org"), None);
    assert_eq!(strategy.match_input("com"), None);
    assert_eq!(strategy.match_input(""), None);
}

#[test]
fn pattern_must_reach_the_end_of_the_name() {
    let strategy = example_strategy();

    assert_eq!(strategy.match_input("example.com.evil.org"), None);
    assert_eq!(strategy.match_input("example.com."), None);
    assert_eq!(strategy.match_input("www.example.comx"), None);
}

#[test]
fn overlapping_patterns_are_all_seen() {
    let strategy = DomainLevelsStrategy::builder()
        .add_owned("ample.co", Slot(1))
        .add_owned("example.com", Slot(2))
        .add_owned("com", Slot(3))
        .build()
        .unwrap();

    assert_eq!(strategy.match_input("example.com"), Some(Slot(2)));
    assert_eq!(strategy.match_input("sub.example.com"), Some(Slot(2)));
    assert_eq!(strategy.match_input("other.com"), Some(Slot(3)));
    assert_eq!(strategy.match_input("ample.co"), Some(Slot(1)));
}

#[test]
fn matching_is_by_bytes_and_case() {
    let strategy = DomainLevelsStrategy::builder()
        .add_owned("münchen.de", Slot(4))
        .build()
        .unwrap();

    assert_eq!(strategy.match_input("münchen.de"), Some(Slot(4)));
    assert_eq!(strategy.match_input("www.münchen.de"), Some(Slot(4)));
    assert_eq!(strategy.match_input("xmünchen.de"), None);
    assert_eq!(strategy.match_input("MÜNCHEN.DE"), None);
}

#[test]
fn empty_domain_builder_matches_nothing() {
    let strategy = DomainLevelsStrategy::builder().build().unwrap();

    assert!(strategy.table().is_empty());
    assert_eq!(strategy.match_input("example.com"), None);
    assert_eq!(strategy.match_input(""), None);
}

#[test]
fn empty_pattern_matches_at_a_label_boundary_only() {
    let strategy = DomainLevelsStrategy::builder()
        .add_owned("", Slot(9))
        .build()
        .unwrap();

    assert_eq!(strategy.match_input(""), Some(Slot(9)));
    assert_eq!(strategy.match_input("example.com."), Some(Slot(9)));
    assert_eq!(strategy.match_input("example.com"), None);
}

#[test]
fn domain_match_is_repeatable() {
    let strategy = example_strategy();

    let first = strategy.match_input("sub.example.com");
    let second = strategy.match_input("sub.example.com");
    assert_eq!(first, Some(Slot(11)));
    assert_eq!(first, second);
    assert_eq!(
        strategy.match_input("beispiel.de"),
        strategy.match_input("beispiel.de")
    );
}

fn occurrence(pattern: usize, start: usize, end: usize) -> Occurrence {
    Occurrence { pattern, start, end }
}

#[test]
fn select_takes_the_smallest_admissible_start() {
    let host = "www.example.com".as_bytes();
    let report = vec![
        occurrence(2, 12, 15),
        occurrence(1, 4, 15),
        occurrence(0, 0, 15),
        occurrence(3, 5, 15),
    ];

    assert_eq!(select_most_specific(&report, host), Some(occurrence(0, 0, 15)));
    assert_eq!(
        select_most_specific(&report[..2].to_vec(), host),
        Some(occurrence(1, 4, 15))
    );
}

#[test]
fn select_skips_what_is_not_a_label_suffix() {
    let host = "evilexample.com".as_bytes();
    let inside_label = vec![occurrence(0, 4, 15)];
    let not_at_end = vec![occurrence(0, 0, 4), occurrence(1, 4, 11)];
    let malformed = vec![occurrence(0, 16, 15)];

    assert_eq!(select_most_specific(&inside_label, host), None);
    assert_eq!(select_most_specific(&not_at_end, host), None);
    assert_eq!(select_most_specific(&malformed, host), None);
    assert_eq!(select_most_specific(&Vec::new(), host), None);
}

#[test]
fn select_keeps_the_first_of_equal_starts() {
    let host = "a.b".as_bytes();
    let report = vec![occurrence(5, 2, 3), occurrence(6, 2, 3), occurrence(7, 3, 3)];

    assert_eq!(select_most_specific(&report, host), Some(occurrence(5, 2, 3)));
}

#[test]
fn domain_strategy_can_be_shared_between_threads() {
    fn shareable<T: Send + Sync>() {}

    shareable::<DomainLevelsStrategy>();
}
