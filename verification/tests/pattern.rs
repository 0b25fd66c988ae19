use bolt_router::strategies::pattern::{
    accept_whole_segment, pick_winner, RegexStrategy, RegexStrategyBuilder,
};
use bolt_router::strategies::{Builder, Slot, Strategy};

#[test]
fn builder() {
    let builder = RegexStrategy::builder();

    assert_eq!(*builder.patterns(), Vec::<String>::new());
    assert_eq!(*builder.table(), Vec::<Slot>::new());
}

#[test]
fn builder_add() {
    let mut builder = RegexStrategy::builder();
    builder.add("[a-z]{3}", Slot(0));

    assert_eq!(*builder.patterns(), vec!["[a-z]{3}".to_string()]);
    assert_eq!(*builder.table(), vec![Slot(0)]);
}

#[test]
fn build() {
    let strategy = RegexStrategy::builder()
        .add_owned("[a-z]{3}", Slot(0))
        .add_owned("[0-9]{3}", Slot(1))
        .build()
        .unwrap();

    assert_eq!(
        strategy.patterns(),
        &["[a-z]{3}".to_string(), "[0-9]{3}".to_string()]
    );
    assert_eq!(*strategy.table(), vec![Slot(0), Slot(1)]);
}

#[test]
fn match_input() {
    let strategy = RegexStrategy::builder()
        .add_owned("[a-z]{3}", Slot(0))
        .add_owned("[0-9]{3}", Slot(1))
        .build()
        .unwrap();

    assert_eq!(strategy.match_input("abc"), Some(Slot(0)));
    assert_eq!(strategy.match_input("xyz"), Some(Slot(0)));
    assert_eq!(strategy.match_input("123"), Some(Slot(1)));
    assert_eq!(strategy.match_input("789"), Some(Slot(1)));

    assert_eq!(strategy.match_input("ab1"), None);
    assert_eq!(strategy.match_input("abcd"), None);
    assert_eq!(strategy.match_input("1234"), None);
    assert_eq!(strategy.match_input(""), None);
}

#[test]
fn default_builder_is_empty() {
    let builder = RegexStrategyBuilder::default();

    assert!(builder.patterns().is_empty());
    assert!(builder.table().is_empty());
}

#[test]
fn add_chains_and_keeps_order() {
    let mut builder = RegexStrategy::builder();
    builder.add("a+", Slot(7)).add("b+", Slot(3)).add("a+", Slot(9));

    assert_eq!(
        *builder.patterns(),
        vec!["a+".to_string(), "b+".to_string(), "a+".to_string()]
    );
    assert_eq!(*builder.table(), vec![Slot(7), Slot(3), Slot(9)]);
}

#[test]
fn empty_builder_builds_and_matches_nothing() {
    let strategy = RegexStrategy::builder().build().unwrap();

    assert!(strategy.patterns().is_empty());
    assert!(strategy.table().is_empty());
    assert_eq!(strategy.match_input("anything"), None);
    assert_eq!(strategy.match_input(""), None);
}

#[test]
fn unbalanced_group_fails_the_build() {
    let result = RegexStrategy::builder()
        .add_owned("[a-z]{3}", Slot(0))
        .add_owned("(unclosed", Slot(1))
        .add_owned("[0-9]{3}", Slot(2))
        .build();

    let error = result.err().unwrap();
    assert_eq!(error.pattern, Some("(unclosed".to_string()));
    assert!(!error.diagnostic.is_empty());
}

#[test]
fn first_refused_pattern_is_reported() {
    let result = RegexStrategy::builder()
        .add_owned("a{2,1}", Slot(0))
        .add_owned("(unclosed", Slot(1))
        .build();

    let error = result.err().unwrap();
    assert_eq!(error.pattern, Some("a{2,1}".to_string()));
}

#[test]
fn earliest_registered_expression_decides() {
    let strategy = RegexStrategy::builder()
        .add_owned("[a-z]+", Slot(4))
        .add_owned("abc", Slot(5))
        .build()
        .unwrap();

    assert_eq!(strategy.match_input("abc"), Some(Slot(4)));

    let swapped = RegexStrategy::builder()
        .add_owned("abc", Slot(5))
        .add_owned("[a-z]+", Slot(4))
        .build()
        .unwrap();

    assert_eq!(swapped.match_input("abc"), Some(Slot(5)));
    assert_eq!(swapped.match_input("abd"), Some(Slot(4)));
}

#[test]
fn earlier_partial_match_shadows_a_later_full_one() {
    let strategy = RegexStrategy::builder()
        .add_owned("ab", Slot(0))
        .add_owned("abc", Slot(1))
        .build()
        .unwrap();

    assert_eq!(strategy.match_input("ab"), Some(Slot(0)));
    assert_eq!(strategy.match_input("abc"), None);
}

#[test]
fn match_must_start_at_the_beginning_and_reach_the_end() {
    let strategy = RegexStrategy::builder()
        .add_owned("b+", Slot(2))
        .build()
        .unwrap();

    assert_eq!(strategy.match_input("bbb"), Some(Slot(2)));
    assert_eq!(strategy.match_input("abbb"), None);
    assert_eq!(strategy.match_input("bbba"), None);
}

#[test]
fn segment_length_counts_bytes() {
    let strategy = RegexStrategy::builder()
        .add_owned("\\p{Greek}+", Slot(8))
        .build()
        .unwrap();

    assert_eq!(strategy.match_input("αβγδ"), Some(Slot(8)));
    assert_eq!(strategy.match_input("αβγδ!"), None);
}

#[test]
fn empty_expression_matches_only_the_empty_segment() {
    let strategy = RegexStrategy::builder()
        .add_owned("", Slot(6))
        .build()
        .unwrap();

    assert_eq!(strategy.match_input(""), Some(Slot(6)));
    assert_eq!(strategy.match_input("a"), None);
}

#[test]
fn regex_match_is_repeatable() {
    let strategy = RegexStrategy::builder()
        .add_owned("[a-z]{3}", Slot(0))
        .add_owned("[0-9]{3}", Slot(1))
        .build()
        .unwrap();

    let first = strategy.match_input("123");
    let second = strategy.match_input("123");
    assert_eq!(first, Some(Slot(1)));
    assert_eq!(first, second);
    assert_eq!(strategy.match_input("12"), strategy.match_input("12"));
}

#[test]
fn pick_winner_takes_the_first_index() {
    assert_eq!(pick_winner(&vec![]), None);
    assert_eq!(pick_winner(&vec![3]), Some(3));
    assert_eq!(pick_winner(&vec![1, 4, 6]), Some(1));
}

#[test]
fn accept_whole_segment_wants_the_exact_span() {
    assert_eq!(accept_whole_segment(Some((0, 3)), 3, Slot(5)), Some(Slot(5)));
    assert_eq!(accept_whole_segment(Some((0, 2)), 3, Slot(5)), None);
    assert_eq!(accept_whole_segment(Some((1, 3)), 3, Slot(5)), None);
    assert_eq!(accept_whole_segment(Some((0, 0)), 0, Slot(5)), Some(Slot(5)));
    assert_eq!(accept_whole_segment(None, 0, Slot(5)), None);
}

#[test]
fn set_too_large_names_no_single_pattern() {
    let mut builder = RegexStrategy::builder();
    for slot in 0..6 {
        builder.add(&format!("\\w{{200}}{}", slot), Slot(slot));
    }

    let error = builder.build().err().unwrap();
    assert_eq!(error.pattern, None);
    assert!(!error.diagnostic.is_empty());
}

#[test]
fn expression_too_large_is_reported_by_its_text() {
    let result = RegexStrategy::builder()
        .add_owned("[a-z]{3}", Slot(0))
        .add_owned("\\w{400}", Slot(1))
        .build();

    let error = result.err().unwrap();
    assert_eq!(error.pattern, Some("\\w{400}".to_string()));
    assert!(!error.diagnostic.is_empty());
}

#[test]
fn strategies_can_be_shared_between_threads() {
    fn shareable<T: Send + Sync>() {}

    shareable::<RegexStrategy>();
}
