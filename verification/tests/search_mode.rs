use amp::errors::AmpError;
use amp::modes::{Position, SearchMode};
use amp::ranges::Range;

#[test]
fn search_populates_results_with_correct_ranges() {
    // The buffer "test\ntest" holds the query at the start of both lines.
    let mut mode = SearchMode::new(Some(String::from("test")));
    mode.set_results(vec![Position { line: 0, offset: 0 }, Position { line: 1, offset: 0 }]).unwrap();

    assert_eq!(
        mode.results.unwrap().as_slice(),
        &[
            Range { start: Position { line: 0, offset: 0 }, end: Position { line: 0, offset: 4 } },
            Range { start: Position { line: 1, offset: 0 }, end: Position { line: 1, offset: 4 } },
        ]
    );
}

#[test]
fn set_results_spans_multiline_queries() {
    let mut mode = SearchMode::new(Some(String::from("ab\ncde")));
    mode.set_results(vec![Position { line: 2, offset: 5 }]).unwrap();
    assert_eq!(
        mode.results.unwrap().as_slice(),
        &[Range { start: Position { line: 2, offset: 5 }, end: Position { line: 3, offset: 3 } }]
    );
}

#[test]
fn set_results_requires_a_query() {
    let mut mode = SearchMode::new(None);
    assert_eq!(mode.set_results(vec![Position { line: 0, offset: 0 }]), Err(AmpError::SearchQueryMissing));
    assert!(mode.results.is_none());
}
