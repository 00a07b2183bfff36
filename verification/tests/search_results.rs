use amp::modes::Position;
use amp::search_results::new;

#[test]
fn a_result_mode_with_an_empty_set_returns_no_current_result() {
    let mode = new(vec![]);

    assert!(mode.current_result().is_none());
}

#[test]
fn calling_next_on_a_result_mode_with_an_empty_set_returns_no_current_result() {
    let mut mode = new(vec![]);
    mode.select_next_result();

    assert!(mode.current_result().is_none());
}

#[test]
fn calling_previous_on_a_result_mode_with_an_empty_set_returns_no_current_result() {
    let mut mode = new(vec![]);
    mode.select_previous_result();

    assert!(mode.current_result().is_none());
}

#[test]
fn a_result_mode_with_a_non_empty_set_returns_first_result_as_current() {
    let result = Position { line: 0, offset: 0 };
    let mode = new(vec![result]);

    assert_eq!(mode.current_result(), Some(result));
}

#[test]
fn calling_next_on_a_result_mode_with_a_single_element_set_returns_first_result_as_current() {
    let result = Position { line: 0, offset: 0 };
    let mut mode = new(vec![result]);
    mode.select_next_result();

    assert_eq!(mode.current_result(), Some(result));
}

#[test]
fn calling_next_on_a_result_mode_with_a_three_element_set_returns_second_result_as_current() {
    let first_result = Position { line: 0, offset: 0 };
    let second_result = Position { line: 1, offset: 0 };
    let third_result = Position { line: 2, offset: 0 };
    let mut mode = new(vec![first_result, second_result, third_result]);
    mode.select_next_result();

    assert_eq!(mode.current_result(), Some(second_result));
}

#[test]
fn calling_next_on_a_result_mode_with_a_three_element_set_thrice_wraps_back_to_first_element() {
    let first_result = Position { line: 0, offset: 0 };
    let second_result = Position { line: 1, offset: 0 };
    let third_result = Position { line: 2, offset: 0 };
    let mut mode = new(vec![first_result, second_result, third_result]);
    mode.select_next_result();
    mode.select_next_result();
    mode.select_next_result();

    assert_eq!(mode.current_result(), Some(first_result));
}

#[test]
fn calling_previous_on_a_result_mode_with_a_single_element_set_returns_first_result_as_current() {
    let result = Position { line: 0, offset: 0 };
    let mut mode = new(vec![result]);
    mode.select_previous_result();

    assert_eq!(mode.current_result(), Some(result));
}

#[test]
fn calling_previous_on_a_result_mode_with_a_three_element_set_wraps_back_to_third_element() {
    let first_result = Position { line: 0, offset: 0 };
    let second_result = Position { line: 1, offset: 0 };
    let third_result = Position { line: 2, offset: 0 };
    let mut mode = new(vec![first_result, second_result, third_result]);
    mode.select_previous_result();

    assert_eq!(mode.current_result(), Some(third_result));
}

#[test]
fn calling_previous_on_a_result_mode_with_a_three_element_set_twice_returns_second_result_as_current() {
    let first_result = Position { line: 0, offset: 0 };
    let second_result = Position { line: 1, offset: 0 };
    let third_result = Position { line: 2, offset: 0 };
    let mut mode = new(vec![first_result, second_result, third_result]);
    mode.select_previous_result();
    mode.select_previous_result();

    assert_eq!(mode.current_result(), Some(second_result));
}

#[test]
fn next_then_previous_returns_to_the_same_result() {
    let results = vec![
        Position { line: 3, offset: 1 },
        Position { line: 4, offset: 2 },
    ];
    let mut mode = new(results);
    mode.select_next_result();
    mode.select_previous_result();
    assert_eq!(mode.current_result(), Some(Position { line: 3, offset: 1 }));
}
