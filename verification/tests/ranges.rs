use amp::modes::Position;
use amp::ranges::{inclusive_range, LineRange, Range};

#[test]
fn inclusive_range_works_correctly_without_trailing_newline() {
    let data = "amp\neditor";
    let range = LineRange::new(1, 1);

    assert_eq!(
        inclusive_range(&range, data, 2),
        Range { start: Position { line: 1, offset: 0 }, end: Position { line: 1, offset: 6 } }
    );
}

#[test]
fn inclusive_range_works_correctly_with_trailing_newline() {
    let data = "amp\neditor\n";
    let range = LineRange::new(1, 1);

    assert_eq!(
        inclusive_range(&range, data, 3),
        Range { start: Position { line: 1, offset: 0 }, end: Position { line: 2, offset: 0 } }
    );
}

#[test]
fn inclusive_range_counts_bytes_and_drops_carriage_returns() {
    let range = LineRange::new(1, 0);
    assert_eq!(range.start(), 0);
    assert_eq!(range.end(), 1);
    assert_eq!(
        inclusive_range(&range, "a\r\nñb\r\n", 2),
        Range { start: Position { line: 0, offset: 0 }, end: Position { line: 1, offset: 3 } }
    );
    assert_eq!(
        inclusive_range(&LineRange::new(4, 4), "a", 1),
        Range { start: Position { line: 4, offset: 0 }, end: Position { line: 4, offset: 0 } }
    );
}
