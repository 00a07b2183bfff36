use amp::modes::Position;
use amp::token::{adjacent_token_position, Direction, Token};

fn tokens(parts: &[(&str, bool)]) -> Vec<Token> {
    parts
        .iter()
        .map(|(lexeme, whitespace)| Token { lexeme: lexeme.to_string(), whitespace: *whitespace })
        .collect()
}

fn sample() -> Vec<Token> {
    // "amp editor\n  text"
    tokens(&[("amp", false), (" ", true), ("editor", false), ("\n  ", true), ("text", false)])
}

#[test]
fn forward_skips_whitespace_unless_allowed() {
    let cursor = Position { line: 0, offset: 0 };
    assert_eq!(
        adjacent_token_position(&sample(), cursor, false, Direction::Forward),
        Some(Position { line: 0, offset: 4 })
    );
    assert_eq!(
        adjacent_token_position(&sample(), cursor, true, Direction::Forward),
        Some(Position { line: 0, offset: 3 })
    );
}

#[test]
fn forward_crosses_lines() {
    let cursor = Position { line: 0, offset: 5 };
    assert_eq!(
        adjacent_token_position(&sample(), cursor, false, Direction::Forward),
        Some(Position { line: 1, offset: 2 })
    );
    let end = Position { line: 1, offset: 3 };
    assert_eq!(adjacent_token_position(&sample(), end, false, Direction::Forward), None);
}

#[test]
fn backward_finds_the_start_of_the_current_or_previous_token() {
    let inside = Position { line: 0, offset: 6 };
    assert_eq!(
        adjacent_token_position(&sample(), inside, false, Direction::Backward),
        Some(Position { line: 0, offset: 4 })
    );
    let after_space = Position { line: 0, offset: 4 };
    assert_eq!(
        adjacent_token_position(&sample(), after_space, false, Direction::Backward),
        Some(Position { line: 0, offset: 0 })
    );
}

#[test]
fn no_tokens_no_position() {
    let cursor = Position { line: 0, offset: 0 };
    assert_eq!(adjacent_token_position(&Vec::new(), cursor, true, Direction::Backward), None);
}
