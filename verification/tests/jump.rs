use amp::jump::{JumpMode, MappedLexeme, Subtoken};
use amp::modes::Position;

/// The pieces the movement lexer splits a lexeme into.
fn subtokens(parts: &[&str]) -> Vec<Subtoken> {
    parts
        .iter()
        .map(|p| Subtoken { lexeme: String::from(*p), whitespace: p.chars().all(char::is_whitespace) })
        .collect()
}

fn focused(s: &str) -> MappedLexeme {
    MappedLexeme::Focused(String::from(s))
}

fn blurred(s: &str) -> MappedLexeme {
    MappedLexeme::Blurred(String::from(s))
}

fn at(line: usize, offset: usize) -> Position {
    Position { line, offset }
}

#[test]
fn map_returns_the_correct_lexemes_in_first_phase() {
    let mut jump_mode = JumpMode::new(0);

    assert_eq!(jump_mode.map(&subtokens(&["amp"]), at(0, 0)), vec![focused("a"), blurred("mp")]);
    assert_eq!(jump_mode.map(&subtokens(&["editor"]), at(0, 3)), vec![focused("b"), blurred("ditor")]);
}

#[test]
fn map_returns_the_correct_lexemes_in_second_phase() {
    let mut jump_mode = JumpMode::new(0);
    jump_mode.first_phase = false;

    assert_eq!(jump_mode.map(&subtokens(&["amp"]), at(0, 0)), vec![focused("aa"), blurred("p")]);
    assert_eq!(jump_mode.map(&subtokens(&["editor"]), at(0, 3)), vec![focused("ab"), blurred("itor")]);
}

#[test]
fn map_splits_passed_tokens_on_whitespace() {
    let mut jump_mode = JumpMode::new(0);
    jump_mode.first_phase = false;

    assert_eq!(
        jump_mode.map(&subtokens(&["do", " ", "a", " ", "test"]), at(0, 0)),
        vec![focused("aa"), blurred(" "), blurred("a"), blurred(" "), focused("ab"), blurred("st")]
    );
}

#[test]
fn map_tracks_the_positions_of_each_jump_token() {
    let mut jump_mode = JumpMode::new(0);
    jump_mode.first_phase = false;

    // Leading whitespace moves the position of the tagged word.
    jump_mode.map(&subtokens(&["  ", "amp"]), at(0, 0));
    jump_mode.map(&subtokens(&["editor"]), at(0, 5));

    assert_eq!(jump_mode.map_tag("aa"), Some(at(0, 2)));
    assert_eq!(jump_mode.map_tag("ab"), Some(at(0, 5)));
}

#[test]
fn reset_display_restarts_single_character_token_generator() {
    let mut jump_mode = JumpMode::new(0);

    assert_eq!(jump_mode.map(&subtokens(&["amp"]), at(0, 0)), vec![focused("a"), blurred("mp")]);
    jump_mode.reset_display();

    assert_eq!(jump_mode.map(&subtokens(&["editor"]), at(0, 3)), vec![focused("a"), blurred("ditor")]);
}

#[test]
fn reset_display_restarts_double_character_token_generator() {
    let mut jump_mode = JumpMode::new(0);
    jump_mode.first_phase = false;

    assert_eq!(jump_mode.map(&subtokens(&["amp"]), at(0, 0)), vec![focused("aa"), blurred("p")]);
    jump_mode.reset_display();

    assert_eq!(jump_mode.map(&subtokens(&["editor"]), at(0, 3)), vec![focused("aa"), blurred("itor")]);
}

#[test]
fn map_can_handle_unicode_data() {
    let mut jump_mode = JumpMode::new(0);
    jump_mode.first_phase = false;

    assert_eq!(jump_mode.map(&subtokens(&["eéditor"]), at(0, 0)), vec![focused("aa"), blurred("ditor")]);
}

#[test]
fn map_tag_returns_position_when_available() {
    let mut jump_mode = JumpMode::new(0);
    jump_mode.first_phase = false;

    jump_mode.map(&subtokens(&["amp"]), at(0, 0));
    jump_mode.map(&subtokens(&["editor"]), at(1, 3));
    assert_eq!(jump_mode.map_tag("ab"), Some(at(1, 3)));
    assert_eq!(jump_mode.map_tag("none"), None);
}

#[test]
fn map_splits_tokens_correctly_using_movement_lexer() {
    let mut jump_mode = JumpMode::new(0);
    jump_mode.first_phase = false;

    assert_eq!(
        jump_mode.map(&subtokens(&["amp", "_", "editor"]), at(0, 0)),
        vec![focused("aa"), blurred("p"), blurred("_"), focused("ab"), blurred("itor")]
    );
}

#[test]
fn first_phase_tags_only_from_the_cursor_line() {
    let mut jump_mode = JumpMode::new(1);

    assert_eq!(jump_mode.map(&subtokens(&["amp"]), at(0, 0)), vec![blurred("amp")]);
    assert_eq!(jump_mode.map(&subtokens(&["editor"]), at(1, 0)), vec![focused("a"), blurred("ditor")]);
    assert_eq!(jump_mode.map_tag("a"), Some(at(1, 0)));
}

#[test]
fn whitespace_with_line_feeds_moves_to_the_next_line() {
    let mut jump_mode = JumpMode::new(1);

    assert_eq!(
        jump_mode.map(&subtokens(&["amp", "\n  ", "editor"]), at(0, 0)),
        vec![blurred("amp"), blurred("\n  "), focused("a"), blurred("ditor")]
    );
    assert_eq!(jump_mode.map_tag("a"), Some(at(1, 2)));
}

#[test]
fn end_first_phase_switches_to_two_letter_tags() {
    let mut jump_mode = JumpMode::new(0);
    jump_mode.end_first_phase();
    assert!(!jump_mode.first_phase);
    assert_eq!(jump_mode.map(&subtokens(&["amp"]), at(0, 0)), vec![focused("aa"), blurred("p")]);
}
