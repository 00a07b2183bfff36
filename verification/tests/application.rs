use amp::application::{create_modes, Mode, Modes};
use amp::modes::ModeKey;
use amp::search_select::{SearchSelectConfig, SearchSelectMode};
use std::path::PathBuf;

type AppMode = Mode<u8>;

fn application_modes() -> Modes<AppMode> {
    create_modes(SearchSelectConfig::default(), Vec::new(), 0u8, PathBuf::from("."), Vec::new())
}

#[test]
fn switch_to_activates_the_specified_mode() {
    let mut app = application_modes();

    assert_eq!(app.current_mode(), ModeKey::Normal);
    assert!(matches!(app.mode(), Mode::Normal));

    app.switch_to(ModeKey::Exit);

    assert_eq!(app.current_mode(), ModeKey::Exit);
    assert!(matches!(app.mode(), Mode::Exit));
}

#[test]
fn switch_to_retains_state_from_previous_modes() {
    let mut app = application_modes();

    app.switch_to(ModeKey::Search);
    match app.mode_mut() {
        Mode::Search(ref mut s) => s.input = Some(String::from("state")),
        _ => panic!("switch_to didn't change app mode"),
    }

    app.switch_to(ModeKey::Normal);
    app.switch_to(ModeKey::Search);
    match app.mode() {
        Mode::Search(ref s) => assert_eq!(s.input, Some(String::from("state"))),
        _ => panic!("switch_to didn't change app mode"),
    }
}

#[test]
fn switch_to_previous_mode_works() {
    let mut app = application_modes();

    app.switch_to(ModeKey::Insert);
    app.switch_to(ModeKey::Exit);

    assert_eq!(app.current_mode(), ModeKey::Exit);
    assert!(matches!(app.mode(), Mode::Exit));

    app.switch_to_previous_mode();

    assert_eq!(app.current_mode(), ModeKey::Insert);
    assert!(matches!(app.mode(), Mode::Insert));
}

#[test]
fn switch_to_handles_switching_to_current_mode() {
    let mut app = application_modes();

    app.switch_to(ModeKey::Insert);

    assert_eq!(app.current_mode(), ModeKey::Insert);
    assert!(matches!(app.mode(), Mode::Insert));

    app.switch_to(ModeKey::Insert);

    assert_eq!(app.current_mode(), ModeKey::Insert);
    assert!(matches!(app.mode(), Mode::Insert));
    assert_eq!(app.previous_mode(), ModeKey::Normal);
}

#[test]
fn mode_str_names_key_maps() {
    let mut app = application_modes();
    assert_eq!(app.mode().mode_str(), Some("normal"));
    app.switch_to(ModeKey::Syntax);
    assert_eq!(app.mode().mode_str(), Some("search_select_insert"));
    match app.mode_mut() {
        Mode::Syntax(ref mut s) => s.set_insert_mode(false),
        _ => panic!("switch_to didn't change app mode"),
    }
    assert_eq!(app.mode().mode_str(), Some("search_select"));
    app.switch_to(ModeKey::Search);
    assert_eq!(app.mode().mode_str(), Some("search_insert"));
    app.switch_to(ModeKey::LineJump);
    assert_eq!(app.mode().mode_str(), Some("line_jump"));
    app.switch_to(ModeKey::Exit);
    assert_eq!(app.mode().mode_str(), None);
}

#[test]
fn every_mode_can_be_reached_from_every_other() {
    let keys = [
        ModeKey::Command,
        ModeKey::Confirm,
        ModeKey::Exit,
        ModeKey::Insert,
        ModeKey::Jump,
        ModeKey::LineJump,
        ModeKey::Normal,
        ModeKey::Open,
        ModeKey::Paste,
        ModeKey::Path,
        ModeKey::Search,
        ModeKey::Select,
        ModeKey::SelectLine,
        ModeKey::SymbolJump,
        ModeKey::Syntax,
        ModeKey::Theme,
    ];
    let mut app = application_modes();
    for from in keys.iter() {
        for to in keys.iter() {
            app.switch_to(*from);
            app.switch_to(*to);
            assert_eq!(app.current_mode(), *to);
        }
    }
    app.switch_to(ModeKey::Confirm);
    assert!(matches!(app.mode(), Mode::Confirm(c) if c.command == 0u8));
    app.switch_to(ModeKey::SelectLine);
    assert!(matches!(app.mode(), Mode::SelectLine(s) if s.anchor == 0));
}

#[test]
fn jump_mode_starts_in_its_first_phase() {
    let mut app = application_modes();
    app.switch_to(ModeKey::Jump);
    match app.mode_mut() {
        Mode::Jump(jump) => {
            assert!(jump.first_phase);
            let pieces = vec![amp::jump::Subtoken { lexeme: String::from("amp"), whitespace: false }];
            let mapped = jump.map(&pieces, amp::modes::Position { line: 0, offset: 0 });
            assert_eq!(mapped[0], amp::jump::MappedLexeme::Focused(String::from("a")));
        },
        _ => panic!("switch_to didn't change app mode"),
    }
}
