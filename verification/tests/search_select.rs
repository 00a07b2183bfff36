use amp::search_select::{SearchSelectConfig, SearchSelectMode};
use amp::select_modes::{CommandMode, DisplayableCommand, SyntaxMode, ThemeMode};

fn syntax_mode_with_query(query: &str) -> SyntaxMode {
    let mut mode = SyntaxMode::new(SearchSelectConfig::default());
    mode.set_query(String::from(query));
    mode
}

#[test]
fn push_search_char_updates_query() {
    let mut mode = syntax_mode_with_query("");
    mode.push_search_char('a');
    assert_eq!(mode.query(), "a");
}

#[test]
fn pop_search_token_pops_all_characters_when_on_only_token() {
    let mut mode = syntax_mode_with_query("amp");
    mode.pop_search_token();
    assert_eq!(mode.query(), "");
}

#[test]
fn pop_search_token_pops_all_adjacent_non_whitespace_characters_when_on_non_whitespace_character() {
    let mut mode = syntax_mode_with_query("amp editor");
    mode.pop_search_token();
    assert_eq!(mode.query(), "amp ");
}

#[test]
fn pop_search_token_pops_all_whitespace_characters_when_on_whitespace_character() {
    let mut mode = syntax_mode_with_query("amp  ");
    mode.pop_search_token();
    assert_eq!(mode.query(), "amp");
}

#[test]
fn mod_reset_clears_query_mode_and_results() {
    let config = SearchSelectConfig::default();
    let commands = vec![
        DisplayableCommand { description: "application::exit", command: 1u8 },
        DisplayableCommand { description: "buffer::save", command: 2u8 },
    ];
    let mut mode = CommandMode::new(commands, config.clone());

    mode.set_query(String::from("application"));
    mode.set_insert_mode(false);
    mode.search();

    // Ensure we have results before reset
    assert!(mode.results().len() > 0);
    assert_eq!(mode.results()[0].command, 1u8);

    mode.reset(config);
    assert_eq!(mode.query(), "");
    assert_eq!(mode.insert_mode(), true);
    assert_eq!(mode.results().len(), 0);
}

#[test]
fn syntax_reset_clears_query_mode_and_results() {
    let config = SearchSelectConfig::default();
    let mut mode = SyntaxMode::new(config.clone());

    mode.reset(vec![String::from("syntax")], config.clone());
    mode.set_query(String::from("syntax"));
    mode.set_insert_mode(false);
    mode.search();

    // Ensure we have results before reset
    assert!(mode.results().len() > 0);

    mode.reset(vec![], config);
    assert_eq!(mode.query(), "");
    assert_eq!(mode.insert_mode(), true);
    assert_eq!(mode.results().len(), 0);
}

#[test]
fn default_config_shows_five_results() {
    assert_eq!(SearchSelectConfig::default().max_results, 5);
}

#[test]
fn message_asks_for_a_query_then_reports_no_matches() {
    let mut mode = SyntaxMode::new(SearchSelectConfig::default());
    mode.reset(vec![String::from("Rust"), String::from("Ruby")], SearchSelectConfig::default());
    assert_eq!(mode.message(), Some(String::from("Enter a search query to start.")));
    mode.set_query(String::from("zzz"));
    mode.search();
    assert_eq!(mode.message(), Some(String::from("No matching entries found.")));
    mode.set_query(String::from("Ru"));
    mode.search();
    assert_eq!(mode.results().len(), 2);
    assert_eq!(mode.message(), None);
}

#[test]
fn theme_search_without_query_lists_first_themes() {
    let config = SearchSelectConfig { max_results: 2 };
    let mut mode = ThemeMode::new(config.clone());
    mode.reset(
        vec![String::from("base16"), String::from("solarized"), String::from("monokai")],
        config,
    );
    mode.search();
    assert_eq!(mode.results(), &[String::from("base16"), String::from("solarized")][..]);
    mode.set_query(String::from("mono"));
    mode.search();
    assert_eq!(mode.results(), &[String::from("monokai")][..]);
}

#[test]
fn select_next_moves_through_results() {
    let mut mode = SyntaxMode::new(SearchSelectConfig::default());
    mode.reset(vec![String::from("Rust"), String::from("Rusty")], SearchSelectConfig::default());
    mode.set_query(String::from("Rust"));
    mode.search();
    assert_eq!(mode.selected_index(), 0);
    mode.select_next();
    assert_eq!(mode.selected_index(), 1);
    mode.select_next();
    assert_eq!(mode.selected_index(), 0);
    mode.select_previous();
    assert_eq!(mode.selected_index(), 1);
    assert!(mode.selection().is_some());
}
