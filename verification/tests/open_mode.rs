use amp::open_mode::OpenMode;
use amp::paths::DisplayablePath;
use amp::search_select::SearchSelectConfig;
use std::path::PathBuf;

fn mode() -> OpenMode {
    OpenMode::new(PathBuf::from("."), SearchSelectConfig::default())
}

fn indexed_mode() -> OpenMode {
    let mut mode = mode();
    let mut index = bloodhound::Index::new(PathBuf::from("src"));
    index.populate(None, false);
    mode.set_index(index);
    mode
}

fn push_str(mode: &mut OpenMode, text: &str) {
    for c in text.chars() {
        mode.push_search_char(c);
    }
}

#[test]
fn pin_query_transfers_content() {
    let mut mode = mode();
    push_str(&mut mode, "Cargo");
    mode.pin_query();

    assert_eq!(mode.query(), "");
    assert_eq!(mode.pinned_query(), "Cargo");
}

#[test]
fn pin_query_trims_content() {
    let mut mode = mode();
    push_str(&mut mode, " Cargo ");
    mode.pin_query();

    assert_eq!(mode.query(), "");
    assert_eq!(mode.pinned_query(), "Cargo");
}

#[test]
fn pin_query_normalizes_whitespace() {
    let mut mode = mode();
    push_str(&mut mode, "amp  editor");
    mode.pin_query();

    assert_eq!(mode.query(), "");
    assert_eq!(mode.pinned_query(), "amp editor");
}

#[test]
fn subsequent_pin_query_accumulates_content() {
    let mut mode = mode();
    push_str(&mut mode, "Cargo");
    mode.pin_query();
    push_str(&mut mode, "toml");
    mode.pin_query();

    assert_eq!(mode.query(), "");
    assert_eq!(mode.pinned_query(), "Cargo toml"); // space is intentional
}

#[test]
fn pop_search_token_eats_into_pinned_query_when_query_is_empty() {
    let mut mode = mode();
    push_str(&mut mode, "two tokens");
    mode.pin_query();
    mode.pop_search_token();

    assert_eq!(mode.pinned_query(), "two");
    mode.pop_search_token();
    assert_eq!(mode.pinned_query(), "");
}

#[test]
fn pop_search_token_prefers_the_query() {
    let mut mode = mode();
    push_str(&mut mode, "pinned");
    mode.pin_query();
    push_str(&mut mode, "a b");
    mode.pop_search_token();
    assert_eq!(mode.query(), "a ");
    assert_eq!(mode.pinned_query(), "pinned");
}

fn open_buffers() -> Vec<DisplayablePath> {
    vec![
        DisplayablePath(PathBuf::from("src/main.rs")),
        DisplayablePath(PathBuf::from("src/lib.rs")),
    ]
}

#[test]
fn when_query_is_empty_results_are_open_buffers() {
    let mut mode = mode();
    mode.reset(PathBuf::from("."), open_buffers(), Some(1), SearchSelectConfig::default())
        .unwrap();

    assert_eq!(
        mode.results().iter().collect::<Vec<_>>(),
        vec![
            &DisplayablePath(PathBuf::from("src/main.rs")),
            &DisplayablePath(PathBuf::from("src/lib.rs"))
        ]
    );
}

#[test]
fn open_buffers_respects_workspace_current_buffer() {
    let mut mode = mode();
    mode.reset(PathBuf::from("."), open_buffers(), Some(1), SearchSelectConfig::default())
        .unwrap();

    assert_eq!(mode.selection(), Some(&DisplayablePath(PathBuf::from("src/lib.rs"))));
}

#[test]
fn reset_refuses_a_current_buffer_outside_the_list() {
    let mut mode = mode();
    assert!(mode
        .reset(PathBuf::from("."), open_buffers(), Some(2), SearchSelectConfig::default())
        .is_err());
}

#[test]
fn message_reports_indexing_then_asks_for_a_query() {
    let mut mode = mode();
    assert_eq!(mode.message(), Some(String::from("Indexing .")));
    mode.set_index(bloodhound::Index::new(PathBuf::from(".")));
    assert_eq!(mode.message(), Some(String::from("Enter a search query to start.")));
    push_str(&mut mode, "zzz");
    mode.search();
    assert_eq!(mode.message(), Some(String::from("No matching entries found.")));
}

#[test]
fn search_term_joins_pinned_and_typed_queries_in_lower_case() {
    let mut mode = mode();
    push_str(&mut mode, "Src");
    mode.pin_query();
    push_str(&mut mode, "LIB");
    assert_eq!(mode.search_term(), "src lib");
}

#[test]
fn selected_indices_includes_marked_indices() {
    let mut mode = indexed_mode();
    push_str(&mut mode, "rs");
    mode.search();
    assert!(mode.results().len() >= 2);
    mode.toggle_selection();
    mode.select_next();

    assert_eq!(mode.selected_indices(), vec![0, 1]);
    let selections = mode.selections();
    assert_eq!(selections.len(), 2);
    assert_eq!(selections[0], &mode.results()[0]);
    assert_eq!(selections[1], &mode.results()[1]);
}

#[test]
fn selected_indices_does_not_include_unmarked_indices() {
    let mut mode = indexed_mode();
    push_str(&mut mode, "rs");
    mode.search();
    mode.toggle_selection();
    mode.toggle_selection();
    mode.select_next();

    assert_eq!(mode.selected_indices(), vec![1]);
}

#[test]
fn search_clears_marked_indices() {
    let mut mode = indexed_mode();
    push_str(&mut mode, "r");
    mode.search();
    mode.toggle_selection();

    push_str(&mut mode, "s");
    mode.search();
    assert!(mode.results().len() >= 2);
    mode.select_next();

    assert_eq!(mode.selected_indices(), vec![1]);
}
