use amp::buffer_mode::BufferMode;
use amp::search_select::{SearchSelectConfig, SearchSelectMode};

fn paths() -> Vec<Option<String>> {
    vec![
        Some(String::from("src/main.rs")),
        None,
        Some(String::from("README.md")),
        None,
    ]
}

#[test]
fn reset_titles_buffers_and_selects_the_current_one() {
    let mut mode = BufferMode::new(SearchSelectConfig::default());
    mode.reset(paths(), Some(2), SearchSelectConfig::default());
    assert_eq!(mode.query(), "");
    assert!(mode.insert_mode());
    mode.search();
    let titles: Vec<&str> = mode.results().iter().map(|b| b.title.as_str()).collect();
    assert_eq!(titles, vec!["src/main.rs", "Untitled", "README.md", "Untitled"]);
    assert_eq!(mode.selected_index(), 2);
    assert_eq!(mode.selection().unwrap().index, 2);
}

#[test]
fn search_without_query_is_limited_to_max_results() {
    let config = SearchSelectConfig { max_results: 2 };
    let mut mode = BufferMode::new(config.clone());
    mode.reset(paths(), Some(3), config);
    mode.search();
    assert_eq!(mode.results().len(), 2);
    // The current buffer is not among the shown ones, so the first is selected.
    assert_eq!(mode.selected_index(), 0);
}

#[test]
fn search_maps_equal_titles_to_distinct_buffers() {
    let mut mode = BufferMode::new(SearchSelectConfig::default());
    mode.reset(paths(), None, SearchSelectConfig::default());
    mode.set_query(String::from("Untitled"));
    mode.search();
    let indices: Vec<usize> = mode.results().iter().map(|b| b.index).collect();
    assert_eq!(indices, vec![1, 3]);
}

#[test]
fn search_finds_buffers_by_title() {
    let mut mode = BufferMode::new(SearchSelectConfig::default());
    mode.reset(paths(), None, SearchSelectConfig::default());
    mode.set_query(String::from("main"));
    mode.search();
    assert_eq!(mode.results().len(), 1);
    assert_eq!(mode.results()[0].index, 0);
}
