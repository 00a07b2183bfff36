use amp::open_mode::{parse, ExclusionError};
use amp::preferences::{parse_document, Preferences, PreferencesError, SettingValue, YamlValue};

fn document(text: &str) -> Option<YamlValue> {
    Some(parse_document(text).unwrap())
}

fn preferences(text: &str) -> Preferences {
    Preferences::new(document(text))
}

fn empty_preferences() -> Preferences {
    Preferences::new(None)
}

#[test]
fn mod_preferences_returns_user_defined_theme_name() {
    let preferences = preferences("theme: \"my_theme\"");

    assert_eq!(preferences.theme(), "my_theme");
}

#[test]
fn mod_set_theme_updates_in_memory_value() {
    let mut preferences = empty_preferences();
    preferences.set_theme(String::from("new_in_memory_theme"));

    assert_eq!(preferences.theme(), "new_in_memory_theme");
}

#[test]
fn preferences_returns_default_theme_when_user_defined_data_not_found() {
    let preferences = empty_preferences();

    assert_eq!(preferences.theme(), "solarized_dark");
}

#[test]
fn mod_tab_width_returns_user_defined_data() {
    let preferences = preferences("tab_width: 12");

    assert_eq!(preferences.tab_width(None), 12);
}

#[test]
fn mod_tab_width_returns_user_defined_type_specific_data() {
    let preferences = preferences("tab_width: 12\ntypes:\n  rs:\n    tab_width: 24");

    assert_eq!(preferences.tab_width(Some("preferences.rs")), 24);
}

#[test]
fn mod_tab_width_returns_default_when_user_defined_type_specific_data_not_found() {
    let preferences = preferences("tab_width: 12");

    assert_eq!(preferences.tab_width(Some("preferences.rs")), 12);
}

#[test]
fn preferences_returns_default_tab_width_when_user_defined_data_not_found() {
    let preferences = empty_preferences();

    assert_eq!(preferences.tab_width(None), 2);
}

#[test]
fn mod_soft_tabs_returns_user_defined_data() {
    let preferences = preferences("soft_tabs: false");

    assert_eq!(preferences.soft_tabs(None), false);
}

#[test]
fn mod_soft_tabs_returns_user_defined_type_specific_data() {
    let preferences = preferences("soft_tabs: true\ntypes:\n  rs:\n    soft_tabs: false");

    assert_eq!(preferences.soft_tabs(Some("preferences.rs")), false);
}

#[test]
fn mod_soft_tabs_returns_default_when_user_defined_type_specific_data_not_found() {
    let preferences = preferences("soft_tabs: false");

    assert_eq!(preferences.soft_tabs(Some("preferences.rs")), false);
}

#[test]
fn preferences_returns_default_soft_tabs_when_user_defined_data_not_found() {
    let preferences = empty_preferences();

    assert_eq!(preferences.soft_tabs(None), true);
}

#[test]
fn non_extension_types_are_supported_for_type_specific_data() {
    let preferences = preferences("soft_tabs: true\ntypes:\n  Makefile:\n    soft_tabs: false");

    assert_eq!(preferences.soft_tabs(Some("Makefile")), false);
}

#[test]
fn syntax_definition_name_returns_user_defined_syntax_by_extension_for_full_filename() {
    let preferences = preferences("types:\n  xyz:\n    syntax: Rust");

    assert_eq!(preferences.syntax_definition_name("test.xyz"), Some("Rust".to_owned()));
}

#[test]
fn syntax_definition_name_returns_user_defined_syntax_by_extension_for_deep_filename() {
    let preferences = preferences("types:\n  xyz:\n    syntax: Rust");

    assert_eq!(preferences.syntax_definition_name("src/test.xyz"), Some("Rust".to_owned()));
}

#[test]
fn syntax_definition_name_returns_user_defined_syntax_for_full_filename_without_extension() {
    let preferences = preferences("types:\n  Makefile:\n    syntax: Makefile");

    assert_eq!(preferences.syntax_definition_name("Makefile"), Some("Makefile".to_owned()));
}

#[test]
fn syntax_definition_name_returns_user_defined_syntax_for_full_deep_filename() {
    let preferences = preferences("types:\n  Makefile:\n    syntax: Makefile");

    assert_eq!(preferences.syntax_definition_name("src/Makefile"), Some("Makefile".to_owned()));
}

#[test]
fn syntax_definition_name_returns_user_defined_syntax_for_full_filename_with_extension() {
    let preferences = preferences("types:\n  Makefile.lib:\n    syntax: Makefile");

    assert_eq!(preferences.syntax_definition_name("Makefile.lib"), Some("Makefile".to_owned()));
}

#[test]
fn mod_preferences_returns_user_defined_line_length_guide() {
    let preferences = preferences("line_length_guide: 100");

    assert_eq!(preferences.line_length_guide(None), Some(100));
}

#[test]
fn mod_preferences_returns_user_disabled_line_length_guide() {
    let preferences = preferences("line_length_guide: false");

    assert_eq!(preferences.line_length_guide(None), None);
}

#[test]
fn mod_preferences_returns_user_default_line_length_guide() {
    let preferences = preferences("line_length_guide: true");

    assert_eq!(preferences.line_length_guide(None), Some(80));
}

#[test]
fn mod_preferences_returns_user_defined_line_wrapping() {
    let preferences = preferences("line_wrapping: false");

    assert_eq!(preferences.line_wrapping(), false);
}

#[test]
fn preferences_returns_default_line_wrapping_when_user_defined_data_not_found() {
    let preferences = empty_preferences();

    assert_eq!(preferences.line_wrapping(), true);
}

#[test]
fn mod_tab_content_uses_tab_width_spaces_when_soft_tabs_are_enabled() {
    let preferences = preferences("soft_tabs: true\ntab_width: 5");

    assert_eq!(preferences.tab_content(None), "     ");
}

#[test]
fn mod_tab_content_returns_tab_character_when_soft_tabs_are_disabled() {
    let preferences = preferences("soft_tabs: false\ntab_width: 5");

    assert_eq!(preferences.tab_content(None), "\t");
}

#[test]
fn mod_tab_content_uses_tab_width_spaces_when_type_specific_soft_tabs_are_enabled() {
    let preferences =
        preferences("soft_tabs: false\ntypes:\n  rs:\n    soft_tabs: true\n    tab_width: 5");

    assert_eq!(preferences.tab_content(Some("preferences.rs")), "     ");
}

#[test]
fn mod_tab_content_returns_tab_character_when_type_specific_soft_tabs_are_disabled() {
    let preferences =
        preferences("soft_tabs: true\ntab_width: 5\ntypes:\n  rs:\n    soft_tabs: false\n");

    assert_eq!(preferences.tab_content(Some("preferences.rs")), "\t");
}

#[test]
fn open_mode_exclusions_returns_correct_defaults_when_no_data_provided() {
    let preferences = empty_preferences();

    let exclusions = preferences.open_mode_exclusions().unwrap().unwrap();
    assert_eq!(exclusions, vec![bloodhound::ExclusionPattern::new("**/.git").unwrap()]);
}

#[test]
fn open_mode_exclusions_returns_correct_defaults_when_exclusions_key_not_set() {
    let preferences = preferences("tab_width: 12");

    let exclusions = preferences.open_mode_exclusions().unwrap().unwrap();
    assert_eq!(exclusions, vec![bloodhound::ExclusionPattern::new("**/.git").unwrap()]);
}

#[test]
fn open_mode_exclusions_returns_user_defined_values() {
    let preferences = preferences("open_mode:\n  exclusions:\n    - \".svn\"");

    let exclusions = preferences.open_mode_exclusions().unwrap().unwrap();
    assert_eq!(exclusions, vec![bloodhound::ExclusionPattern::new(".svn").unwrap()]);
}

#[test]
fn open_mode_exclusions_returns_none_when_disabled() {
    let preferences = preferences("open_mode:\n  exclusions: false");

    assert!(preferences.open_mode_exclusions().unwrap().is_none());
}

#[test]
fn open_mode_exclusions_reports_invalid_user_patterns() {
    let preferences = preferences("open_mode:\n  exclusions:\n    - \"[\"");

    assert_eq!(
        preferences.open_mode_exclusions().unwrap_err(),
        PreferencesError::UserExclusions(ExclusionError::InvalidPattern(String::from("[")))
    );
    let without_defaults = Preferences::with_defaults(None, YamlValue::Null);
    assert_eq!(
        without_defaults.open_mode_exclusions().unwrap_err(),
        PreferencesError::MissingDefaultExclusions
    );
}

#[test]
fn line_comment_prefix_returns_correct_default_type_specific_data() {
    let preferences = empty_preferences();

    assert_eq!(preferences.line_comment_prefix("preferences.rs"), Some("//".into()));
}

#[test]
fn line_comment_prefix_returns_correct_user_defined_type_specific_data() {
    let preferences = preferences("types:\n  rs:\n    line_comment_prefix: $$");

    assert_eq!(preferences.line_comment_prefix("preferences.rs"), Some("$$".into()));
}

#[test]
fn line_comment_prefix_returns_correct_user_defined_type_specific_data_with_no_default() {
    let preferences = preferences("types:\n  abc:\n    line_comment_prefix: $$");

    assert_eq!(preferences.line_comment_prefix("preferences.abc"), Some("$$".into()));
}

#[test]
fn line_comment_prefix_returns_none_for_non_existing_type() {
    let preferences = empty_preferences();

    assert_eq!(preferences.line_comment_prefix("preferences.abc"), None);
}

#[test]
fn overrides_take_precedence_over_both_documents() {
    let preferences = Preferences::with_overrides(
        document("theme: user").unwrap(),
        vec![(String::from("theme"), String::from("override"))],
    );
    assert_eq!(preferences.theme(), "override");
    assert_eq!(
        preferences.value("tab_width", None, None),
        SettingValue::Integer(2)
    );
}

#[test]
fn search_select_config_reads_max_results() {
    assert_eq!(preferences("search_select:\n  max_results: 9").search_select_config().max_results, 9);
    assert_eq!(empty_preferences().search_select_config().max_results, 5);
}

#[test]
fn parse_converts_yaml_strings_into_glob_patterns() {
    let exclusion_data = vec![YamlValue::String(String::from("pattern"))];
    assert_eq!(
        parse(&exclusion_data).unwrap(),
        vec![bloodhound::ExclusionPattern::new("pattern").unwrap()]
    );
}

#[test]
fn parse_returns_an_error_when_parsing_fails() {
    let exclusion_data = vec![YamlValue::String(String::from("["))];

    assert!(parse(&exclusion_data).is_err());
}

#[test]
fn parse_returns_an_error_when_a_non_string_is_yaml_value_is_encountered() {
    let exclusion_data = vec![YamlValue::Boolean(true)];

    assert!(parse(&exclusion_data).is_err());
}

#[test]
fn reload_clears_in_memory_theme() {
    // Instantiate preferences and modify their in-memory theme.
    let mut preferences = empty_preferences();
    preferences.set_theme(String::from("new_in_memory_theme"));

    // Reload preferences (an empty file on disk) and verify that we're no
    // longer using the in-memory theme.
    preferences.reload(YamlValue::Null);
    assert_eq!(preferences.theme(), "solarized_dark");
}

#[test]
fn reload_clears_in_memory_value() {
    let mut preferences = preferences("tab_width: 4");
    preferences.set_theme(String::from("new_in_memory_theme"));

    preferences.reload(document("tab_width: 4").unwrap());
    assert_eq!(preferences.theme(), "solarized_dark");
    assert_eq!(preferences.tab_width(None), 4);
}

#[test]
fn parse_document_takes_the_first_document() {
    assert_eq!(parse_document("theme: a\n---\ntheme: b"), Ok(YamlValue::Hash(vec![(
        YamlValue::String(String::from("theme")),
        YamlValue::String(String::from("a")),
    )])));
    assert_eq!(parse_document(""), Ok(YamlValue::Null));
    assert_eq!(parse_document("tab_width: 4"), Ok(YamlValue::Hash(vec![(
        YamlValue::String(String::from("tab_width")),
        YamlValue::Integer(4),
    )])));
}

#[test]
fn parse_document_refuses_invalid_yaml() {
    assert_eq!(parse_document("key: [unclosed"), Err(PreferencesError::Unparseable));
}

#[test]
fn built_in_defaults_hold_the_documented_values() {
    let preferences = Preferences::new(None);
    assert_eq!(preferences.theme(), "solarized_dark");
    assert_eq!(preferences.tab_width(None), 2);
    assert!(preferences.soft_tabs(None));
    assert!(preferences.line_wrapping());
    assert_eq!(preferences.search_select_config().max_results, 5);
    assert_eq!(preferences.open_mode_exclusions().unwrap().map(|v| v.len()), Some(1));
}
