use amp::editorconfig::{
    has_unconvertible_glob, load_from_lines, Charset, EditorConfig, EditorConfigError, EndOfLine,
    IndentSize, IndentStyle,
};

fn lines(text: &[&str]) -> Vec<String> {
    text.iter().map(|l| l.to_string()).collect()
}

fn project_lines() -> Vec<String> {
    lines(&[
        "# EditorConfig is awesome: https://EditorConfig.org",
        "root = true",
        "",
        "[*]",
        "end_of_line = lf",
        "insert_final_newline = true",
        "trim_trailing_whitespace = true",
        "charset = utf-8",
        "indent_style = space",
        "indent_size = 4",
        "",
        "[*.md]",
        "trim_trailing_whitespace = false",
    ])
}

#[test]
fn project_editorconfig() {
    let config = EditorConfig::from_lines(&project_lines()).unwrap();

    let md = config.get("README.md").unwrap();
    assert_eq!(md.regex.as_str(), r"[^/]*\.md$");

    let all = config.get("src/main.rs").unwrap();
    assert_eq!(all.regex.as_str(), r"[^/]*$");

    assert!(md.is_match("README.md"));
    assert!(all.is_match("README.md"));
    assert!(all.is_match("src/models/application/editorconfig.rs"));

    assert!(!md.trim_trailing_whitespace.unwrap());

    assert!(all.insert_final_newline.unwrap());
    assert!(all.trim_trailing_whitespace.unwrap());
    assert_eq!(all.end_of_line.unwrap(), EndOfLine::Lf);
    assert_eq!(all.charset.unwrap(), Charset::Utf8);
    assert_eq!(all.indent_style.unwrap(), IndentStyle::Space);
    assert_eq!(all.indent_size.unwrap(), IndentSize::Width(4));
}

#[test]
fn sections_are_kept_latest_first() {
    let sections = load_from_lines(&project_lines()).unwrap();
    assert_eq!(sections.len(), 2);
    assert_eq!(sections[0].regex, r"[^/]*\.md$");
    assert_eq!(sections[1].regex, r"[^/]*$");
    assert_eq!(sections[0].indent_size, None);
}

#[test]
fn property_names_and_values_ignore_ascii_case() {
    let sections = load_from_lines(&lines(&[
        "  [*.rs]  ",
        "Indent_Style=TAB",
        "INDENT_SIZE = Tab",
        "tab_width = 8",
        "End_Of_Line = CRLF",
        "charset = UTF-16LE",
        "insert_final_newline = False",
        "; a comment",
        "unknown_property = 3",
    ]))
    .unwrap();
    assert_eq!(sections.len(), 1);
    let s = &sections[0];
    assert_eq!(s.indent_style, Some(IndentStyle::Tab));
    assert_eq!(s.indent_size, Some(IndentSize::Tab));
    assert_eq!(s.tab_width, Some(8));
    assert_eq!(s.end_of_line, Some(EndOfLine::Crlf));
    assert_eq!(s.charset, Some(Charset::Utf16Le));
    assert_eq!(s.insert_final_newline, Some(false));
    assert_eq!(s.trim_trailing_whitespace, None);
}

#[test]
fn unknown_values_clear_a_property() {
    let sections = load_from_lines(&lines(&[
        "[*]",
        "indent_style = space",
        "indent_style = wide",
        "tab_width = -1",
        "charset = latin1",
    ]))
    .unwrap();
    assert_eq!(sections[0].indent_style, None);
    assert_eq!(sections[0].tab_width, None);
    assert_eq!(sections[0].charset, Some(Charset::Latin1));
}

#[test]
fn a_line_that_is_neither_header_nor_property_is_refused_with_its_number() {
    let result = load_from_lines(&lines(&["# comment", "[*]", "", "indent_size = 2", "oops"]));
    assert_eq!(result.unwrap_err(), EditorConfigError::ParseFailure(3));
    assert!(EditorConfig::from_lines(&lines(&["= x"])).is_err());
}

#[test]
fn get_finds_no_section_for_unmatched_names() {
    let config = EditorConfig::from_lines(&lines(&["[*.md]", "charset = utf-8-bom"])).unwrap();
    assert!(config.get("main.rs").is_none());
    assert_eq!(config.get("notes.md").unwrap().charset, Some(Charset::Utf8Bom));
}

#[test]
fn the_last_matching_section_wins() {
    let config = EditorConfig::from_lines(&lines(&[
        "[*.rs]",
        "indent_size = 2",
        "[*]",
        "indent_size = 4",
        "[main.rs]",
        "indent_size = 8",
    ]))
    .unwrap();
    assert_eq!(config.get("main.rs").unwrap().indent_size, Some(IndentSize::Width(8)));
    assert_eq!(config.get("lib.rs").unwrap().indent_size, Some(IndentSize::Width(4)));
}

#[test]
fn properties_outside_sections_are_dropped() {
    let sections = load_from_lines(&lines(&["indent_size = 2"])).unwrap();
    assert!(sections.is_empty());
    assert!(!has_unconvertible_glob(&lines(&["[*]", "indent_size = 2"])));
}
