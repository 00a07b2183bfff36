use amp::clipboard::{Clipboard, ClipboardContent};

#[test]
fn system_content_differs_ignores_inline_vs_block_when_text_matches() {
    assert!(!Clipboard::system_content_differs(
        &ClipboardContent::Inline("amp\n".to_string()),
        "amp\n"
    ));
    assert!(!Clipboard::system_content_differs(
        &ClipboardContent::Block("amp\n".to_string()),
        "amp\n"
    ));
}

#[test]
fn system_content_differs_detects_actual_text_changes() {
    assert!(Clipboard::system_content_differs(
        &ClipboardContent::Block("amp\n".to_string()),
        "editor\n"
    ));
    assert!(Clipboard::system_content_differs(
        &ClipboardContent::Empty,
        "editor"
    ));
}

#[test]
fn text_returns_the_content_of_either_kind() {
    assert_eq!(ClipboardContent::Inline("a".to_string()).text(), Some("a"));
    assert_eq!(ClipboardContent::Block("b\n".to_string()).text(), Some("b\n"));
    assert_eq!(ClipboardContent::Empty.text(), None);
}

#[test]
fn get_content_adopts_differing_system_text_as_inline() {
    let mut clipboard = Clipboard::new();
    assert_eq!(clipboard.set_content(ClipboardContent::Block("line\n".to_string())), Some("line\n"));
    assert_eq!(
        clipboard.get_content(Some("other".to_string())),
        &ClipboardContent::Inline("other".to_string())
    );
}

#[test]
fn get_content_keeps_block_content_when_system_text_matches() {
    let mut clipboard = Clipboard::new();
    clipboard.set_content(ClipboardContent::Block("line\n".to_string()));
    assert_eq!(
        clipboard.get_content(Some("line\n".to_string())),
        &ClipboardContent::Block("line\n".to_string())
    );
}

#[test]
fn get_content_ignores_empty_or_missing_system_text() {
    let mut clipboard = Clipboard::new();
    assert_eq!(clipboard.get_content(Some(String::new())), &ClipboardContent::Empty);
    assert_eq!(clipboard.get_content(None), &ClipboardContent::Empty);
    assert_eq!(clipboard.set_content(ClipboardContent::Empty), None);
}
