use amp::key_map::{parse_key, Key, KeyMap, KeyMapError};
use amp::preferences::YamlValue;
use amp::select_modes::DisplayableCommand;

fn commands() -> Vec<DisplayableCommand<u8>> {
    vec![
        DisplayableCommand { description: "cursor::move_up", command: 1 },
        DisplayableCommand { description: "cursor::move_down", command: 2 },
    ]
}

fn text(s: &str) -> YamlValue {
    YamlValue::String(String::from(s))
}

fn keymap_data(entries: &[(&str, &str)]) -> YamlValue {
    YamlValue::Hash(entries.iter().map(|(k, c)| (text(k), text(c))).collect())
}

#[test]
fn keymap_correctly_parses_character_keys() {
    assert_eq!(parse_key("k"), Ok(Key::Char('k')));
    assert_eq!(parse_key("ko"), Ok(Key::Char('k')));
}

#[test]
fn keymap_correctly_parses_control_keys() {
    assert_eq!(parse_key("Ctrl-r"), Ok(Key::Ctrl('r')));
    assert_eq!(parse_key("Ctrl-r-x"), Ok(Key::Ctrl('r')));
}

#[test]
fn keymap_refuses_unknown_modifiers_and_empty_keys() {
    assert_eq!(parse_key("Alt-r"), Err(KeyMapError::InvalidModifier(String::from("Alt"))));
    assert_eq!(parse_key("Ctrl-"), Err(KeyMapError::InvalidKey(String::new())));
    assert_eq!(parse_key(""), Err(KeyMapError::InvalidKey(String::new())));
    assert_eq!(parse_key("-"), Err(KeyMapError::InvalidKey(String::new())));
}

#[test]
fn keymap_correctly_parses_yaml_character_keybindings() {
    let keymap = KeyMap::from(&keymap_data(&[("k", "cursor::move_up")]), &commands()).unwrap();
    let command = keymap.get(Key::Char('k')).expect("Keymap doesn't contain command");
    assert_eq!(command, 1);
}

#[test]
fn keymap_correctly_parses_yaml_control_keybindings() {
    let keymap = KeyMap::from(&keymap_data(&[("Ctrl-r", "cursor::move_up")]), &commands()).unwrap();
    let command = keymap.get(Key::Ctrl('r')).expect("Keymap doesn't contain command");
    assert_eq!(command, 1);
}

#[test]
fn keymap_binds_each_key_to_its_last_command() {
    let data = keymap_data(&[("k", "cursor::move_up"), ("j", "cursor::move_down"), ("k", "cursor::move_down")]);
    let keymap = KeyMap::from(&data, &commands()).unwrap();
    assert_eq!(keymap.get(Key::Char('k')), Some(2));
    assert_eq!(keymap.get(Key::Char('j')), Some(2));
    assert_eq!(keymap.get(Key::Char('x')), None);
}

#[test]
fn keymap_refuses_malformed_data() {
    assert_eq!(KeyMap::from(&text("k"), &commands()).err(), Some(KeyMapError::NotAHash));
    let numeric_key = YamlValue::Hash(vec![(YamlValue::Integer(1), text("cursor::move_up"))]);
    assert_eq!(KeyMap::from(&numeric_key, &commands()).err(), Some(KeyMapError::KeyNotAString));
    let numeric_command = YamlValue::Hash(vec![(text("k"), YamlValue::Integer(1))]);
    assert_eq!(KeyMap::from(&numeric_command, &commands()).err(), Some(KeyMapError::CommandNotAString));
    assert_eq!(
        KeyMap::from(&keymap_data(&[("k", "cursor::move_left")]), &commands()).err(),
        Some(KeyMapError::UnknownCommand(String::from("cursor::move_left")))
    );
    assert_eq!(
        KeyMap::from(&keymap_data(&[("j", "cursor::move_up"), ("Alt-k", "cursor::move_up")]), &commands()).err(),
        Some(KeyMapError::InvalidModifier(String::from("Alt")))
    );
}
