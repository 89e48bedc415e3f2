//! Key parsing and the keybinding tables built from the configuration.

use clux::config::display::ConfigSource;
use clux::config::bindings::add_binding;
use clux::config::bindings::KeyBindings;
use clux::config::keys::{ConfigError, ParsedKey};
use clux::config::sections::Config;
use clux::input::{KeyCode, KeyModifiers};

fn mods(bits: u8) -> KeyModifiers {
    KeyModifiers::from_bits(bits)
}

#[test]
fn config_test_parse_simple_key() {
    let key = ParsedKey::parse("a").unwrap();
    assert_eq!(key.code, KeyCode::Char('a'));
    assert_eq!(key.modifiers, mods(KeyModifiers::NONE));
}

#[test]
fn config_test_parse_key_with_ctrl() {
    let key = ParsedKey::parse("ctrl+c").unwrap();
    assert_eq!(key.code, KeyCode::Char('c'));
    assert_eq!(key.modifiers, mods(KeyModifiers::CONTROL));
}

#[test]
fn config_test_parse_key_with_multiple_modifiers() {
    let key = ParsedKey::parse("ctrl+shift+a").unwrap();
    assert_eq!(key.code, KeyCode::Char('a'));
    assert_eq!(key.modifiers, mods(KeyModifiers::CONTROL | KeyModifiers::SHIFT));
}

#[test]
fn config_test_parse_key_alt_names() {
    let key = ParsedKey::parse("option+c").unwrap();
    assert_eq!(key.modifiers, mods(KeyModifiers::ALT));

    let key = ParsedKey::parse("cmd+v").unwrap();
    assert_eq!(key.modifiers, mods(KeyModifiers::SUPER));

    let key = ParsedKey::parse("control+x").unwrap();
    assert_eq!(key.modifiers, mods(KeyModifiers::CONTROL));
}

#[test]
fn config_test_parse_special_keys() {
    assert_eq!(ParsedKey::parse("enter").unwrap().code, KeyCode::Enter);
    assert_eq!(ParsedKey::parse("escape").unwrap().code, KeyCode::Esc);
    assert_eq!(ParsedKey::parse("tab").unwrap().code, KeyCode::Tab);
    assert_eq!(ParsedKey::parse("space").unwrap().code, KeyCode::Char(' '));
    assert_eq!(ParsedKey::parse("up").unwrap().code, KeyCode::Up);
    assert_eq!(ParsedKey::parse("pageup").unwrap().code, KeyCode::PageUp);
}

#[test]
fn config_test_parse_function_keys() {
    assert_eq!(ParsedKey::parse("f1").unwrap().code, KeyCode::F(1));
    assert_eq!(ParsedKey::parse("f12").unwrap().code, KeyCode::F(12));
}

#[test]
fn config_test_parse_symbols() {
    assert_eq!(ParsedKey::parse("-").unwrap().code, KeyCode::Char('-'));
    assert_eq!(ParsedKey::parse("[").unwrap().code, KeyCode::Char('['));
    assert_eq!(ParsedKey::parse("]").unwrap().code, KeyCode::Char(']'));
    assert_eq!(ParsedKey::parse("'").unwrap().code, KeyCode::Char('\''));
}

#[test]
fn config_test_parse_case_insensitive() {
    let key1 = ParsedKey::parse("CTRL+A").unwrap();
    let key2 = ParsedKey::parse("ctrl+a").unwrap();
    assert_eq!(key1.code, key2.code);
    assert_eq!(key1.modifiers, key2.modifiers);
}

#[test]
fn config_test_key_matches() {
    let key = ParsedKey::parse("ctrl+c").unwrap();
    assert!(key.matches(KeyCode::Char('c'), mods(KeyModifiers::CONTROL)));
    assert!(key.matches(KeyCode::Char('C'), mods(KeyModifiers::CONTROL))); // Case insensitive
    assert!(!key.matches(KeyCode::Char('c'), mods(KeyModifiers::NONE)));
    assert!(!key.matches(KeyCode::Char('x'), mods(KeyModifiers::CONTROL)));
}

#[test]
fn config_test_default_config_parses() {
    let config: toml::Value = toml::from_str(Config::default_toml()).expect("Default config should parse");
    assert_eq!(config["prefix"]["key"].as_str(), Some("alt+c"));
    assert_eq!(config["keybindings"]["pane"]["split_horizontal"].as_str(), Some("-"));
}

#[test]
fn config_test_config_default() {
    let config = Config::default();
    assert_eq!(config.prefix.key, "alt+c");
    assert_eq!(config.keybindings.window.new, "n");
}

#[test]
fn config_test_build_command_bindings() {
    let config = Config::default();
    let bindings = config.build_command_bindings();

    let split_h_key = ParsedKey::parse("-").unwrap();
    assert_eq!(bindings.get(&split_h_key), Some("split_horizontal"));

    let quit_key = ParsedKey::parse("q").unwrap();
    assert_eq!(bindings.get(&quit_key), Some("quit"));
}

#[test]
fn config_test_build_direct_bindings() {
    let config = Config::default();
    let bindings = config.build_direct_bindings();

    let scroll_up_key = ParsedKey::parse("shift+pageup").unwrap();
    assert_eq!(bindings.get(&scroll_up_key), Some("scroll_up"));
}

#[test]
fn config_test_parse_prefix() {
    let config = Config::default();
    let prefix = config.parse_prefix().unwrap();
    assert_eq!(prefix.code, KeyCode::Char('c'));
    assert_eq!(prefix.modifiers, mods(KeyModifiers::ALT));
}

#[test]
fn config_test_invalid_key() {
    assert!(ParsedKey::parse("").is_err());
    assert!(ParsedKey::parse("ctrl+").is_err());
    assert!(ParsedKey::parse("ctrl+a+b").is_err());
    assert!(ParsedKey::parse("invalidkey").is_err());
}

#[test]
fn config_test_parse_trims_whitespace() {
    let key = ParsedKey::parse("  CTRL+X  ").unwrap();
    assert_eq!(key.code, KeyCode::Char('x'));
    assert_eq!(key.modifiers, mods(KeyModifiers::CONTROL));
}

#[test]
fn tests_test_parse_simple_key() {
    let key = ParsedKey::parse("a").unwrap();
    assert_eq!(key.code, KeyCode::Char('a'));
    assert_eq!(key.modifiers, mods(KeyModifiers::NONE));
}

#[test]
fn tests_test_parse_key_with_ctrl() {
    let key = ParsedKey::parse("ctrl+c").unwrap();
    assert_eq!(key.code, KeyCode::Char('c'));
    assert_eq!(key.modifiers, mods(KeyModifiers::CONTROL));
}

#[test]
fn tests_test_parse_key_with_multiple_modifiers() {
    let key = ParsedKey::parse("ctrl+shift+a").unwrap();
    assert_eq!(key.code, KeyCode::Char('a'));
    assert_eq!(key.modifiers, mods(KeyModifiers::CONTROL | KeyModifiers::SHIFT));
}

#[test]
fn tests_test_parse_key_alt_names() {
    let key = ParsedKey::parse("option+c").unwrap();
    assert_eq!(key.modifiers, mods(KeyModifiers::ALT));

    let key = ParsedKey::parse("cmd+v").unwrap();
    assert_eq!(key.modifiers, mods(KeyModifiers::SUPER));

    let key = ParsedKey::parse("control+x").unwrap();
    assert_eq!(key.modifiers, mods(KeyModifiers::CONTROL));
}

#[test]
fn tests_test_parse_special_keys() {
    assert_eq!(ParsedKey::parse("enter").unwrap().code, KeyCode::Enter);
    assert_eq!(ParsedKey::parse("escape").unwrap().code, KeyCode::Esc);
    assert_eq!(ParsedKey::parse("tab").unwrap().code, KeyCode::Tab);
    assert_eq!(ParsedKey::parse("space").unwrap().code, KeyCode::Char(' '));
    assert_eq!(ParsedKey::parse("up").unwrap().code, KeyCode::Up);
    assert_eq!(ParsedKey::parse("pageup").unwrap().code, KeyCode::PageUp);
}

#[test]
fn tests_test_parse_function_keys() {
    assert_eq!(ParsedKey::parse("f1").unwrap().code, KeyCode::F(1));
    assert_eq!(ParsedKey::parse("f12").unwrap().code, KeyCode::F(12));
}

#[test]
fn tests_test_parse_symbols() {
    assert_eq!(ParsedKey::parse("-").unwrap().code, KeyCode::Char('-'));
    assert_eq!(ParsedKey::parse("[").unwrap().code, KeyCode::Char('['));
    assert_eq!(ParsedKey::parse("]").unwrap().code, KeyCode::Char(']'));
    assert_eq!(ParsedKey::parse("'").unwrap().code, KeyCode::Char('\''));
}

#[test]
fn tests_test_parse_case_insensitive() {
    let key1 = ParsedKey::parse("CTRL+A").unwrap();
    let key2 = ParsedKey::parse("ctrl+a").unwrap();
    assert_eq!(key1.code, key2.code);
    assert_eq!(key1.modifiers, key2.modifiers);
}

#[test]
fn tests_test_key_matches() {
    let key = ParsedKey::parse("ctrl+c").unwrap();
    assert!(key.matches(KeyCode::Char('c'), mods(KeyModifiers::CONTROL)));
    assert!(key.matches(KeyCode::Char('C'), mods(KeyModifiers::CONTROL))); // Case insensitive
    assert!(!key.matches(KeyCode::Char('c'), mods(KeyModifiers::NONE)));
    assert!(!key.matches(KeyCode::Char('x'), mods(KeyModifiers::CONTROL)));
}

#[test]
fn tests_test_default_config_parses() {
    let config: toml::Value = toml::from_str(Config::default_toml()).expect("Default config should parse");
    assert_eq!(config["prefix"]["key"].as_str(), Some("alt+c"));
    assert_eq!(config["keybindings"]["pane"]["split_horizontal"].as_str(), Some("-"));
}

#[test]
fn tests_test_config_default() {
    let config = Config::default();
    assert_eq!(config.prefix.key, "alt+c");
    assert_eq!(config.keybindings.window.new, "n");
}

#[test]
fn tests_test_build_command_bindings() {
    let config = Config::default();
    let bindings = config.build_command_bindings();

    let split_h_key = ParsedKey::parse("-").unwrap();
    assert_eq!(bindings.get(&split_h_key), Some("split_horizontal"));

    let quit_key = ParsedKey::parse("q").unwrap();
    assert_eq!(bindings.get(&quit_key), Some("quit"));
}

#[test]
fn tests_test_build_direct_bindings() {
    let config = Config::default();
    let bindings = config.build_direct_bindings();

    let scroll_up_key = ParsedKey::parse("shift+pageup").unwrap();
    assert_eq!(bindings.get(&scroll_up_key), Some("scroll_up"));
}

#[test]
fn tests_test_parse_prefix() {
    let config = Config::default();
    let prefix = config.parse_prefix().unwrap();
    assert_eq!(prefix.code, KeyCode::Char('c'));
    assert_eq!(prefix.modifiers, mods(KeyModifiers::ALT));
}

#[test]
fn tests_test_invalid_key() {
    assert!(ParsedKey::parse("").is_err());
    assert!(ParsedKey::parse("ctrl+").is_err());
    assert!(ParsedKey::parse("ctrl+a+b").is_err());
    assert!(ParsedKey::parse("invalidkey").is_err());
}

#[test]
fn tests_test_parse_trims_whitespace() {
    let key = ParsedKey::parse("  CTRL+X  ").unwrap();
    assert_eq!(key.code, KeyCode::Char('x'));
    assert_eq!(key.modifiers, mods(KeyModifiers::CONTROL));
}

#[test]
fn invalid_keys_name_the_input() {
    match ParsedKey::parse("ctrl+a+b") {
        Err(ConfigError::InvalidKey(m)) => assert!(m.contains("ctrl+a+b")),
        other => panic!("unexpected {:?}", other),
    }
    let err = ParsedKey::parse("invalidkey").unwrap_err();
    assert!(err.message().starts_with("Invalid key"));
}

#[test]
fn later_bindings_replace_earlier_ones() {
    let mut bindings = KeyBindings::new();
    add_binding(&mut bindings, "ctrl+x", "first");
    add_binding(&mut bindings, "CTRL+x", "second");
    add_binding(&mut bindings, "not a key", "ignored");
    assert_eq!(bindings.len(), 1);
    let key = ParsedKey::parse("ctrl+x").unwrap();
    assert_eq!(bindings.get(&key), Some("second"));
    assert_eq!(bindings.lookup(KeyCode::Char('X'), mods(KeyModifiers::CONTROL)), Some("second"));
    assert_eq!(bindings.lookup(KeyCode::Char('x'), mods(KeyModifiers::NONE)), None);
}

#[test]
fn function_keys_out_of_range_are_refused() {
    assert!(ParsedKey::parse("f0").is_err());
    assert!(ParsedKey::parse("f25").is_err());
    assert_eq!(ParsedKey::parse("f13").unwrap().code, KeyCode::F(13));
    assert_eq!(ParsedKey::parse("alt+f5").unwrap().code, KeyCode::F(5));
}

#[test]
fn display_lists_the_settings_and_their_source() {
    let config = Config::default();
    let text = config.display_text(&ConfigSource::Default);
    assert!(text.starts_with(
        "Clux Configuration\n==================\n\nSource: (built-in defaults)\n\n[prefix]\n  key = \"alt+c\"\n\n[keybindings.pane]\n  split_horizontal = \"-\"\n"
    ));
    assert!(text.contains("[keybindings.direct]\n  scroll_up = \"shift+pageup\"\n"));
    assert!(text.ends_with("  paste_alt = \"ctrl+shift+v\"\n"));
    let from_file = config.display_text(&ConfigSource::File("/home/u/.cluxrc".to_string()));
    assert!(from_file.contains("Source: /home/u/.cluxrc\n"));
    assert_eq!(ConfigSource::Default.message(), "(built-in defaults)");
}

#[test]
fn links_and_selection_default_on() {
    let config = Config::default();
    assert!(config.links.auto_detect);
    assert!(config.selection.copy_on_select);
}

#[test]
fn a_configured_tilde_log_dir_keeps_its_tail() {
    let mut logging = clux::config::sections::ServerLoggingConfig::default();
    logging.log_dir = Some("~/logs/clux".to_string());
    let dir = logging.effective_log_dir().expect("a directory");
    assert!(dir.ends_with("/logs/clux"));
}
