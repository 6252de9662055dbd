use admin_editor::shortcuts::{format_shortcut, Shortcut, ShortcutAction, ShortcutRegistry};
use admin_editor::slash::SlashCommand;

#[test]
fn test_shortcut_creation() {
    let shortcut = Shortcut::new("b".to_string()).ctrl();
    assert_eq!(shortcut.key, "b");
    assert!(shortcut.ctrl);
    assert!(!shortcut.shift);
    assert!(!shortcut.alt);
    assert!(!shortcut.meta);
}

#[test]
fn test_shortcut_chaining() {
    let shortcut = Shortcut::new("z".to_string()).ctrl().shift();
    assert!(shortcut.ctrl);
    assert!(shortcut.shift);
}

#[test]
fn test_format_shortcut() {
    let shortcut = Shortcut::new("b".to_string()).ctrl();
    assert_eq!(format_shortcut(&shortcut), "Ctrl+B");

    let shortcut = Shortcut::new("1".to_string()).ctrl().alt();
    assert_eq!(format_shortcut(&shortcut), "Ctrl+Alt+1");
}

#[test]
fn test_registry_defaults() {
    let registry = ShortcutRegistry::with_defaults();
    assert!(!registry.is_empty());
}

#[test]
fn test_registry_register_unregister() {
    let mut registry = ShortcutRegistry::with_defaults();
    let count_before = registry.len();

    let custom_shortcut = Shortcut::new("x".to_string()).ctrl().alt();
    registry.register(custom_shortcut.clone(), ShortcutAction::ToggleBold);
    assert_eq!(registry.len(), count_before + 1);

    registry.unregister(&custom_shortcut);
    assert_eq!(registry.len(), count_before);
}

#[test]
fn registering_a_taken_combination_replaces_its_action() {
    let mut registry = ShortcutRegistry::with_defaults();
    let count_before = registry.len();
    registry.register(Shortcut::new("b".to_string()).ctrl(), ShortcutAction::Save);
    assert_eq!(registry.len(), count_before);
    assert_eq!(registry.find_action("B", true, false, false, false), Some(ShortcutAction::Save));
}

#[test]
fn finds_default_actions() {
    let registry = ShortcutRegistry::with_defaults();
    assert_eq!(registry.find_action("b", true, false, false, false), Some(ShortcutAction::ToggleBold));
    assert_eq!(registry.find_action("b", false, false, false, false), None);
    assert_eq!(registry.find_action("2", true, false, true, false), Some(ShortcutAction::SetHeading(2)));
}

#[test]
fn matching_ignores_key_case_but_not_modifiers() {
    let s = Shortcut::new("k".to_string()).meta();
    assert!(s.matches("K", false, false, false, true));
    assert!(!s.matches("k", true, false, false, true));
}

#[test]
fn formats_every_modifier() {
    let s = Shortcut::new("s".to_string()).ctrl().shift().alt().meta();
    assert_eq!(format_shortcut(&s), "Ctrl+Alt+Shift+Cmd+S");
}

#[test]
fn slash_commands_filter_by_query() {
    let all = SlashCommand::all();
    assert_eq!(all.len(), 12);
    assert_eq!(all[0].label(), "Paragraph");
    assert!(SlashCommand::Heading2.matches_query("HEAD"));
    assert!(SlashCommand::Table.matches_query("rows"));
    assert!(!SlashCommand::Quote.matches_query("zzz"));
}
