use admin_editor::ast::{BlockKind, EmbedProvider};
use admin_editor::commands::{InsertLink, MarkType};
use admin_editor::formatting::{
    apply_inline_code_html, block_format, block_walk_step, format_action, BlockWalk, insert_block_action, link_attributes, mark_command, BlockFormat,
    FormatAction, InsertBlockAction, MarkCommand, shortcut_editor_action, slash_editor_action, EditorAction,
};
use admin_editor::shortcuts::ShortcutAction;
use admin_editor::chart::{chart_scale, peak_value};
use admin_editor::classes::compose_input_class;
use admin_editor::score::{command_match, CommandMatch};
use admin_editor::table_header::HeaderColumn;
use admin_editor::classes::{add_class, element_has_class, remove_class, split_words, ClassUpdate};
use admin_editor::crop::AspectRatio;
use admin_editor::palette::{key_action, new_index, KeyAction};
use admin_editor::shorten::{truncate, truncate_label};
use admin_editor::slash::{filtered_commands, list_key, ListKey, ListKeyOutcome, MenuKey, SlashCommand, SlashMenu};

fn replaced(u: ClassUpdate) -> Option<String> {
    match u {
        ClassUpdate::Replace(v) => Some(v),
        _ => None,
    }
}

#[test]
fn class_lists() {
    assert_eq!(split_words("  a\tb  c "), vec!["a", "b", "c"]);
    assert!(element_has_class(Some("x Task-List y"), "task-list"));
    assert!(!element_has_class(Some("task-lists"), "task-list"));
    assert!(!element_has_class(None, "a"));
    assert!(matches!(add_class(Some("a TASK"), "task"), ClassUpdate::Keep));
    assert_eq!(replaced(add_class(Some("  a   b "), "c")), Some("a b c".to_string()));
    assert_eq!(replaced(add_class(None, "c")), Some("c".to_string()));
    assert_eq!(replaced(remove_class(Some("a B b a a c"), "b")), Some("a c".to_string()));
    assert!(matches!(remove_class(Some("x X"), "x"), ClassUpdate::Remove));
    assert!(matches!(remove_class(None, "x"), ClassUpdate::Remove));
}

#[test]
fn palette_navigation() {
    assert_eq!(new_index(None, 3, 1, false), Some(0));
    assert_eq!(new_index(None, 3, -1, false), Some(2));
    assert_eq!(new_index(Some(2), 3, 1, false), Some(2));
    assert_eq!(new_index(Some(2), 3, 1, true), Some(0));
    assert_eq!(new_index(Some(0), 3, -1, true), Some(2));
    assert_eq!(new_index(Some(0), 0, 1, true), None);
    assert_eq!(key_action("ArrowDown", false, false, Some(0), 3, false), KeyAction::Select(1));
    assert_eq!(key_action("j", true, true, Some(0), 3, false), KeyAction::Select(1));
    assert_eq!(key_action("j", true, false, Some(0), 3, false), KeyAction::Ignore);
    assert_eq!(key_action("k", true, true, Some(1), 3, false), KeyAction::Select(0));
    assert_eq!(key_action("End", false, false, None, 3, false), KeyAction::Select(2));
    assert_eq!(key_action("Home", false, false, Some(2), 3, false), KeyAction::Select(0));
    assert_eq!(key_action("Enter", false, false, Some(1), 3, false), KeyAction::Activate);
    assert_eq!(key_action("Enter", false, false, Some(1), 0, false), KeyAction::Ignore);
}

#[test]
fn shortening() {
    assert_eq!(truncate_label("January", 4), "Jan\u{2026}");
    assert_eq!(truncate_label("Jan", 4), "Jan");
    assert_eq!(truncate_label("abc", 0), "\u{2026}");
    assert_eq!(truncate("hello", 10), ("hello".to_string(), false));
    assert_eq!(truncate("hello", 2), ("he\u{2026}".to_string(), true));
}

#[test]
fn crop_labels() {
    assert_eq!(AspectRatio::Free.label(), "Free");
    assert_eq!(AspectRatio::Landscape.label(), "16:9");
    assert_eq!(AspectRatio::TwoThree.label(), "2:3");
}

#[test]
fn slash_filtering_and_list_keys() {
    assert_eq!(filtered_commands("").len(), 12);
    assert_eq!(filtered_commands("head"), vec![SlashCommand::Heading1, SlashCommand::Heading2, SlashCommand::Heading3]);
    assert!(filtered_commands("nothing like this").is_empty());
    assert_eq!(list_key(0, 3, ListKey::ArrowDown), ListKeyOutcome::Highlight(1));
    assert_eq!(list_key(2, 3, ListKey::ArrowDown), ListKeyOutcome::Highlight(2));
    assert_eq!(list_key(0, 3, ListKey::ArrowUp), ListKeyOutcome::Highlight(0));
    assert_eq!(list_key(0, 0, ListKey::ArrowDown), ListKeyOutcome::Highlight(0));
    assert_eq!(list_key(1, 3, ListKey::Enter), ListKeyOutcome::Choose(1));
    assert_eq!(list_key(1, 3, ListKey::Escape), ListKeyOutcome::Close);
}

#[test]
fn slash_menu_keys() {
    let mut m = SlashMenu::new();
    m.handle_key(&MenuKey::Character("x".to_string()), false);
    assert!(!m.open);
    m.handle_key(&MenuKey::Character("/".to_string()), false);
    assert!(m.open);
    m.handle_key(&MenuKey::Character("h".to_string()), false);
    m.handle_key(&MenuKey::Character("é".to_string()), false);
    assert_eq!(m.query, "hé");
    m.handle_key(&MenuKey::Backspace, false);
    assert_eq!(m.query, "h");
    m.handle_key(&MenuKey::Character("/".to_string()), true);
    assert_eq!(m.query, "h/");
    m.handle_key(&MenuKey::Character("/".to_string()), false);
    assert_eq!(m.query, "");
    m.handle_key(&MenuKey::Backspace, false);
    assert!(!m.open);
    m.handle_key(&MenuKey::Character("/".to_string()), false);
    m.handle_key(&MenuKey::Other, false);
    assert!(m.open);
    m.handle_key(&MenuKey::Enter, false);
    assert!(!m.open);
}

#[test]
fn keyword_command_matching() {
    let kw = vec!["Create".to_string(), "NEW post".to_string()];
    assert_eq!(command_match("Posts", "", &kw), CommandMatch::EmptySearch);
    assert_eq!(command_match("Posts", "POST", &kw), CommandMatch::InValue);
    assert_eq!(command_match("Articles", "new", &kw), CommandMatch::InKeyword);
    assert_eq!(command_match("Articles", "zzz", &kw), CommandMatch::NoMatch);
}

#[test]
fn input_classes_and_headers() {
    let plain = compose_input_class(&None);
    assert!(plain.starts_with("w-full rounded-md"));
    assert!(plain.ends_with("disabled:opacity-60"));
    assert_eq!(compose_input_class(&Some("mt-2".to_string())), format!("{} mt-2", plain));
    let h = HeaderColumn::new("Title", true, "w-1/2", Some("title"));
    assert_eq!(h.label, "Title");
    assert!(h.sortable);
    assert_eq!(h.class, "w-1/2");
    assert_eq!(h.field.as_deref(), Some("title"));
    assert!(HeaderColumn::new("A", false, "", None).field.is_none());
}

#[test]
fn formatting_choices() {
    assert_eq!(mark_command(MarkType::Strike), MarkCommand::Exec("strikeThrough"));
    assert_eq!(mark_command(MarkType::Code), MarkCommand::ToggleInlineCode);
    assert_eq!(
        block_format(&BlockKind::Heading { level: 9 }),
        BlockFormat::Format { tag: "h6", allow_toggle: false, with_code: false }
    );
    assert_eq!(
        block_format(&BlockKind::Heading { level: 0 }),
        BlockFormat::Format { tag: "h1", allow_toggle: false, with_code: false }
    );
    assert_eq!(
        block_format(&BlockKind::CodeBlock { language: None, code: String::new() }),
        BlockFormat::Format { tag: "pre", allow_toggle: true, with_code: true }
    );
    assert_eq!(block_format(&BlockKind::OrderedList { items: vec![] }), BlockFormat::Exec("insertOrderedList"));
    assert_eq!(block_format(&BlockKind::Rule), BlockFormat::Nothing);
    assert_eq!(format_action(None, "p", true), FormatAction::Wrap);
    assert_eq!(format_action(Some("BLOCKQUOTE"), "blockquote", true), FormatAction::ToParagraph);
    assert_eq!(format_action(Some("H2"), "h2", false), FormatAction::Keep);
    assert_eq!(format_action(Some("p"), "h2", false), FormatAction::Replace);
}

#[test]
fn link_and_insert_choices() {
    let none = link_attributes(&InsertLink { href: "   ".to_string(), title: None, target_blank: true });
    assert!(none.is_none());
    let a = link_attributes(&InsertLink {
        href: " https://a.b ".to_string(),
        title: Some("  ".to_string()),
        target_blank: true,
    })
    .unwrap();
    assert_eq!(a.href, "https://a.b");
    assert!(a.title.is_none());
    assert!(a.target_blank);
    let b = link_attributes(&InsertLink { href: "/x".to_string(), title: Some(" T ".to_string()), target_blank: false })
        .unwrap();
    assert_eq!(b.title.as_deref(), Some("T"));
    assert!(matches!(insert_block_action(&BlockKind::Rule), InsertBlockAction::InsertRule));
    assert!(matches!(insert_block_action(&BlockKind::Quote), InsertBlockAction::Nothing));
    match insert_block_action(&BlockKind::Embed {
        provider: EmbedProvider::Generic,
        url: "u".to_string(),
        title: None,
        width: None,
        height: None,
    }) {
        InsertBlockAction::InsertHtml(h) => assert!(h.starts_with("<div class=\"editor-embed")),
        _ => panic!("expected markup"),
    }
}

#[test]
fn inline_code_and_block_walk() {
    assert_eq!(apply_inline_code_html("a<b"), "<code>a&lt;b</code>");
    assert_eq!(apply_inline_code_html("  "), "<code>code</code>");
    assert_eq!(block_walk_step("DIV", Some("prose editor-content")), BlockWalk::Stop);
    assert_eq!(block_walk_step("div", None), BlockWalk::Continue);
    assert_eq!(block_walk_step("H3", None), BlockWalk::Found);
    assert_eq!(block_walk_step("span", Some("editor-content")), BlockWalk::Continue);
}

#[test]
fn added_class_is_present_and_removed_class_is_absent() {
    for attr in [None, Some(""), Some("a  B c"), Some("x task y")] {
        let after_add = match add_class(attr, "task") {
            ClassUpdate::Keep => attr.map(|s| s.to_string()),
            ClassUpdate::Replace(v) => Some(v),
            ClassUpdate::Remove => None,
        };
        assert!(element_has_class(after_add.as_deref(), "task"));
        let after_remove = match remove_class(after_add.as_deref(), "TASK") {
            ClassUpdate::Keep => after_add.clone(),
            ClassUpdate::Replace(v) => Some(v),
            ClassUpdate::Remove => None,
        };
        assert!(!element_has_class(after_remove.as_deref(), "task"));
    }
}

#[test]
fn shortcut_actions_dispatch() {
    assert!(matches!(shortcut_editor_action(ShortcutAction::ToggleBold), EditorAction::ToggleMark(MarkType::Bold)));
    assert!(matches!(shortcut_editor_action(ShortcutAction::InsertLink), EditorAction::OpenLinkDialog));
    assert!(matches!(
        shortcut_editor_action(ShortcutAction::SetHeading(2)),
        EditorAction::SetBlockType(BlockKind::Heading { level: 2 })
    ));
    match shortcut_editor_action(ShortcutAction::SetCodeBlock) {
        EditorAction::SetBlockType(BlockKind::CodeBlock { language: None, code }) => assert!(code.is_empty()),
        _ => panic!("expected a code block"),
    }
    assert!(matches!(shortcut_editor_action(ShortcutAction::InsertBulletList), EditorAction::Exec("insertUnorderedList")));
    assert!(matches!(
        shortcut_editor_action(ShortcutAction::InsertTaskList),
        EditorAction::InsertBlock(BlockKind::TaskItem { checked: false })
    ));
    assert!(matches!(shortcut_editor_action(ShortcutAction::MoveBlockDown), EditorAction::MoveBlockDown));
}

#[test]
fn slash_commands_dispatch() {
    assert!(matches!(
        slash_editor_action(SlashCommand::Heading3),
        EditorAction::SetBlockType(BlockKind::Heading { level: 3 })
    ));
    assert!(matches!(slash_editor_action(SlashCommand::OrderedList), EditorAction::Exec("insertOrderedList")));
    assert!(matches!(slash_editor_action(SlashCommand::Divider), EditorAction::InsertBlock(BlockKind::Rule)));
    match slash_editor_action(SlashCommand::Image) {
        EditorAction::InsertBlock(BlockKind::Image { src, alt: None, caption: None, .. }) => assert!(src.is_empty()),
        _ => panic!("expected an image"),
    }
    assert!(matches!(slash_editor_action(SlashCommand::Table), EditorAction::Nothing));
}

#[test]
fn chart_scale_is_the_peak_or_empty() {
    assert_eq!(chart_scale(&vec![]), None);
    assert_eq!(chart_scale(&vec![(0, 0), (-3, 0)]), None);
    assert_eq!(chart_scale(&vec![(5, 2), (3, 9), (-1, 4)]), Some(9));
    assert_eq!(peak_value(&vec![(-5, -2)]), 0);
}
