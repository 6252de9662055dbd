use admin_editor::ast::{Block, BlockKind, Doc, Inline, MarkSet};
use admin_editor::commands::{
    Command, CommandError, DeleteSelection, InsertBlock, InsertLink, InsertText, MarkType, Position,
    Selection, SetBlockType, SplitBlock, ToggleMark,
};

fn texts(b: &Block) -> Vec<String> {
    b.children
        .iter()
        .map(|i| match i {
            Inline::Text { text, .. } => text.clone(),
            Inline::HardBreak => "\n".to_string(),
        })
        .collect()
}

#[test]
fn it_inserts_text() {
    let mut doc = Doc::default();
    let selection = Selection::collapsed(Position::new(0, 0));
    let cmd = InsertText {
        text: "Hello".to_string(),
    };

    let result = cmd.execute(&mut doc, &selection);
    assert!(result.is_ok());
    assert!(doc.blocks[0].children.len() > 0);
}

#[test]
fn it_toggles_bold() {
    let mut doc = Doc::default();
    doc.blocks[0] = Block::new_paragraph().with_text("Test");
    let selection = Selection::new(Position::new(0, 0), Position::new(0, 4));
    let cmd = ToggleMark {
        mark_type: MarkType::Bold,
    };

    let result = cmd.execute(&mut doc, &selection);
    assert!(result.is_ok());

    if let Inline::Text { marks, .. } = &doc.blocks[0].children[0] {
        assert!(marks.bold);
    }
}

#[test]
fn it_splits_block() {
    let mut doc = Doc::default();
    doc.blocks[0] = Block::new_paragraph().with_text("Hello world");
    let selection = Selection::collapsed(Position::new(0, 6));
    let cmd = SplitBlock;

    let result = cmd.execute(&mut doc, &selection);
    assert!(result.is_ok());
    assert_eq!(doc.blocks.len(), 2);
}

#[test]
fn it_changes_block_type() {
    let mut doc = Doc::default();
    let selection = Selection::collapsed(Position::new(0, 0));
    let cmd = SetBlockType {
        block_type: BlockKind::Heading { level: 1 },
    };

    let result = cmd.execute(&mut doc, &selection);
    assert!(result.is_ok());
    assert!(matches!(
        doc.blocks[0].kind,
        BlockKind::Heading { level: 1 }
    ));
}

#[test]
fn selection_normalized_works() {
    let sel = Selection::new(Position::new(1, 5), Position::new(0, 2));
    let (start, end) = sel.normalized();
    assert_eq!(start, Position::new(0, 2));
    assert_eq!(end, Position::new(1, 5));
}

#[test]
fn insert_text_inside_a_run_and_moves_cursor() {
    let mut doc = Doc::default();
    doc.blocks[0] = Block::new_paragraph().with_text("Helo");
    let cmd = InsertText { text: "l".to_string() };
    let r = cmd.execute(&mut doc, &Selection::collapsed(Position::new(0, 2)));
    assert_eq!(r, Ok(Selection::collapsed(Position::new(0, 3))));
    assert_eq!(texts(&doc.blocks[0]), vec!["Hello".to_string()]);
}

#[test]
fn insert_text_after_hard_break_only_appends() {
    let mut doc = Doc::default();
    doc.blocks[0] = Block::new_paragraph().with_children(vec![Inline::HardBreak]);
    let cmd = InsertText { text: "ab".to_string() };
    let r = cmd.execute(&mut doc, &Selection::collapsed(Position::new(0, 1)));
    assert_eq!(r, Ok(Selection::collapsed(Position::new(0, 3))));
    assert_eq!(texts(&doc.blocks[0]), vec!["\n".to_string(), "ab".to_string()]);
}

#[test]
fn commands_report_errors() {
    let mut empty = Doc { blocks: vec![] };
    let sel = Selection::collapsed(Position::new(0, 0));
    assert_eq!(
        InsertText { text: "x".to_string() }.execute(&mut empty, &sel),
        Err(CommandError::EmptyDocument)
    );
    assert_eq!(
        InsertBlock { block_type: BlockKind::Rule }.execute(&mut empty, &sel),
        Err(CommandError::InvalidBlockIndex)
    );
    let mut doc = Doc::default();
    let far = Selection::collapsed(Position::new(3, 0));
    assert_eq!(SplitBlock.execute(&mut doc, &far), Err(CommandError::InvalidBlockIndex));
    let across = Selection::new(Position::new(0, 0), Position::new(1, 0));
    assert_eq!(
        ToggleMark { mark_type: MarkType::Italic }.execute(&mut doc, &across),
        Err(CommandError::UnsupportedOperation)
    );
    assert_eq!(DeleteSelection.execute(&mut doc, &across), Err(CommandError::UnsupportedOperation));
    assert_eq!(doc.blocks.len(), 1);
}

#[test]
fn split_keeps_text_and_marks() {
    let mut doc = Doc::default();
    doc.blocks[0] = Block::new_paragraph()
        .with_children(vec![Inline::text_with_marks("Hello world", MarkSet::bold())]);
    let r = SplitBlock.execute(&mut doc, &Selection::collapsed(Position::new(0, 6)));
    assert_eq!(r, Ok(Selection::collapsed(Position::new(1, 0))));
    assert_eq!(texts(&doc.blocks[0]), vec!["Hello ".to_string()]);
    assert_eq!(texts(&doc.blocks[1]), vec!["world".to_string()]);
    assert!(matches!(&doc.blocks[1].children[0], Inline::Text { marks, .. } if marks.bold));
    assert!(matches!(doc.blocks[1].kind, BlockKind::Paragraph));
}

#[test]
fn split_at_end_leaves_new_block_empty() {
    let mut doc = Doc::default();
    doc.blocks[0] = Block::new_paragraph().with_text("abc");
    SplitBlock.execute(&mut doc, &Selection::collapsed(Position::new(0, 3))).unwrap();
    assert_eq!(texts(&doc.blocks[0]), vec!["abc".to_string()]);
    assert!(doc.blocks[1].children.is_empty());
}

#[test]
fn delete_selection_removes_range_and_empty_runs() {
    let mut doc = Doc::default();
    doc.blocks[0] = Block::new_paragraph().with_text("ab").with_text("cd").with_text("ef");
    let sel = Selection::new(Position::new(0, 5), Position::new(0, 1));
    let r = DeleteSelection.execute(&mut doc, &sel);
    assert_eq!(r, Ok(Selection::collapsed(Position::new(0, 1))));
    assert_eq!(texts(&doc.blocks[0]), vec!["a".to_string(), "f".to_string()]);
}

#[test]
fn toggle_twice_restores_marks() {
    let mut doc = Doc::default();
    doc.blocks[0] = Block::new_paragraph().with_text("ab").with_text("cd");
    let sel = Selection::new(Position::new(0, 1), Position::new(0, 2));
    let cmd = ToggleMark { mark_type: MarkType::Underline };
    let before = doc.clone();
    cmd.execute(&mut doc, &sel).unwrap();
    assert!(matches!(&doc.blocks[0].children[0], Inline::Text { marks, .. } if marks.underline));
    assert!(matches!(&doc.blocks[0].children[1], Inline::Text { marks, .. } if !marks.underline));
    cmd.execute(&mut doc, &sel).unwrap();
    assert_eq!(doc, before);
}

#[test]
fn insert_link_sets_link_on_overlapping_runs() {
    let mut doc = Doc::default();
    doc.blocks[0] = Block::new_paragraph().with_text("ab").with_text("cd");
    let cmd = InsertLink {
        href: "https://x.org".to_string(),
        title: Some("t".to_string()),
        target_blank: true,
    };
    let sel = Selection::new(Position::new(0, 2), Position::new(0, 3));
    assert_eq!(cmd.execute(&mut doc, &sel), Ok(sel));
    assert!(matches!(&doc.blocks[0].children[0], Inline::Text { link: None, .. }));
    match &doc.blocks[0].children[1] {
        Inline::Text { link: Some(l), .. } => {
            assert_eq!(l.href, "https://x.org");
            assert_eq!(l.title.as_deref(), Some("t"));
            assert!(l.target_blank);
        }
        _ => panic!("expected a link"),
    }
}

#[test]
fn insert_block_after_focus() {
    let mut doc = Doc::default();
    let r = InsertBlock { block_type: BlockKind::Quote }
        .execute(&mut doc, &Selection::collapsed(Position::new(0, 0)));
    assert_eq!(r, Ok(Selection::collapsed(Position::new(1, 0))));
    assert_eq!(doc.blocks.len(), 2);
    assert!(matches!(doc.blocks[1].kind, BlockKind::Quote));
}

#[test]
fn descriptions_and_positions() {
    assert_eq!(SplitBlock.description(), "Split block (Enter)");
    assert_eq!(ToggleMark { mark_type: MarkType::Strike }.description(), "Toggle strikethrough");
    assert_eq!(Position::start(), Position::new(0, 0));
    assert!(Selection::collapsed(Position::new(2, 2)).is_collapsed());
    assert!(!Selection::new(Position::new(0, 1), Position::new(0, 2)).is_collapsed());
}

#[test]
fn insert_link_twice_is_linking_once() {
    let mut doc = Doc::default();
    doc.blocks[0] = Block::new_paragraph().with_text("ab").with_text("cd");
    let cmd = InsertLink { href: "https://x.org".to_string(), title: None, target_blank: false };
    let sel = Selection::new(Position::new(0, 1), Position::new(0, 3));
    cmd.execute(&mut doc, &sel).unwrap();
    let once = doc.clone();
    assert_eq!(cmd.execute(&mut doc, &sel), Ok(sel));
    assert_eq!(doc, once);
}

#[test]
fn default_doc_block_has_no_attributes() {
    let doc = Doc::default();
    assert!(doc.blocks[0].attrs.is_empty());
    assert_eq!(doc.blocks[0].id.chars().count(), 36);
    assert_eq!(doc.blocks[0].id.chars().nth(14), Some('4'));
}

#[test]
fn new_block_ids_are_version_4_uuid_text() {
    let id = Block::new_paragraph().id;
    let cs: Vec<char> = id.chars().collect();
    assert_eq!(cs.len(), 36);
    for (i, c) in cs.iter().enumerate() {
        if i == 8 || i == 13 || i == 18 || i == 23 {
            assert_eq!(*c, '-');
        } else {
            assert!(c.is_ascii_digit() || ('a'..='f').contains(c));
        }
    }
    assert_eq!(cs[14], '4');
    assert!("89ab".contains(cs[19]));
}
