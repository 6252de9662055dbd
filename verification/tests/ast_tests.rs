use admin_editor::ast::{Block, BlockKind, Doc, Inline, MarkSet, TableAlign};

#[test]
fn it_creates_default_doc() {
    let doc = Doc::default();
    assert_eq!(doc.blocks.len(), 1);
    assert!(matches!(doc.blocks[0].kind, BlockKind::Paragraph));
}

#[test]
fn it_handles_marks() {
    let marks = MarkSet::bold();
    assert!(marks.bold);
    assert!(!marks.italic);
    assert!(!marks.is_empty());

    let empty = MarkSet::default();
    assert!(empty.is_empty());
}

#[test]
fn new_block_ids_are_fresh_and_hyphenated() {
    let a = Block::new_paragraph();
    let b = Block::new_paragraph();
    assert_eq!(a.id.chars().count(), 36);
    assert_ne!(a.id, b.id);
}

#[test]
fn new_table_has_requested_shape() {
    let t = Block::new_table(2, 3);
    match &t.kind {
        BlockKind::Table { headers, rows, column_align } => {
            assert_eq!(headers.len(), 3);
            assert_eq!(rows.len(), 2);
            assert!(rows.iter().all(|r| r.len() == 3));
            assert_eq!(column_align, &vec![TableAlign::Left; 3]);
            match &headers[0][0] {
                Inline::Text { text, marks, link } => {
                    assert_eq!(text, "");
                    assert!(marks.is_empty());
                    assert!(link.is_none());
                }
                Inline::HardBreak => panic!("expected text"),
            }
        }
        _ => panic!("expected a table"),
    }
}

#[test]
fn with_text_and_with_children() {
    let b = Block::new_heading(3).with_text("a").with_text("b");
    assert_eq!(b.children.len(), 2);
    assert!(matches!(b.kind, BlockKind::Heading { level: 3 }));
    let b = b.with_children(vec![Inline::HardBreak]);
    assert_eq!(b.children.len(), 1);
    assert!(matches!(b.children[0], Inline::HardBreak));
}

#[test]
fn link_constructor_sets_href() {
    match Inline::link("Click", "https://example.com") {
        Inline::Text { text, link: Some(l), marks } => {
            assert_eq!(text, "Click");
            assert_eq!(l.href, "https://example.com");
            assert!(l.title.is_none());
            assert!(!l.target_blank);
            assert!(marks.is_empty());
        }
        _ => panic!("expected a link"),
    }
}

#[test]
fn italic_marks_and_is_false() {
    let m = MarkSet::italic();
    assert!(m.italic && !m.bold && !m.is_empty());
    assert!(admin_editor::ast::is_false(&false));
    assert!(!admin_editor::ast::is_false(&true));
}

#[test]
fn deep_copy_keeps_nested_blocks() {
    let inner = Block::new(BlockKind::ListItem).with_text("x");
    let list = Block::new(BlockKind::BulletList { items: vec![inner] });
    let copy = list.clone();
    assert_eq!(copy, list);
}
