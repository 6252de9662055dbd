use admin_editor::ast::{Block, BlockAlign, BlockKind, EmbedProvider, Inline, TableAlign, TextSize};
use admin_editor::render::render_block;
use admin_editor::parser::{generate_id, parse_html, parse_u32};

#[test]
fn it_parses_empty_html() {
    let doc = parse_html("");
    assert_eq!(doc.blocks.len(), 1);
    assert!(matches!(doc.blocks[0].kind, BlockKind::Paragraph));
}

#[test]
fn it_parses_simple_paragraph() {
    let html = r#"<p>Hello world</p>"#;
    let doc = parse_html(html);
    assert_eq!(doc.blocks.len(), 1);
    assert!(matches!(doc.blocks[0].kind, BlockKind::Paragraph));
    assert!(!doc.blocks[0].children.is_empty());
}

#[test]
fn it_parses_bold_text() {
    let html = r#"<p>Hello <strong>world</strong>!</p>"#;
    let doc = parse_html(html);
    assert_eq!(doc.blocks.len(), 1);
    let children = &doc.blocks[0].children;
    let has_bold = children.iter().any(|inline| {
        if let Inline::Text { marks, .. } = inline {
            marks.bold
        } else {
            false
        }
    });
    assert!(has_bold);
}

#[test]
fn it_parses_heading() {
    let html = r#"<h2>Title</h2>"#;
    let doc = parse_html(html);
    assert_eq!(doc.blocks.len(), 1);
    assert!(matches!(doc.blocks[0].kind, BlockKind::Heading { level: 2 }));
}

#[test]
fn it_parses_bullet_list() {
    let html = r#"<ul><li>Item 1</li><li>Item 2</li></ul>"#;
    let doc = parse_html(html);
    assert_eq!(doc.blocks.len(), 1);
    if let BlockKind::BulletList { items } = &doc.blocks[0].kind {
        assert_eq!(items.len(), 2);
    } else {
        panic!("Expected BulletList");
    }
}

#[test]
fn it_parses_link() {
    let html = r#"<p><a href="https://example.com" target="_blank">Link</a></p>"#;
    let doc = parse_html(html);
    assert_eq!(doc.blocks.len(), 1);
    let children = &doc.blocks[0].children;
    let has_link = children.iter().any(|inline| {
        if let Inline::Text { link, .. } = inline {
            link.is_some()
        } else {
            false
        }
    });
    assert!(has_link);
}

#[test]
fn it_parses_code_block() {
    let html = r#"<pre><code class="language-rust">fn main() {}</code></pre>"#;
    let doc = parse_html(html);
    assert_eq!(doc.blocks.len(), 1);
    if let BlockKind::CodeBlock { language, code } = &doc.blocks[0].kind {
        assert_eq!(language.as_deref(), Some("rust"));
        assert!(code.contains("fn main()"));
    } else {
        panic!("Expected CodeBlock");
    }
}

#[test]
fn it_parses_image() {
    let html = r#"<figure><img src="/image.jpg" alt="Test" width="800" height="600"><figcaption>Caption</figcaption></figure>"#;
    let doc = parse_html(html);
    assert_eq!(doc.blocks.len(), 1);
    if let BlockKind::Image { src, alt, width, height, caption, .. } = &doc.blocks[0].kind {
        assert_eq!(src, "/image.jpg");
        assert_eq!(alt.as_deref(), Some("Test"));
        assert_eq!(*width, Some(800));
        assert_eq!(*height, Some(600));
        assert_eq!(caption.as_deref(), Some("Caption"));
    } else {
        panic!("Expected Image block");
    }
}

#[test]
fn it_parses_alignment() {
    let html = r#"<p class="text-center">Centered</p>"#;
    let doc = parse_html(html);
    assert_eq!(doc.blocks.len(), 1);
    assert!(matches!(doc.blocks[0].align, BlockAlign::Center));
}

#[test]
fn parse_numbers_blocks_from_one() {
    let doc = parse_html("<p>a</p><p>b</p>");
    assert_eq!(doc.blocks.len(), 2);
    assert_eq!(doc.blocks[0].id, "block-1");
    assert_eq!(doc.blocks[1].id, "block-2");
}

#[test]
fn parse_keeps_document_order() {
    let doc = parse_html("<h1>Title</h1><p>Body</p><hr><img src=\"a.png\"><h2>End</h2>");
    assert_eq!(doc.blocks.len(), 5);
    assert!(matches!(doc.blocks[0].kind, BlockKind::Heading { level: 1 }));
    assert!(matches!(doc.blocks[1].kind, BlockKind::Paragraph));
    assert!(matches!(doc.blocks[2].kind, BlockKind::Rule));
    assert!(matches!(doc.blocks[3].kind, BlockKind::Image { .. }));
    assert!(matches!(doc.blocks[4].kind, BlockKind::Heading { level: 2 }));
    assert_eq!(doc.blocks[0].id, "block-1");
    assert_eq!(doc.blocks[1].id, "block-2");
}

#[test]
fn parse_empty_fragment_numbers_its_paragraph_one() {
    let doc = parse_html("just text");
    assert_eq!(doc.blocks.len(), 1);
    assert_eq!(doc.blocks[0].id, "block-1");
    assert!(doc.blocks[0].children.is_empty());
}

#[test]
fn parse_marks_and_breaks() {
    let doc = parse_html(r#"<p><em>a</em><br><mark data-color="yellow">b</mark><span class="lead">c</span><small>d</small></p>"#);
    let children = &doc.blocks[0].children;
    assert_eq!(children.len(), 5);
    match &children[0] {
        Inline::Text { text, marks, .. } => {
            assert_eq!(text, "a");
            assert!(marks.italic);
        }
        _ => panic!("expected text"),
    }
    assert!(matches!(children[1], Inline::HardBreak));
    match &children[2] {
        Inline::Text { marks, .. } => assert_eq!(marks.highlight.as_deref(), Some("yellow")),
        _ => panic!("expected text"),
    }
    match &children[3] {
        Inline::Text { marks, .. } => assert_eq!(marks.size, Some(TextSize::Lead)),
        _ => panic!("expected text"),
    }
    match &children[4] {
        Inline::Text { marks, .. } => assert_eq!(marks.size, Some(TextSize::Small)),
        _ => panic!("expected text"),
    }
}

#[test]
fn parse_link_details() {
    let doc = parse_html(r#"<p><a href="/x" title="T">go</a></p>"#);
    match &doc.blocks[0].children[0] {
        Inline::Text { link: Some(link), .. } => {
            assert_eq!(link.href, "/x");
            assert_eq!(link.title.as_deref(), Some("T"));
            assert!(!link.target_blank);
        }
        _ => panic!("expected a linked run"),
    }
}

#[test]
fn parse_task_list() {
    let doc = parse_html(r#"<ul class="task-list"><li><input type="CheckBox" checked> Done </li><li><input type="checkbox"> Todo</li></ul>"#);
    assert_eq!(doc.blocks.len(), 1);
    if let BlockKind::TaskList { items } = &doc.blocks[0].kind {
        assert_eq!(items.len(), 2);
        assert!(matches!(items[0].kind, BlockKind::TaskItem { checked: true }));
        assert!(matches!(items[1].kind, BlockKind::TaskItem { checked: false }));
        match &items[0].children[0] {
            Inline::Text { text, .. } => assert_eq!(text, "Done"),
            _ => panic!("expected text"),
        }
        assert_eq!(doc.blocks[0].id, "block-1");
        assert_eq!(items[0].id, "block-2");
        assert_eq!(items[1].id, "block-3");
    } else {
        panic!("Expected TaskList");
    }
}

#[test]
fn parse_table_with_head_and_body() {
    let html = r#"<table><thead><tr><th class="text-center">A</th><th>B</th></tr></thead><tbody><tr><td>1</td><td>2</td><td>3</td></tr></tbody></table>"#;
    let doc = parse_html(html);
    assert_eq!(doc.blocks.len(), 1);
    if let BlockKind::Table { headers, rows, column_align } = &doc.blocks[0].kind {
        assert_eq!(headers.len(), 2);
        assert_eq!(rows.len(), 1);
        assert_eq!(rows[0].len(), 3);
        assert_eq!(column_align, &vec![TableAlign::Center, TableAlign::Left, TableAlign::Left]);
    } else {
        panic!("Expected Table");
    }
    // the table's own number is taken after the one counted for the element
    assert_eq!(doc.blocks[0].id, "block-2");
}

#[test]
fn parse_table_without_sections() {
    // the HTML parser puts the rows into an implied tbody, so the header row
    // is read as a body row without data cells and left out
    let html = r#"<table><tr><th>H</th></tr><tr><td>x</td></tr><tr></tr></table>"#;
    let doc = parse_html(html);
    if let BlockKind::Table { headers, rows, column_align } = &doc.blocks[0].kind {
        assert_eq!(headers.len(), 0);
        assert_eq!(rows.len(), 1);
        assert_eq!(column_align, &vec![TableAlign::Left]);
    } else {
        panic!("Expected Table");
    }
}

#[test]
fn parse_embed_in_figure() {
    let html = r#"<figure><iframe src="https://www.youtube.com/embed/abc" width="560"></iframe></figure>"#;
    let doc = parse_html(html);
    assert_eq!(doc.blocks.len(), 1);
    if let BlockKind::Embed { provider, url, width, height, .. } = &doc.blocks[0].kind {
        assert_eq!(*provider, EmbedProvider::Youtube);
        assert_eq!(url, "https://www.youtube.com/embed/abc");
        assert_eq!(*width, Some(560));
        assert_eq!(*height, None);
    } else {
        panic!("Expected Embed");
    }
}

#[test]
fn parse_standalone_image_but_not_figure_image_twice() {
    let html = r#"<img src="/a.png"><figure><img src="/b.png"></figure>"#;
    let doc = parse_html(html);
    assert_eq!(doc.blocks.len(), 2);
    match (&doc.blocks[0].kind, &doc.blocks[1].kind) {
        (BlockKind::Image { src: a, .. }, BlockKind::Image { src: b, .. }) => {
            assert_eq!(a, "/a.png");
            assert_eq!(b, "/b.png");
        }
        _ => panic!("expected two images"),
    }
}

#[test]
fn parse_keeps_data_attributes() {
    let doc = parse_html(r#"<p data-x="1" class="c" data-y="2">t</p>"#);
    assert_eq!(doc.blocks[0].attrs, vec![("data-x".to_string(), "1".to_string()), ("data-y".to_string(), "2".to_string())]);
}

#[test]
fn parse_code_block_language_from_data_attribute() {
    let doc = parse_html(r#"<pre><code class="hl" data-language="go">x</code></pre>"#);
    if let BlockKind::CodeBlock { language, code } = &doc.blocks[0].kind {
        assert_eq!(language.as_deref(), Some("go"));
        assert_eq!(code, "x");
    } else {
        panic!("Expected CodeBlock");
    }
}

#[test]
fn numbers_parse_as_std_does() {
    assert_eq!(parse_u32("800"), Some(800));
    assert_eq!(parse_u32("+7"), Some(7));
    assert_eq!(parse_u32("007"), Some(7));
    assert_eq!(parse_u32("4294967295"), Some(4294967295));
    assert_eq!(parse_u32("4294967296"), None);
    assert_eq!(parse_u32(""), None);
    assert_eq!(parse_u32("+"), None);
    assert_eq!(parse_u32("-1"), None);
    assert_eq!(parse_u32("12px"), None);
    for s in ["0", "17", "+3", "99999999999", "a", " 1"] {
        assert_eq!(parse_u32(s), s.parse::<u32>().ok());
    }
}

#[test]
fn ids_count_up() {
    let mut counter = 0usize;
    assert_eq!(generate_id(&mut counter), "block-1");
    assert_eq!(generate_id(&mut counter), "block-2");
    assert_eq!(counter, 2);
}

#[test]
fn rendered_image_sizes_read_back() {
    let block = Block::new(BlockKind::Image {
        src: "/p.png".to_string(),
        alt: Some("P".to_string()),
        title: None,
        width: Some(4294967295),
        height: Some(0),
        caption: None,
    });
    let html = render_block(&block);
    let doc = parse_html(&html);
    match &doc.blocks[0].kind {
        BlockKind::Image { src, width, height, .. } => {
            assert_eq!(src, "/p.png");
            assert_eq!(*width, Some(4294967295));
            assert_eq!(*height, Some(0));
        }
        other => panic!("expected an image, got {:?}", other),
    }
}

#[test]
fn all_ids_of_a_parsed_document_differ() {
    let html = r#"<p>a</p><ul><li>x<ul><li>y</li></ul></li></ul><table><tr><td>1</td></tr></table><img src="/i.png"><figure><img></figure>"#;
    let doc = parse_html(html);
    let mut ids: Vec<String> = Vec::new();
    for b in &doc.blocks {
        ids.push(b.id.clone());
        if let BlockKind::BulletList { items } = &b.kind {
            for it in items {
                ids.push(it.id.clone());
            }
        }
    }
    let mut sorted = ids.clone();
    sorted.sort();
    sorted.dedup();
    assert_eq!(sorted.len(), ids.len());
    assert!(ids.iter().all(|id| id.starts_with("block-")));
}

#[test]
fn parse_keeps_each_data_attribute_once() {
    let doc = parse_html(r#"<p data-x="1" data-y="2" data-x="3">t</p>"#);
    let attrs = &doc.blocks[0].attrs;
    assert_eq!(attrs.len(), 2);
    assert!(attrs.iter().filter(|(k, _)| k == "data-x").count() == 1);
    assert!(attrs.iter().any(|(k, v)| k == "data-y" && v == "2"));
}

#[test]
fn rendered_plain_blocks_read_back() {
    let aligns = [BlockAlign::Left, BlockAlign::Center, BlockAlign::Right, BlockAlign::Justify];
    for a in aligns.iter() {
        let mut blocks = vec![Block::new_paragraph(), Block::new_heading(1), Block::new_heading(4), Block::new(BlockKind::Quote)];
        for b in blocks.iter_mut() {
            b.align = *a;
            b.children.push(Inline::text("Tom & \"Jerry\" <3"));
        }
        for b in blocks.iter() {
            let doc = parse_html(&render_block(b));
            assert_eq!(doc.blocks.len(), 1);
            assert_eq!(doc.blocks[0].kind, b.kind);
            assert_eq!(doc.blocks[0].align, b.align);
            assert_eq!(doc.blocks[0].children, b.children);
        }
    }
}
