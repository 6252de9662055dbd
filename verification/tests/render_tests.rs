use admin_editor::ast::{Block, BlockAlign, BlockKind, Doc, EmbedProvider, Inline, Link, MarkSet, TextSize};
use admin_editor::embed::{detect_embed_provider, extract_youtube_id};
use admin_editor::render::{html_escape, render_block, render_doc, render_inline, render_inlines};

#[test]
fn it_renders_paragraph() {
    let block = Block::new_paragraph().with_text("Hello world");
    let html = render_block(&block);
    assert!(html.contains("<p"));
    assert!(html.contains("Hello world"));
    assert!(html.contains("</p>"));
}

#[test]
fn it_renders_heading() {
    let block = Block::new_heading(2).with_text("Title");
    let html = render_block(&block);
    assert!(html.contains("<h2"));
    assert!(html.contains("Title"));
    assert!(html.contains("</h2>"));
}

#[test]
fn it_renders_bold_text() {
    let inline = Inline::text_with_marks("Bold", MarkSet::bold());
    let html = render_inline(&inline);
    assert!(html.contains("<strong>"));
    assert!(html.contains("Bold"));
}

#[test]
fn it_renders_link() {
    let inline = Inline::link("Click here", "https://example.com");
    let html = render_inline(&inline);
    assert!(html.contains("<a"));
    assert!(html.contains("https://example.com"));
    assert!(html.contains("Click here"));
}

#[test]
fn it_escapes_html() {
    let escaped = html_escape("<script>alert('xss')</script>");
    assert!(!escaped.contains("<script"));
    assert!(escaped.contains("&lt;script&gt;"));
}

#[test]
fn it_extracts_youtube_id_from_watch_url() {
    let url = "https://www.youtube.com/watch?v=dQw4w9WgXcQ";
    assert_eq!(extract_youtube_id(url).unwrap(), "dQw4w9WgXcQ");
}

#[test]
fn it_extracts_youtube_id_from_short_url() {
    let url = "https://youtu.be/dQw4w9WgXcQ";
    assert_eq!(extract_youtube_id(url).unwrap(), "dQw4w9WgXcQ");
}

#[test]
fn it_renders_code_block() {
    let block = Block::new(BlockKind::CodeBlock {
        language: Some("rust".to_string()),
        code: "fn main() {}".to_string(),
    });
    let html = render_block(&block);
    assert!(html.contains("<pre"));
    assert!(html.contains("<code"));
    assert!(html.contains("language-rust"));
    assert!(html.contains("fn main()"));
}

#[test]
fn it_renders_blockquote() {
    let block = Block::new(BlockKind::Quote).with_text("Quote text");
    let html = render_block(&block);
    assert!(html.contains("<blockquote"));
    assert!(html.contains("Quote text"));
}

#[test]
fn it_renders_horizontal_rule() {
    let block = Block::new(BlockKind::Rule);
    let html = render_block(&block);
    assert!(html.contains("<hr"));
}

#[test]
fn it_renders_empty_content() {
    let doc = Doc::default();
    let html = render_doc(&doc);
    // Should have at least the default paragraph
    assert!(!html.is_empty());
}

#[test]
fn paragraph_exact_html_with_alignment() {
    let mut block = Block::new_paragraph().with_text("a<b");
    block.align = BlockAlign::Center;
    assert_eq!(render_block(&block), "<p class=\"mb-4 text-center\">a&lt;b</p>\n");
}

#[test]
fn heading_level_and_classes() {
    let block = Block::new_heading(12).with_text("x");
    assert_eq!(render_block(&block), "<h12 class=\"mb-4 text-base font-medium\">x</h12>\n");
}

#[test]
fn nested_marks_order() {
    let marks = MarkSet {
        bold: true,
        italic: true,
        underline: false,
        strike: true,
        code: true,
        size: Some(TextSize::Lead),
        highlight: Some("#ff0".to_string()),
    };
    let html = render_inline(&Inline::text_with_marks("t", marks));
    assert_eq!(
        html,
        "<span class=\"text-lg\"><strong><em><s><mark style=\"background-color: #ff0\"><code class=\"bg-gray-100 px-1 rounded\">t</code></mark></s></em></strong></span>"
    );
}

#[test]
fn unsafe_highlight_is_dropped() {
    let mut marks = MarkSet::default();
    marks.highlight = Some("red;x".to_string());
    assert_eq!(render_inline(&Inline::text_with_marks("t", marks)), "<mark>t</mark>");
}

#[test]
fn javascript_link_is_not_rendered_as_anchor() {
    let inline = Inline::link("x", "JavaScript:alert(1)");
    assert_eq!(render_inline(&inline), "x");
}

#[test]
fn link_with_title_and_new_tab() {
    let inline = Inline::Text {
        text: "go".to_string(),
        marks: MarkSet::default(),
        link: Some(Link {
            href: "/a?b=1&c=2".to_string(),
            title: Some("T\"".to_string()),
            target_blank: true,
        }),
    };
    assert_eq!(
        render_inline(&inline),
        "<a href=\"/a?b=1&amp;c=2\" title=\"T&quot;\" target=\"_blank\" rel=\"noopener noreferrer\"class=\"text-blue-600 hover:underline\">go</a>"
    );
}

#[test]
fn hard_break_and_inlines() {
    let html = render_inlines(&[Inline::text("a"), Inline::HardBreak, Inline::text("b")]);
    assert_eq!(html, "a<br>\nb");
}

#[test]
fn lists_render_their_items() {
    let item = Block::new(BlockKind::ListItem).with_text("one");
    let task = Block::new(BlockKind::TaskItem { checked: true }).with_text("two");
    let list = Block::new(BlockKind::OrderedList { items: vec![item] });
    assert_eq!(
        render_block(&list),
        "<ol class=\"list-decimal list-inside mb-4\">\n  <li class=\"ml-4\">one</li>\n</ol>\n"
    );
    let tasks = Block::new(BlockKind::TaskList { items: vec![task] });
    assert_eq!(
        render_block(&tasks),
        "<ul class=\"space-y-2 mb-4\">\n  <li class=\"flex items-start\"><input type=\"checkbox\" checked disabled class=\"mr-2\">two</li>\n</ul>\n"
    );
}

#[test]
fn image_with_attributes() {
    let block = Block::new(BlockKind::Image {
        src: "/i.png".to_string(),
        alt: Some("A".to_string()),
        title: None,
        width: Some(800),
        height: None,
        caption: Some("Cap".to_string()),
    });
    assert_eq!(
        render_block(&block),
        "<figure class=\"mb-4\">\n  <img src=\"/i.png\" alt=\"A\" width=\"800\"class=\"max-w-full h-auto\">\n  <figcaption class=\"text-sm text-gray-600 mt-2\">Cap</figcaption>\n</figure>\n"
    );
}

#[test]
fn youtube_embed_uses_video_id() {
    let block = Block::new(BlockKind::Embed {
        provider: EmbedProvider::Youtube,
        url: "https://youtu.be/abc?t=3".to_string(),
        title: None,
        width: None,
        height: Some(200),
    });
    assert_eq!(
        render_block(&block),
        "<div class=\"embed-container mb-4\">\n  <iframe width=\"560\" height=\"200\" src=\"https://www.youtube.com/embed/abc\" frameborder=\"0\" allowfullscreen></iframe>\n</div>\n"
    );
}

#[test]
fn youtube_ids_embed_and_failures() {
    assert_eq!(extract_youtube_id("HTTPS://WWW.YOUTUBE.COM/EMBED/xyz?a=1").as_deref(), Some("xyz"));
    assert_eq!(extract_youtube_id("https://youtube.com/watch?x=1&v=id1#t"), Some("id1".to_string()));
    assert_eq!(extract_youtube_id("https://example.com/watch?v=1"), None);
    assert_eq!(extract_youtube_id("https://youtu.be/"), None);
}

#[test]
fn youtube_watch_id_is_the_v_parameter() {
    assert_eq!(extract_youtube_id("https://www.youtube.com/watch?dev=1&v=abc"), Some("abc".to_string()));
    assert_eq!(extract_youtube_id("https://www.youtube.com/watch?nav=2"), None);
}

#[test]
fn providers_are_detected() {
    assert_eq!(detect_embed_provider("https://www.youtube.com/watch?v=1"), EmbedProvider::Youtube);
    assert_eq!(detect_embed_provider("https://x.com/a/status/1"), EmbedProvider::X);
    assert_eq!(detect_embed_provider("https://vimeo.com/1"), EmbedProvider::Generic);
}

#[test]
fn table_renders_headers_and_rows() {
    let block = Block::new_table(1, 2);
    assert_eq!(
        render_block(&block),
        "<table class=\"mb-4\">\n<thead><tr><th></th><th></th></tr></thead>\n<tbody>\n<tr><td></td><td></td></tr>\n</tbody>\n</table>\n"
    );
}
