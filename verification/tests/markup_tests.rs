use admin_editor::ast::EmbedProvider;
use admin_editor::markup::{build_embed_html, build_image_html, escape_attribute, strip_html_tags};
use admin_editor::score::format_input;
use admin_editor::text::trim;

#[test]
fn it_strips_html_tags() {
    let html = "<p>Hello <strong>world</strong></p>";
    let stripped = strip_html_tags(html);
    assert_eq!(stripped, "Hello world");
}

#[test]
fn strip_keeps_an_unclosed_angle() {
    assert_eq!(strip_html_tags("a < b"), "a < b");
    assert_eq!(strip_html_tags("<>x<br/>"), "x");
}

#[test]
fn escapes_attributes() {
    assert_eq!(escape_attribute(r#"a"b'<&>"#), "a&quot;b&#39;&lt;&amp;&gt;");
}

#[test]
fn builds_plain_image() {
    let html = build_image_html("/a.png", None, None, None, None, None);
    assert_eq!(
        html,
        r#"<img src="/a.png" alt="" class="editor-image max-w-full rounded-md" loading="lazy" />"#
    );
}

#[test]
fn builds_image_with_attributes_and_caption() {
    let html = build_image_html("/a.png", Some("A \"cat\""), Some("T"), Some(800), Some(600), Some("  Cap <b>  "));
    let expected = String::from(r#"<figure class="editor-figure text-center"><img src="/a.png" alt="A &quot;cat&quot;" title="T" width="800" height="600" class="editor-image max-w-full rounded-md" loading="lazy" />"#)
        + r#"<figcaption class="mt-2 text-sm text-gray-500 dark:text-gray-400">Cap &lt;b&gt;</figcaption></figure>"#;
    assert_eq!(html, expected);
}

#[test]
fn blank_caption_gives_no_figure() {
    let html = build_image_html("/a.png", None, None, None, None, Some(" \t\n"));
    assert!(html.starts_with("<img"));
    assert!(!html.contains("figure"));
}

#[test]
fn builds_embeds() {
    let html = build_embed_html(&EmbedProvider::X, "https://x.com/a?b=1&c=2", None, Some(500), None);
    assert_eq!(
        html,
        r#"<div class="editor-embed aspect-video"><iframe src="https://x.com/a?b=1&amp;c=2" title="X embed" frameborder="0" allow="clipboard-write" allowfullscreen width="500"></iframe></div>"#
    );
    let html = build_embed_html(&EmbedProvider::Youtube, "u", Some("My <video>"), None, Some(315));
    assert!(html.contains(r#"title="My &lt;video&gt;""#));
    assert!(html.contains("web-share"));
    assert!(html.ends_with(r#" allowfullscreen height="315"></iframe></div>"#));
    let html = build_embed_html(&EmbedProvider::Generic, "u", None, None, None);
    assert!(html.contains(r#"title="Embedded content""#));
    assert!(html.contains(r#"allow="accelerometer; autoplay; encrypted-media""#));
}

#[test]
fn trims_white_space() {
    assert_eq!(trim("  a b \n"), "a b");
    assert_eq!(trim("   "), "");
    assert_eq!(trim(""), "");
    assert_eq!(trim("\u{3000}x\u{a0}"), "x");
}

#[test]
fn formats_search_input() {
    assert_eq!(format_input("Foo-Bar Baz"), "foo bar baz");
    assert_eq!(format_input("A\tB\nC"), "a b c");
    assert_eq!(format_input(""), "");
}
