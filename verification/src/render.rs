//! HTML rendering of documents.
use vstd::prelude::*;

use crate::ast::{
    block_view, blocks_view, lemma_blocks_view, Block, BlockAlign, BlockKind, BlockKindV, BlockV,
    Doc, EmbedProvider, Inline, Link, MarkSet, TableAlign, TextSize,
};
use crate::embed::{contains, extract_youtube_id, matches_at, youtube_id};
use crate::escape::{decimal, escape, escape_html, u32_to_decimal};
use crate::sanitize::{color_safe, is_safe_color, sanitize_url, sanitized_url};

verus! {

// ---------------------------------------------------------------------------
// What the renderer writes
// ---------------------------------------------------------------------------

/// The class suffix for a block alignment.
pub open spec fn align_class(a: BlockAlign) -> Seq<char> {
    match a {
        BlockAlign::Left => ""@,
        BlockAlign::Center => " text-center"@,
        BlockAlign::Right => " text-right"@,
        BlockAlign::Justify => " text-justify"@,
    }
}

/// The class for a text size.
pub open spec fn size_class(s: TextSize) -> Seq<char> {
    match s {
        TextSize::Small => "text-sm"@,
        TextSize::Normal => "text-base"@,
        TextSize::Lead => "text-lg"@,
    }
}

/// The class suffix for a heading level.
pub open spec fn heading_class(level: u8) -> Seq<char> {
    if level == 1 {
        " text-4xl font-bold"@
    } else if level == 2 {
        " text-3xl font-bold"@
    } else if level == 3 {
        " text-2xl font-semibold"@
    } else if level == 4 {
        " text-xl font-semibold"@
    } else if level == 5 {
        " text-lg font-medium"@
    } else {
        " text-base font-medium"@
    }
}

/// An optional `title` attribute.
pub open spec fn title_attr(t: Option<String>) -> Seq<char> {
    match t {
        Some(t) => " title=\""@ + escape(t@) + "\""@,
        None => ""@,
    }
}

/// The escaped text of a run inside its mark elements, innermost first:
/// code, highlight, strike, underline, italic, bold, then the size span.
pub open spec fn render_marked(text: Seq<char>, marks: MarkSet) -> Seq<char> {
    let c0 = escape(text);
    let c1 = if marks.code {
        "<code class=\"bg-gray-100 px-1 rounded\">"@ + c0 + "</code>"@
    } else {
        c0
    };
    let c2 = match marks.highlight {
        Some(h) => if color_safe(h@) {
            "<mark style=\"background-color: "@ + escape(h@) + "\">"@ + c1 + "</mark>"@
        } else {
            "<mark>"@ + c1 + "</mark>"@
        },
        None => c1,
    };
    let c3 = if marks.strike {
        "<s>"@ + c2 + "</s>"@
    } else {
        c2
    };
    let c4 = if marks.underline {
        "<u>"@ + c3 + "</u>"@
    } else {
        c3
    };
    let c5 = if marks.italic {
        "<em>"@ + c4 + "</em>"@
    } else {
        c4
    };
    let c6 = if marks.bold {
        "<strong>"@ + c5 + "</strong>"@
    } else {
        c5
    };
    match marks.size {
        Some(s) => "<span class=\""@ + size_class(s) + "\">"@ + c6 + "</span>"@,
        None => c6,
    }
}

/// `content` inside the anchor for `link`, if the link's URL is allowed;
/// `content` alone otherwise.
pub open spec fn render_linked(content: Seq<char>, link: Option<Link>) -> Seq<char> {
    match link {
        Some(l) => match sanitized_url(l.href@) {
            Some(href) => "<a href=\""@ + href + "\""@ + title_attr(l.title) + (if l.target_blank {
                " target=\"_blank\" rel=\"noopener noreferrer\""@
            } else {
                ""@
            }) + "class=\"text-blue-600 hover:underline\">"@ + content + "</a>"@,
            None => content,
        },
        None => content,
    }
}

/// The HTML of one inline.
pub open spec fn render_inline_spec(x: Inline) -> Seq<char> {
    match x {
        Inline::Text { text, marks, link } => render_linked(render_marked(text@, marks), link),
        Inline::HardBreak => "<br>\n"@,
    }
}

/// The HTML of a run of inlines, one after the other.
pub open spec fn render_inlines_spec(s: Seq<Inline>) -> Seq<char>
    decreases s.len(),
{
    if s.len() == 0 {
        Seq::empty()
    } else {
        render_inlines_spec(s.drop_last()) + render_inline_spec(s.last())
    }
}

/// An optional attribute holding escaped text.
pub open spec fn text_attr(name: Seq<char>, v: Option<String>) -> Seq<char> {
    match v {
        Some(v) => name + escape(v@) + "\""@,
        None => ""@,
    }
}

/// The class naming the language of a code block.
pub open spec fn lang_class(language: Option<String>) -> Seq<char> {
    match language {
        Some(l) => " language-"@ + escape(l@),
        None => ""@,
    }
}

/// An optional attribute holding a number.
pub open spec fn num_attr(name: Seq<char>, v: Option<u32>) -> Seq<char> {
    match v {
        Some(v) => name + decimal(v as nat) + "\""@,
        None => ""@,
    }
}

/// The class attribute of a table cell in a column of alignment `a`.
pub open spec fn cell_class(a: TableAlign) -> Seq<char> {
    match a {
        TableAlign::Left => ""@,
        TableAlign::Center => " class=\"text-center\""@,
        TableAlign::Right => " class=\"text-right\""@,
    }
}

/// The alignment of column `j`: the one given, or left where none is given.
pub open spec fn column_at(aligns: Seq<TableAlign>, j: int) -> TableAlign {
    if 0 <= j < aligns.len() {
        aligns[j]
    } else {
        TableAlign::Left
    }
}

/// The header cells of a table.
pub open spec fn render_header_cells(cells: Seq<Seq<Inline>>, aligns: Seq<TableAlign>) -> Seq<char>
    decreases cells.len(),
{
    if cells.len() == 0 {
        Seq::empty()
    } else {
        let j = cells.len() - 1;
        render_header_cells(cells.drop_last(), aligns) + "<th"@ + cell_class(column_at(aligns, j))
            + ">"@ + render_inlines_spec(cells[j]) + "</th>"@
    }
}

/// The data cells of a table row.
pub open spec fn render_data_cells(cells: Seq<Seq<Inline>>, aligns: Seq<TableAlign>) -> Seq<char>
    decreases cells.len(),
{
    if cells.len() == 0 {
        Seq::empty()
    } else {
        let j = cells.len() - 1;
        render_data_cells(cells.drop_last(), aligns) + "<td"@ + cell_class(column_at(aligns, j))
            + ">"@ + render_inlines_spec(cells[j]) + "</td>"@
    }
}

/// The rows of a table body.
pub open spec fn render_rows(rows: Seq<Seq<Seq<Inline>>>, aligns: Seq<TableAlign>) -> Seq<char>
    decreases rows.len(),
{
    if rows.len() == 0 {
        Seq::empty()
    } else {
        render_rows(rows.drop_last(), aligns) + "<tr>"@ + render_data_cells(rows.last(), aligns)
            + "</tr>\n"@
    }
}

/// The embedded player or link of an embed block.
pub open spec fn render_embed_body(
    provider: EmbedProvider,
    safe_url: Seq<char>,
    w: u32,
    h: u32,
) -> Seq<char> {
    match provider {
        EmbedProvider::Youtube => match youtube_id(safe_url) {
            Some(id) => "<iframe width=\""@ + decimal(w as nat) + "\" height=\""@ + decimal(
                h as nat,
            ) + "\" src=\"https://www.youtube.com/embed/"@ + id
                + "\" frameborder=\"0\" allowfullscreen></iframe>"@,
            None => "<p>Invalid YouTube URL</p>"@,
        },
        EmbedProvider::X => "<blockquote class=\"twitter-tweet\"><a href=\""@ + safe_url
            + "\">View on X</a></blockquote>"@,
        EmbedProvider::Generic => "<iframe src=\""@ + safe_url + "\" width=\""@ + decimal(
            w as nat,
        ) + "\" height=\""@ + decimal(h as nat) + "\" frameborder=\"0\"></iframe>"@,
    }
}

/// A URL as written into a page: the sanitized form, or nothing if refused.
pub open spec fn safe_or_empty(url: Seq<char>) -> Seq<char> {
    match sanitized_url(url) {
        Some(u) => u,
        None => Seq::empty(),
    }
}

/// The HTML of one block.
pub open spec fn render_block_spec(b: BlockV) -> Seq<char>
    decreases b,
{
    let al = align_class(b.align);
    match b.kind {
        BlockKindV::Paragraph => "<p class=\"mb-4"@ + al + "\">"@ + render_inlines_spec(b.children)
            + "</p>\n"@,
        BlockKindV::Heading { level } => "<h"@ + decimal(level as nat) + " class=\"mb-4"@
            + heading_class(level) + al + "\">"@ + render_inlines_spec(b.children) + "</h"@
            + decimal(level as nat) + ">\n"@,
        BlockKindV::BulletList { items } => "<ul class=\"list-disc list-inside mb-4"@ + al
            + "\">\n"@ + render_blocks_spec(items) + "</ul>\n"@,
        BlockKindV::OrderedList { items } => "<ol class=\"list-decimal list-inside mb-4"@ + al
            + "\">\n"@ + render_blocks_spec(items) + "</ol>\n"@,
        BlockKindV::TaskList { items } => "<ul class=\"space-y-2 mb-4"@ + al + "\">\n"@
            + render_blocks_spec(items) + "</ul>\n"@,
        BlockKindV::ListItem => "  <li class=\"ml-4\">"@ + render_inlines_spec(b.children)
            + "</li>\n"@,
        BlockKindV::TaskItem { checked } => "  <li class=\"flex items-start\">"@ + (if checked {
            "<input type=\"checkbox\" checked disabled class=\"mr-2\">"@
        } else {
            "<input type=\"checkbox\" disabled class=\"mr-2\">"@
        }) + render_inlines_spec(b.children) + "</li>\n"@,
        BlockKindV::Quote => "<blockquote class=\"border-l-4 border-gray-300 pl-4 italic mb-4"@
            + al + "\">"@ + render_inlines_spec(b.children) + "</blockquote>\n"@,
        BlockKindV::CodeBlock { language, code } => "<pre class=\"bg-gray-100 rounded p-4 mb-4 overflow-x-auto"@
            + al + "\"><code class=\""@ + lang_class(language)
            + "\">"@ + escape(code@) + "</code></pre>\n"@,
        BlockKindV::Image { src, alt, title, width, height, caption } => "<figure class=\"mb-4"@
            + al + "\">\n"@ + "  <img src=\""@ + safe_or_empty(src@) + "\""@ + text_attr(
            " alt=\""@,
            alt,
        ) + text_attr(" title=\""@, title) + num_attr(" width=\""@, width) + num_attr(
            " height=\""@,
            height,
        ) + "class=\"max-w-full h-auto\">\n"@ + (match caption {
            Some(c) => "  <figcaption class=\"text-sm text-gray-600 mt-2\">"@ + escape(c@)
                + "</figcaption>\n"@,
            None => ""@,
        }) + "</figure>\n"@,
        BlockKindV::Embed { provider, url, title, width, height } => {
            let w = match width {
                Some(w) => w,
                None => 560u32,
            };
            let h = match height {
                Some(h) => h,
                None => 315u32,
            };
            "<div class=\"embed-container mb-4"@ + al + "\">\n"@ + "  "@ + render_embed_body(
                provider,
                safe_or_empty(url@),
                w,
                h,
            ) + "\n"@ + (match title {
                Some(t) => "  <p class=\"text-sm text-gray-600 mt-2\">"@ + escape(t@) + "</p>\n"@,
                None => ""@,
            }) + "</div>\n"@
        },
        BlockKindV::Rule => "<hr class=\"my-8 border-gray-300\">\n"@,
        BlockKindV::Table { headers, rows, column_align } => "<table class=\"mb-4"@ + al
            + "\">\n<thead><tr>"@ + render_header_cells(headers, column_align)
            + "</tr></thead>\n<tbody>\n"@ + render_rows(rows, column_align)
            + "</tbody>\n</table>\n"@,
    }
}

/// The HTML of a sequence of blocks, one after the other.
pub open spec fn render_blocks_spec(s: Seq<BlockV>) -> Seq<char>
    decreases s,
{
    if s.len() == 0 {
        Seq::empty()
    } else {
        render_blocks_spec(s.subrange(0, s.len() - 1)) + render_block_spec(s[s.len() - 1])
    }
}

} // verus!

verus! {

// ---------------------------------------------------------------------------
// Rendering
// ---------------------------------------------------------------------------

/// `open`, then `inner`, then `close`.
pub(crate) fn wrap(open: &str, inner: String, close: &str) -> (r: String)
    ensures
        r@ == open@ + inner@ + close@,
{
    let mut r = String::from_str(open);
    r.append(inner.as_str());
    r.append(close);
    r
}

/// Escapes HTML special characters.
pub fn html_escape(s: &str) -> (r: String)
    ensures
        r@ == escape(s@),
{
    escape_html(s)
}

/// The text of a run inside its mark elements.
fn render_marked_exec(text: &String, marks: &MarkSet) -> (r: String)
    ensures
        r@ == render_marked(text@, *marks),
{
    let mut c = escape_html(text.as_str());
    if marks.code {
        c = wrap("<code class=\"bg-gray-100 px-1 rounded\">", c, "</code>");
    }
    match &marks.highlight {
        Some(h) => {
            if is_safe_color(h.as_str()) {
                let mut r = String::from_str("<mark style=\"background-color: ");
                r.append(escape_html(h.as_str()).as_str());
                r.append("\">");
                r.append(c.as_str());
                r.append("</mark>");
                c = r;
            } else {
                c = wrap("<mark>", c, "</mark>");
            }
        },
        None => {},
    }
    if marks.strike {
        c = wrap("<s>", c, "</s>");
    }
    if marks.underline {
        c = wrap("<u>", c, "</u>");
    }
    if marks.italic {
        c = wrap("<em>", c, "</em>");
    }
    if marks.bold {
        c = wrap("<strong>", c, "</strong>");
    }
    match marks.size {
        Some(s) => {
            let cls = match s {
                TextSize::Small => "text-sm",
                TextSize::Normal => "text-base",
                TextSize::Lead => "text-lg",
            };
            let mut r = String::from_str("<span class=\"");
            r.append(cls);
            r.append("\">");
            r.append(c.as_str());
            r.append("</span>");
            c = r;
        },
        None => {},
    }
    c
}

/// An optional `title` attribute.
fn title_attr_exec(t: &Option<String>) -> (r: String)
    ensures
        r@ == title_attr(*t),
{
    match t {
        Some(t) => wrap(" title=\"", escape_html(t.as_str()), "\""),
        None => String::from_str(""),
    }
}

/// Renders one inline element.
pub fn render_inline(inline: &Inline) -> (r: String)
    ensures
        r@ == render_inline_spec(*inline),
{
    match inline {
        Inline::Text { text, marks, link } => {
            let content = render_marked_exec(text, marks);
            match link {
                Some(l) => match sanitize_url(l.href.as_str()) {
                    Some(href) => {
                        let mut r = String::from_str("<a href=\"");
                        r.append(href.as_str());
                        r.append("\"");
                        r.append(title_attr_exec(&l.title).as_str());
                        if l.target_blank {
                            r.append(" target=\"_blank\" rel=\"noopener noreferrer\"");
                        } else {
                            r.append("");
                        }
                        r.append("class=\"text-blue-600 hover:underline\">");
                        r.append(content.as_str());
                        r.append("</a>");
                        r
                    },
                    None => content,
                },
                None => content,
            }
        },
        Inline::HardBreak => String::from_str("<br>\n"),
    }
}

/// Renders a run of inline elements, one after the other.
pub fn render_inlines(inlines: &[Inline]) -> (r: String)
    ensures
        r@ == render_inlines_spec(inlines@),
{
    let mut html = String::new();
    let mut i: usize = 0;
    while i < inlines.len()
        invariant
            i <= inlines@.len(),
            html@ == render_inlines_spec(inlines@.take(i as int)),
        decreases inlines@.len() - i,
    {
        proof {
            assert(inlines@.take(i + 1).drop_last() =~= inlines@.take(i as int));
        }
        html.append(render_inline(&inlines[i]).as_str());
        i = i + 1;
    }
    proof {
        assert(inlines@.take(inlines@.len() as int) =~= inlines@);
    }
    html
}

} // verus!

verus! {

/// The class suffix for a block alignment.
fn align_str(a: BlockAlign) -> (r: &'static str)
    ensures
        r@ == align_class(a),
{
    match a {
        BlockAlign::Left => "",
        BlockAlign::Center => " text-center",
        BlockAlign::Right => " text-right",
        BlockAlign::Justify => " text-justify",
    }
}

/// The class suffix for a heading level.
fn heading_class_str(level: u8) -> (r: &'static str)
    ensures
        r@ == heading_class(level),
{
    if level == 1 {
        " text-4xl font-bold"
    } else if level == 2 {
        " text-3xl font-bold"
    } else if level == 3 {
        " text-2xl font-semibold"
    } else if level == 4 {
        " text-xl font-semibold"
    } else if level == 5 {
        " text-lg font-medium"
    } else {
        " text-base font-medium"
    }
}

/// An optional attribute holding escaped text.
fn text_attr_exec(name: &str, v: &Option<String>) -> (r: String)
    ensures
        r@ == text_attr(name@, *v),
{
    match v {
        Some(v) => wrap(name, escape_html(v.as_str()), "\""),
        None => String::from_str(""),
    }
}

/// An optional attribute holding a number.
pub(crate) fn num_attr_exec(name: &str, v: Option<u32>) -> (r: String)
    ensures
        r@ == num_attr(name@, v),
{
    match v {
        Some(v) => wrap(name, u32_to_decimal(v), "\""),
        None => String::from_str(""),
    }
}

/// The class attribute of a table cell.
fn cell_class_str(a: TableAlign) -> (r: &'static str)
    ensures
        r@ == cell_class(a),
{
    match a {
        TableAlign::Left => "",
        TableAlign::Center => " class=\"text-center\"",
        TableAlign::Right => " class=\"text-right\"",
    }
}

/// The alignment of column `j`.
fn column_at_exec(aligns: &Vec<TableAlign>, j: usize) -> (r: TableAlign)
    ensures
        r == column_at(aligns@, j as int),
{
    if j < aligns.len() {
        aligns[j]
    } else {
        TableAlign::Left
    }
}

/// The cells of one table row, as header (`th`) or data (`td`) cells.
fn render_cells(cells: &Vec<Vec<Inline>>, aligns: &Vec<TableAlign>, header: bool) -> (r: String)
    ensures
        r@ == (if header {
            render_header_cells(crate::ast::cells_view(cells@), aligns@)
        } else {
            render_data_cells(crate::ast::cells_view(cells@), aligns@)
        }),
{
    let ghost cv = crate::ast::cells_view(cells@);
    let mut html = String::new();
    let mut j: usize = 0;
    while j < cells.len()
        invariant
            j <= cells@.len(),
            cv == crate::ast::cells_view(cells@),
            html@ == (if header {
                render_header_cells(cv.take(j as int), aligns@)
            } else {
                render_data_cells(cv.take(j as int), aligns@)
            }),
        decreases cells@.len() - j,
    {
        proof {
            assert(cv.take(j + 1).drop_last() =~= cv.take(j as int));
            assert(cv.take(j + 1)[j as int] == cells@[j as int]@);
        }
        if header {
            html.append("<th");
        } else {
            html.append("<td");
        }
        html.append(cell_class_str(column_at_exec(aligns, j)));
        html.append(">");
        html.append(render_inlines(cells[j].as_slice()).as_str());
        if header {
            html.append("</th>");
        } else {
            html.append("</td>");
        }
        j = j + 1;
    }
    proof {
        assert(cv.take(cells@.len() as int) =~= cv);
    }
    html
}

/// The rows of a table body.
fn render_table_rows(rows: &Vec<Vec<Vec<Inline>>>, aligns: &Vec<TableAlign>) -> (r: String)
    ensures
        r@ == render_rows(crate::ast::rows_view(rows@), aligns@),
{
    let ghost rv = crate::ast::rows_view(rows@);
    let mut html = String::new();
    let mut i: usize = 0;
    while i < rows.len()
        invariant
            i <= rows@.len(),
            rv == crate::ast::rows_view(rows@),
            html@ == render_rows(rv.take(i as int), aligns@),
        decreases rows@.len() - i,
    {
        proof {
            assert(rv.take(i + 1).drop_last() =~= rv.take(i as int));
        }
        html.append("<tr>");
        html.append(render_cells(&rows[i], aligns, false).as_str());
        html.append("</tr>\n");
        i = i + 1;
    }
    proof {
        assert(rv.take(rows@.len() as int) =~= rv);
    }
    html
}

/// Renders a sequence of blocks, one after the other.
fn render_items(items: &Vec<Block>) -> (r: String)
    ensures
        r@ == render_blocks_spec(blocks_view(items@)),
    decreases items,
{
    let ghost bv = blocks_view(items@);
    proof {
        lemma_blocks_view(items@);
    }
    let mut html = String::new();
    let mut i: usize = 0;
    while i < items.len()
        invariant
            i <= items@.len(),
            bv == blocks_view(items@),
            bv.len() == items@.len(),
            forall|k: int| 0 <= k < items@.len() ==> #[trigger] bv[k] == block_view(items@[k]),
            html@ == render_blocks_spec(bv.take(i as int)),
        decreases items@.len() - i,
    {
        proof {
            assert(bv.take(i + 1).subrange(0, i as int) =~= bv.take(i as int));
        }
        html.append(render_block(&items[i]).as_str());
        i = i + 1;
    }
    proof {
        assert(bv.take(items@.len() as int) =~= bv);
    }
    html
}

/// Renders one block.
pub fn render_block(block: &Block) -> (r: String)
    ensures
        r@ == render_block_spec(block@),
    decreases block,
{
    let al = align_str(block.align);
    match &block.kind {
        BlockKind::Paragraph => {
            let mut html = String::from_str("<p class=\"mb-4");
            html.append(al);
            html.append("\">");
            html.append(render_inlines(block.children.as_slice()).as_str());
            html.append("</p>\n");
            html
        },
        BlockKind::Heading { level } => {
            let lv = u32_to_decimal(*level as u32);
            let mut html = String::from_str("<h");
            html.append(lv.as_str());
            html.append(" class=\"mb-4");
            html.append(heading_class_str(*level));
            html.append(al);
            html.append("\">");
            html.append(render_inlines(block.children.as_slice()).as_str());
            html.append("</h");
            html.append(lv.as_str());
            html.append(">\n");
            html
        },
        BlockKind::BulletList { items } => {
            let mut html = String::from_str("<ul class=\"list-disc list-inside mb-4");
            html.append(al);
            html.append("\">\n");
            html.append(render_items(items).as_str());
            html.append("</ul>\n");
            html
        },
        BlockKind::OrderedList { items } => {
            let mut html = String::from_str("<ol class=\"list-decimal list-inside mb-4");
            html.append(al);
            html.append("\">\n");
            html.append(render_items(items).as_str());
            html.append("</ol>\n");
            html
        },
        BlockKind::TaskList { items } => {
            let mut html = String::from_str("<ul class=\"space-y-2 mb-4");
            html.append(al);
            html.append("\">\n");
            html.append(render_items(items).as_str());
            html.append("</ul>\n");
            html
        },
        BlockKind::ListItem => {
            let mut html = String::from_str("  <li class=\"ml-4\">");
            html.append(render_inlines(block.children.as_slice()).as_str());
            html.append("</li>\n");
            html
        },
        BlockKind::TaskItem { checked } => {
            let mut html = String::from_str("  <li class=\"flex items-start\">");
            if *checked {
                html.append("<input type=\"checkbox\" checked disabled class=\"mr-2\">");
            } else {
                html.append("<input type=\"checkbox\" disabled class=\"mr-2\">");
            }
            html.append(render_inlines(block.children.as_slice()).as_str());
            html.append("</li>\n");
            html
        },
        BlockKind::Quote => {
            let mut html = String::from_str(
                "<blockquote class=\"border-l-4 border-gray-300 pl-4 italic mb-4",
            );
            html.append(al);
            html.append("\">");
            html.append(render_inlines(block.children.as_slice()).as_str());
            html.append("</blockquote>\n");
            html
        },
        BlockKind::CodeBlock { language, code } => {
            let mut html = String::from_str(
                "<pre class=\"bg-gray-100 rounded p-4 mb-4 overflow-x-auto",
            );
            html.append(al);
            html.append("\"><code class=\"");
            match language {
                Some(l) => {
                    html.append(" language-");
                    html.append(escape_html(l.as_str()).as_str());
                },
                None => {
                    html.append("");
                },
            }
            html.append("\">");
            html.append(escape_html(code.as_str()).as_str());
            html.append("</code></pre>\n");
            html
        },
        BlockKind::Image { src, alt, title, width, height, caption } => {
            let mut html = String::from_str("<figure class=\"mb-4");
            html.append(al);
            html.append("\">\n");
            html.append("  <img src=\"");
            match sanitize_url(src.as_str()) {
                Some(u) => html.append(u.as_str()),
                None => {},
            }
            html.append("\"");
            html.append(text_attr_exec(" alt=\"", alt).as_str());
            html.append(text_attr_exec(" title=\"", title).as_str());
            html.append(num_attr_exec(" width=\"", *width).as_str());
            html.append(num_attr_exec(" height=\"", *height).as_str());
            html.append("class=\"max-w-full h-auto\">\n");
            match caption {
                Some(c) => {
                    html.append("  <figcaption class=\"text-sm text-gray-600 mt-2\">");
                    html.append(escape_html(c.as_str()).as_str());
                    html.append("</figcaption>\n");
                },
                None => {
                    html.append("");
                },
            }
            html.append("</figure>\n");
            proof {
                assert(safe_or_empty(src@) == (match sanitized_url(src@) {
                    Some(u) => u,
                    None => Seq::<char>::empty(),
                }));
            }
            html
        },
        BlockKind::Embed { provider, url, title, width, height } => {
            let safe_url = match sanitize_url(url.as_str()) {
                Some(u) => u,
                None => String::new(),
            };
            let w = match width {
                Some(w) => *w,
                None => 560u32,
            };
            let h = match height {
                Some(h) => *h,
                None => 315u32,
            };
            let body = render_embed_exec(*provider, &safe_url, w, h);
            let mut html = String::from_str("<div class=\"embed-container mb-4");
            html.append(al);
            html.append("\">\n");
            html.append("  ");
            html.append(body.as_str());
            html.append("\n");
            match title {
                Some(t) => {
                    html.append("  <p class=\"text-sm text-gray-600 mt-2\">");
                    html.append(escape_html(t.as_str()).as_str());
                    html.append("</p>\n");
                },
                None => {
                    html.append("");
                },
            }
            html.append("</div>\n");
            html
        },
        BlockKind::Rule => String::from_str("<hr class=\"my-8 border-gray-300\">\n"),
        BlockKind::Table { headers, rows, column_align } => {
            let mut html = String::from_str("<table class=\"mb-4");
            html.append(al);
            html.append("\">\n<thead><tr>");
            html.append(render_cells(headers, column_align, true).as_str());
            html.append("</tr></thead>\n<tbody>\n");
            html.append(render_table_rows(rows, column_align).as_str());
            html.append("</tbody>\n</table>\n");
            html
        },
    }
}

/// The embedded player or link of an embed block.
fn render_embed_exec(provider: EmbedProvider, safe_url: &String, w: u32, h: u32) -> (r: String)
    ensures
        r@ == render_embed_body(provider, safe_url@, w, h),
{
    match provider {
        EmbedProvider::Youtube => match extract_youtube_id(safe_url.as_str()) {
            Some(id) => {
                let mut html = String::from_str("<iframe width=\"");
                html.append(u32_to_decimal(w).as_str());
                html.append("\" height=\"");
                html.append(u32_to_decimal(h).as_str());
                html.append("\" src=\"https://www.youtube.com/embed/");
                html.append(id.as_str());
                html.append("\" frameborder=\"0\" allowfullscreen></iframe>");
                html
            },
            None => String::from_str("<p>Invalid YouTube URL</p>"),
        },
        EmbedProvider::X => {
            let mut html = String::from_str("<blockquote class=\"twitter-tweet\"><a href=\"");
            html.append(safe_url.as_str());
            html.append("\">View on X</a></blockquote>");
            html
        },
        EmbedProvider::Generic => {
            let mut html = String::from_str("<iframe src=\"");
            html.append(safe_url.as_str());
            html.append("\" width=\"");
            html.append(u32_to_decimal(w).as_str());
            html.append("\" height=\"");
            html.append(u32_to_decimal(h).as_str());
            html.append("\" frameborder=\"0\"></iframe>");
            html
        },
    }
}

/// Renders a document: the HTML of its blocks, one after the other.
pub fn render_doc(doc: &Doc) -> (r: String)
    ensures
        r@ == render_blocks_spec(doc@),
{
    render_items(&doc.blocks)
}

} // verus!

verus! {

/// A text run with no marks and no link renders as its escaped text and nothing more.
pub proof fn law_plain_run_renders_escaped(x: Inline, t: Seq<char>)
    requires
        x.is_plain_text(t),
    ensures
        render_inline_spec(x) == escape(t),
{
}

/// A document renders as its blocks rendered one after the other.
pub proof fn law_render_doc_concatenates(a: Seq<BlockV>, b: BlockV)
    ensures
        render_blocks_spec(a.push(b)) == render_blocks_spec(a) + render_block_spec(b),
{
    assert(a.push(b).subrange(0, a.len() as int) =~= a);
}

/// The opening and closing tag that `on` adds around a run.
pub open spec fn tag_pair(on: bool, open: Seq<char>, close: Seq<char>) -> (Seq<char>, Seq<char>) {
    if on {
        (open, close)
    } else {
        (Seq::empty(), Seq::empty())
    }
}

/// The tags of a run's size.
pub open spec fn size_tags(m: MarkSet) -> (Seq<char>, Seq<char>) {
    match m.size {
        Some(z) => ("<span class=\""@ + size_class(z) + "\">"@, "</span>"@),
        None => (Seq::empty(), Seq::empty()),
    }
}

/// The tags of a run's highlight.
pub open spec fn highlight_tags(m: MarkSet) -> (Seq<char>, Seq<char>) {
    match m.highlight {
        Some(h) => if color_safe(h@) {
            ("<mark style=\"background-color: "@ + escape(h@) + "\">"@, "</mark>"@)
        } else {
            ("<mark>"@, "</mark>"@)
        },
        None => (Seq::empty(), Seq::empty()),
    }
}

/// The tags of each mark of a run, from the outermost in: size, bold,
/// italic, underline, strike, highlight, code.
pub open spec fn mark_tags(m: MarkSet) -> Seq<(Seq<char>, Seq<char>)> {
    seq![
        size_tags(m),
        tag_pair(m.bold, "<strong>"@, "</strong>"@),
        tag_pair(m.italic, "<em>"@, "</em>"@),
        tag_pair(m.underline, "<u>"@, "</u>"@),
        tag_pair(m.strike, "<s>"@, "</s>"@),
        highlight_tags(m),
        tag_pair(m.code, "<code class=\"bg-gray-100 px-1 rounded\">"@, "</code>"@),
    ]
}

/// Content inside the tags `tags`, the first outermost.
pub open spec fn nest(tags: Seq<(Seq<char>, Seq<char>)>, content: Seq<char>) -> Seq<char>
    decreases tags.len(),
{
    if tags.len() == 0 {
        content
    } else {
        tags[0].0 + nest(tags.drop_first(), content) + tags[0].1
    }
}

/// The opening tags, outermost first.
pub open spec fn opens(tags: Seq<(Seq<char>, Seq<char>)>) -> Seq<char>
    decreases tags.len(),
{
    if tags.len() == 0 {
        Seq::empty()
    } else {
        tags[0].0 + opens(tags.drop_first())
    }
}

/// The closing tags, innermost first.
pub open spec fn closes(tags: Seq<(Seq<char>, Seq<char>)>) -> Seq<char>
    decreases tags.len(),
{
    if tags.len() == 0 {
        Seq::empty()
    } else {
        closes(tags.drop_first()) + tags[0].1
    }
}

/// Content nested in tags is the opening tags, the content and the closing tags.
pub proof fn lemma_nest(tags: Seq<(Seq<char>, Seq<char>)>, content: Seq<char>)
    ensures
        nest(tags, content) == opens(tags) + content + closes(tags),
    decreases tags.len(),
{
    if tags.len() > 0 {
        lemma_nest(tags.drop_first(), content);
        assert(nest(tags, content) =~= opens(tags) + content + closes(tags));
    }
}

/// The opening tags of a run's marks, outermost first.
pub open spec fn marks_open(m: MarkSet) -> Seq<char> {
    opens(mark_tags(m))
}

/// The closing tags of a run's marks, innermost first.
pub open spec fn marks_close(m: MarkSet) -> Seq<char> {
    closes(mark_tags(m))
}

/// The marked text of a run is its escaped text nested in its mark tags.
proof fn lemma_marked_nest(text: Seq<char>, m: MarkSet)
    ensures
        render_marked(text, m) == nest(mark_tags(m), escape(text)),
{
    let t = mark_tags(m);
    let c0 = escape(text);
    assert forall|k: int| 0 <= k < 7 implies nest(#[trigger] t.subrange(k, 7), c0) == t[k].0 + nest(
        t.subrange(k + 1, 7),
        c0,
    ) + t[k].1 by {
        assert(t.subrange(k, 7).drop_first() =~= t.subrange(k + 1, 7));
        assert(t.subrange(k, 7)[0] == t[k]);
    }
    assert(nest(t.subrange(7, 7), c0) == c0);
    assert(t.subrange(0, 7) =~= t);
    let n6 = nest(t.subrange(6, 7), c0);
    let n5 = nest(t.subrange(5, 7), c0);
    let n4 = nest(t.subrange(4, 7), c0);
    let n3 = nest(t.subrange(3, 7), c0);
    let n2 = nest(t.subrange(2, 7), c0);
    let n1 = nest(t.subrange(1, 7), c0);
    let c1 = if m.code {
        "<code class=\"bg-gray-100 px-1 rounded\">"@ + c0 + "</code>"@
    } else {
        c0
    };
    assert(n6 =~= c1);
    let c2 = match m.highlight {
        Some(h) => if color_safe(h@) {
            "<mark style=\"background-color: "@ + escape(h@) + "\">"@ + c1 + "</mark>"@
        } else {
            "<mark>"@ + c1 + "</mark>"@
        },
        None => c1,
    };
    assert(n5 =~= c2);
    let c3 = if m.strike {
        "<s>"@ + c2 + "</s>"@
    } else {
        c2
    };
    assert(n4 =~= c3);
    let c4 = if m.underline {
        "<u>"@ + c3 + "</u>"@
    } else {
        c3
    };
    assert(n3 =~= c4);
    let c5 = if m.italic {
        "<em>"@ + c4 + "</em>"@
    } else {
        c4
    };
    assert(n2 =~= c5);
    let c6 = if m.bold {
        "<strong>"@ + c5 + "</strong>"@
    } else {
        c5
    };
    assert(n1 =~= c6);
    assert(nest(t, c0) =~= render_marked(text, m));
}

/// The opening anchor of a run's link, where its URL is allowed.
pub open spec fn link_open(link: Option<Link>) -> Seq<char> {
    match link {
        Some(l) => match sanitized_url(l.href@) {
            Some(href) => "<a href=\""@ + href + "\""@ + title_attr(l.title) + (if l.target_blank {
                " target=\"_blank\" rel=\"noopener noreferrer\""@
            } else {
                ""@
            }) + "class=\"text-blue-600 hover:underline\">"@,
            None => Seq::empty(),
        },
        None => Seq::empty(),
    }
}

/// The closing anchor of a run's link, where its URL is allowed.
pub open spec fn link_close(link: Option<Link>) -> Seq<char> {
    match link {
        Some(l) => if sanitized_url(l.href@) is Some {
            "</a>"@
        } else {
            Seq::empty()
        },
        None => Seq::empty(),
    }
}

/// The text of a run appears in its HTML only escaped, between tags that
/// its marks and link alone decide: the renderer's output for user text is
/// markup-safe.
pub proof fn law_run_text_only_escaped(text: String, marks: MarkSet, link: Option<Link>)
    ensures
        render_inline_spec(Inline::Text { text, marks, link }) == link_open(link) + marks_open(marks)
            + escape(text@) + marks_close(marks) + link_close(link),
{
    let e = escape(text@);
    let inner = render_marked(text@, marks);
    lemma_marked_nest(text@, marks);
    lemma_nest(mark_tags(marks), e);
    assert(render_linked(inner, link) =~= link_open(link) + inner + link_close(link));
    assert(link_open(link) + inner + link_close(link) =~= link_open(link) + marks_open(marks) + e
        + marks_close(marks) + link_close(link));
}

} // verus!

verus! {

/// A task item's checkbox is ticked exactly when the item is done: the item
/// opens with its `<li>` and an `<input` tag, and that tag, up to its
/// closing `>`, holds the word `checked` if and only if the item is checked.
pub proof fn law_task_checkbox_follows_checked(b: BlockV, checked: bool)
    requires
        b.kind == (BlockKindV::TaskItem { checked }),
    ensures
        ({
            let s = render_block_spec(b);
            let open = "  <li class=\"flex items-start\"><input"@;
            exists|e: int|
                open.len() <= e < s.len() && s.subrange(0, open.len() as int) == open && s[e] == '>' && (
                forall|i: int| open.len() <= i < e ==> s[i] != '>') && (contains(
                    #[trigger] s.subrange(open.len() as int, e),
                    "checked"@,
                ) <==> checked)
        }),
{
    let s = render_block_spec(b);
    let open = "  <li class=\"flex items-start\"><input"@;
    let p = "checked"@;
    reveal_strlit("  <li class=\"flex items-start\"><input");
    reveal_strlit("  <li class=\"flex items-start\">");
    reveal_strlit("<input type=\"checkbox\" checked disabled class=\"mr-2\">");
    reveal_strlit("<input type=\"checkbox\" disabled class=\"mr-2\">");
    reveal_strlit(" type=\"checkbox\" checked disabled class=\"mr-2\"");
    reveal_strlit(" type=\"checkbox\" disabled class=\"mr-2\"");
    reveal_strlit("checked");
    let rest = render_inlines_spec(b.children) + "</li>\n"@;
    let tag = if checked {
        " type=\"checkbox\" checked disabled class=\"mr-2\""@
    } else {
        " type=\"checkbox\" disabled class=\"mr-2\""@
    };
    assert(s =~= open + tag + seq!['>'] + rest);
    let e: int = (open.len() + tag.len()) as int;
    assert(s.subrange(0, open.len() as int) =~= open);
    assert(s.subrange(open.len() as int, e) =~= tag);
    assert(s[e] == '>');
    assert forall|i: int| open.len() <= i < e implies s[i] != '>' by {
        assert(s[i] == tag[i - open.len()]);
    }
    if checked {
        assert(matches_at(tag, p, 17));
    } else {
        assert(tag.len() == 38);
        assert forall|i: int| !matches_at(tag, p, i) by {
            if 0 <= i && i + p.len() <= tag.len() {
                if i == 7 {
                    assert(tag[i + 5] != p[5]);
                } else if i == 10 || i == 26 {
                    assert(tag[i + 1] != p[1]);
                } else {
                    assert(tag[i + 0] != p[0]);
                }
            }
        }
    }
}

} // verus!
