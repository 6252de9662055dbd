//! HTML fragments that the editor inserts for images and embeds, and the
//! pattern-based text helpers.
use vstd::prelude::*;

use crate::ast::EmbedProvider;
use crate::escape::{escape, escape_html};
use crate::render::{num_attr, num_attr_exec, wrap};
use crate::text::{trim, trimmed};

verus! {

/// The text of an optional string argument.
pub open spec fn opt_text(o: Option<&str>) -> Option<Seq<char>> {
    match o {
        Some(s) => Some(s@),
        None => None,
    }
}

/// Escapes text for use inside a double-quoted attribute value.
pub fn escape_attribute(value: &str) -> (r: String)
    ensures
        r@ == escape(value@),
{
    escape_html(value)
}

/// The `<img>` tag for an image.
pub open spec fn image_tag(
    src: Seq<char>,
    alt: Option<Seq<char>>,
    title: Option<Seq<char>>,
    width: Option<u32>,
    height: Option<u32>,
) -> Seq<char> {
    let alt_text = match alt {
        Some(a) => a,
        None => Seq::empty(),
    };
    let title_part = match title {
        Some(t) => " title=\""@ + escape(t) + "\""@,
        None => Seq::empty(),
    };
    "<img src=\""@ + escape(src) + "\" alt=\""@ + escape(alt_text) + "\""@ + title_part + num_attr(
        " width=\""@,
        width,
    ) + num_attr(" height=\""@, height)
        + " class=\"editor-image max-w-full rounded-md\" loading=\"lazy\" />"@
}

/// The markup for an image: the tag alone, or, where the caption holds more
/// than white space, a figure with the trimmed and escaped caption.
pub open spec fn image_html(
    src: Seq<char>,
    alt: Option<Seq<char>>,
    title: Option<Seq<char>>,
    width: Option<u32>,
    height: Option<u32>,
    caption: Option<Seq<char>>,
) -> Seq<char> {
    let tag = image_tag(src, alt, title, width, height);
    match caption {
        Some(c) if trimmed(c).len() > 0 => "<figure class=\"editor-figure text-center\">"@ + tag
            + "<figcaption class=\"mt-2 text-sm text-gray-500 dark:text-gray-400\">"@ + escape(
            trimmed(c),
        ) + "</figcaption></figure>"@,
        _ => tag,
    }
}

/// Builds the markup for an image.
pub fn build_image_html(
    src: &str,
    alt: Option<&str>,
    title: Option<&str>,
    width: Option<u32>,
    height: Option<u32>,
    caption: Option<&str>,
) -> (r: String)
    ensures
        r@ == image_html(src@, opt_text(alt), opt_text(title), width, height, opt_text(caption)),
{
    let src_attr = escape_attribute(src);
    let alt_attr = match alt {
        Some(a) => escape_attribute(a),
        None => escape_attribute(""),
    };
    proof {
        reveal_strlit("");
    }
    let title_attr = match title {
        Some(t) => wrap(" title=\"", escape_attribute(t), "\""),
        None => String::new(),
    };
    let width_attr = num_attr_exec(" width=\"", width);
    let height_attr = num_attr_exec(" height=\"", height);
    let mut tag = String::from_str("<img src=\"");
    tag.append(src_attr.as_str());
    tag.append("\" alt=\"");
    tag.append(alt_attr.as_str());
    tag.append("\"");
    tag.append(title_attr.as_str());
    tag.append(width_attr.as_str());
    tag.append(height_attr.as_str());
    tag.append(" class=\"editor-image max-w-full rounded-md\" loading=\"lazy\" />");
    proof {
        assert(escape(Seq::<char>::empty()) =~= Seq::<char>::empty());
        assert(tag@ =~= image_tag(src@, opt_text(alt), opt_text(title), width, height));
    }
    match caption {
        Some(c) => {
            let t = trim(c);
            if t.unicode_len() == 0 {
                tag
            } else {
                let mut r = String::from_str("<figure class=\"editor-figure text-center\">");
                r.append(tag.as_str());
                r.append("<figcaption class=\"mt-2 text-sm text-gray-500 dark:text-gray-400\">");
                r.append(escape_html(t.as_str()).as_str());
                r.append("</figcaption></figure>");
                r
            }
        },
        None => tag,
    }
}

/// The default title of an embedded frame from `provider`.
pub open spec fn default_embed_title(provider: EmbedProvider) -> Seq<char> {
    match provider {
        EmbedProvider::Youtube => "YouTube embed"@,
        EmbedProvider::X => "X embed"@,
        EmbedProvider::Generic => "Embedded content"@,
    }
}

/// The `allow` list of an embedded frame from `provider`.
pub open spec fn embed_allow(provider: EmbedProvider) -> Seq<char> {
    match provider {
        EmbedProvider::Youtube => "accelerometer; autoplay; clipboard-write; encrypted-media; gyroscope; picture-in-picture; web-share"@,
        EmbedProvider::X => "clipboard-write"@,
        EmbedProvider::Generic => "accelerometer; autoplay; encrypted-media"@,
    }
}

/// The markup for an embedded frame.
pub open spec fn embed_html(
    provider: EmbedProvider,
    url: Seq<char>,
    title: Option<Seq<char>>,
    width: Option<u32>,
    height: Option<u32>,
) -> Seq<char> {
    let title_text = match title {
        Some(t) => t,
        None => default_embed_title(provider),
    };
    "<div class=\"editor-embed aspect-video\"><iframe src=\""@ + escape(url) + "\" title=\""@
        + escape(title_text) + "\" frameborder=\"0\" allow=\""@ + embed_allow(provider)
        + "\" allowfullscreen"@ + num_attr(" width=\""@, width) + num_attr(" height=\""@, height)
        + "></iframe></div>"@
}

/// Builds the markup for an embedded frame.
pub fn build_embed_html(
    provider: &EmbedProvider,
    url: &str,
    title: Option<&str>,
    width: Option<u32>,
    height: Option<u32>,
) -> (r: String)
    ensures
        r@ == embed_html(*provider, url@, opt_text(title), width, height),
{
    let default_title = match provider {
        EmbedProvider::Youtube => "YouTube embed",
        EmbedProvider::X => "X embed",
        EmbedProvider::Generic => "Embedded content",
    };
    let src_attr = escape_attribute(url);
    let title_attr = match title {
        Some(t) => escape_attribute(t),
        None => escape_attribute(default_title),
    };
    let allow_attr = match provider {
        EmbedProvider::Youtube => "accelerometer; autoplay; clipboard-write; encrypted-media; gyroscope; picture-in-picture; web-share",
        EmbedProvider::X => "clipboard-write",
        EmbedProvider::Generic => "accelerometer; autoplay; encrypted-media",
    };
    let width_attr = num_attr_exec(" width=\"", width);
    let height_attr = num_attr_exec(" height=\"", height);
    let mut r = String::from_str("<div class=\"editor-embed aspect-video\"><iframe src=\"");
    r.append(src_attr.as_str());
    r.append("\" title=\"");
    r.append(title_attr.as_str());
    r.append("\" frameborder=\"0\" allow=\"");
    r.append(allow_attr);
    r.append("\" allowfullscreen");
    r.append(width_attr.as_str());
    r.append(height_attr.as_str());
    r.append("></iframe></div>");
    proof {
        assert(r@ =~= embed_html(*provider, url@, opt_text(title), width, height));
    }
    r
}

/// Whether `regex::Regex::new` compiles `pattern` (it refuses a pattern that
/// is not valid syntax, or whose program would exceed the default size limit).
pub uninterp spec fn regex_accepts(pattern: Seq<char>) -> bool;

/// What `regex::Regex::replace_all` returns for the compiled `pattern`, the
/// haystack and the replacement: every leftmost-first, non-overlapping match
/// replaced, `$` groups in the replacement expanded.
pub uninterp spec fn regex_replaced(
    pattern: Seq<char>,
    haystack: Seq<char>,
    replacement: Seq<char>,
) -> Seq<char>;

/// Compiles `pattern` with `regex::Regex::new` and, where it compiles, calls
/// `replace_all` on `haystack`. Both results depend on the arguments alone and
/// are named rather than spelled out: `None` exactly where the pattern is
/// refused, else the text with every match replaced. The two patterns this
/// library uses, `<[^>]*>` (a `<`, a negated class repeated, a `>`) and
/// `[\s-]` (a class of white space and `-`), are valid syntax of a few
/// instructions, so `Regex::new` compiles them.
#[verifier::external_body]
pub(crate) fn replace_matches(pattern: &str, haystack: &str, replacement: &str) -> (r: Option<
    String,
>)
    ensures
        r is Some <==> regex_accepts(pattern@),
        pattern@ == "<[^>]*>"@ || pattern@ == "[\\s-]"@ ==> r is Some,
        r matches Some(v) ==> v@ == regex_replaced(pattern@, haystack@, replacement@),
{
    match regex::Regex::new(pattern) {
        Ok(re) => Some(re.replace_all(haystack, replacement).into_owned()),
        Err(_) => None,
    }
}

/// The pattern of an HTML tag: `<`, anything but `>`, then `>`.
pub open spec fn tag_pattern() -> Seq<char> {
    "<[^>]*>"@
}

/// Removes every HTML tag from `html`, for counting the characters of its
/// text.
pub fn strip_html_tags(html: &str) -> (r: String)
    ensures
        r@ == regex_replaced(tag_pattern(), html@, ""@),
{
    match replace_matches("<[^>]*>", html, "") {
        Some(v) => v,
        None => {
            proof {
                assert(false);
            }
            String::new()
        },
    }
}

} // verus!
