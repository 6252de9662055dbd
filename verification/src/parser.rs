//! Reading editor HTML back into a document: the block elements of a parsed
//! fragment become blocks, their content becomes inline runs with marks and
//! links.
use vstd::prelude::*;

use crate::ast::{
    copy_opt_link, Block, BlockAlign, BlockKind, Doc, EmbedProvider, Inline, Link, MarkSet,
    TableAlign, TextSize,
};
use crate::embed::{contains, contains_text, detect_embed_provider};
use crate::escape::{decimal, usize_to_decimal};
use crate::embed::{find, matches_at, matches_at_ci};
use crate::html::{
    attr_exec, attr_of, element_is, first_under, first_under_exec, fragment_items, has_class,
    has_class_exec, is_element, items_view, parse_fragment, select_in, select_range,
    select_under, subtree_end, subtree_end_exec, text_under, text_under_exec, HtmlItem,
    HtmlNodeKind, ItemV, NodeV,
};
use crate::model::{
    block_d, blocks_d, cells_d, inline_d, inlines_d, lemma_blocks_d, lemma_blocks_d_push, link_d,
    marks_d, no_marks, opt_chars, pairs_d, rows_d, BlockD, InlineD, KindD, LinkD, MarksD,
};
use crate::text::{is_white, is_white_char, lemma_word_end_after, substring, text_eq, trim, trimmed, word_end};

verus! {

// ---------------------------------------------------------------------------
// Inline content
// ---------------------------------------------------------------------------

/// The tag name of node `k`; empty for a node that is not an element.
pub open spec fn elem_name(t: Seq<ItemV>, k: int) -> Seq<char> {
    match t[k].node {
        NodeV::Element { name, .. } => name,
        _ => Seq::empty(),
    }
}

/// The marks of the content of element `k`, inside content marked `m`.
pub open spec fn marks_after(t: Seq<ItemV>, k: int, m: MarksD) -> MarksD {
    let n = elem_name(t, k);
    if n == "strong"@ || n == "b"@ {
        MarksD { bold: true, ..m }
    } else if n == "em"@ || n == "i"@ {
        MarksD { italic: true, ..m }
    } else if n == "u"@ {
        MarksD { underline: true, ..m }
    } else if n == "s"@ || n == "strike"@ || n == "del"@ {
        MarksD { strike: true, ..m }
    } else if n == "code"@ {
        MarksD { code: true, ..m }
    } else if n == "mark"@ {
        MarksD { highlight: attr_of(t, k, "data-color"@), ..m }
    } else if n == "small"@ {
        MarksD { size: Some(TextSize::Small), ..m }
    } else if n == "span"@ && (has_class(t, k, "text-lg"@) || has_class(t, k, "lead"@)) {
        MarksD { size: Some(TextSize::Lead), ..m }
    } else {
        m
    }
}

/// The link of the content of element `k`, inside content linked to `l`: an
/// anchor with an `href` links its content there.
pub open spec fn link_after(t: Seq<ItemV>, k: int, l: Option<LinkD>) -> Option<LinkD> {
    if elem_name(t, k) == "a"@ && attr_of(t, k, "href"@) is Some {
        Some(
            LinkD {
                href: attr_of(t, k, "href"@)->0,
                title: attr_of(t, k, "title"@),
                target_blank: attr_of(t, k, "target"@) == Some("_blank"@),
            },
        )
    } else {
        l
    }
}

/// Where the node at `a` ends within a range that ends at `b`: at the end
/// of its subtree, kept after `a` and no later than `b`.
pub open spec fn next_sibling(t: Seq<ItemV>, a: int, b: int) -> int {
    let x = subtree_end(t, a);
    if x <= a {
        a + 1
    } else if x > b {
        b
    } else {
        x
    }
}

/// The inline runs of the nodes from `a` to `b`, taken one sibling after the
/// other, with marks `m` and link `l` around them.
pub open spec fn inline_seq(t: Seq<ItemV>, a: int, b: int, m: MarksD, l: Option<LinkD>) -> Seq<
    InlineD,
>
    decreases b - a, 1int,
{
    if a < 0 || a >= b || b > t.len() {
        Seq::empty()
    } else {
        let e = next_sibling(t, a, b);
        inline_node(t, a, e, m, l) + inline_seq(t, e, b, m, l)
    }
}

/// The inline runs of node `a`, whose content lies before `e`: a non-empty
/// text is one run, a `<br>` a hard break, another element its content with
/// its marks and link added; comments give nothing.
pub open spec fn inline_node(t: Seq<ItemV>, a: int, e: int, m: MarksD, l: Option<LinkD>) -> Seq<
    InlineD,
>
    decreases e - a, 0int,
{
    if a < 0 || a >= e || a >= t.len() {
        Seq::empty()
    } else {
        match t[a].node {
            NodeV::Text { text } => if text.len() > 0 {
                seq![InlineD::Text { text, marks: m, link: l }]
            } else {
                Seq::empty()
            },
            NodeV::Element { name, .. } => if name == "br"@ {
                seq![InlineD::HardBreak]
            } else {
                inline_seq(t, a + 1, e, marks_after(t, a, m), link_after(t, a, l))
            },
            NodeV::Other => Seq::empty(),
        }
    }
}

/// The inline content of element `i`: the runs of its children, or one
/// empty run where they give none.
pub open spec fn inline_content(t: Seq<ItemV>, i: int) -> Seq<InlineD> {
    let r = inline_seq(t, i + 1, subtree_end(t, i), no_marks(), None);
    if r.len() == 0 {
        seq![InlineD::Text { text: Seq::empty(), marks: no_marks(), link: None }]
    } else {
        r
    }
}

/// The marks of the content of element `k`.
fn marks_after_exec(items: &Vec<HtmlItem>, k: usize, marks: &MarkSet) -> (r: MarkSet)
    requires
        k < items@.len(),
    ensures
        marks_d(r) == marks_after(items_view(items@), k as int, marks_d(*marks)),
{
    let ghost t = items_view(items@);
    proof {
        assert(t[k as int] == crate::html::item_view(items@[k as int]));
    }
    let mut r = marks.clone();
    let name_ok = match &items[k].kind {
        HtmlNodeKind::Element { .. } => true,
        _ => false,
    };
    proof {
        if !name_ok {
            assert(elem_name(t, k as int) == Seq::<char>::empty());
            reveal_strlit("strong");
            reveal_strlit("b");
            reveal_strlit("em");
            reveal_strlit("i");
            reveal_strlit("u");
            reveal_strlit("s");
            reveal_strlit("strike");
            reveal_strlit("del");
            reveal_strlit("code");
            reveal_strlit("mark");
            reveal_strlit("small");
            reveal_strlit("span");
        }
    }
    if element_is(items, k, "strong") || element_is(items, k, "b") {
        r.bold = true;
    } else if element_is(items, k, "em") || element_is(items, k, "i") {
        r.italic = true;
    } else if element_is(items, k, "u") {
        r.underline = true;
    } else if element_is(items, k, "s") || element_is(items, k, "strike") || element_is(
        items,
        k,
        "del",
    ) {
        r.strike = true;
    } else if element_is(items, k, "code") {
        r.code = true;
    } else if element_is(items, k, "mark") {
        r.highlight = attr_exec(items, k, "data-color");
    } else if element_is(items, k, "small") {
        r.size = Some(TextSize::Small);
    } else if element_is(items, k, "span") && (has_class_exec(items, k, "text-lg")
        || has_class_exec(items, k, "lead")) {
        r.size = Some(TextSize::Lead);
    }
    r
}

/// The link of the content of element `k`.
fn link_after_exec(items: &Vec<HtmlItem>, k: usize, link: &Option<Link>) -> (r: Option<Link>)
    requires
        k < items@.len(),
    ensures
        link_d(r) == link_after(items_view(items@), k as int, link_d(*link)),
{
    let ghost t = items_view(items@);
    proof {
        assert(t[k as int] == crate::html::item_view(items@[k as int]));
        if !(t[k as int].node is Element) {
            assert(elem_name(t, k as int) == Seq::<char>::empty());
            reveal_strlit("a");
        }
    }
    if element_is(items, k, "a") {
        match attr_exec(items, k, "href") {
            Some(href) => {
                let title = attr_exec(items, k, "title");
                let target_blank = match attr_exec(items, k, "target") {
                    Some(v) => text_eq(v.as_str(), "_blank"),
                    None => false,
                };
                return Some(Link { href, title, target_blank });
            },
            None => {},
        }
    }
    copy_opt_link(link)
}

/// The model of a run grows by the model of a pushed inline.
proof fn lemma_inlines_d_push(s: Seq<Inline>, x: Inline)
    ensures
        inlines_d(s.push(x)) == inlines_d(s).push(inline_d(x)),
{
    assert(inlines_d(s.push(x)) =~= inlines_d(s).push(inline_d(x)));
}

/// Appends the inline runs of the nodes from `a` to `b`, with `marks` and
/// `link` around them.
fn collect_inlines(
    items: &Vec<HtmlItem>,
    a: usize,
    b: usize,
    marks: &MarkSet,
    link: &Option<Link>,
    out: &mut Vec<Inline>,
)
    requires
        a <= b <= items@.len(),
    ensures
        inlines_d(final(out)@) == inlines_d(old(out)@) + inline_seq(
            items_view(items@),
            a as int,
            b as int,
            marks_d(*marks),
            link_d(*link),
        ),
    decreases b - a,
{
    let ghost t = items_view(items@);
    let ghost m = marks_d(*marks);
    let ghost l = link_d(*link);
    let ghost start = out@;
    let mut k = a;
    proof {
        assert(inlines_d(start) + inline_seq(t, a as int, b as int, m, l) =~= inlines_d(out@)
            + inline_seq(t, k as int, b as int, m, l));
    }
    while k < b
        invariant
            t == items_view(items@),
            m == marks_d(*marks),
            l == link_d(*link),
            a <= k <= b <= items@.len(),
            inlines_d(start) + inline_seq(t, a as int, b as int, m, l) == inlines_d(out@)
                + inline_seq(t, k as int, b as int, m, l),
        decreases b - k,
    {
        let e0 = subtree_end_exec(items, k);
        let e = if e0 > b {
            b
        } else {
            e0
        };
        let ghost before = out@;
        proof {
            assert(e == next_sibling(t, k as int, b as int));
            assert(t[k as int] == crate::html::item_view(items@[k as int]));
        }
        match &items[k].kind {
            HtmlNodeKind::Text { text } => {
                if text.unicode_len() > 0 {
                    let x = Inline::Text { text: text.clone(), marks: marks.clone(), link: copy_opt_link(link) };
                    out.push(x);
                    proof {
                        lemma_inlines_d_push(before, x);
                    }
                }
                proof {
                    assert(inlines_d(out@) =~= inlines_d(before) + inline_node(t, k as int, e as int, m, l));
                }
            },
            HtmlNodeKind::Element { .. } => {
                if element_is(items, k, "br") {
                    out.push(Inline::HardBreak);
                    proof {
                        lemma_inlines_d_push(before, Inline::HardBreak);
                        assert(inlines_d(out@) =~= inlines_d(before) + inline_node(t, k as int, e as int, m, l));
                    }
                } else {
                    let inner_marks = marks_after_exec(items, k, marks);
                    let inner_link = link_after_exec(items, k, link);
                    collect_inlines(items, k + 1, e, &inner_marks, &inner_link, out);
                    proof {
                        assert(inlines_d(out@) =~= inlines_d(before) + inline_node(t, k as int, e as int, m, l));
                    }
                }
            },
            HtmlNodeKind::Other => {
                proof {
                    assert(inlines_d(out@) =~= inlines_d(before) + inline_node(t, k as int, e as int, m, l));
                }
            },
        }
        proof {
            assert(inline_seq(t, k as int, b as int, m, l) == inline_node(t, k as int, e as int, m, l)
                + inline_seq(t, e as int, b as int, m, l));
            assert(inlines_d(start) + inline_seq(t, a as int, b as int, m, l) =~= inlines_d(out@)
                + inline_seq(t, e as int, b as int, m, l));
        }
        k = e;
    }
    proof {
        assert(inlines_d(start) + inline_seq(t, a as int, b as int, m, l) =~= inlines_d(out@));
    }
}

/// The inline content of element `i`.
fn parse_inline_content(items: &Vec<HtmlItem>, i: usize) -> (r: Vec<Inline>)
    requires
        i < items@.len(),
    ensures
        inlines_d(r@) == inline_content(items_view(items@), i as int),
{
    let end = subtree_end_exec(items, i);
    let mut out: Vec<Inline> = Vec::new();
    let marks = MarkSet::default();
    collect_inlines(items, i + 1, end, &marks, &None, &mut out);
    proof {
        assert(inlines_d(Seq::<Inline>::empty()) =~= Seq::<InlineD>::empty());
        assert(marks_d(marks) == no_marks());
    }
    if out.len() == 0 {
        let x = Inline::Text { text: String::new(), marks: MarkSet::default(), link: None };
        out.push(x);
        proof {
            lemma_inlines_d_push(Seq::<Inline>::empty(), x);
            assert(Seq::<Inline>::empty().push(x) =~= out@);
            assert(inlines_d(out@) =~= seq![inline_d(x)]);
        }
    }
    out
}

// ---------------------------------------------------------------------------
// Block ids
// ---------------------------------------------------------------------------

/// The counter after one more id: one up, wrapping to 0 past `usize::MAX`.
pub open spec fn next_count(c: usize) -> usize {
    if c == usize::MAX {
        0
    } else {
        (c + 1) as usize
    }
}

/// The id of the block numbered `c`.
pub open spec fn id_text(c: usize) -> Seq<char> {
    "block-"@ + decimal(c as nat)
}

/// Counts one more block and names it `block-` and its number.
pub fn generate_id(counter: &mut usize) -> (r: String)
    ensures
        *final(counter) == next_count(*old(counter)),
        r@ == id_text(*final(counter)),
{
    *counter = counter.wrapping_add(1);
    let mut r = String::from_str("block-");
    r.append(usize_to_decimal(*counter).as_str());
    r
}

// ---------------------------------------------------------------------------
// Alignment and attributes
// ---------------------------------------------------------------------------

/// The alignment of block element `k`, from a `text-*` class, else from its
/// `text-align` style, else left.
pub open spec fn alignment(t: Seq<ItemV>, k: int) -> BlockAlign {
    let class = attr_of(t, k, "class"@);
    let style = attr_of(t, k, "style"@);
    if class matches Some(c) && contains(c, "text-center"@) {
        BlockAlign::Center
    } else if class matches Some(c) && contains(c, "text-right"@) {
        BlockAlign::Right
    } else if class matches Some(c) && contains(c, "text-justify"@) {
        BlockAlign::Justify
    } else if style matches Some(s) && (contains(s, "text-align: center"@) || contains(
        s,
        "text-align:center"@,
    )) {
        BlockAlign::Center
    } else if style matches Some(s) && (contains(s, "text-align: right"@) || contains(
        s,
        "text-align:right"@,
    )) {
        BlockAlign::Right
    } else if style matches Some(s) && (contains(s, "text-align: justify"@) || contains(
        s,
        "text-align:justify"@,
    )) {
        BlockAlign::Justify
    } else {
        BlockAlign::Left
    }
}

/// Whether the optional text holds `p`.
fn opt_contains(o: &Option<String>, p: &str) -> (r: bool)
    ensures
        r == (o matches Some(v) && contains(v@, p@)),
{
    match o {
        Some(v) => contains_text(v.as_str(), p),
        None => false,
    }
}

/// The alignment of block element `k`.
pub fn parse_alignment(items: &Vec<HtmlItem>, k: usize) -> (r: BlockAlign)
    requires
        k < items@.len(),
    ensures
        r == alignment(items_view(items@), k as int),
{
    let class = attr_exec(items, k, "class");
    let style = attr_exec(items, k, "style");
    if opt_contains(&class, "text-center") {
        BlockAlign::Center
    } else if opt_contains(&class, "text-right") {
        BlockAlign::Right
    } else if opt_contains(&class, "text-justify") {
        BlockAlign::Justify
    } else if opt_contains(&style, "text-align: center") || opt_contains(&style, "text-align:center") {
        BlockAlign::Center
    } else if opt_contains(&style, "text-align: right") || opt_contains(&style, "text-align:right") {
        BlockAlign::Right
    } else if opt_contains(&style, "text-align: justify") || opt_contains(
        &style,
        "text-align:justify",
    ) {
        BlockAlign::Justify
    } else {
        BlockAlign::Left
    }
}

/// The alignment of table cell `k`, from a `text-*` class, else from its
/// `text-align` style, else left.
pub open spec fn cell_alignment(t: Seq<ItemV>, k: int) -> TableAlign {
    let class = attr_of(t, k, "class"@);
    let style = attr_of(t, k, "style"@);
    if class matches Some(c) && contains(c, "text-center"@) {
        TableAlign::Center
    } else if class matches Some(c) && contains(c, "text-right"@) {
        TableAlign::Right
    } else if style matches Some(s) && (contains(s, "text-align: center"@) || contains(
        s,
        "text-align:center"@,
    )) {
        TableAlign::Center
    } else if style matches Some(s) && (contains(s, "text-align: right"@) || contains(
        s,
        "text-align:right"@,
    )) {
        TableAlign::Right
    } else {
        TableAlign::Left
    }
}

/// The alignment of table cell `k`.
pub fn parse_cell_alignment(items: &Vec<HtmlItem>, k: usize) -> (r: TableAlign)
    requires
        k < items@.len(),
    ensures
        r == cell_alignment(items_view(items@), k as int),
{
    let class = attr_exec(items, k, "class");
    let style = attr_exec(items, k, "style");
    if opt_contains(&class, "text-center") {
        TableAlign::Center
    } else if opt_contains(&class, "text-right") {
        TableAlign::Right
    } else if opt_contains(&style, "text-align: center") || opt_contains(&style, "text-align:center") {
        TableAlign::Center
    } else if opt_contains(&style, "text-align: right") || opt_contains(&style, "text-align:right") {
        TableAlign::Right
    } else {
        TableAlign::Left
    }
}

/// No name occurs twice among the pairs.
pub open spec fn names_distinct(s: Seq<(Seq<char>, Seq<char>)>) -> bool {
    forall|a: int, b: int| 0 <= a < b < s.len() ==> #[trigger] s[a].0 != #[trigger] s[b].0
}

/// The pairs `s` with `p` put in, as a map puts a key: the value of a pair
/// with the same name is replaced, else `p` goes at the end.
pub open spec fn put_pair(s: Seq<(Seq<char>, Seq<char>)>, p: (Seq<char>, Seq<char>)) -> Seq<
    (Seq<char>, Seq<char>),
> {
    if exists|i: int| 0 <= i < s.len() && #[trigger] s[i].0 == p.0 {
        s.update(choose|i: int| 0 <= i < s.len() && #[trigger] s[i].0 == p.0, p)
    } else {
        s.push(p)
    }
}

/// The attributes of `attrs` whose names start with `data-`, each name once
/// with its last value, in the order the names first occur.
pub open spec fn data_pairs(attrs: Seq<(Seq<char>, Seq<char>)>) -> Seq<(Seq<char>, Seq<char>)>
    decreases attrs.len(),
{
    if attrs.len() == 0 {
        Seq::empty()
    } else if matches_at(attrs.last().0, "data-"@, 0) {
        put_pair(data_pairs(attrs.drop_last()), attrs.last())
    } else {
        data_pairs(attrs.drop_last())
    }
}

/// Putting a pair in keeps the names distinct.
pub proof fn lemma_put_pair_distinct(s: Seq<(Seq<char>, Seq<char>)>, p: (Seq<char>, Seq<char>))
    requires
        names_distinct(s),
    ensures
        names_distinct(put_pair(s, p)),
{
    let r = put_pair(s, p);
    if exists|i: int| 0 <= i < s.len() && #[trigger] s[i].0 == p.0 {
        let c = choose|i: int| 0 <= i < s.len() && #[trigger] s[i].0 == p.0;
        assert forall|a: int, b: int| 0 <= a < b < r.len() implies #[trigger] r[a].0 != #[trigger] r[b].0 by {
            assert(s[a].0 != s[b].0);
        }
    } else {
        assert forall|a: int, b: int| 0 <= a < b < r.len() implies #[trigger] r[a].0 != #[trigger] r[b].0 by {
            if b < s.len() {
                assert(s[a].0 != s[b].0);
            } else {
                assert(r[a] == s[a]);
            }
        }
    }
}

/// The `data-*` attributes of an element have distinct names.
pub proof fn lemma_data_pairs_distinct(attrs: Seq<(Seq<char>, Seq<char>)>)
    ensures
        names_distinct(data_pairs(attrs)),
    decreases attrs.len(),
{
    if attrs.len() > 0 {
        lemma_data_pairs_distinct(attrs.drop_last());
        if matches_at(attrs.last().0, "data-"@, 0) {
            lemma_put_pair_distinct(data_pairs(attrs.drop_last()), attrs.last());
        }
    }
}

/// Puts the attribute `name` with `value` into `r`, as a map puts a key.
fn put_attribute(r: &mut Vec<(String, String)>, name: &String, value: &String)
    requires
        names_distinct(pairs_d(old(r)@)),
    ensures
        pairs_d(final(r)@) == put_pair(pairs_d(old(r)@), (name@, value@)),
{
    let ghost s = pairs_d(r@);
    let mut i: usize = 0;
    while i < r.len()
        invariant
            *r == *old(r),
            s == pairs_d(r@),
            names_distinct(s),
            i <= r@.len(),
            forall|q: int| 0 <= q < i ==> #[trigger] s[q].0 != name@,
        decreases r@.len() - i,
    {
        if text_eq(r[i].0.as_str(), name.as_str()) {
            proof {
                assert(s[i as int].0 == name@);
                let c = choose|q: int| 0 <= q < s.len() && #[trigger] s[q].0 == name@;
                if c != i as int {
                    if c < i {
                        assert(s[c].0 != s[i as int].0);
                    } else {
                        assert(s[i as int].0 != s[c].0);
                    }
                }
            }
            r.set(i, (name.clone(), value.clone()));
            proof {
                assert(pairs_d(r@) =~= s.update(i as int, (name@, value@)));
            }
            return;
        }
        i = i + 1;
    }
    r.push((name.clone(), value.clone()));
    proof {
        assert(!exists|q: int| 0 <= q < s.len() && #[trigger] s[q].0 == name@);
        assert(pairs_d(r@) =~= s.push((name@, value@)));
    }
}

/// The `data-*` attributes of element `k`; none for another node.
pub open spec fn data_attrs(t: Seq<ItemV>, k: int) -> Seq<(Seq<char>, Seq<char>)> {
    match t[k].node {
        NodeV::Element { attrs, .. } => data_pairs(attrs),
        _ => Seq::empty(),
    }
}

/// Whether `s` starts with `p`.
fn starts_with_text(s: &str, p: &str) -> (r: bool)
    ensures
        r == matches_at(s@, p@, 0),
{
    let n = s.unicode_len();
    let m = p.unicode_len();
    if m > n {
        return false;
    }
    let mut i: usize = 0;
    while i < m
        invariant
            n == s@.len(),
            m == p@.len(),
            m <= n,
            i <= m,
            forall|j: int| 0 <= j < i ==> s@[0 + j] == p@[j],
        decreases m - i,
    {
        if s.get_char(i) != p.get_char(i) {
            proof {
                assert(s@[0 + i as int] != p@[i as int]);
            }
            return false;
        }
        i = i + 1;
    }
    true
}

/// The `data-*` attributes of element `k`, each name once.
pub fn parse_attributes(items: &Vec<HtmlItem>, k: usize) -> (r: Vec<(String, String)>)
    requires
        k < items@.len(),
    ensures
        pairs_d(r@) == data_attrs(items_view(items@), k as int),
{
    let ghost t = items_view(items@);
    proof {
        assert(t[k as int] == crate::html::item_view(items@[k as int]));
    }
    let mut r: Vec<(String, String)> = Vec::new();
    match &items[k].kind {
        HtmlNodeKind::Element { attrs, .. } => {
            let ghost av = crate::html::attrs_view(attrs@);
            let mut j: usize = 0;
            proof {
                assert(pairs_d(r@) =~= data_pairs(av.take(0)));
            }
            while j < attrs.len()
                invariant
                    av == crate::html::attrs_view(attrs@),
                    data_attrs(t, k as int) == data_pairs(av),
                    j <= attrs@.len(),
                    pairs_d(r@) == data_pairs(av.take(j as int)),
                decreases attrs@.len() - j,
            {
                let ghost before = r@;
                proof {
                    assert(av.take(j + 1).drop_last() =~= av.take(j as int));
                    assert(av.take(j + 1).last() == (attrs@[j as int].0@, attrs@[j as int].1@));
                }
                if starts_with_text(attrs[j].0.as_str(), "data-") {
                    proof {
                        lemma_data_pairs_distinct(av.take(j as int));
                    }
                    put_attribute(&mut r, &attrs[j].0, &attrs[j].1);
                }
                proof {
                    assert(pairs_d(r@) =~= data_pairs(av.take(j + 1)));
                }
                j = j + 1;
            }
            proof {
                assert(av.take(j as int) =~= av);
            }
        },
        _ => {
            proof {
                assert(pairs_d(r@) =~= Seq::<(Seq<char>, Seq<char>)>::empty());
            }
        },
    }
    r
}

// ---------------------------------------------------------------------------
// Numbers
// ---------------------------------------------------------------------------

/// The character is an ASCII digit.
pub open spec fn is_digit(c: char) -> bool {
    '0' <= c && c <= '9'
}

/// The value of a run of decimal digits.
pub open spec fn digits_value(s: Seq<char>) -> nat
    decreases s.len(),
{
    if s.len() == 0 {
        0
    } else {
        digits_value(s.drop_last()) * 10 + (s.last() as nat - '0' as nat) as nat
    }
}

/// The text after an optional leading `+`.
pub open spec fn unsigned_digits(s: Seq<char>) -> Seq<char> {
    if s.len() > 0 && s[0] == '+' {
        s.drop_first()
    } else {
        s
    }
}

/// What `str::parse::<u32>` gives for `s`: an optional `+`, then one or more
/// ASCII digits whose value fits in 32 bits; anything else is refused.
pub open spec fn parsed_u32(s: Seq<char>) -> Option<u32> {
    let d = unsigned_digits(s);
    if d.len() > 0 && (forall|i: int| 0 <= i < d.len() ==> is_digit(#[trigger] d[i]))
        && digits_value(d) <= u32::MAX {
        Some(digits_value(d) as u32)
    } else {
        None
    }
}

/// Reads a decimal number that fits in 32 bits.
pub fn parse_u32(s: &str) -> (r: Option<u32>)
    ensures
        r == parsed_u32(s@),
{
    let n = s.unicode_len();
    let start: usize = if n > 0 && s.get_char(0) == '+' {
        1
    } else {
        0
    };
    let ghost d = unsigned_digits(s@);
    proof {
        assert(d =~= s@.skip(start as int));
    }
    if start == n {
        return None;
    }
    let mut value: u64 = 0;
    let mut i: usize = start;
    while i < n
        invariant
            n == s@.len(),
            start <= i <= n,
            d == s@.skip(start as int),
            d == unsigned_digits(s@),
            forall|j: int| start <= j < i ==> is_digit(#[trigger] s@[j]),
            value == digits_value(s@.subrange(start as int, i as int)),
            value <= u32::MAX,
        decreases n - i,
    {
        let c = s.get_char(i);
        if !('0' <= c && c <= '9') {
            proof {
                assert(d[i - start] == c);
                assert(!is_digit(d[i - start]));
                assert(!(forall|j: int| 0 <= j < d.len() ==> is_digit(#[trigger] d[j])));
                assert(parsed_u32(s@) is None);
            }
            return None;
        }
        proof {
            assert(s@.subrange(start as int, i + 1).drop_last() =~= s@.subrange(start as int, i as int));
        }
        let digit = (c as u32 - '0' as u32) as u64;
        let next = value * 10 + digit;
        if next > 0xffff_ffff {
            proof {
                assert(d.take((i + 1 - start) as int) =~= s@.subrange(start as int, i + 1));
                if forall|j: int| 0 <= j < d.len() ==> is_digit(#[trigger] d[j]) {
                    lemma_digits_value_prefix(d, (i + 1 - start) as int);
                    assert(digits_value(d) > u32::MAX);
                }
                assert(parsed_u32(s@) is None);
            }
            return None;
        }
        value = next;
        i = i + 1;
    }
    proof {
        assert(s@.subrange(start as int, n as int) =~= d);
        assert forall|j: int| 0 <= j < d.len() implies is_digit(#[trigger] d[j]) by {
            assert(d[j] == s@[start + j]);
        }
    }
    Some(value as u32)
}

/// The value of a run of digits is at least that of any prefix.
pub proof fn lemma_digits_value_prefix(d: Seq<char>, k: int)
    requires
        0 <= k <= d.len(),
        forall|i: int| 0 <= i < d.len() ==> is_digit(#[trigger] d[i]),
    ensures
        digits_value(d.take(k)) <= digits_value(d),
    decreases d.len() - k,
{
    if k < d.len() {
        lemma_digits_value_prefix(d, k + 1);
        assert(d.take(k + 1).drop_last() =~= d.take(k));
        assert(is_digit(d[k]));
    } else {
        assert(d.take(k) =~= d);
    }
}

/// The numeric attribute `name` of element `k`, where it parses.
pub open spec fn num_attr_of(t: Seq<ItemV>, k: int, name: Seq<char>) -> Option<u32> {
    match attr_of(t, k, name) {
        Some(v) => parsed_u32(v),
        None => None,
    }
}

/// The numeric attribute `name` of element `k`.
fn num_attr_exec(items: &Vec<HtmlItem>, k: usize, name: &str) -> (r: Option<u32>)
    requires
        k < items@.len(),
    ensures
        r == num_attr_of(items_view(items@), k as int, name@),
{
    match attr_exec(items, k, name) {
        Some(v) => parse_u32(v.as_str()),
        None => None,
    }
}

// ---------------------------------------------------------------------------
// Lists
// ---------------------------------------------------------------------------

/// The positions of a selection as integers.
pub open spec fn as_ints(v: Seq<usize>) -> Seq<int> {
    v.map_values(|k: usize| k as int)
}

/// List item blocks for the `li` elements `lis`, numbered on from `c`; with
/// the counter after them.
pub open spec fn list_items(t: Seq<ItemV>, lis: Seq<int>, c: usize) -> (Seq<BlockD>, usize)
    decreases lis.len(),
{
    if lis.len() == 0 {
        (Seq::empty(), c)
    } else {
        let (bs, c1) = list_items(t, lis.drop_last(), c);
        let c2 = next_count(c1);
        (
            bs.push(
                BlockD {
                    id: id_text(c2),
                    kind: KindD::ListItem,
                    align: BlockAlign::Left,
                    attrs: Seq::empty(),
                    children: inline_content(t, lis.last()),
                },
            ),
            c2,
        )
    }
}

/// The list item blocks of list element `k`: one per `li` under it.
pub fn parse_list_items(items: &Vec<HtmlItem>, k: usize, counter: &mut usize) -> (r: Vec<Block>)
    requires
        k < items@.len(),
    ensures
        (blocks_d(r@), *final(counter)) == list_items(
            items_view(items@),
            select_under(items_view(items@), k as int, "li"@),
            *old(counter),
        ),
{
    let ghost t = items_view(items@);
    let ghost c0 = *counter;
    let end = subtree_end_exec(items, k);
    let lis = select_range(items, k + 1, end, "li");
    let ghost ks = as_ints(lis@);
    let mut r: Vec<Block> = Vec::new();
    let mut i: usize = 0;
    proof {
        assert(ks.take(0) =~= Seq::<int>::empty());
    }
    while i < lis.len()
        invariant
            t == items_view(items@),
            ks == as_ints(lis@),
            forall|j: int| 0 <= j < lis@.len() ==> #[trigger] lis@[j] < items@.len(),
            i <= lis@.len(),
            (blocks_d(r@), *counter) == list_items(t, ks.take(i as int), c0),
        decreases lis@.len() - i,
    {
        let li = lis[i];
        let children = parse_inline_content(items, li);
        let id = generate_id(counter);
        let b = Block {
            id,
            kind: BlockKind::ListItem,
            align: BlockAlign::Left,
            attrs: Vec::new(),
            children,
        };
        let ghost before = r@;
        r.push(b);
        proof {
            lemma_blocks_d_push(before, b);
            assert(ks.take(i + 1).drop_last() =~= ks.take(i as int));
            assert(pairs_d(b.attrs@) =~= Seq::<(Seq<char>, Seq<char>)>::empty());
        }
        i = i + 1;
    }
    proof {
        assert(ks.take(i as int) =~= ks);
    }
    r
}

/// Node `k` is a checkbox: an `input` whose `type` is `checkbox`, in any
/// ASCII case.
pub open spec fn is_checkbox(t: Seq<ItemV>, k: int) -> bool {
    &&& is_element(t, k, "input"@)
    &&& attr_of(t, k, "type"@) matches Some(v)
    &&& v.len() == 8
    &&& matches_at_ci(v, "checkbox"@, 0)
}

/// The first checkbox from `a` to `b`.
pub open spec fn first_checkbox(t: Seq<ItemV>, a: int, b: int) -> Option<int>
    decreases b - a,
{
    if a >= b {
        None
    } else if is_checkbox(t, a) {
        Some(a)
    } else {
        first_checkbox(t, a + 1, b)
    }
}

/// Whether task item `li` is checked: its first checkbox has a `checked`
/// attribute.
pub open spec fn task_checked(t: Seq<ItemV>, li: int) -> bool {
    match first_checkbox(t, li + 1, subtree_end(t, li)) {
        Some(x) => attr_of(t, x, "checked"@) is Some,
        None => false,
    }
}

/// The inline content of a task item whose text is `text`: the trimmed
/// text as one plain run, or nothing where it is empty.
pub open spec fn task_children(text: Seq<char>) -> Seq<InlineD> {
    if trimmed(text).len() == 0 {
        Seq::empty()
    } else {
        seq![InlineD::Text { text: trimmed(text), marks: no_marks(), link: None }]
    }
}

/// Task item blocks for the `li` elements `lis`, numbered on from `c`.
pub open spec fn task_items(t: Seq<ItemV>, lis: Seq<int>, c: usize) -> (Seq<BlockD>, usize)
    decreases lis.len(),
{
    if lis.len() == 0 {
        (Seq::empty(), c)
    } else {
        let (bs, c1) = task_items(t, lis.drop_last(), c);
        let c2 = next_count(c1);
        (
            bs.push(
                BlockD {
                    id: id_text(c2),
                    kind: KindD::TaskItem { checked: task_checked(t, lis.last()) },
                    align: BlockAlign::Left,
                    attrs: Seq::empty(),
                    children: task_children(text_under(t, lis.last())),
                },
            ),
            c2,
        )
    }
}

/// Whether node `k` is a checkbox.
fn is_checkbox_exec(items: &Vec<HtmlItem>, k: usize) -> (r: bool)
    requires
        k < items@.len(),
    ensures
        r == is_checkbox(items_view(items@), k as int),
{
    if !element_is(items, k, "input") {
        return false;
    }
    match attr_exec(items, k, "type") {
        Some(v) => {
            if v.unicode_len() != 8 {
                return false;
            }
            match find(v.as_str(), "checkbox", true) {
                Some(i) => {
                    if i == 0 {
                        true
                    } else {
                        proof {
                            assert(!matches_at_ci(v@, "checkbox"@, 0));
                        }
                        false
                    }
                },
                None => false,
            }
        },
        None => false,
    }
}

/// Whether task item `li` is checked.
fn task_checked_exec(items: &Vec<HtmlItem>, li: usize) -> (r: bool)
    requires
        li < items@.len(),
    ensures
        r == task_checked(items_view(items@), li as int),
{
    let ghost t = items_view(items@);
    let end = subtree_end_exec(items, li);
    let mut k = li + 1;
    while k < end
        invariant
            t == items_view(items@),
            li + 1 <= k <= end <= items@.len(),
            end == subtree_end(t, li as int),
            first_checkbox(t, li + 1, end as int) == first_checkbox(t, k as int, end as int),
        decreases end - k,
    {
        if is_checkbox_exec(items, k) {
            return match attr_exec(items, k, "checked") {
                Some(_) => true,
                None => false,
            };
        }
        k = k + 1;
    }
    false
}

/// The task item blocks of task list element `k`: one per `li` under it.
pub fn parse_task_list_items(items: &Vec<HtmlItem>, k: usize, counter: &mut usize) -> (r: Vec<
    Block,
>)
    requires
        k < items@.len(),
    ensures
        (blocks_d(r@), *final(counter)) == task_items(
            items_view(items@),
            select_under(items_view(items@), k as int, "li"@),
            *old(counter),
        ),
{
    let ghost t = items_view(items@);
    let ghost c0 = *counter;
    let end = subtree_end_exec(items, k);
    let lis = select_range(items, k + 1, end, "li");
    let ghost ks = as_ints(lis@);
    let mut r: Vec<Block> = Vec::new();
    let mut i: usize = 0;
    proof {
        assert(ks.take(0) =~= Seq::<int>::empty());
    }
    while i < lis.len()
        invariant
            t == items_view(items@),
            ks == as_ints(lis@),
            forall|j: int| 0 <= j < lis@.len() ==> #[trigger] lis@[j] < items@.len(),
            i <= lis@.len(),
            (blocks_d(r@), *counter) == task_items(t, ks.take(i as int), c0),
        decreases lis@.len() - i,
    {
        let li = lis[i];
        let checked = task_checked_exec(items, li);
        let raw = text_under_exec(items, li);
        let text = trim(raw.as_str());
        let mut children: Vec<Inline> = Vec::new();
        if text.unicode_len() > 0 {
            children.push(Inline::Text { text, marks: MarkSet::default(), link: None });
        }
        proof {
            assert(inlines_d(children@) =~= task_children(text_under(t, ks[i as int])));
        }
        let id = generate_id(counter);
        let b = Block {
            id,
            kind: BlockKind::TaskItem { checked },
            align: BlockAlign::Left,
            attrs: Vec::new(),
            children,
        };
        let ghost before = r@;
        r.push(b);
        proof {
            lemma_blocks_d_push(before, b);
            assert(ks.take(i + 1).drop_last() =~= ks.take(i as int));
            assert(pairs_d(b.attrs@) =~= Seq::<(Seq<char>, Seq<char>)>::empty());
        }
        i = i + 1;
    }
    proof {
        assert(ks.take(i as int) =~= ks);
    }
    r
}

// ---------------------------------------------------------------------------
// Code blocks
// ---------------------------------------------------------------------------

/// The first white-space separated word of `s` from `a` on that starts with `p`.
pub open spec fn first_prefixed_word(s: Seq<char>, a: int, p: Seq<char>) -> Option<Seq<char>>
    decreases s.len() - a,
{
    if a < 0 || a >= s.len() {
        None
    } else if is_white(s[a]) {
        first_prefixed_word(s, a + 1, p)
    } else {
        let e = if word_end(s, a) <= a {
            a + 1
        } else if word_end(s, a) > s.len() {
            s.len() as int
        } else {
            word_end(s, a)
        };
        if matches_at(s.subrange(a, e), p, 0) {
            Some(s.subrange(a, e))
        } else {
            first_prefixed_word(s, e, p)
        }
    }
}

/// The language of code element `c`: the rest of its first class word that
/// starts with `language-`, else its `data-language` attribute.
pub open spec fn code_language(t: Seq<ItemV>, c: int) -> Option<Seq<char>> {
    match attr_of(t, c, "class"@) {
        Some(v) => match first_prefixed_word(v, 0, "language-"@) {
            Some(w) => Some(w.skip(9)),
            None => attr_of(t, c, "data-language"@),
        },
        None => attr_of(t, c, "data-language"@),
    }
}

/// The language and text of preformatted element `k`: those of the first
/// `code` under it, or no language and its own text.
pub open spec fn code_block(t: Seq<ItemV>, k: int) -> (Option<Seq<char>>, Seq<char>) {
    match first_under(t, k, "code"@) {
        Some(c) => (code_language(t, c), text_under(t, c)),
        None => (None, text_under(t, k)),
    }
}

/// The first white-space separated word of `s` that starts with `p`.
fn first_word_with_prefix(s: &str, p: &str) -> (r: Option<String>)
    ensures
        match r {
            Some(w) => first_prefixed_word(s@, 0, p@) == Some(w@) && matches_at(w@, p@, 0),
            None => first_prefixed_word(s@, 0, p@) is None,
        },
{
    let n = s.unicode_len();
    let mut a: usize = 0;
    while a < n
        invariant
            n == s@.len(),
            a <= n,
            first_prefixed_word(s@, 0, p@) == first_prefixed_word(s@, a as int, p@),
        decreases n - a,
    {
        if is_white_char(s.get_char(a)) {
            a = a + 1;
        } else {
            let mut e = a + 1;
            proof {
                assert(word_end(s@, a as int) == word_end(s@, e as int));
                lemma_word_end_after(s@, e as int);
            }
            while e < n && !is_white_char(s.get_char(e))
                invariant
                    n == s@.len(),
                    a < e <= n,
                    word_end(s@, a as int) == word_end(s@, e as int),
                decreases n - e,
            {
                e = e + 1;
            }
            let w = substring(s, a, e);
            if starts_with_text(w.as_str(), p) {
                return Some(w);
            }
            a = e;
        }
    }
    None
}

/// The language of code element `c`.
fn code_language_exec(items: &Vec<HtmlItem>, c: usize) -> (r: Option<String>)
    requires
        c < items@.len(),
    ensures
        opt_chars(r) == code_language(items_view(items@), c as int),
{
    match attr_exec(items, c, "class") {
        Some(v) => match first_word_with_prefix(v.as_str(), "language-") {
            Some(w) => {
                proof {
                    reveal_strlit("language-");
                }
                let n = w.unicode_len();
                Some(substring(w.as_str(), 9, n))
            },
            None => attr_exec(items, c, "data-language"),
        },
        None => attr_exec(items, c, "data-language"),
    }
}

/// The language and text of preformatted element `k`.
pub fn parse_code_block(items: &Vec<HtmlItem>, k: usize) -> (r: (Option<String>, String))
    requires
        k < items@.len(),
    ensures
        (opt_chars(r.0), r.1@) == code_block(items_view(items@), k as int),
{
    match first_under_exec(items, k, "code") {
        Some(c) => {
            let language = code_language_exec(items, c);
            let code = text_under_exec(items, c);
            (language, code)
        },
        None => (None, text_under_exec(items, k)),
    }
}

// ---------------------------------------------------------------------------
// Images and embeds
// ---------------------------------------------------------------------------

/// The caption of a figure: the text of its first `figcaption`.
pub open spec fn figure_caption(t: Seq<ItemV>, fig: Option<int>) -> Option<Seq<char>> {
    match fig {
        Some(f) => match first_under(t, f, "figcaption"@) {
            Some(c) => Some(text_under(t, c)),
            None => None,
        },
        None => None,
    }
}

/// The image block for `img` element `k`, inside figure `fig` if any,
/// numbered on from `c`: none where it has no `src`, and then no number is
/// taken.
pub open spec fn image_block(t: Seq<ItemV>, k: int, fig: Option<int>, c: usize) -> (
    Option<BlockD>,
    usize,
) {
    match attr_of(t, k, "src"@) {
        None => (None, c),
        Some(src) => {
            let c1 = next_count(c);
            (
                Some(
                    BlockD {
                        id: id_text(c1),
                        kind: KindD::Image {
                            src,
                            alt: attr_of(t, k, "alt"@),
                            title: attr_of(t, k, "title"@),
                            width: num_attr_of(t, k, "width"@),
                            height: num_attr_of(t, k, "height"@),
                            caption: figure_caption(t, fig),
                        },
                        align: BlockAlign::Left,
                        attrs: Seq::empty(),
                        children: Seq::empty(),
                    },
                ),
                c1,
            )
        },
    }
}

/// The image block for `img` element `k`, inside figure `fig` if any.
pub fn parse_image_block(
    items: &Vec<HtmlItem>,
    k: usize,
    fig: Option<usize>,
    counter: &mut usize,
) -> (r: Option<Block>)
    requires
        k < items@.len(),
        fig matches Some(f) ==> f < items@.len(),
    ensures
        ({
            let (b, c) = image_block(
                items_view(items@),
                k as int,
                match fig {
                    Some(f) => Some(f as int),
                    None => None,
                },
                *old(counter),
            );
            &&& *final(counter) == c
            &&& match r {
                Some(x) => b == Some(block_d(x)),
                None => b is None,
            }
        }),
{
    let src = match attr_exec(items, k, "src") {
        Some(s) => s,
        None => {
            return None;
        },
    };
    let alt = attr_exec(items, k, "alt");
    let title = attr_exec(items, k, "title");
    let width = num_attr_exec(items, k, "width");
    let height = num_attr_exec(items, k, "height");
    let caption = match fig {
        Some(f) => match first_under_exec(items, f, "figcaption") {
            Some(c) => Some(text_under_exec(items, c)),
            None => None,
        },
        None => None,
    };
    let id = generate_id(counter);
    let b = Block {
        id,
        kind: BlockKind::Image { src, alt, title, width, height, caption },
        align: BlockAlign::Left,
        attrs: Vec::new(),
        children: Vec::new(),
    };
    proof {
        assert(pairs_d(b.attrs@) =~= Seq::<(Seq<char>, Seq<char>)>::empty());
        assert(inlines_d(b.children@) =~= Seq::<InlineD>::empty());
    }
    Some(b)
}

/// The provider of an embed URL, as `detect_embed_provider` tells it.
pub open spec fn provider_of(url: Seq<char>) -> EmbedProvider {
    if contains(url, "youtube.com"@) || contains(url, "youtu.be"@) {
        EmbedProvider::Youtube
    } else if contains(url, "twitter.com"@) || contains(url, "x.com"@) {
        EmbedProvider::X
    } else {
        EmbedProvider::Generic
    }
}

/// The embed block for `iframe` element `k`, numbered on from `c`: none
/// where it has no `src`, and then no number is taken.
pub open spec fn embed_block(t: Seq<ItemV>, k: int, c: usize) -> (Option<BlockD>, usize) {
    match attr_of(t, k, "src"@) {
        None => (None, c),
        Some(url) => {
            let c1 = next_count(c);
            (
                Some(
                    BlockD {
                        id: id_text(c1),
                        kind: KindD::Embed {
                            provider: provider_of(url),
                            url,
                            title: attr_of(t, k, "title"@),
                            width: num_attr_of(t, k, "width"@),
                            height: num_attr_of(t, k, "height"@),
                        },
                        align: BlockAlign::Left,
                        attrs: Seq::empty(),
                        children: Seq::empty(),
                    },
                ),
                c1,
            )
        },
    }
}

/// The embed block for `iframe` element `k`.
pub fn parse_embed_block(items: &Vec<HtmlItem>, k: usize, counter: &mut usize) -> (r: Option<Block>)
    requires
        k < items@.len(),
    ensures
        ({
            let (b, c) = embed_block(items_view(items@), k as int, *old(counter));
            &&& *final(counter) == c
            &&& match r {
                Some(x) => b == Some(block_d(x)),
                None => b is None,
            }
        }),
{
    let url = match attr_exec(items, k, "src") {
        Some(s) => s,
        None => {
            return None;
        },
    };
    let title = attr_exec(items, k, "title");
    let width = num_attr_exec(items, k, "width");
    let height = num_attr_exec(items, k, "height");
    let provider = detect_embed_provider(url.as_str());
    let id = generate_id(counter);
    let b = Block {
        id,
        kind: BlockKind::Embed { provider, url, title, width, height },
        align: BlockAlign::Left,
        attrs: Vec::new(),
        children: Vec::new(),
    };
    proof {
        assert(pairs_d(b.attrs@) =~= Seq::<(Seq<char>, Seq<char>)>::empty());
        assert(inlines_d(b.children@) =~= Seq::<InlineD>::empty());
    }
    Some(b)
}

// ---------------------------------------------------------------------------
// Tables
// ---------------------------------------------------------------------------

/// The inline contents of the cells `cells`.
pub open spec fn cell_contents(t: Seq<ItemV>, cells: Seq<int>) -> Seq<Seq<InlineD>> {
    cells.map_values(|k: int| inline_content(t, k))
}

/// The alignments of the cells `cells`.
pub open spec fn cell_aligns(t: Seq<ItemV>, cells: Seq<int>) -> Seq<TableAlign> {
    cells.map_values(|k: int| cell_alignment(t, k))
}

/// The header cells of table `k`: the `th` under the first `tr` of its
/// first `thead`.
pub open spec fn head_cells(t: Seq<ItemV>, k: int) -> Seq<int> {
    match first_under(t, k, "thead"@) {
        Some(h) => match first_under(t, h, "tr"@) {
            Some(r) => select_under(t, r, "th"@),
            None => Seq::empty(),
        },
        None => Seq::empty(),
    }
}

/// The data rows of the row elements `trs`: the contents of their `td`
/// cells, rows without any left out.
pub open spec fn data_rows(t: Seq<ItemV>, trs: Seq<int>) -> Seq<Seq<Seq<InlineD>>>
    decreases trs.len(),
{
    if trs.len() == 0 {
        Seq::empty()
    } else {
        let rest = data_rows(t, trs.drop_last());
        let cells = select_under(t, trs.last(), "td"@);
        if cells.len() > 0 {
            rest.push(cell_contents(t, cells))
        } else {
            rest
        }
    }
}

/// The data rows of table `k`: those of the `tr` under its first `tbody`.
pub open spec fn body_rows(t: Seq<ItemV>, k: int) -> Seq<Seq<Seq<InlineD>>> {
    match first_under(t, k, "tbody"@) {
        Some(b) => data_rows(t, select_under(t, b, "tr"@)),
        None => Seq::empty(),
    }
}

/// The headers, rows and column alignments read from table `k`. Where its
/// head and body give neither headers nor rows, its `tr` are read instead:
/// the first is the header row where it has `th` cells.
pub open spec fn table_parts(t: Seq<ItemV>, k: int) -> (
    Seq<Seq<InlineD>>,
    Seq<Seq<Seq<InlineD>>>,
    Seq<TableAlign>,
) {
    let hc = head_cells(t, k);
    let rows = body_rows(t, k);
    if hc.len() == 0 && rows.len() == 0 {
        let trs = select_under(t, k, "tr"@);
        if trs.len() > 0 && select_under(t, trs[0], "th"@).len() > 0 {
            let ths = select_under(t, trs[0], "th"@);
            (cell_contents(t, ths), data_rows(t, trs.drop_first()), cell_aligns(t, ths))
        } else {
            (Seq::empty(), data_rows(t, trs), Seq::empty())
        }
    } else {
        (cell_contents(t, hc), rows, cell_aligns(t, hc))
    }
}

/// The number of cells of the longest row.
pub open spec fn max_row_len(rows: Seq<Seq<Seq<InlineD>>>) -> nat
    decreases rows.len(),
{
    if rows.len() == 0 {
        0
    } else {
        let m = max_row_len(rows.drop_last());
        if rows.last().len() > m {
            rows.last().len()
        } else {
            m
        }
    }
}

/// `aligns` filled up with left alignments to `n` columns.
pub open spec fn pad_aligns(aligns: Seq<TableAlign>, n: nat) -> Seq<TableAlign> {
    if aligns.len() >= n {
        aligns
    } else {
        aligns + Seq::new((n - aligns.len()) as nat, |i: int| TableAlign::Left)
    }
}

/// The table block for table element `k`, numbered after the counter `c`.
pub open spec fn table_block(t: Seq<ItemV>, k: int, c: usize) -> (BlockD, usize) {
    let (headers, rows, aligns) = table_parts(t, k);
    let n = if headers.len() > max_row_len(rows) {
        headers.len()
    } else {
        max_row_len(rows)
    };
    let c1 = next_count(c);
    (
        BlockD {
            id: id_text(c1),
            kind: KindD::Table { headers, rows, column_align: pad_aligns(aligns, n) },
            align: BlockAlign::Left,
            attrs: Seq::empty(),
            children: Seq::empty(),
        },
        c1,
    )
}

/// The inline contents of the cells `cells`.
fn parse_cells(items: &Vec<HtmlItem>, cells: &Vec<usize>) -> (r: Vec<Vec<Inline>>)
    requires
        forall|j: int| 0 <= j < cells@.len() ==> #[trigger] cells@[j] < items@.len(),
    ensures
        cells_d(r@) == cell_contents(items_view(items@), as_ints(cells@)),
{
    let ghost t = items_view(items@);
    let mut r: Vec<Vec<Inline>> = Vec::new();
    let mut i: usize = 0;
    while i < cells.len()
        invariant
            t == items_view(items@),
            forall|j: int| 0 <= j < cells@.len() ==> #[trigger] cells@[j] < items@.len(),
            i <= cells@.len(),
            cells_d(r@) == cell_contents(t, as_ints(cells@).take(i as int)),
        decreases cells@.len() - i,
    {
        let content = parse_inline_content(items, cells[i]);
        let ghost before = r@;
        r.push(content);
        proof {
            assert(as_ints(cells@).take(i + 1) =~= as_ints(cells@).take(i as int).push(
                cells@[i as int] as int,
            ));
            assert(cells_d(r@) =~= cells_d(before).push(inlines_d(content@)));
            assert(cells_d(r@) =~= cell_contents(t, as_ints(cells@).take(i + 1)));
        }
        i = i + 1;
    }
    proof {
        assert(as_ints(cells@).take(i as int) =~= as_ints(cells@));
    }
    r
}

/// The alignments of the cells `cells`.
fn parse_cell_aligns(items: &Vec<HtmlItem>, cells: &Vec<usize>) -> (r: Vec<TableAlign>)
    requires
        forall|j: int| 0 <= j < cells@.len() ==> #[trigger] cells@[j] < items@.len(),
    ensures
        r@ == cell_aligns(items_view(items@), as_ints(cells@)),
{
    let ghost t = items_view(items@);
    let mut r: Vec<TableAlign> = Vec::new();
    let mut i: usize = 0;
    while i < cells.len()
        invariant
            t == items_view(items@),
            forall|j: int| 0 <= j < cells@.len() ==> #[trigger] cells@[j] < items@.len(),
            i <= cells@.len(),
            r@ == cell_aligns(t, as_ints(cells@).take(i as int)),
        decreases cells@.len() - i,
    {
        r.push(parse_cell_alignment(items, cells[i]));
        proof {
            assert(r@ =~= cell_aligns(t, as_ints(cells@).take(i + 1)));
        }
        i = i + 1;
    }
    proof {
        assert(as_ints(cells@).take(i as int) =~= as_ints(cells@));
    }
    r
}

/// The data rows of the row elements `trs` from position `from` on.
fn parse_data_rows(items: &Vec<HtmlItem>, trs: &Vec<usize>, from: usize) -> (r: Vec<Vec<Vec<Inline>>>)
    requires
        from <= trs@.len(),
        forall|j: int| 0 <= j < trs@.len() ==> #[trigger] trs@[j] < items@.len(),
    ensures
        rows_d(r@) == data_rows(items_view(items@), as_ints(trs@).skip(from as int)),
{
    let ghost t = items_view(items@);
    let ghost ks = as_ints(trs@);
    let mut r: Vec<Vec<Vec<Inline>>> = Vec::new();
    let mut i: usize = from;
    proof {
        assert(ks.subrange(from as int, from as int) =~= Seq::<int>::empty());
        assert(rows_d(r@) =~= Seq::<Seq<Seq<InlineD>>>::empty());
    }
    while i < trs.len()
        invariant
            t == items_view(items@),
            ks == as_ints(trs@),
            forall|j: int| 0 <= j < trs@.len() ==> #[trigger] trs@[j] < items@.len(),
            from <= i <= trs@.len(),
            rows_d(r@) == data_rows(t, ks.subrange(from as int, i as int)),
        decreases trs@.len() - i,
    {
        let tr = trs[i];
        let end = subtree_end_exec(items, tr);
        let tds = select_range(items, tr + 1, end, "td");
        let ghost before = r@;
        proof {
            assert(ks.subrange(from as int, i + 1).drop_last() =~= ks.subrange(from as int, i as int));
            assert(ks.subrange(from as int, i + 1).last() == tr as int);
        }
        if tds.len() > 0 {
            let cells = parse_cells(items, &tds);
            r.push(cells);
            proof {
                assert(rows_d(r@) =~= rows_d(before).push(cells_d(cells@)));
            }
        }
        i = i + 1;
    }
    proof {
        assert(ks.subrange(from as int, i as int) =~= ks.skip(from as int));
    }
    r
}

/// The number of cells of the longest row.
fn max_row_len_exec(rows: &Vec<Vec<Vec<Inline>>>) -> (r: usize)
    ensures
        r == max_row_len(rows_d(rows@)),
{
    let ghost rd = rows_d(rows@);
    let mut m: usize = 0;
    let mut i: usize = 0;
    proof {
        assert(rd.take(0) =~= Seq::<Seq<Seq<InlineD>>>::empty());
    }
    while i < rows.len()
        invariant
            rd == rows_d(rows@),
            i <= rows@.len(),
            m == max_row_len(rd.take(i as int)),
        decreases rows@.len() - i,
    {
        proof {
            assert(rd.take(i + 1).drop_last() =~= rd.take(i as int));
            assert(rd.take(i + 1).last().len() == rows@[i as int]@.len());
        }
        if rows[i].len() > m {
            m = rows[i].len();
        }
        i = i + 1;
    }
    proof {
        assert(rd.take(i as int) =~= rd);
    }
    m
}

/// The table block for table element `k`.
pub fn parse_table_block(items: &Vec<HtmlItem>, k: usize, counter: &mut usize) -> (r: Block)
    requires
        k < items@.len(),
    ensures
        (block_d(r), *final(counter)) == table_block(items_view(items@), k as int, *old(counter)),
{
    let ghost t = items_view(items@);
    let mut headers: Vec<Vec<Inline>> = Vec::new();
    let mut column_align: Vec<TableAlign> = Vec::new();
    let mut rows: Vec<Vec<Vec<Inline>>> = Vec::new();
    let mut head_found = false;
    match first_under_exec(items, k, "thead") {
        Some(h) => match first_under_exec(items, h, "tr") {
            Some(tr) => {
                let end = subtree_end_exec(items, tr);
                let ths = select_range(items, tr + 1, end, "th");
                headers = parse_cells(items, &ths);
                column_align = parse_cell_aligns(items, &ths);
                head_found = ths.len() > 0;
                proof {
                    assert(as_ints(ths@) == head_cells(t, k as int));
                }
            },
            None => {},
        },
        None => {},
    }
    proof {
        if !head_found {
            assert(head_cells(t, k as int).len() == 0);
            assert(cells_d(headers@) =~= cell_contents(t, head_cells(t, k as int)));
            assert(column_align@ =~= cell_aligns(t, head_cells(t, k as int)));
        }
    }
    match first_under_exec(items, k, "tbody") {
        Some(b) => {
            let end = subtree_end_exec(items, b);
            let trs = select_range(items, b + 1, end, "tr");
            rows = parse_data_rows(items, &trs, 0);
            proof {
                assert(as_ints(trs@).skip(0) =~= as_ints(trs@));
            }
        },
        None => {
            proof {
                assert(rows_d(rows@) =~= Seq::<Seq<Seq<InlineD>>>::empty());
            }
        },
    }
    proof {
        assert(cells_d(headers@) == cell_contents(t, head_cells(t, k as int)));
        assert(rows_d(rows@) == body_rows(t, k as int));
        assert(column_align@ == cell_aligns(t, head_cells(t, k as int)));
        assert(cells_d(headers@).len() == headers@.len());
        assert(rows_d(rows@).len() == rows@.len());
    }
    if !head_found && rows.len() == 0 {
        let end = subtree_end_exec(items, k);
        let trs = select_range(items, k + 1, end, "tr");
        let ghost ks = as_ints(trs@);
        let mut first_is_head = false;
        if trs.len() > 0 {
            let tr0 = trs[0];
            let end0 = subtree_end_exec(items, tr0);
            let ths = select_range(items, tr0 + 1, end0, "th");
            if ths.len() > 0 {
                headers = parse_cells(items, &ths);
                column_align = parse_cell_aligns(items, &ths);
                first_is_head = true;
            }
        }
        if first_is_head {
            rows = parse_data_rows(items, &trs, 1);
            proof {
                assert(ks.skip(1) =~= ks.drop_first());
            }
        } else {
            rows = parse_data_rows(items, &trs, 0);
            proof {
                assert(ks.skip(0) =~= ks);
            }
        }
    }
    proof {
        let (h, rw, al) = table_parts(t, k as int);
        assert(cells_d(headers@) == h);
        assert(rows_d(rows@) == rw);
        assert(column_align@ == al);
    }
    let longest = max_row_len_exec(&rows);
    let n = if headers.len() > longest {
        headers.len()
    } else {
        longest
    };
    let ghost aligns0 = column_align@;
    while column_align.len() < n
        invariant
            aligns0.len() <= column_align@.len() <= n || aligns0.len() >= n && column_align@ == aligns0,
            column_align@.len() <= n ==> column_align@ == aligns0 + Seq::new(
                (column_align@.len() - aligns0.len()) as nat,
                |i: int| TableAlign::Left,
            ),
            column_align@.len() > n ==> column_align@ == aligns0,
        decreases n - column_align@.len(),
    {
        column_align.push(TableAlign::Left);
        proof {
            assert(column_align@ =~= aligns0 + Seq::new(
                (column_align@.len() - aligns0.len()) as nat,
                |i: int| TableAlign::Left,
            ));
        }
    }
    proof {
        if aligns0.len() >= n {
            assert(column_align@ == aligns0);
        } else {
            assert(column_align@ =~= pad_aligns(aligns0, n as nat));
        }
        assert(cells_d(headers@).len() == headers@.len());
    }
    let id = generate_id(counter);
    let b = Block {
        id,
        kind: BlockKind::Table { headers, rows, column_align },
        align: BlockAlign::Left,
        attrs: Vec::new(),
        children: Vec::new(),
    };
    proof {
        assert(pairs_d(b.attrs@) =~= Seq::<(Seq<char>, Seq<char>)>::empty());
        assert(inlines_d(b.children@) =~= Seq::<InlineD>::empty());
    }
    b
}

// ---------------------------------------------------------------------------
// Blocks
// ---------------------------------------------------------------------------

/// The block for block element `k`, numbered on from `c` (a number is taken
/// for it whatever it turns out to be; tables, images and embeds take one
/// more), with the counter after it; none for an element that makes no block.
pub open spec fn element_block(t: Seq<ItemV>, k: int, c: usize) -> (Option<BlockD>, usize) {
    let c1 = next_count(c);
    let id = id_text(c1);
    let align = alignment(t, k);
    let attrs = data_attrs(t, k);
    let n = elem_name(t, k);
    if n == "p"@ {
        (Some(BlockD { id, kind: KindD::Paragraph, align, attrs, children: inline_content(t, k) }), c1)
    } else if n == "h1"@ {
        (Some(BlockD { id, kind: KindD::Heading { level: 1 }, align, attrs, children: inline_content(t, k) }), c1)
    } else if n == "h2"@ {
        (Some(BlockD { id, kind: KindD::Heading { level: 2 }, align, attrs, children: inline_content(t, k) }), c1)
    } else if n == "h3"@ {
        (Some(BlockD { id, kind: KindD::Heading { level: 3 }, align, attrs, children: inline_content(t, k) }), c1)
    } else if n == "h4"@ {
        (Some(BlockD { id, kind: KindD::Heading { level: 4 }, align, attrs, children: inline_content(t, k) }), c1)
    } else if n == "h5"@ {
        (Some(BlockD { id, kind: KindD::Heading { level: 5 }, align, attrs, children: inline_content(t, k) }), c1)
    } else if n == "h6"@ {
        (Some(BlockD { id, kind: KindD::Heading { level: 6 }, align, attrs, children: inline_content(t, k) }), c1)
    } else if n == "ul"@ {
        if has_class(t, k, "task-list"@) {
            let (items, c2) = task_items(t, select_under(t, k, "li"@), c1);
            (Some(BlockD { id, kind: KindD::TaskList { items }, align, attrs, children: Seq::empty() }), c2)
        } else {
            let (items, c2) = list_items(t, select_under(t, k, "li"@), c1);
            (Some(BlockD { id, kind: KindD::BulletList { items }, align, attrs, children: Seq::empty() }), c2)
        }
    } else if n == "ol"@ {
        let (items, c2) = list_items(t, select_under(t, k, "li"@), c1);
        (Some(BlockD { id, kind: KindD::OrderedList { items }, align, attrs, children: Seq::empty() }), c2)
    } else if n == "blockquote"@ {
        (Some(BlockD { id, kind: KindD::Quote, align, attrs, children: inline_content(t, k) }), c1)
    } else if n == "pre"@ {
        let (language, code) = code_block(t, k);
        (Some(BlockD { id, kind: KindD::CodeBlock { language, code }, align, attrs, children: Seq::empty() }), c1)
    } else if n == "hr"@ {
        (Some(BlockD { id, kind: KindD::Rule, align, attrs, children: Seq::empty() }), c1)
    } else if n == "table"@ {
        let (b, c2) = table_block(t, k, c1);
        (Some(b), c2)
    } else if n == "figure"@ {
        match first_under(t, k, "img"@) {
            Some(img) => image_block(t, img, Some(k), c1),
            None => match first_under(t, k, "iframe"@) {
                Some(f) => embed_block(t, f, c1),
                None => (None, c1),
            },
        }
    } else if n == "img"@ {
        image_block(t, k, None, c1)
    } else {
        (None, c1)
    }
}

/// The block for block element `k`.
pub fn parse_element_to_block(items: &Vec<HtmlItem>, k: usize, counter: &mut usize) -> (r: Option<
    Block,
>)
    requires
        k < items@.len(),
    ensures
        ({
            let (b, c) = element_block(items_view(items@), k as int, *old(counter));
            &&& *final(counter) == c
            &&& match r {
                Some(x) => b == Some(block_d(x)),
                None => b is None,
            }
        }),
{
    let ghost t = items_view(items@);
    let ghost c0 = *counter;
    let align = parse_alignment(items, k);
    let attrs = parse_attributes(items, k);
    let id = generate_id(counter);
    proof {
        assert(t[k as int] == crate::html::item_view(items@[k as int]));
        if !(t[k as int].node is Element) {
            assert(elem_name(t, k as int) == Seq::<char>::empty());
            reveal_strlit("p");
            reveal_strlit("h1");
            reveal_strlit("h2");
            reveal_strlit("h3");
            reveal_strlit("h4");
            reveal_strlit("h5");
            reveal_strlit("h6");
            reveal_strlit("ul");
            reveal_strlit("ol");
            reveal_strlit("blockquote");
            reveal_strlit("pre");
            reveal_strlit("hr");
            reveal_strlit("table");
            reveal_strlit("figure");
            reveal_strlit("img");
        }
    }
    if element_is(items, k, "p") {
        let children = parse_inline_content(items, k);
        Some(Block { id, kind: BlockKind::Paragraph, align, attrs, children })
    } else if element_is(items, k, "h1") {
        let children = parse_inline_content(items, k);
        Some(Block { id, kind: BlockKind::Heading { level: 1 }, align, attrs, children })
    } else if element_is(items, k, "h2") {
        let children = parse_inline_content(items, k);
        Some(Block { id, kind: BlockKind::Heading { level: 2 }, align, attrs, children })
    } else if element_is(items, k, "h3") {
        let children = parse_inline_content(items, k);
        Some(Block { id, kind: BlockKind::Heading { level: 3 }, align, attrs, children })
    } else if element_is(items, k, "h4") {
        let children = parse_inline_content(items, k);
        Some(Block { id, kind: BlockKind::Heading { level: 4 }, align, attrs, children })
    } else if element_is(items, k, "h5") {
        let children = parse_inline_content(items, k);
        Some(Block { id, kind: BlockKind::Heading { level: 5 }, align, attrs, children })
    } else if element_is(items, k, "h6") {
        let children = parse_inline_content(items, k);
        Some(Block { id, kind: BlockKind::Heading { level: 6 }, align, attrs, children })
    } else if element_is(items, k, "ul") {
        if has_class_exec(items, k, "task-list") {
            let list = parse_task_list_items(items, k, counter);
            let b = Block { id, kind: BlockKind::TaskList { items: list }, align, attrs, children: Vec::new() };
            proof {
                assert(inlines_d(b.children@) =~= Seq::<InlineD>::empty());
            }
            Some(b)
        } else {
            let list = parse_list_items(items, k, counter);
            let b = Block { id, kind: BlockKind::BulletList { items: list }, align, attrs, children: Vec::new() };
            proof {
                assert(inlines_d(b.children@) =~= Seq::<InlineD>::empty());
            }
            Some(b)
        }
    } else if element_is(items, k, "ol") {
        let list = parse_list_items(items, k, counter);
        let b = Block { id, kind: BlockKind::OrderedList { items: list }, align, attrs, children: Vec::new() };
        proof {
            assert(inlines_d(b.children@) =~= Seq::<InlineD>::empty());
        }
        Some(b)
    } else if element_is(items, k, "blockquote") {
        let children = parse_inline_content(items, k);
        Some(Block { id, kind: BlockKind::Quote, align, attrs, children })
    } else if element_is(items, k, "pre") {
        let (language, code) = parse_code_block(items, k);
        let b = Block { id, kind: BlockKind::CodeBlock { language, code }, align, attrs, children: Vec::new() };
        proof {
            assert(inlines_d(b.children@) =~= Seq::<InlineD>::empty());
        }
        Some(b)
    } else if element_is(items, k, "hr") {
        let b = Block { id, kind: BlockKind::Rule, align, attrs, children: Vec::new() };
        proof {
            assert(inlines_d(b.children@) =~= Seq::<InlineD>::empty());
        }
        Some(b)
    } else if element_is(items, k, "table") {
        Some(parse_table_block(items, k, counter))
    } else if element_is(items, k, "figure") {
        match first_under_exec(items, k, "img") {
            Some(img) => parse_image_block(items, img, Some(k), counter),
            None => match first_under_exec(items, k, "iframe") {
                Some(f) => parse_embed_block(items, f, counter),
                None => None,
            },
        }
    } else if element_is(items, k, "img") {
        parse_image_block(items, k, None, counter)
    } else {
        None
    }
}

// ---------------------------------------------------------------------------
// Documents
// ---------------------------------------------------------------------------

/// The tags whose elements become blocks; images that stand outside any
/// figure become blocks too.
pub open spec fn block_tags() -> Seq<Seq<char>> {
    seq!["p"@, "h1"@, "h2"@, "h3"@, "h4"@, "h5"@, "h6"@, "ul"@, "ol"@, "blockquote"@, "pre"@, "hr"@, "table"@, "figure"@]
}

/// Node `k` lies inside an element named `tag`.
pub open spec fn inside(t: Seq<ItemV>, k: int, tag: Seq<char>) -> bool {
    exists|j: int| 0 <= j < k && #[trigger] is_element(t, j, tag) && subtree_end(t, j) > k
}

/// Node `k` is an element that makes a block: one with a block tag, or an
/// image that lies inside no figure.
pub open spec fn is_block_node(t: Seq<ItemV>, k: int) -> bool {
    (exists|s: int| 0 <= s < 14 && #[trigger] is_element(t, k, block_tags()[s])) || (is_element(
        t,
        k,
        "img"@,
    ) && !inside(t, k, "figure"@))
}

/// The nodes before `b` that make blocks, in document order.
pub open spec fn block_nodes(t: Seq<ItemV>, b: int) -> Seq<int>
    decreases b,
{
    if b <= 0 {
        Seq::empty()
    } else {
        block_nodes(t, b - 1) + if is_block_node(t, b - 1) {
            seq![b - 1]
        } else {
            Seq::empty()
        }
    }
}

/// The blocks of the elements `ks`, numbered on from `c`, with the counter
/// after them; elements that make no block are left out.
pub open spec fn blocks_for(t: Seq<ItemV>, ks: Seq<int>, c: usize) -> (Seq<BlockD>, usize)
    decreases ks.len(),
{
    if ks.len() == 0 {
        (Seq::empty(), c)
    } else {
        let (bs, c1) = blocks_for(t, ks.drop_last(), c);
        let (ob, c2) = element_block(t, ks.last(), c1);
        (
            match ob {
                Some(b) => bs.push(b),
                None => bs,
            },
            c2,
        )
    }
}

/// The blocks of the block elements of a fragment, in document order,
/// numbered from 1, with the counter after them.
pub open spec fn doc_blocks(t: Seq<ItemV>) -> (Seq<BlockD>, usize) {
    blocks_for(t, block_nodes(t, t.len() as int), 0)
}

/// The blocks of a parsed fragment: those of its block elements in document
/// order, numbered from 1; one empty paragraph where there are none.
pub open spec fn parsed_doc(t: Seq<ItemV>) -> Seq<BlockD> {
    let (bs, c) = doc_blocks(t);
    if bs.len() == 0 {
        seq![
            BlockD {
                id: id_text(next_count(c)),
                kind: KindD::Paragraph,
                align: BlockAlign::Left,
                attrs: Seq::empty(),
                children: Seq::empty(),
            },
        ]
    } else {
        bs
    }
}

/// The block tag numbered `s`.
fn block_tag(s: usize) -> (r: &'static str)
    requires
        s < 14,
    ensures
        r@ == block_tags()[s as int],
{
    if s == 0 {
        "p"
    } else if s == 1 {
        "h1"
    } else if s == 2 {
        "h2"
    } else if s == 3 {
        "h3"
    } else if s == 4 {
        "h4"
    } else if s == 5 {
        "h5"
    } else if s == 6 {
        "h6"
    } else if s == 7 {
        "ul"
    } else if s == 8 {
        "ol"
    } else if s == 9 {
        "blockquote"
    } else if s == 10 {
        "pre"
    } else if s == 11 {
        "hr"
    } else if s == 12 {
        "table"
    } else if s == 13 {
        "figure"
    } else {
        "figure"
    }
}

/// Whether node `k` lies inside an element named `tag`.
fn inside_exec(items: &Vec<HtmlItem>, k: usize, tag: &str) -> (r: bool)
    requires
        k < items@.len(),
    ensures
        r == inside(items_view(items@), k as int, tag@),
{
    let ghost t = items_view(items@);
    let mut j: usize = 0;
    while j < k
        invariant
            t == items_view(items@),
            j <= k < items@.len(),
            forall|i: int| 0 <= i < j ==> !(#[trigger] is_element(t, i, tag@) && subtree_end(t, i) > k),
        decreases k - j,
    {
        if element_is(items, j, tag) {
            if subtree_end_exec(items, j) > k {
                return true;
            }
        }
        j = j + 1;
    }
    false
}

/// Whether node `k` has one of the block tags.
fn has_block_tag(items: &Vec<HtmlItem>, k: usize) -> (r: bool)
    requires
        k < items@.len(),
    ensures
        r == exists|s: int| 0 <= s < 14 && #[trigger] is_element(items_view(items@), k as int, block_tags()[s]),
{
    let ghost t = items_view(items@);
    let mut s: usize = 0;
    while s < 14
        invariant
            t == items_view(items@),
            k < items@.len(),
            s <= 14,
            forall|q: int| 0 <= q < s ==> !#[trigger] is_element(t, k as int, block_tags()[q]),
        decreases 14 - s,
    {
        if element_is(items, k, block_tag(s)) {
            return true;
        }
        s = s + 1;
    }
    false
}

/// The nodes that make blocks, in document order.
fn block_nodes_exec(items: &Vec<HtmlItem>) -> (r: Vec<usize>)
    ensures
        as_ints(r@) == block_nodes(items_view(items@), items@.len() as int),
        forall|j: int| 0 <= j < r@.len() ==> #[trigger] r@[j] < items@.len(),
{
    let ghost t = items_view(items@);
    let mut r: Vec<usize> = Vec::new();
    let mut k: usize = 0;
    proof {
        assert(as_ints(r@) =~= block_nodes(t, 0));
    }
    while k < items.len()
        invariant
            t == items_view(items@),
            k <= items@.len(),
            as_ints(r@) == block_nodes(t, k as int),
            forall|j: int| 0 <= j < r@.len() ==> #[trigger] r@[j] < k,
        decreases items@.len() - k,
    {
        let hit = has_block_tag(items, k) || (element_is(items, k, "img") && !inside_exec(items, k, "figure"));
        let ghost before = r@;
        if hit {
            r.push(k);
        }
        proof {
            assert(hit == is_block_node(t, k as int));
            assert(as_ints(r@) =~= as_ints(before) + if hit {
                seq![k as int]
            } else {
                Seq::empty()
            });
        }
        k = k + 1;
    }
    r
}

/// Parses the nodes of a fragment into a document.
pub fn parse_items(items: &Vec<HtmlItem>) -> (r: Doc)
    ensures
        blocks_d(r.blocks@) == parsed_doc(items_view(items@)),
{
    let ghost t = items_view(items@);
    let mut blocks: Vec<Block> = Vec::new();
    let mut counter: usize = 0;
    let ks = block_nodes_exec(items);
    let ghost kv = as_ints(ks@);
    let mut i: usize = 0;
    proof {
        assert(kv.take(0) =~= Seq::<int>::empty());
        assert(blocks_d(blocks@) =~= Seq::<BlockD>::empty());
    }
    while i < ks.len()
        invariant
            t == items_view(items@),
            kv == as_ints(ks@),
            kv == block_nodes(t, t.len() as int),
            t.len() == items@.len(),
            forall|j: int| 0 <= j < ks@.len() ==> #[trigger] ks@[j] < items@.len(),
            i <= ks@.len(),
            blocks_d(blocks@) == blocks_for(t, kv.take(i as int), 0).0,
            counter == blocks_for(t, kv.take(i as int), 0).1,
        decreases ks@.len() - i,
    {
        let ghost before = blocks@;
        let ghost prev = blocks_for(t, kv.take(i as int), 0);
        proof {
            assert(kv.take(i + 1).drop_last() =~= kv.take(i as int));
            assert(kv.take(i + 1).last() == ks@[i as int] as int);
        }
        match parse_element_to_block(items, ks[i], &mut counter) {
            Some(b) => {
                blocks.push(b);
                proof {
                    lemma_blocks_d_push(before, b);
                    assert(blocks_d(blocks@) =~= prev.0.push(block_d(b)));
                }
            },
            None => {},
        }
        i = i + 1;
    }
    proof {
        assert(kv.take(i as int) =~= kv);
    }
    if blocks.len() == 0 {
        let id = generate_id(&mut counter);
        let b = Block {
            id,
            kind: BlockKind::Paragraph,
            align: BlockAlign::Left,
            attrs: Vec::new(),
            children: Vec::new(),
        };
        proof {
            assert(pairs_d(b.attrs@) =~= Seq::<(Seq<char>, Seq<char>)>::empty());
            assert(inlines_d(b.children@) =~= Seq::<InlineD>::empty());
            lemma_blocks_d(blocks@);
            lemma_blocks_d_push(blocks@, b);
        }
        blocks.push(b);
        proof {
            assert(blocks_d(blocks@) =~= parsed_doc(t));
        }
    }
    Doc { blocks }
}

/// Parses editor HTML into a document: each paragraph, heading, list,
/// quote, code block, rule, table, figure and standalone image becomes a
/// block, in document order; an empty fragment gives one empty paragraph.
pub fn parse_html(html: &str) -> (r: Doc)
    ensures
        blocks_d(r.blocks@) == parsed_doc(fragment_items(html@)),
{
    let items = parse_fragment(html);
    parse_items(&items)
}

/// A parsed document always has a block: an empty fragment, or one without
/// block elements, gives a single empty paragraph.
pub proof fn law_parsed_doc_nonempty(t: Seq<ItemV>)
    ensures
        parsed_doc(t).len() >= 1,
        doc_blocks(t).0.len() == 0 ==> parsed_doc(t)[0].kind == KindD::Paragraph
            && parsed_doc(t)[0].children.len() == 0,
{
}

/// The digit written for `k` has the value `k`.
proof fn lemma_digit_char_value(k: nat)
    requires
        k < 10,
    ensures
        is_digit(crate::escape::digit_char(k)),
        crate::escape::digit_char(k) as nat - '0' as nat == k,
{
}

/// The decimal digits of a number are digits.
proof fn lemma_decimal_digits(n: nat)
    ensures
        decimal(n).len() > 0,
        forall|i: int| 0 <= i < decimal(n).len() ==> is_digit(#[trigger] decimal(n)[i]),
        digits_value(decimal(n)) == n,
    decreases n,
{
    lemma_digit_char_value(n % 10);
    if n < 10 {
        let d = decimal(n);
        assert(d.drop_last() =~= Seq::<char>::empty());
        assert(digits_value(d.drop_last()) == 0);
        assert(digits_value(d) == digits_value(d.drop_last()) * 10 + (d.last() as nat - '0' as nat) as nat);
    } else {
        lemma_decimal_digits(n / 10);
        let d = decimal(n);
        assert(d.drop_last() =~= decimal(n / 10));
        assert(d.last() == crate::escape::digit_char(n % 10));
        assert(digits_value(d) == digits_value(d.drop_last()) * 10 + (d.last() as nat - '0' as nat) as nat);
        assert(digits_value(d) == (n / 10) * 10 + n % 10);
        assert forall|i: int| 0 <= i < d.len() implies is_digit(#[trigger] d[i]) by {
            if i < d.len() - 1 {
                assert(d[i] == decimal(n / 10)[i]);
            }
        }
    }
}

/// A number written as the renderer writes it (`decimal`) reads back as the
/// same number where the parser reads a numeric attribute.
pub proof fn law_decimal_parses_back(n: u32)
    ensures
        parsed_u32(decimal(n as nat)) == Some(n),
{
    lemma_decimal_digits(n as nat);
    let d = decimal(n as nat);
    assert(is_digit(d[0]));
    assert(unsigned_digits(d) == d);
}

/// Block ids are unique: different counter values give different ids, and
/// each id drawn moves the counter on by one (wrapping only past
/// `usize::MAX`).
pub proof fn law_block_ids_unique(a: usize, b: usize)
    ensures
        a != b ==> id_text(a) != id_text(b),
        a < usize::MAX ==> next_count(a) == a + 1,
{
    if a != b && id_text(a) == id_text(b) {
        reveal_strlit("block-");
        assert(id_text(a).skip(6) =~= decimal(a as nat));
        assert(id_text(b).skip(6) =~= decimal(b as nat));
        lemma_decimal_digits(a as nat);
        lemma_decimal_digits(b as nat);
    }
}

} // verus!

verus! {

/// Each mark tag sets its own mark and no other: inside an element the
/// content is bold exactly where it was bold or the element is `strong` or
/// `b`, italic where it was or the element is `em` or `i`, underlined where it
/// was or the element is `u`, struck through where it was or the element is
/// `s`, `strike` or `del`, and code where it was or the element is `code`.
pub proof fn law_mark_tags_set_their_marks(t: Seq<ItemV>, k: int, m: MarksD)
    ensures
        ({
            let r = marks_after(t, k, m);
            let n = elem_name(t, k);
            &&& r.bold == (m.bold || n == "strong"@ || n == "b"@)
            &&& r.italic == (m.italic || n == "em"@ || n == "i"@)
            &&& r.underline == (m.underline || n == "u"@)
            &&& r.strike == (m.strike || n == "s"@ || n == "strike"@ || n == "del"@)
            &&& r.code == (m.code || n == "code"@)
        }),
{
    reveal_strlit("strong");
    reveal_strlit("b");
    reveal_strlit("em");
    reveal_strlit("i");
    reveal_strlit("u");
    reveal_strlit("s");
    reveal_strlit("strike");
    reveal_strlit("del");
    reveal_strlit("code");
    reveal_strlit("mark");
    reveal_strlit("small");
    reveal_strlit("span");
    assert("strong"@[0int] == 's' && "strong"@[3int] == 'o' && "strike"@[3int] == 'i');
    assert("b"@[0int] == 'b' && "i"@[0int] == 'i' && "u"@[0int] == 'u' && "s"@[0int] == 's');
    assert("em"@[0int] == 'e' && "del"@[0int] == 'd' && "code"@[0int] == 'c');
    assert("mark"@[0int] == 'm' && "small"@[1int] == 'm' && "span"@[1int] == 'p');
    assert("strike"@[1int] == 't' && "strong"@[1int] == 't');
    assert("strong"@.len() == 6 && "strike"@.len() == 6 && "b"@.len() == 1 && "i"@.len() == 1);
    assert("u"@.len() == 1 && "s"@.len() == 1 && "em"@.len() == 2 && "del"@.len() == 3);
    assert("code"@.len() == 4 && "mark"@.len() == 4 && "span"@.len() == 4 && "small"@.len() == 5);
    assert("code"@[0int] == 'c' && "span"@[0int] == 's');
    let n = elem_name(t, k);
    if n == "u"@ {
        assert(n[0] == 'u');
    } else if n == "s"@ {
        assert(n[0] == 's');
    } else if n == "b"@ {
        assert(n[0] == 'b');
    } else if n == "i"@ {
        assert(n[0] == 'i');
    } else if n == "strong"@ {
        assert(n[3] == 'o');
    } else if n == "strike"@ {
        assert(n[3] == 'i');
    } else if n == "code"@ {
        assert(n[0] == 'c');
    }
}

} // verus!
