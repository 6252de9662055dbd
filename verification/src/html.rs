//! A parsed HTML fragment as the list of its nodes in document order, each
//! with its depth in the tree, and the queries that the document parser
//! makes of it: the extent of an element, the elements of a tag within a
//! range, the text under an element, its attributes and classes.
use vstd::prelude::*;

use crate::text::{is_white, is_white_char, text_eq};

verus! {

// ---------------------------------------------------------------------------
// Nodes
// ---------------------------------------------------------------------------

/// What a node of the tree is.
pub enum HtmlNodeKind {
    /// An element: its tag name and its (name, value) attributes.
    Element { name: String, attrs: Vec<(String, String)> },
    /// A run of text.
    Text { text: String },
    /// A comment, a doctype or a processing instruction.
    Other,
}

/// A node with its depth: the number of its ancestors.
pub struct HtmlItem {
    pub depth: usize,
    pub kind: HtmlNodeKind,
}

/// Model of a node.
pub enum NodeV {
    Element { name: Seq<char>, attrs: Seq<(Seq<char>, Seq<char>)> },
    Text { text: Seq<char> },
    Other,
}

/// Model of a node with its depth.
pub struct ItemV {
    pub depth: nat,
    pub node: NodeV,
}

/// Model of a list of attributes.
pub open spec fn attrs_view(a: Seq<(String, String)>) -> Seq<(Seq<char>, Seq<char>)> {
    a.map_values(|p: (String, String)| (p.0@, p.1@))
}

/// Model of a node with its depth.
pub open spec fn item_view(x: HtmlItem) -> ItemV {
    ItemV {
        depth: x.depth as nat,
        node: match x.kind {
            HtmlNodeKind::Element { name, attrs } => NodeV::Element {
                name: name@,
                attrs: attrs_view(attrs@),
            },
            HtmlNodeKind::Text { text } => NodeV::Text { text: text@ },
            HtmlNodeKind::Other => NodeV::Other,
        },
    }
}

/// Model of a list of nodes.
pub open spec fn items_view(s: Seq<HtmlItem>) -> Seq<ItemV> {
    s.map_values(|x: HtmlItem| item_view(x))
}

/// The nodes of `html` parsed as a fragment by `scraper`: its root element
/// and all that lies under it, in document order.
pub uninterp spec fn fragment_items(html: Seq<char>) -> Seq<ItemV>;

/// Parses `html` with `scraper::Html::parse_fragment` (html5ever's HTML
/// parser, in the context of a `<body>`) and lists the root element and its
/// descendants in document order with `descendants`, each with the number of
/// its ancestors and its element name, attributes or text. The tree is the
/// parser's: it depends on the text alone and is named, not spelled out.
#[verifier::external_body]
pub(crate) fn parse_fragment(html: &str) -> (r: Vec<HtmlItem>)
    ensures
        items_view(r@) == fragment_items(html@),
{
    let fragment = scraper::Html::parse_fragment(html);
    let mut items = Vec::new();
    for node in fragment.root_element().descendants() {
        let kind = match node.value() {
            scraper::Node::Element(e) => HtmlNodeKind::Element {
                name: e.name().to_string(),
                attrs: e.attrs().map(|(k, v)| (k.to_string(), v.to_string())).collect(),
            },
            scraper::Node::Text(t) => HtmlNodeKind::Text { text: t.to_string() },
            _ => HtmlNodeKind::Other,
        };
        items.push(HtmlItem { depth: node.ancestors().count(), kind });
    }
    items
}

// ---------------------------------------------------------------------------
// Extent of an element
// ---------------------------------------------------------------------------

/// The first index from `j` on whose node is no deeper than `d` (the length
/// where there is none).
pub open spec fn end_from(t: Seq<ItemV>, d: nat, j: int) -> int
    decreases t.len() - j,
{
    if j < 0 || j >= t.len() || t[j].depth <= d {
        j
    } else {
        end_from(t, d, j + 1)
    }
}

/// Where the subtree of node `i` ends: its descendants lie between `i` and it.
pub open spec fn subtree_end(t: Seq<ItemV>, i: int) -> int {
    end_from(t, t[i].depth, i + 1)
}

/// The end lies at or after where the search starts.
pub proof fn lemma_end_from_bounds(t: Seq<ItemV>, d: nat, j: int)
    requires
        0 <= j,
    ensures
        j <= end_from(t, d, j),
        j <= t.len() ==> end_from(t, d, j) <= t.len(),
    decreases t.len() - j,
{
    if j < t.len() && t[j].depth > d {
        lemma_end_from_bounds(t, d, j + 1);
    }
}

/// Where the subtree of node `i` ends.
pub fn subtree_end_exec(items: &Vec<HtmlItem>, i: usize) -> (r: usize)
    requires
        i < items@.len(),
    ensures
        r == subtree_end(items_view(items@), i as int),
        i < r <= items@.len(),
{
    let ghost t = items_view(items@);
    let n = items.len();
    let d = items[i].depth;
    let mut j = i + 1;
    proof {
        lemma_end_from_bounds(t, d as nat, j as int);
    }
    while j < items.len() && items[j].depth > d
        invariant
            t == items_view(items@),
            i < j <= items@.len(),
            d == t[i as int].depth,
            end_from(t, d as nat, j as int) == subtree_end(t, i as int),
        decreases items@.len() - j,
    {
        j = j + 1;
    }
    j
}

// ---------------------------------------------------------------------------
// Elements by tag
// ---------------------------------------------------------------------------

/// Node `k` is an element named `tag`.
pub open spec fn is_element(t: Seq<ItemV>, k: int, tag: Seq<char>) -> bool {
    &&& 0 <= k < t.len()
    &&& t[k].node matches NodeV::Element { name, .. } && name == tag
}

/// Whether node `k` is an element named `tag`.
pub fn element_is(items: &Vec<HtmlItem>, k: usize, tag: &str) -> (r: bool)
    requires
        k < items@.len(),
    ensures
        r == is_element(items_view(items@), k as int, tag@),
{
    match &items[k].kind {
        HtmlNodeKind::Element { name, .. } => text_eq(name.as_str(), tag),
        _ => false,
    }
}

/// The indices from `a` to `b` of the elements named `tag`, in order.
pub open spec fn select_in(t: Seq<ItemV>, a: int, b: int, tag: Seq<char>) -> Seq<int>
    decreases b - a,
{
    if b <= a {
        Seq::empty()
    } else {
        select_in(t, a, b - 1, tag) + if is_element(t, b - 1, tag) {
            seq![b - 1]
        } else {
            Seq::empty()
        }
    }
}

/// The elements named `tag` under node `i`, in document order.
pub open spec fn select_under(t: Seq<ItemV>, i: int, tag: Seq<char>) -> Seq<int> {
    select_in(t, i + 1, subtree_end(t, i), tag)
}

/// The first element named `tag` under node `i`.
pub open spec fn first_under(t: Seq<ItemV>, i: int, tag: Seq<char>) -> Option<int> {
    if select_under(t, i, tag).len() > 0 {
        Some(select_under(t, i, tag)[0])
    } else {
        None
    }
}

/// The indices of the elements named `tag` from `a` to `b`.
pub fn select_range(items: &Vec<HtmlItem>, a: usize, b: usize, tag: &str) -> (r: Vec<usize>)
    requires
        a <= b <= items@.len(),
    ensures
        r@.map_values(|k: usize| k as int) == select_in(items_view(items@), a as int, b as int, tag@),
        forall|j: int| 0 <= j < r@.len() ==> a <= #[trigger] r@[j] < b,
{
    let ghost t = items_view(items@);
    let mut r: Vec<usize> = Vec::new();
    let mut k = a;
    while k < b
        invariant
            t == items_view(items@),
            a <= k <= b <= items@.len(),
            r@.map_values(|x: usize| x as int) == select_in(t, a as int, k as int, tag@),
            forall|j: int| 0 <= j < r@.len() ==> a <= #[trigger] r@[j] < k,
        decreases b - k,
    {
        let hit = element_is(items, k, tag);
        let ghost before = r@;
        if hit {
            r.push(k);
        }
        proof {
            assert(r@.map_values(|x: usize| x as int) =~= before.map_values(|x: usize| x as int) + if hit {
                seq![k as int]
            } else {
                Seq::empty()
            });
        }
        k = k + 1;
    }
    r
}

/// The first element named `tag` under node `i`.
pub fn first_under_exec(items: &Vec<HtmlItem>, i: usize, tag: &str) -> (r: Option<usize>)
    requires
        i < items@.len(),
    ensures
        match r {
            Some(k) => first_under(items_view(items@), i as int, tag@) == Some(k as int) && i < k
                < items@.len(),
            None => first_under(items_view(items@), i as int, tag@) is None,
        },
{
    let end = subtree_end_exec(items, i);
    let found = select_range(items, i + 1, end, tag);
    proof {
        assert(found@.map_values(|k: usize| k as int).len() == found@.len());
    }
    if found.len() > 0 {
        proof {
            assert(found@.map_values(|k: usize| k as int)[0] == found@[0] as int);
        }
        Some(found[0])
    } else {
        None
    }
}

// ---------------------------------------------------------------------------
// Text and attributes
// ---------------------------------------------------------------------------

/// The text of the text nodes from `a` to `b`, one after the other.
pub open spec fn text_in(t: Seq<ItemV>, a: int, b: int) -> Seq<char>
    decreases b - a,
{
    if b <= a {
        Seq::empty()
    } else {
        text_in(t, a, b - 1) + match t[b - 1].node {
            NodeV::Text { text } => text,
            _ => Seq::empty(),
        }
    }
}

/// The text under node `i`, as `ElementRef::text` yields it.
pub open spec fn text_under(t: Seq<ItemV>, i: int) -> Seq<char> {
    text_in(t, i + 1, subtree_end(t, i))
}

/// The text under node `i`.
pub fn text_under_exec(items: &Vec<HtmlItem>, i: usize) -> (r: String)
    requires
        i < items@.len(),
    ensures
        r@ == text_under(items_view(items@), i as int),
{
    let ghost t = items_view(items@);
    let end = subtree_end_exec(items, i);
    let mut r = String::new();
    let mut k = i + 1;
    while k < end
        invariant
            t == items_view(items@),
            i + 1 <= k <= end <= items@.len(),
            end == subtree_end(t, i as int),
            r@ == text_in(t, i + 1, k as int),
        decreases end - k,
    {
        match &items[k].kind {
            HtmlNodeKind::Text { text } => {
                r.append(text.as_str());
            },
            _ => {},
        }
        k = k + 1;
    }
    r
}

/// The value of the attribute `name` in `attrs`: the first with that name.
pub open spec fn attr_value(attrs: Seq<(Seq<char>, Seq<char>)>, name: Seq<char>) -> Option<Seq<char>>
    decreases attrs.len(),
{
    if attrs.len() == 0 {
        None
    } else if attrs[0].0 == name {
        Some(attrs[0].1)
    } else {
        attr_value(attrs.drop_first(), name)
    }
}

/// The value of the attribute `name` of node `k`; none for a node that is
/// not an element.
pub open spec fn attr_of(t: Seq<ItemV>, k: int, name: Seq<char>) -> Option<Seq<char>> {
    match t[k].node {
        NodeV::Element { attrs, .. } => attr_value(attrs, name),
        _ => None,
    }
}

/// The value of the attribute `name` of node `k`.
pub fn attr_exec(items: &Vec<HtmlItem>, k: usize, name: &str) -> (r: Option<String>)
    requires
        k < items@.len(),
    ensures
        match r {
            Some(v) => attr_of(items_view(items@), k as int, name@) == Some(v@),
            None => attr_of(items_view(items@), k as int, name@) is None,
        },
{
    proof {
        assert(items_view(items@)[k as int] == item_view(items@[k as int]));
    }
    match &items[k].kind {
        HtmlNodeKind::Element { attrs, .. } => {
            let ghost av = attrs_view(attrs@);
            let mut j: usize = 0;
            proof {
                assert(av.skip(0) =~= av);
            }
            while j < attrs.len()
                invariant
                    av == attrs_view(attrs@),
                    attr_of(items_view(items@), k as int, name@) == attr_value(av, name@),
                    j <= attrs@.len(),
                    attr_value(av, name@) == attr_value(av.skip(j as int), name@),
                decreases attrs@.len() - j,
            {
                proof {
                    assert(av.skip(j as int).drop_first() =~= av.skip(j + 1));
                    assert(av.skip(j as int)[0] == (attrs@[j as int].0@, attrs@[j as int].1@));
                }
                if text_eq(attrs[j].0.as_str(), name) {
                    let v = attrs[j].1.clone();
                    proof {
                        let rest = av.skip(j as int);
                        assert(rest.len() > 0);
                        assert(rest[0].0 == name@);
                        assert(attr_value(rest, name@) == Some(rest[0].1));
                        assert(v@ == rest[0].1);
                    }
                    return Some(v);
                }
                j = j + 1;
            }
            proof {
                assert(av.skip(j as int).len() == 0);
            }
            None
        },
        _ => None,
    }
}

/// `w` stands in `s` at index `a` as one of its white-space separated words.
pub open spec fn is_word_at(s: Seq<char>, w: Seq<char>, a: int) -> bool {
    &&& w.len() > 0
    &&& 0 <= a && a + w.len() <= s.len()
    &&& s.subrange(a, a + w.len()) == w
    &&& forall|j: int| 0 <= j < w.len() ==> !is_white(#[trigger] w[j])
    &&& (a == 0 || is_white(s[a - 1]))
    &&& (a + w.len() == s.len() || is_white(s[a + w.len()]))
}

/// `w` is one of the white-space separated words of `s`, as `split_whitespace`
/// yields them.
pub open spec fn has_word(s: Seq<char>, w: Seq<char>) -> bool {
    exists|a: int| is_word_at(s, w, a)
}

/// Whether `w` is one of the white-space separated words of `s`.
pub fn has_word_exec(s: &str, w: &str) -> (r: bool)
    ensures
        r == has_word(s@, w@),
{
    let n = s.unicode_len();
    let m = w.unicode_len();
    if m == 0 || m > n {
        return false;
    }
    let mut j: usize = 0;
    while j < m
        invariant
            m == w@.len(),
            j <= m,
            forall|q: int| 0 <= q < j ==> !is_white(#[trigger] w@[q]),
        decreases m - j,
    {
        if is_white_char(w.get_char(j)) {
            return false;
        }
        j = j + 1;
    }
    let mut a: usize = 0;
    while a <= n - m
        invariant
            n == s@.len(),
            m == w@.len(),
            0 < m <= n,
            a <= n - m + 1,
            forall|q: int| 0 <= q < m ==> !is_white(#[trigger] w@[q]),
            forall|b: int| 0 <= b < a ==> !is_word_at(s@, w@, b),
        decreases n - m + 1 - a,
    {
        let left_ok = a == 0 || is_white_char(s.get_char(a - 1));
        let right_ok = a + m == n || is_white_char(s.get_char(a + m));
        if left_ok && right_ok {
            let mut k: usize = 0;
            let mut same = true;
            while k < m && same
                invariant
                    n == s@.len(),
                    m == w@.len(),
                    a + m <= n,
                    k <= m,
                    same ==> forall|q: int| 0 <= q < k ==> #[trigger] s@[a + q] == w@[q],
                    !same ==> s@.subrange(a as int, a + m) != w@,
                decreases m - k + (if same { 1int } else { 0int }),
            {
                if s.get_char(a + k) != w.get_char(k) {
                    same = false;
                    proof {
                        assert(s@.subrange(a as int, a + m)[k as int] != w@[k as int]);
                    }
                } else {
                    k = k + 1;
                }
            }
            if same {
                proof {
                    assert forall|q: int| 0 <= q < m implies s@.subrange(a as int, a + m)[q] == w@[q] by {
                        assert(s@[a + q] == w@[q]);
                    }
                    assert(s@.subrange(a as int, a + m) =~= w@);
                    assert(is_word_at(s@, w@, a as int));
                }
                return true;
            }
        }
        a = a + 1;
    }
    proof {
        assert forall|b: int| !is_word_at(s@, w@, b) by {
            if 0 <= b < a {
            }
        }
    }
    false
}

/// Node `k` has the class `c`: its `class` attribute holds `c` as a word.
pub open spec fn has_class(t: Seq<ItemV>, k: int, c: Seq<char>) -> bool {
    attr_of(t, k, "class"@) matches Some(v) && has_word(v, c)
}

/// Whether node `k` has the class `c`.
pub fn has_class_exec(items: &Vec<HtmlItem>, k: usize, c: &str) -> (r: bool)
    requires
        k < items@.len(),
    ensures
        r == has_class(items_view(items@), k as int, c@),
{
    match attr_exec(items, k, "class") {
        Some(v) => has_word_exec(v.as_str(), c),
        None => false,
    }
}

} // verus!
