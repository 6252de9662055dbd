//! Properties of parsed documents.
use vstd::prelude::*;

use crate::ast::{BlockAlign, BlockKindV, BlockV, Inline};
use crate::embed::{contains, matches_at};
use crate::html::{
    attr_of, end_from, is_element, lemma_end_from_bounds, select_in, select_under, subtree_end, ItemV, NodeV,
};
use crate::model::{no_marks, BlockD, InlineD, KindD};
use crate::escape::{decimal, escape};
use crate::render::{
    align_class, heading_class, law_plain_run_renders_escaped, render_block_spec, render_inlines_spec,
};
use crate::parser::{
    block_tags, data_pairs, inline_node, inline_seq, is_block_node, next_sibling,
    block_nodes, blocks_for, data_attrs, doc_blocks, element_block, elem_name, embed_block, id_text, image_block,
    lemma_data_pairs_distinct, names_distinct,
    law_block_ids_unique, list_items, next_count, parsed_doc, table_block, task_items,
};

verus! {

/// The ids of a block in document order: its own, then those of its list items.
pub open spec fn block_ids(b: BlockD) -> Seq<Seq<char>>
    decreases b,
{
    seq![b.id] + match b.kind {
        KindD::BulletList { items } => blocks_ids(items),
        KindD::OrderedList { items } => blocks_ids(items),
        KindD::TaskList { items } => blocks_ids(items),
        _ => Seq::empty(),
    }
}

/// The ids of blocks in document order.
pub open spec fn blocks_ids(bs: Seq<BlockD>) -> Seq<Seq<char>>
    decreases bs,
{
    if bs.len() == 0 {
        Seq::empty()
    } else {
        blocks_ids(bs.subrange(0, bs.len() - 1)) + block_ids(bs[bs.len() - 1])
    }
}

/// `id` is the id numbered `n`.
pub open spec fn is_id_num(id: Seq<char>, n: int) -> bool {
    0 <= n <= usize::MAX && id == id_text(n as usize)
}

/// `id` is the id of a number after `lo` up to `hi`.
pub open spec fn numbered_in(id: Seq<char>, lo: int, hi: int) -> bool {
    exists|n: int| lo < n <= hi && #[trigger] is_id_num(id, n)
}

/// Every id is `block-n` for some `n` after `lo` up to `hi`, and no two are equal.
pub open spec fn ids_in(ids: Seq<Seq<char>>, lo: int, hi: int) -> bool {
    &&& forall|i: int| 0 <= i < ids.len() ==> #[trigger] numbered_in(ids[i], lo, hi)
    &&& forall|i: int, j: int| 0 <= i < j < ids.len() ==> ids[i] != ids[j]
}

proof fn lemma_ids_empty(lo: int, hi: int)
    ensures
        ids_in(Seq::empty(), lo, hi),
{
}

proof fn lemma_ids_single(n: int)
    requires
        0 <= n <= usize::MAX,
    ensures
        ids_in(seq![id_text(n as usize)], n - 1, n),
{
    let s = seq![id_text(n as usize)];
    assert(is_id_num(s[0], n));
    assert(numbered_in(s[0], n - 1, n));
}

proof fn lemma_numbered_widen(id: Seq<char>, lo: int, hi: int, lo2: int, hi2: int)
    requires
        numbered_in(id, lo, hi),
        lo2 <= lo,
        hi <= hi2,
    ensures
        numbered_in(id, lo2, hi2),
{
    let n = choose|n: int| lo < n <= hi && #[trigger] is_id_num(id, n);
    assert(is_id_num(id, n));
}

proof fn lemma_ids_widen(ids: Seq<Seq<char>>, lo: int, hi: int, lo2: int, hi2: int)
    requires
        ids_in(ids, lo, hi),
        lo2 <= lo,
        hi <= hi2,
    ensures
        ids_in(ids, lo2, hi2),
{
    assert forall|i: int| 0 <= i < ids.len() implies #[trigger] numbered_in(ids[i], lo2, hi2) by {
        lemma_numbered_widen(ids[i], lo, hi, lo2, hi2);
    }
}

proof fn lemma_ids_concat(a: Seq<Seq<char>>, b: Seq<Seq<char>>, lo: int, mid: int, hi: int)
    requires
        ids_in(a, lo, mid),
        ids_in(b, mid, hi),
        0 <= lo <= mid <= hi,
    ensures
        ids_in(a + b, lo, hi),
{
    let s = a + b;
    assert forall|i: int| 0 <= i < s.len() implies #[trigger] numbered_in(s[i], lo, hi) by {
        if i < a.len() {
            assert(s[i] == a[i]);
            assert(numbered_in(a[i], lo, mid));
            lemma_numbered_widen(a[i], lo, mid, lo, hi);
        } else {
            assert(s[i] == b[i - a.len()]);
            assert(numbered_in(b[i - a.len()], mid, hi));
            lemma_numbered_widen(b[i - a.len()], mid, hi, lo, hi);
        }
    }
    assert forall|i: int, j: int| 0 <= i < j < s.len() implies s[i] != s[j] by {
        if j < a.len() {
            assert(s[i] == a[i] && s[j] == a[j]);
        } else if i >= a.len() {
            assert(s[i] == b[i - a.len()] && s[j] == b[j - a.len()]);
        } else {
            assert(s[i] == a[i] && s[j] == b[j - a.len()]);
            assert(numbered_in(a[i], lo, mid));
            assert(numbered_in(b[j - a.len()], mid, hi));
            let n = choose|n: int| lo < n <= mid && #[trigger] is_id_num(a[i], n);
            let m = choose|m: int| mid < m <= hi && #[trigger] is_id_num(b[j - a.len()], m);
            law_block_ids_unique(n as usize, m as usize);
        }
    }
}

proof fn lemma_blocks_ids_push(bs: Seq<BlockD>, b: BlockD)
    ensures
        blocks_ids(bs.push(b)) == blocks_ids(bs) + block_ids(b),
{
    assert(bs.push(b).subrange(0, bs.len() as int) =~= bs);
}

/// The ids of two runs of blocks are those of the first, then those of the second.
proof fn lemma_blocks_ids_concat(a: Seq<BlockD>, b: Seq<BlockD>)
    ensures
        blocks_ids(a + b) == blocks_ids(a) + blocks_ids(b),
    decreases b.len(),
{
    if b.len() == 0 {
        assert(a + b =~= a);
        assert(blocks_ids(a) + blocks_ids(b) =~= blocks_ids(a));
    } else {
        let b0 = b.drop_last();
        lemma_blocks_ids_concat(a, b0);
        assert(a + b =~= (a + b0).push(b.last()));
        assert(b =~= b0.push(b.last()));
        lemma_blocks_ids_push(a + b0, b.last());
        lemma_blocks_ids_push(b0, b.last());
    }
}

/// A selection lies in its range and holds no more than it.
proof fn lemma_select_in_bounds(t: Seq<ItemV>, a: int, b: int, tag: Seq<char>)
    ensures
        select_in(t, a, b, tag).len() <= if b > a {
            b - a
        } else {
            0
        },
        forall|i: int| 0 <= i < select_in(t, a, b, tag).len() ==> a <= #[trigger] select_in(t, a, b, tag)[i] < b,
    decreases b - a,
{
    if b > a {
        lemma_select_in_bounds(t, a, b - 1, tag);
        let p = select_in(t, a, b - 1, tag);
        let r = select_in(t, a, b, tag);
        assert forall|i: int| 0 <= i < r.len() implies a <= #[trigger] r[i] < b by {
            if i < p.len() {
                assert(r[i] == p[i]);
            }
        }
    }
}

/// The block nodes before `b` lie before it and are no more than it.
proof fn lemma_block_nodes_bounds(t: Seq<ItemV>, b: int)
    ensures
        block_nodes(t, b).len() <= if b > 0 {
            b
        } else {
            0
        },
        forall|i: int| 0 <= i < block_nodes(t, b).len() ==> 0 <= #[trigger] block_nodes(t, b)[i] < b,
    decreases b,
{
    if b > 0 {
        lemma_block_nodes_bounds(t, b - 1);
        let p = block_nodes(t, b - 1);
        let r = block_nodes(t, b);
        assert forall|i: int| 0 <= i < r.len() implies 0 <= #[trigger] r[i] < b by {
            if i < p.len() {
                assert(r[i] == p[i]);
            }
        }
    }
}

/// The `li` under node `k` are no more than the nodes.
proof fn lemma_items_bound(t: Seq<ItemV>, k: int)
    requires
        0 <= k < t.len(),
    ensures
        select_under(t, k, "li"@).len() <= t.len(),
{
    lemma_end_from_bounds(t, t[k].depth, k + 1);
    lemma_select_in_bounds(t, k + 1, subtree_end(t, k), "li"@);
}

/// List items take one number each, and their ids are those numbers.
proof fn lemma_list_items_ids(t: Seq<ItemV>, lis: Seq<int>, c: usize)
    requires
        c + lis.len() <= usize::MAX,
    ensures
        list_items(t, lis, c).1 == c + lis.len(),
        ids_in(blocks_ids(list_items(t, lis, c).0), c as int, c + lis.len()),
    decreases lis.len(),
{
    if lis.len() == 0 {
        lemma_ids_empty(c as int, c as int);
    } else {
        let (bs0, c1) = list_items(t, lis.drop_last(), c);
        lemma_list_items_ids(t, lis.drop_last(), c);
        let c2 = next_count(c1);
        let b = list_items(t, lis, c).0.last();
        assert(list_items(t, lis, c).0 == bs0.push(b));
        lemma_blocks_ids_push(bs0, b);
        assert(block_ids(b) =~= seq![id_text(c2)]);
        lemma_ids_single(c2 as int);
        lemma_ids_concat(blocks_ids(bs0), block_ids(b), c as int, c1 as int, c2 as int);
    }
}

/// Task items take one number each, and their ids are those numbers.
proof fn lemma_task_items_ids(t: Seq<ItemV>, lis: Seq<int>, c: usize)
    requires
        c + lis.len() <= usize::MAX,
    ensures
        task_items(t, lis, c).1 == c + lis.len(),
        ids_in(blocks_ids(task_items(t, lis, c).0), c as int, c + lis.len()),
    decreases lis.len(),
{
    if lis.len() == 0 {
        lemma_ids_empty(c as int, c as int);
    } else {
        let (bs0, c1) = task_items(t, lis.drop_last(), c);
        lemma_task_items_ids(t, lis.drop_last(), c);
        let c2 = next_count(c1);
        let b = task_items(t, lis, c).0.last();
        assert(task_items(t, lis, c).0 == bs0.push(b));
        lemma_blocks_ids_push(bs0, b);
        assert(block_ids(b) =~= seq![id_text(c2)]);
        lemma_ids_single(c2 as int);
        lemma_ids_concat(blocks_ids(bs0), block_ids(b), c as int, c1 as int, c2 as int);
    }
}

/// An image block takes one number where it is made, none otherwise.
proof fn lemma_image_ids(t: Seq<ItemV>, k: int, fig: Option<int>, c: usize)
    requires
        c + 1 <= usize::MAX,
    ensures
        c <= image_block(t, k, fig, c).1 <= c + 1,
        image_block(t, k, fig, c).0 matches Some(b) ==> ids_in(block_ids(b), c as int, image_block(t, k, fig, c).1 as int),
{
    if let Some(b) = image_block(t, k, fig, c).0 {
        assert(block_ids(b) =~= seq![id_text(next_count(c))]);
        lemma_ids_single(c + 1);
    }
}

/// An embed block takes one number where it is made, none otherwise.
proof fn lemma_embed_ids(t: Seq<ItemV>, k: int, c: usize)
    requires
        c + 1 <= usize::MAX,
    ensures
        c <= embed_block(t, k, c).1 <= c + 1,
        embed_block(t, k, c).0 matches Some(b) ==> ids_in(block_ids(b), c as int, embed_block(t, k, c).1 as int),
{
    if let Some(b) = embed_block(t, k, c).0 {
        assert(block_ids(b) =~= seq![id_text(next_count(c))]);
        lemma_ids_single(c + 1);
    }
}

/// A block element takes its own number, then those of its list items or
/// of the block made from it; its ids are among them.
proof fn lemma_element_block_ids(t: Seq<ItemV>, k: int, c: usize)
    requires
        0 <= k < t.len(),
        c + t.len() + 2 <= usize::MAX,
    ensures
        c < element_block(t, k, c).1 <= c + t.len() + 2,
        element_block(t, k, c).0 matches Some(b) ==> ids_in(block_ids(b), c as int, element_block(t, k, c).1 as int),
{
    reveal_strlit("p");
    reveal_strlit("h1");
    reveal_strlit("h2");
    reveal_strlit("h3");
    reveal_strlit("h4");
    reveal_strlit("h5");
    reveal_strlit("h6");
    reveal_strlit("ul");
    reveal_strlit("ol");
    reveal_strlit("blockquote");
    reveal_strlit("pre");
    reveal_strlit("hr");
    reveal_strlit("table");
    reveal_strlit("figure");
    reveal_strlit("img");
    reveal_strlit("li");
    reveal_strlit("task-list");
    let c1 = next_count(c);
    let n = elem_name(t, k);
    let r = element_block(t, k, c);
    assert("p"@.len() == 1 && "h1"@.len() == 2 && "ul"@.len() == 2 && "blockquote"@.len() == 10);
    assert("pre"@.len() == 3 && "hr"@.len() == 2 && "table"@.len() == 5 && "figure"@.len() == 6);
    assert("img"@.len() == 3 && "pre"@[0] == 'p' && "img"@[0] == 'i');
    let lis = select_under(t, k, "li"@);
    lemma_items_bound(t, k);
    lemma_ids_single(c1 as int);
    if n == "ul"@ || n == "ol"@ {
        assert(n[0] != 'h' && n[0] != 'p');
        assert(n != "h1"@ && n != "h2"@ && n != "h3"@ && n != "h4"@ && n != "h5"@ && n != "h6"@) by {
            assert("h1"@[0] == 'h' && "h2"@[0] == 'h' && "h3"@[0] == 'h');
            assert("h4"@[0] == 'h' && "h5"@[0] == 'h' && "h6"@[0] == 'h');
        }
        if n == "ul"@ && crate::html::has_class(t, k, "task-list"@) {
            lemma_task_items_ids(t, lis, c1);
            let (items, c2) = task_items(t, lis, c1);
            let b = r.0->0;
            assert(block_ids(b) == seq![id_text(c1)] + blocks_ids(items));
            lemma_ids_concat(seq![id_text(c1)], blocks_ids(items), c as int, c1 as int, c2 as int);
        } else {
            lemma_list_items_ids(t, lis, c1);
            let (items, c2) = list_items(t, lis, c1);
            let b = r.0->0;
            assert(block_ids(b) == seq![id_text(c1)] + blocks_ids(items));
            lemma_ids_concat(seq![id_text(c1)], blocks_ids(items), c as int, c1 as int, c2 as int);
        }
    } else if n == "table"@ {
        let (b, c2) = table_block(t, k, c1);
        assert(block_ids(b) =~= seq![id_text(c2)]);
        lemma_ids_single(c2 as int);
        lemma_ids_widen(block_ids(b), c1 as int, c2 as int, c as int, c2 as int);
    } else if n == "figure"@ {
        assert(n.len() == 6);
        match crate::html::first_under(t, k, "img"@) {
            Some(img) => {
                assert(r == image_block(t, img, Some(k), c1));
                lemma_image_ids(t, img, Some(k), c1);
                if let Some(b) = r.0 {
                    lemma_ids_widen(block_ids(b), c1 as int, r.1 as int, c as int, r.1 as int);
                }
            },
            None => match crate::html::first_under(t, k, "iframe"@) {
                Some(f) => {
                    lemma_embed_ids(t, f, c1);
                    if let Some(b) = r.0 {
                        lemma_ids_widen(block_ids(b), c1 as int, r.1 as int, c as int, r.1 as int);
                    }
                },
                None => {},
            },
        }
    } else if n == "img"@ {
        assert(n.len() == 3 && n[0] == 'i');
        lemma_image_ids(t, k, None, c1);
        if let Some(b) = r.0 {
            lemma_ids_widen(block_ids(b), c1 as int, r.1 as int, c as int, r.1 as int);
        }
    } else {
        if let Some(b) = r.0 {
            assert(block_ids(b) =~= seq![id_text(c1)]);
        }
    }
}

/// The blocks of the elements `ks` take at most `t.len() + 2` numbers
/// each; their ids are among the numbers taken.
proof fn lemma_blocks_for_ids(t: Seq<ItemV>, ks: Seq<int>, c: usize)
    requires
        forall|i: int| 0 <= i < ks.len() ==> 0 <= #[trigger] ks[i] < t.len(),
        c + ks.len() * (t.len() + 2) <= usize::MAX,
    ensures
        c <= blocks_for(t, ks, c).1 <= c + ks.len() * (t.len() + 2),
        ids_in(blocks_ids(blocks_for(t, ks, c).0), c as int, blocks_for(t, ks, c).1 as int),
    decreases ks.len(),
{
    if ks.len() == 0 {
        lemma_ids_empty(c as int, c as int);
    } else {
        let k0 = ks.drop_last();
        let m = k0.len();
        let w = t.len() + 2;
        assert(m * w + w == ks.len() * w) by (nonlinear_arith)
            requires
                m + 1 == ks.len(),
        ;
        assert forall|i: int| 0 <= i < k0.len() implies 0 <= #[trigger] k0[i] < t.len() by {
            assert(k0[i] == ks[i]);
        }
        lemma_blocks_for_ids(t, k0, c);
        let (bs, c1) = blocks_for(t, k0, c);
        let last = ks[ks.len() - 1];
        lemma_element_block_ids(t, last, c1);
        let (ob, c2) = element_block(t, last, c1);
        match ob {
            Some(b) => {
                lemma_blocks_ids_push(bs, b);
                lemma_ids_concat(blocks_ids(bs), block_ids(b), c as int, c1 as int, c2 as int);
            },
            None => {
                lemma_ids_widen(blocks_ids(bs), c as int, c1 as int, c as int, c2 as int);
            },
        }
    }
}

/// Block ids are unique across a parsed document, list items included, for
/// any fragment small enough that the block counter cannot wrap (fewer than
/// `n * (n + 2)` numbers are ever drawn for `n` nodes).
pub proof fn law_parsed_ids_distinct(t: Seq<ItemV>)
    requires
        t.len() * (t.len() + 2) + 1 <= usize::MAX,
    ensures
        forall|i: int, j: int|
            0 <= i < j < blocks_ids(parsed_doc(t)).len() ==> blocks_ids(parsed_doc(t))[i] != blocks_ids(
                parsed_doc(t),
            )[j],
{
    let ks = block_nodes(t, t.len() as int);
    lemma_block_nodes_bounds(t, t.len() as int);
    let w = t.len() + 2;
    assert(ks.len() * w <= t.len() * w) by (nonlinear_arith)
        requires
            ks.len() <= t.len(),
            w >= 0,
    ;
    lemma_blocks_for_ids(t, ks, 0);
    let (bs, c) = doc_blocks(t);
    if bs.len() == 0 {
        let d = parsed_doc(t);
        assert(d.len() == 1);
        assert(d.subrange(0, 0) =~= Seq::<BlockD>::empty());
        assert(blocks_ids(d.subrange(0, 0)) == Seq::<Seq<char>>::empty());
        assert(blocks_ids(d) == blocks_ids(d.subrange(0, 0)) + block_ids(d[0]));
        assert(blocks_ids(d) =~= block_ids(d[0]));
        assert(block_ids(d[0]) =~= seq![d[0].id]);
    }
}

} // verus!

verus! {

/// The `data-*` attributes of a node have distinct names.
proof fn lemma_data_attrs_distinct(t: Seq<ItemV>, k: int)
    ensures
        names_distinct(data_attrs(t, k)),
{
    match t[k].node {
        crate::html::NodeV::Element { attrs, .. } => lemma_data_pairs_distinct(attrs),
        _ => {},
    }
}

/// The blocks of the elements `ks` have distinct attribute names.
proof fn lemma_blocks_for_attrs(t: Seq<ItemV>, ks: Seq<int>, c: usize)
    ensures
        forall|i: int|
            0 <= i < blocks_for(t, ks, c).0.len() ==> names_distinct(#[trigger] blocks_for(t, ks, c).0[i].attrs),
    decreases ks.len(),
{
    if ks.len() > 0 {
        lemma_blocks_for_attrs(t, ks.drop_last(), c);
        let (bs, c1) = blocks_for(t, ks.drop_last(), c);
        lemma_data_attrs_distinct(t, ks.last());
        let (ob, c2) = element_block(t, ks.last(), c1);
        match ob {
            Some(b) => {
                assert(names_distinct(b.attrs));
                assert forall|i: int| 0 <= i < bs.push(b).len() implies names_distinct(
                    #[trigger] bs.push(b)[i].attrs,
                ) by {
                    if i < bs.len() {
                        assert(bs.push(b)[i] == bs[i]);
                    }
                }
            },
            None => {},
        }
    }
}

/// Every block of a parsed document has each attribute name once, as the
/// map of attributes it was read into had.
pub proof fn law_parsed_attrs_distinct(t: Seq<ItemV>)
    ensures
        forall|i: int| 0 <= i < parsed_doc(t).len() ==> names_distinct(#[trigger] parsed_doc(t)[i].attrs),
{
    lemma_blocks_for_attrs(t, block_nodes(t, t.len() as int), 0);
    let (bs, c) = doc_blocks(t);
    if bs.len() == 0 {
        assert(names_distinct(parsed_doc(t)[0].attrs));
    }
}

} // verus!

verus! {

/// The nodes that a rendered block is read as: the fragment's root, the
/// block's element `tag` with its one attribute, `class`, the block's text,
/// and the line break after the element.
pub open spec fn plain_block_tree(tag: Seq<char>, class: Seq<char>, text: Seq<char>) -> Seq<ItemV> {
    seq![
        ItemV { depth: 0, node: NodeV::Element { name: "html"@, attrs: Seq::empty() } },
        ItemV { depth: 1, node: NodeV::Element { name: tag, attrs: seq![("class"@, class)] } },
        ItemV { depth: 2, node: NodeV::Text { text } },
        ItemV { depth: 1, node: NodeV::Text { text: "\n"@ } },
    ]
}

/// A paragraph, a heading of level 1 to 6 or a quote: the blocks whose
/// element holds their text directly.
pub open spec fn is_plain_kind(kind: KindD) -> bool {
    ||| kind == KindD::Paragraph
    ||| kind == KindD::Quote
    ||| (kind matches KindD::Heading { level } && 1 <= level <= 6)
}

/// The tag the renderer writes for a plain block.
pub open spec fn plain_tag(kind: KindD) -> Seq<char> {
    match kind {
        KindD::Paragraph => "p"@,
        KindD::Heading { level } => if level == 1 {
            "h1"@
        } else if level == 2 {
            "h2"@
        } else if level == 3 {
            "h3"@
        } else if level == 4 {
            "h4"@
        } else if level == 5 {
            "h5"@
        } else {
            "h6"@
        },
        _ => "blockquote"@,
    }
}

/// The class the renderer writes before the alignment class of a plain block.
pub open spec fn plain_class_base(kind: KindD) -> Seq<char> {
    match kind {
        KindD::Paragraph => "mb-4"@,
        KindD::Heading { level } => "mb-4"@ + heading_class(level),
        _ => "border-l-4 border-gray-300 pl-4 italic mb-4"@,
    }
}

/// The text holds none of the alignment classes.
pub open spec fn free_of_align(w: Seq<char>) -> bool {
    !contains(w, "text-center"@) && !contains(w, "text-right"@) && !contains(w, "text-justify"@)
}

/// A pattern without a space occurs in two texts joined by a space exactly
/// where it occurs in one of them.
proof fn lemma_contains_split(x: Seq<char>, y: Seq<char>, p: Seq<char>)
    requires
        forall|k: int| 0 <= k < p.len() ==> #[trigger] p[k] != ' ',
    ensures
        contains(x + seq![' '] + y, p) <==> (contains(x, p) || contains(y, p)),
{
    let s = x + seq![' '] + y;
    if contains(s, p) {
        let i = choose|i: int| matches_at(s, p, i);
        if i + p.len() <= x.len() {
            assert forall|k: int| 0 <= k < p.len() implies #[trigger] x[i + k] == p[k] by {
                assert(s[i + k] == p[k]);
            }
            assert(matches_at(x, p, i));
        } else if i >= x.len() + 1 {
            let j = i - x.len() - 1;
            assert forall|k: int| 0 <= k < p.len() implies #[trigger] y[j + k] == p[k] by {
                assert(s[i + k] == p[k]);
            }
            assert(matches_at(y, p, j));
        } else {
            let k = x.len() - i;
            assert(s[i + k] == p[k]);
            assert(s[i + k] == ' ');
        }
    }
    if contains(x, p) {
        let i = choose|i: int| matches_at(x, p, i);
        assert forall|k: int| 0 <= k < p.len() implies #[trigger] s[i + k] == p[k] by {
            assert(x[i + k] == p[k]);
        }
        assert(matches_at(s, p, i));
    }
    if contains(y, p) {
        let j = choose|i: int| matches_at(y, p, i);
        let i = j + x.len() + 1;
        assert forall|k: int| 0 <= k < p.len() implies #[trigger] s[i + k] == p[k] by {
            assert(y[j + k] == p[k]);
        }
        assert(matches_at(s, p, i));
    }
}

/// The alignment classes hold no space.
proof fn lemma_align_words_spaceless()
    ensures
        forall|k: int| 0 <= k < "text-center"@.len() ==> #[trigger] "text-center"@[k] != ' ',
        forall|k: int| 0 <= k < "text-right"@.len() ==> #[trigger] "text-right"@[k] != ' ',
        forall|k: int| 0 <= k < "text-justify"@.len() ==> #[trigger] "text-justify"@[k] != ' ',
{
    reveal_strlit("text-center");
    reveal_strlit("text-right");
    reveal_strlit("text-justify");
}

/// Two texts free of alignment classes, joined by a space, are free of them.
proof fn lemma_free_join(x: Seq<char>, y: Seq<char>)
    requires
        free_of_align(x),
        free_of_align(y),
    ensures
        free_of_align(x + seq![' '] + y),
{
    lemma_align_words_spaceless();
    lemma_contains_split(x, y, "text-center"@);
    lemma_contains_split(x, y, "text-right"@);
    lemma_contains_split(x, y, "text-justify"@);
}

/// A text shorter than every alignment class holds none of them.
proof fn lemma_short_free(w: Seq<char>)
    requires
        w.len() < 10,
    ensures
        free_of_align(w),
{
    reveal_strlit("text-center");
    reveal_strlit("text-right");
    reveal_strlit("text-justify");
}

/// The words of the classes the renderer writes before the alignment class
/// hold no alignment class.
proof fn lemma_long_words_free()
    ensures
        free_of_align("border-l-4"@),
        free_of_align("border-gray-300"@),
        free_of_align("font-semibold"@),
        free_of_align("font-medium"@),
{
    reveal_strlit("text-center");
    reveal_strlit("text-right");
    reveal_strlit("text-justify");
    reveal_strlit("border-l-4");
    reveal_strlit("border-gray-300");
    reveal_strlit("font-semibold");
    reveal_strlit("font-medium");
    let c = "text-center"@;
    let r = "text-right"@;
    let j = "text-justify"@;
    let w1 = "border-l-4"@;
    assert forall|i: int| !matches_at(w1, r, i) by {
        if 0 <= i && i + r.len() <= w1.len() {
            assert(w1[i + 0] != r[0]);
        }
    }
    let w2 = "border-gray-300"@;
    assert forall|i: int| !matches_at(w2, c, i) by {
        if 0 <= i && i + c.len() <= w2.len() {
            assert(w2[i + 0] != c[0]);
        }
    }
    assert forall|i: int| !matches_at(w2, r, i) by {
        if 0 <= i && i + r.len() <= w2.len() {
            assert(w2[i + 0] != r[0]);
        }
    }
    assert forall|i: int| !matches_at(w2, j, i) by {
        if 0 <= i && i + j.len() <= w2.len() {
            assert(w2[i + 0] != j[0]);
        }
    }
    let w3 = "font-semibold"@;
    assert forall|i: int| !matches_at(w3, c, i) by {
        if 0 <= i && i + c.len() <= w3.len() {
            assert(w3[i + 0] != c[0]);
        }
    }
    assert forall|i: int| !matches_at(w3, r, i) by {
        if 0 <= i && i + r.len() <= w3.len() {
            if i == 3 {
                assert(w3[i + 1] != r[1]);
            } else {
                assert(w3[i + 0] != r[0]);
            }
        }
    }
    assert forall|i: int| !matches_at(w3, j, i) by {
        if 0 <= i && i + j.len() <= w3.len() {
            assert(w3[i + 0] != j[0]);
        }
    }
    let w4 = "font-medium"@;
    assert forall|i: int| !matches_at(w4, c, i) by {
        if 0 <= i && i + c.len() <= w4.len() {
            assert(w4[i + 0] != c[0]);
        }
    }
    assert forall|i: int| !matches_at(w4, r, i) by {
        if 0 <= i && i + r.len() <= w4.len() {
            if i == 1 {
                assert(w4[i + 0] != r[0]);
            } else {
                assert(w4[i + 0] != r[0]);
            }
        }
    }
}

/// The class a plain block is rendered with, before its alignment class,
/// holds no alignment class.
proof fn lemma_base_free(kind: KindD)
    requires
        is_plain_kind(kind),
    ensures
        free_of_align(plain_class_base(kind)),
{
    reveal_strlit("mb-4");
    lemma_short_free("mb-4"@);
    lemma_long_words_free();
    match kind {
        KindD::Heading { level } => {
            reveal_strlit(" text-4xl font-bold");
            reveal_strlit(" text-3xl font-bold");
            reveal_strlit(" text-2xl font-semibold");
            reveal_strlit(" text-xl font-semibold");
            reveal_strlit(" text-lg font-medium");
            reveal_strlit(" text-base font-medium");
            reveal_strlit("text-4xl");
            reveal_strlit("text-3xl");
            reveal_strlit("text-2xl");
            reveal_strlit("text-xl");
            reveal_strlit("text-lg");
            reveal_strlit("text-base");
            reveal_strlit("font-bold");
            reveal_strlit("font-semibold");
            reveal_strlit("font-medium");
            let (w, f) = if level == 1 {
                ("text-4xl"@, "font-bold"@)
            } else if level == 2 {
                ("text-3xl"@, "font-bold"@)
            } else if level == 3 {
                ("text-2xl"@, "font-semibold"@)
            } else if level == 4 {
                ("text-xl"@, "font-semibold"@)
            } else if level == 5 {
                ("text-lg"@, "font-medium"@)
            } else {
                ("text-base"@, "font-medium"@)
            };
            lemma_short_free(w);
            if f.len() < 10 {
                lemma_short_free(f);
            }
            assert(plain_class_base(kind) =~= ("mb-4"@ + seq![' '] + w) + seq![' '] + f);
            lemma_free_join("mb-4"@, w);
            lemma_free_join("mb-4"@ + seq![' '] + w, f);
        },
        KindD::Paragraph => {},
        _ => {
            reveal_strlit("border-l-4 border-gray-300 pl-4 italic mb-4");
            reveal_strlit("pl-4");
            reveal_strlit("italic");
            let q = "border-l-4 border-gray-300 pl-4 italic mb-4"@;
            let c = "text-center"@;
            let r = "text-right"@;
            let j = "text-justify"@;
            reveal_strlit("text-center");
            reveal_strlit("text-right");
            reveal_strlit("text-justify");
            assert(q.len() == 43);
            assert(q[33] == 't' && q[34] == 'a');
            assert forall|i: int| 0 <= i && i + 10 <= q.len() && i != 33 implies #[trigger] q[i] != 't' by {}
            assert forall|i: int| !matches_at(q, c, i) by {
                if 0 <= i && i + c.len() <= q.len() {
                    if i == 33 {
                        assert(q[i + 1] != c[1]);
                    } else {
                        assert(q[i + 0] != c[0]);
                    }
                }
            }
            assert forall|i: int| !matches_at(q, r, i) by {
                if 0 <= i && i + r.len() <= q.len() {
                    if i == 33 {
                        assert(q[i + 1] != r[1]);
                    } else {
                        assert(q[i + 0] != r[0]);
                    }
                }
            }
            assert forall|i: int| !matches_at(q, j, i) by {
                if 0 <= i && i + j.len() <= q.len() {
                    if i == 33 {
                        assert(q[i + 1] != j[1]);
                    } else {
                        assert(q[i + 0] != j[0]);
                    }
                }
            }
        },
    }
}

/// A class free of alignment classes, followed by the alignment class of
/// `a`, reads back as `a`: the classes are looked for in the order centre,
/// right, justify, and each is found only where it was written.
proof fn lemma_align_reads_back(pre: Seq<char>, a: BlockAlign)
    requires
        free_of_align(pre),
    ensures
        ({
            let class = pre + align_class(a);
            &&& (a == BlockAlign::Center) == contains(class, "text-center"@)
            &&& a == BlockAlign::Right ==> contains(class, "text-right"@)
            &&& a == BlockAlign::Justify ==> !contains(class, "text-right"@) && contains(
                class,
                "text-justify"@,
            )
            &&& a == BlockAlign::Left ==> !contains(class, "text-right"@) && !contains(
                class,
                "text-justify"@,
            )
        }),
{
    reveal_strlit("");
    reveal_strlit(" text-center");
    reveal_strlit(" text-right");
    reveal_strlit(" text-justify");
    reveal_strlit("text-center");
    reveal_strlit("text-right");
    reveal_strlit("text-justify");
    let c = "text-center"@;
    let r = "text-right"@;
    let j = "text-justify"@;
    lemma_align_words_spaceless();
    let w = match a {
        BlockAlign::Center => c,
        BlockAlign::Right => r,
        _ => j,
    };
    if a == BlockAlign::Left {
        assert(pre + align_class(a) =~= pre);
    } else {
        assert(pre + align_class(a) =~= pre + seq![' '] + w);
        lemma_contains_split(pre, w, c);
        lemma_contains_split(pre, w, r);
        lemma_contains_split(pre, w, j);
        assert(matches_at(w, w, 0));
        assert forall|i: int| !matches_at(r, c, i) by {
            if 0 <= i && i + c.len() <= r.len() {
            }
        }
        assert forall|i: int| !matches_at(j, c, i) by {
            if 0 <= i && i + c.len() <= j.len() {
                if i == 0 {
                    assert(j[i + 5] != c[5]);
                } else {
                    assert(j[i + 0] != c[0]);
                }
            }
        }
        assert forall|i: int| !matches_at(j, r, i) by {
            if 0 <= i && i + r.len() <= j.len() {
                if i == 0 {
                    assert(j[i + 5] != r[5]);
                } else {
                    assert(j[i + 0] != r[0]);
                }
            }
        }
        assert forall|i: int| !matches_at(c, r, i) by {
            if 0 <= i && i + r.len() <= c.len() {
                if i == 0 {
                    assert(c[i + 5] != r[5]);
                } else {
                    assert(c[i + 0] != r[0]);
                }
            }
        }
    }
}

/// Reading back the nodes of a rendered paragraph, heading or quote with a
/// non-empty text gives one block of that kind, with that alignment, no
/// attributes and the text as its one plain run.
pub proof fn law_plain_block_reads_back(kind: KindD, a: BlockAlign, text: Seq<char>)
    requires
        is_plain_kind(kind),
        text.len() > 0,
    ensures
        parsed_doc(plain_block_tree(plain_tag(kind), plain_class_base(kind) + align_class(a), text))
            == seq![
            BlockD {
                id: id_text(1),
                kind,
                align: a,
                attrs: Seq::empty(),
                children: seq![InlineD::Text { text, marks: no_marks(), link: None }],
            },
        ],
{
    let class = plain_class_base(kind) + align_class(a);
    let tag = plain_tag(kind);
    let t = plain_block_tree(tag, class, text);
    reveal_strlit("html");
    reveal_strlit("p");
    reveal_strlit("class");
    reveal_strlit("img");
    reveal_strlit("\n");
    reveal_strlit("data-");
    reveal_strlit("style");
    reveal_strlit("h1");
    reveal_strlit("h2");
    reveal_strlit("h3");
    reveal_strlit("h4");
    reveal_strlit("h5");
    reveal_strlit("h6");
    reveal_strlit("ul");
    reveal_strlit("ol");
    reveal_strlit("blockquote");
    reveal_strlit("pre");
    reveal_strlit("hr");
    reveal_strlit("table");
    reveal_strlit("figure");
    // Which nodes make blocks: only the block's element.
    assert forall|s: int| 0 <= s < 14 implies !#[trigger] is_element(t, 0, block_tags()[s]) by {
        let g = block_tags();
        if s == 0 { assert(g[0].len() == 1); }
        else if s == 1 { assert(g[1].len() == 2); }
        else if s == 2 { assert(g[2].len() == 2); }
        else if s == 3 { assert(g[3].len() == 2); }
        else if s == 4 { assert(g[4].len() == 2); }
        else if s == 5 { assert(g[5].len() == 2); }
        else if s == 6 { assert(g[6].len() == 2); }
        else if s == 7 { assert(g[7].len() == 2); }
        else if s == 8 { assert(g[8].len() == 2); }
        else if s == 9 { assert(g[9].len() == 10); }
        else if s == 10 { assert(g[10].len() == 3); }
        else if s == 11 { assert(g[11].len() == 2); }
        else if s == 12 { assert(g[12].len() == 5); }
        else { assert(g[13].len() == 6); }
    }
    assert("html"@.len() != "img"@.len());
    assert(!is_element(t, 0, "img"@));
    assert(!(exists|s: int| 0 <= s < 14 && #[trigger] is_element(t, 0, block_tags()[s])));
    assert(!is_block_node(t, 0));
    let si: int = match kind {
        KindD::Paragraph => 0,
        KindD::Heading { level } => level as int,
        _ => 9,
    };
    assert(block_tags()[si] == tag);
    assert(is_element(t, 1, block_tags()[si]));
    assert(is_block_node(t, 1));
    assert(!is_block_node(t, 2));
    assert(!is_block_node(t, 3));
    assert(block_nodes(t, 0) =~= Seq::<int>::empty());
    assert(block_nodes(t, 1) =~= Seq::<int>::empty());
    assert(block_nodes(t, 2) =~= seq![1int]);
    assert(block_nodes(t, 3) =~= seq![1int]);
    assert(block_nodes(t, 4) =~= seq![1int]);
    // The element's content.
    assert(end_from(t, 1, 4) == 4);
    assert(end_from(t, 1, 3) == 3);
    assert(end_from(t, 1, 2) == 3);
    assert(subtree_end(t, 1) == 3);
    assert(end_from(t, 2, 3) == 3);
    assert(subtree_end(t, 2) == 3);
    assert(next_sibling(t, 2, 3) == 3);
    assert(inline_seq(t, 3, 3, no_marks(), None) =~= Seq::<InlineD>::empty());
    assert(inline_node(t, 2, 3, no_marks(), None) =~= seq![InlineD::Text { text, marks: no_marks(), link: None }]);
    assert(inline_seq(t, 2, 3, no_marks(), None) =~= seq![InlineD::Text { text, marks: no_marks(), link: None }]);
    // Its attributes.
    let av = seq![("class"@, class)];
    assert(av.drop_last() =~= Seq::<(Seq<char>, Seq<char>)>::empty());
    assert("class"@[0int + 0int] != "data-"@[0int]);
    assert(!matches_at("class"@, "data-"@, 0));
    assert(av.last() == ("class"@, class));
    assert(data_pairs(av.drop_last()) == Seq::<(Seq<char>, Seq<char>)>::empty());
    assert(data_pairs(av) =~= Seq::<(Seq<char>, Seq<char>)>::empty());
    assert(attr_of(t, 1, "class"@) == Some(class));
    assert(av.drop_first() =~= Seq::<(Seq<char>, Seq<char>)>::empty());
    assert("class"@[0int] != "style"@[0int]);
    assert("class"@ != "style"@);
    assert(av[0].0 != "style"@);
    assert(crate::html::attr_value(av.drop_first(), "style"@) is None);
    assert(attr_of(t, 1, "style"@) is None);
    lemma_base_free(kind);
    lemma_align_reads_back(plain_class_base(kind), a);
    assert(crate::parser::alignment(t, 1) == a);
    assert(crate::parser::inline_content(t, 1) == seq![InlineD::Text { text, marks: no_marks(), link: None }]);
    assert(next_count(0) == 1);
    assert(elem_name(t, 1) == tag);
    let b = BlockD {
        id: id_text(1),
        kind,
        align: a,
        attrs: Seq::empty(),
        children: seq![InlineD::Text { text, marks: no_marks(), link: None }],
    };
    match kind {
        KindD::Paragraph => {
            assert(element_block(t, 1, 0) == (Some(b), 1usize));
        },
        KindD::Heading { level } => {
            assert("h1"@[1int] == '1' && "h2"@[1int] == '2' && "h3"@[1int] == '3');
            assert("h4"@[1int] == '4' && "h5"@[1int] == '5' && "h6"@[1int] == '6');
            assert(tag != "p"@);
            if level == 1 {
                assert(tag == "h1"@);
            } else if level == 2 {
                assert(tag != "h1"@);
            } else if level == 3 {
                assert(tag != "h1"@ && tag != "h2"@);
            } else if level == 4 {
                assert(tag != "h1"@ && tag != "h2"@ && tag != "h3"@);
            } else if level == 5 {
                assert(tag != "h1"@ && tag != "h2"@ && tag != "h3"@ && tag != "h4"@);
            } else {
                assert(tag != "h1"@ && tag != "h2"@ && tag != "h3"@ && tag != "h4"@ && tag != "h5"@);
            }
            assert(element_block(t, 1, 0) == (Some(b), 1usize));
        },
        _ => {
            assert(element_block(t, 1, 0) == (Some(b), 1usize));
        },
    }
    let ks = seq![1int];
    assert(ks.drop_last() =~= Seq::<int>::empty());
    assert(blocks_for(t, ks.drop_last(), 0) == (Seq::<BlockD>::empty(), 0usize));
    assert(blocks_for(t, ks, 0).0 =~= seq![b]);
    assert(doc_blocks(t).0 =~= seq![b]);
}

/// The parsed kind of a plain block kind.
pub open spec fn plain_kind_of(k: BlockKindV) -> KindD {
    match k {
        BlockKindV::Paragraph => KindD::Paragraph,
        BlockKindV::Heading { level } => KindD::Heading { level },
        _ => KindD::Quote,
    }
}

/// A paragraph, a heading of level 1 to 6 or a quote.
pub open spec fn is_plain_kind_v(k: BlockKindV) -> bool {
    ||| k == BlockKindV::Paragraph
    ||| k == BlockKindV::Quote
    ||| (k matches BlockKindV::Heading { level } && 1 <= level <= 6)
}

/// A paragraph, heading or quote holding one plain run of text renders as
/// its element with the class `plain_class_base` followed by its alignment
/// class, the text escaped, and a line break: the markup whose nodes
/// `plain_block_tree` lists.
pub proof fn law_plain_block_renders(b: BlockV, t: Seq<char>)
    requires
        is_plain_kind_v(b.kind),
        b.children.len() == 1,
        b.children[0].is_plain_text(t),
    ensures
        is_plain_kind(plain_kind_of(b.kind)),
        render_block_spec(b) == "<"@ + plain_tag(plain_kind_of(b.kind)) + " class=\""@ + plain_class_base(
            plain_kind_of(b.kind),
        ) + align_class(b.align) + "\">"@ + escape(t) + "</"@ + plain_tag(plain_kind_of(b.kind))
            + ">\n"@,
{
    let k = plain_kind_of(b.kind);
    let al = align_class(b.align);
    assert(b.children.drop_last() =~= Seq::<Inline>::empty());
    law_plain_run_renders_escaped(b.children[0], t);
    assert(render_inlines_spec(b.children.drop_last()) == Seq::<char>::empty());
    assert(b.children.last() == b.children[0]);
    assert(render_inlines_spec(b.children) =~= escape(t));
    let body = escape(t);
    reveal_strlit("<");
    reveal_strlit(" class=\"");
    reveal_strlit("\">");
    reveal_strlit("</");
    reveal_strlit(">\n");
    reveal_strlit("p");
    reveal_strlit("mb-4");
    match b.kind {
        BlockKindV::Paragraph => {
            reveal_strlit("<p class=\"mb-4");
            reveal_strlit("</p>\n");
            assert(render_block_spec(b) =~= "<"@ + "p"@ + " class=\""@ + "mb-4"@ + al + "\">"@ + body + "</"@
                + "p"@ + ">\n"@);
        },
        BlockKindV::Heading { level } => {
            reveal_strlit("<h");
            reveal_strlit(" class=\"mb-4");
            reveal_strlit("</h");
            reveal_strlit("h1");
            reveal_strlit("h2");
            reveal_strlit("h3");
            reveal_strlit("h4");
            reveal_strlit("h5");
            reveal_strlit("h6");
            let d = decimal(level as nat);
            assert(d == seq![crate::escape::digit_char(level as nat)]);
            assert(seq!['h'] + d == plain_tag(k));
            assert(render_block_spec(b) =~= "<"@ + plain_tag(k) + " class=\""@ + ("mb-4"@ + heading_class(
                level,
            )) + al + "\">"@ + body + "</"@ + plain_tag(k) + ">\n"@);
        },
        _ => {
            reveal_strlit("<blockquote class=\"border-l-4 border-gray-300 pl-4 italic mb-4");
            reveal_strlit("</blockquote>\n");
            reveal_strlit("blockquote");
            reveal_strlit("border-l-4 border-gray-300 pl-4 italic mb-4");
            assert(render_block_spec(b) =~= "<"@ + "blockquote"@ + " class=\""@
                + "border-l-4 border-gray-300 pl-4 italic mb-4"@ + al + "\">"@ + body + "</"@
                + "blockquote"@ + ">\n"@);
        },
    }
}

} // verus!
