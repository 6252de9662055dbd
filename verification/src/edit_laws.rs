//! Properties that relate the editing commands to the text they change.
use vstd::prelude::*;

use crate::ast::{inlines_model, Block, Inline, InlineM, Link};
use crate::commands::{
    cut_inline, deleted, only_children_changed, inserted, is_reach_target, keep_run, lemma_prefix_step, linked_children,
    no_reach_target, normalized_of, overlaps_text, pos_le, prefix_text_width, prefix_width, retext,
    split_head, split_tail, text_len, text_m, texts_width, toggled_children, MarkType, Selection,
};

verus! {

/// The text of a run of inlines, each hard break read as a newline.
pub open spec fn plain_text(s: Seq<InlineM>) -> Seq<char>
    decreases s.len(),
{
    if s.len() == 0 {
        Seq::empty()
    } else {
        plain_text(s.drop_last()) + piece(s.last())
    }
}

/// The text of one inline; a hard break is a newline.
pub open spec fn piece(m: InlineM) -> Seq<char> {
    match m {
        InlineM::Text { text, .. } => text,
        InlineM::HardBreak => seq!['\n'],
    }
}

/// The text of two runs one after the other is the text of each, one after the other.
pub proof fn lemma_plain_concat(a: Seq<InlineM>, b: Seq<InlineM>)
    ensures
        plain_text(a + b) == plain_text(a) + plain_text(b),
    decreases b.len(),
{
    if b.len() == 0 {
        assert(a + b =~= a);
    } else {
        lemma_plain_concat(a, b.drop_last());
        assert((a + b).drop_last() =~= a + b.drop_last());
    }
}

/// The text of one inline run.
pub proof fn lemma_plain_single(m: InlineM)
    ensures
        plain_text(seq![m]) == piece(m),
{
    assert(seq![m].drop_last() =~= Seq::<InlineM>::empty());
    assert(plain_text(Seq::<InlineM>::empty()) == Seq::<char>::empty());
    assert(Seq::<char>::empty() + piece(m) =~= piece(m));
}

/// The text before inline `i` is as long as the positions before it.
pub proof fn lemma_plain_prefix_len(c: Seq<Inline>, i: int)
    requires
        0 <= i <= c.len(),
    ensures
        plain_text(inlines_model(c.take(i))).len() == prefix_width(c, i),
    decreases i,
{
    if i > 0 {
        lemma_plain_prefix_len(c, i - 1);
        lemma_prefix_step(c, i - 1);
        assert(inlines_model(c.take(i)).drop_last() =~= inlines_model(c.take(i - 1)));
    }
}

/// The model of a run split around inline `i`.
proof fn lemma_split_model(c: Seq<Inline>, i: int)
    requires
        0 <= i < c.len(),
    ensures
        inlines_model(c) == inlines_model(c.take(i)) + seq![c[i].model()] + inlines_model(c).skip(
            i + 1,
        ),
        inlines_model(c.take(i)) == inlines_model(c).take(i),
{
    assert(inlines_model(c) =~= inlines_model(c.take(i)) + seq![c[i].model()] + inlines_model(
        c,
    ).skip(i + 1));
    assert(inlines_model(c.take(i)) =~= inlines_model(c).take(i));
}

/// Inserting text where a text run reaches the offset puts it exactly at
/// that offset of the block's text: the text before the offset, then the
/// inserted text, then the rest.
pub proof fn law_insert_text_at_offset(c: Seq<Inline>, off: int, ins: Seq<char>)
    requires
        exists|i: int| is_reach_target(c, off, i),
        forall|i: int| is_reach_target(c, off, i) ==> prefix_width(c, i) <= off,
    ensures
        plain_text(inserted(c, off, ins)) == plain_text(inlines_model(c)).take(off) + ins
            + plain_text(inlines_model(c)).skip(off),
{
    let i = choose|i: int| is_reach_target(c, off, i);
    let m = c[i].model();
    let t = text_m(m);
    let k = off - prefix_width(c, i);
    let a = inlines_model(c.take(i));
    let rest = inlines_model(c).skip(i + 1);
    lemma_split_model(c, i);
    lemma_plain_prefix_len(c, i);
    let mi = retext(m, t.take(k) + ins + t.skip(k));
    assert(inserted(c, off, ins) =~= a + seq![mi] + rest);
    lemma_plain_concat(a + seq![mi], rest);
    lemma_plain_concat(a, seq![mi]);
    lemma_plain_single(mi);
    lemma_plain_concat(a + seq![m], rest);
    lemma_plain_concat(a, seq![m]);
    lemma_plain_single(m);
    let pa = plain_text(a);
    let pr = plain_text(rest);
    assert(plain_text(inlines_model(c)) == pa + t + pr);
    assert((pa + t + pr).take(off) =~= pa + t.take(k));
    assert((pa + t + pr).skip(off) =~= t.skip(k) + pr);
    assert(plain_text(inserted(c, off, ins)) =~= pa + (t.take(k) + ins + t.skip(k)) + pr);
}

/// Where no text run reaches the offset, the text is added after all of the block's text.
pub proof fn law_insert_text_appends(c: Seq<Inline>, off: int, ins: Seq<char>)
    requires
        no_reach_target(c, off),
    ensures
        plain_text(inserted(c, off, ins)) == plain_text(inlines_model(c)) + ins,
{
    assert(!exists|i: int| is_reach_target(c, off, i));
    let m = InlineM::Text { text: ins, marks: crate::ast::empty_marks(), link: None };
    lemma_plain_concat(inlines_model(c), seq![m]);
    lemma_plain_single(m);
    assert(inlines_model(c).push(m) =~= inlines_model(c) + seq![m]);
}

/// Splitting a block keeps its text: the text left in the block, followed by
/// the text of the new block, is the text the block had.
pub proof fn law_split_keeps_text(c: Seq<Inline>, off: int)
    requires
        forall|i: int| is_reach_target(c, off, i) ==> prefix_width(c, i) <= off,
    ensures
        plain_text(split_head(c, off)) + plain_text(split_tail(c, off)) == plain_text(
            inlines_model(c),
        ),
{
    if exists|i: int| is_reach_target(c, off, i) {
        let i = choose|i: int| is_reach_target(c, off, i);
        let m = c[i].model();
        let t = text_m(m);
        let k = off - prefix_width(c, i);
        let a = inlines_model(c.take(i));
        let rest = inlines_model(c).skip(i + 1);
        lemma_split_model(c, i);
        let h = retext(m, t.take(k));
        let g = retext(m, t.skip(k));
        assert(split_head(c, off) =~= a + seq![h]);
        lemma_plain_concat(a, seq![h]);
        lemma_plain_single(h);
        lemma_plain_concat(a + seq![m], rest);
        lemma_plain_concat(a, seq![m]);
        lemma_plain_single(m);
        if t.skip(k).len() > 0 {
            lemma_plain_concat(seq![g], rest);
            lemma_plain_single(g);
        } else {
            assert(t.skip(k) =~= Seq::<char>::empty());
        }
        assert(t =~= t.take(k) + t.skip(k));
    } else {
        assert(split_tail(c, off) =~= Seq::<InlineM>::empty());
        assert(plain_text(split_tail(c, off)) =~= Seq::<char>::empty());
        assert(plain_text(split_head(c, off)) + Seq::<char>::empty() =~= plain_text(
            split_head(c, off),
        ));
    }
}

/// Switching a mark twice on the same range gives back the runs one started with.
pub proof fn law_toggle_mark_twice(c: Seq<Inline>, s: int, e: int, t: MarkType)
    ensures
        toggled_children(toggled_children(c, s, e, t), s, e, t) == c,
{
    let c1 = toggled_children(c, s, e, t);
    assert forall|i: int| 0 <= i <= c.len() implies #[trigger] prefix_width(c1, i) == prefix_width(
        c,
        i,
    ) by {
        lemma_same_widths(c, c1, i);
    }
    assert(toggled_children(c1, s, e, t) =~= c);
}

/// Switching the same mark twice over the same range of a block, as
/// `ToggleMark::execute` does to the blocks of a document, gives back the
/// blocks one started with: the other blocks, and every field of the changed
/// block, are as they were, its runs included.
pub proof fn law_toggle_mark_twice_restores(
    b0: Seq<Block>,
    b1: Seq<Block>,
    b2: Seq<Block>,
    bi: int,
    s: int,
    e: int,
    t: MarkType,
)
    requires
        only_children_changed(b0, b1, bi),
        b1[bi].children@ == toggled_children(b0[bi].children@, s, e, t),
        only_children_changed(b1, b2, bi),
        b2[bi].children@ == toggled_children(b1[bi].children@, s, e, t),
    ensures
        b2.len() == b0.len(),
        forall|j: int| 0 <= j < b0.len() && j != bi ==> #[trigger] b2[j] == b0[j],
        b2[bi].id == b0[bi].id,
        b2[bi].kind == b0[bi].kind,
        b2[bi].align == b0[bi].align,
        b2[bi].attrs == b0[bi].attrs,
        b2[bi].children@ == b0[bi].children@,
{
    law_toggle_mark_twice(b0[bi].children@, s, e, t);
    assert forall|j: int| 0 <= j < b0.len() && j != bi implies #[trigger] b2[j] == b0[j] by {
        assert(b2[j] == b1[j]);
    }
}

/// Linking the same range of a block twice to the same link, as
/// `InsertLink::execute` does to the blocks of a document, leaves the blocks
/// as the first linking left them.
pub proof fn law_insert_link_twice_same(
    b0: Seq<Block>,
    b1: Seq<Block>,
    b2: Seq<Block>,
    bi: int,
    s: int,
    e: int,
    l: Link,
)
    requires
        only_children_changed(b0, b1, bi),
        b1[bi].children@ == linked_children(b0[bi].children@, s, e, l),
        only_children_changed(b1, b2, bi),
        b2[bi].children@ == linked_children(b1[bi].children@, s, e, l),
    ensures
        b2.len() == b1.len(),
        forall|j: int| 0 <= j < b1.len() && j != bi ==> #[trigger] b2[j] == b1[j],
        b2[bi].id == b1[bi].id,
        b2[bi].kind == b1[bi].kind,
        b2[bi].align == b1[bi].align,
        b2[bi].attrs == b1[bi].attrs,
        b2[bi].children@ == b1[bi].children@,
{
    law_insert_link_idempotent(b0[bi].children@, s, e, l);
}

/// Two runs whose inlines have the same widths have the same prefix widths.
proof fn lemma_same_widths(c: Seq<Inline>, d: Seq<Inline>, i: int)
    requires
        c.len() == d.len(),
        0 <= i <= c.len(),
        forall|j: int| 0 <= j < c.len() ==> #[trigger] c[j].width() == d[j].width() && (
        c[j] is Text <==> d[j] is Text) && text_len(c[j]) == text_len(d[j]),
    ensures
        prefix_width(c, i) == prefix_width(d, i),
        prefix_text_width(c, i) == prefix_text_width(d, i),
    decreases i,
{
    if i > 0 {
        lemma_same_widths(c, d, i - 1);
        lemma_prefix_step(c, i - 1);
        lemma_prefix_step(d, i - 1);
    }
}

/// Linking a range twice to the same link is the same as linking it once.
pub proof fn law_insert_link_idempotent(c: Seq<Inline>, s: int, e: int, l: Link)
    ensures
        linked_children(linked_children(c, s, e, l), s, e, l) == linked_children(c, s, e, l),
{
    let c1 = linked_children(c, s, e, l);
    assert forall|i: int| 0 <= i <= c.len() implies #[trigger] prefix_text_width(c1, i)
        == prefix_text_width(c, i) by {
        lemma_same_widths(c, c1, i);
    }
    assert(linked_children(c1, s, e, l) =~= c1);
}

/// The normalized ends of a selection are its anchor and focus, the first no
/// later than the second.
pub proof fn law_normalized_ordered(sel: Selection)
    ensures
        pos_le(normalized_of(sel).0, normalized_of(sel).1),
        (normalized_of(sel).0 == sel.anchor && normalized_of(sel).1 == sel.focus) || (
        normalized_of(sel).0 == sel.focus && normalized_of(sel).1 == sel.anchor),
{
}

} // verus!

verus! {

/// A run without hard breaks.
pub open spec fn no_hard_breaks(c: Seq<Inline>) -> bool {
    forall|i: int| 0 <= i < c.len() ==> #[trigger] c[i] is Text
}

/// Without hard breaks, counting positions and counting text characters agree.
proof fn lemma_widths_agree(c: Seq<Inline>, i: int)
    requires
        no_hard_breaks(c),
        0 <= i <= c.len(),
    ensures
        prefix_width(c, i) == prefix_text_width(c, i),
    decreases i,
{
    if i > 0 {
        lemma_widths_agree(c, i - 1);
        lemma_prefix_step(c, i - 1);
    }
}

/// Dropping empty text runs keeps the text.
proof fn lemma_plain_filter(x: Seq<InlineM>)
    ensures
        plain_text(x.filter(|m: InlineM| keep_run(m))) == plain_text(x),
    decreases x.len(),
{
    reveal(Seq::filter);
    if x.len() > 0 {
        lemma_plain_filter(x.drop_last());
        let f = x.drop_last().filter(|m: InlineM| keep_run(m));
        if keep_run(x.last()) {
            assert(x.filter(|m: InlineM| keep_run(m)) == f.push(x.last()));
            assert(f.push(x.last()).drop_last() =~= f);
        } else {
            assert(piece(x.last()) =~= Seq::<char>::empty());
            assert(plain_text(x) =~= plain_text(x.drop_last()));
        }
    }
}

/// The runs after cutting, before empty runs are dropped.
pub open spec fn cut_runs(c: Seq<Inline>, s: int, e: int) -> Seq<InlineM> {
    Seq::new(c.len(), |i: int| cut_inline(c, i, s, e))
}

/// The first `n` runs after cutting hold the text of the first `n` runs
/// without the part of the range that falls in them.
proof fn lemma_delete_prefix(c: Seq<Inline>, s: int, e: int, n: int)
    requires
        no_hard_breaks(c),
        0 <= s <= e,
        0 <= n <= c.len(),
    ensures
        ({
            let p = plain_text(inlines_model(c.take(n)));
            let w = prefix_width(c, n) as int;
            plain_text(cut_runs(c, s, e).take(n)) == p.take(if s < w {
                s
            } else {
                w
            }) + p.skip(if e < w {
                e
            } else {
                w
            })
        }),
    decreases n,
{
    let p = plain_text(inlines_model(c.take(n)));
    lemma_plain_prefix_len(c, n);
    if n == 0 {
        assert(cut_runs(c, s, e).take(0) =~= Seq::<InlineM>::empty());
        assert(c.take(0) =~= Seq::<Inline>::empty());
        assert(inlines_model(c.take(0)) =~= Seq::<InlineM>::empty());
        assert(p =~= Seq::<char>::empty());
        assert(p.take(0) + p.skip(0) =~= Seq::<char>::empty());
    } else {
        let k = n - 1;
        lemma_delete_prefix(c, s, e, k);
        lemma_plain_prefix_len(c, k);
        lemma_prefix_step(c, k);
        lemma_widths_agree(c, k);
        let q = plain_text(inlines_model(c.take(k)));
        let pw = prefix_width(c, k) as int;
        assert(c[k] is Text);
        let t = text_m(c[k].model());
        assert(t.len() == c[k].width());
        assert(inlines_model(c.take(n)).drop_last() =~= inlines_model(c.take(k)));
        assert(p == q + t);
        assert(cut_runs(c, s, e).take(n).drop_last() =~= cut_runs(c, s, e).take(k));
        let cs = if s < pw {
            s
        } else {
            pw
        };
        let ce = if e < pw {
            e
        } else {
            pw
        };
        let piece_k = piece(cut_inline(c, k, s, e));
        assert(plain_text(cut_runs(c, s, e).take(n)) == q.take(cs) + q.skip(ce) + piece_k);
        let w = pw + t.len();
        let cs2 = if s < w {
            s
        } else {
            w
        };
        let ce2 = if e < w {
            e
        } else {
            w
        };
        if overlaps_text(c, k, s, e) {
            let ds = if s > pw {
                s - pw
            } else {
                0
            };
            let de = if e - pw < t.len() {
                e - pw
            } else {
                t.len() as int
            };
            assert(piece_k == t.take(ds) + t.skip(de));
            assert(q.skip(ce) =~= Seq::<char>::empty());
            assert(p.take(cs2) =~= q.take(cs) + t.take(ds));
            assert(p.skip(ce2) =~= t.skip(de));
            assert(plain_text(cut_runs(c, s, e).take(n)) =~= p.take(cs2) + p.skip(ce2));
        } else {
            assert(piece_k == t);
            if pw >= e {
                assert(p.take(cs2) =~= q.take(cs));
                assert(p.skip(ce2) =~= q.skip(ce) + t);
            } else {
                assert(p.take(cs2) =~= q + t);
                assert(q.take(cs) =~= q);
                assert(q.skip(ce) =~= Seq::<char>::empty());
                assert(p.skip(ce2) =~= Seq::<char>::empty());
            }
            assert(plain_text(cut_runs(c, s, e).take(n)) =~= p.take(cs2) + p.skip(ce2));
        }
    }
}

/// In a block without hard breaks, deleting the range from `s` to `e` takes
/// exactly those characters out of the block's text.
pub proof fn law_delete_removes_range(c: Seq<Inline>, s: int, e: int)
    requires
        no_hard_breaks(c),
        0 <= s <= e <= texts_width(c),
    ensures
        plain_text(deleted(c, s, e)) == plain_text(inlines_model(c)).take(s) + plain_text(
            inlines_model(c),
        ).skip(e),
{
    lemma_delete_prefix(c, s, e, c.len() as int);
    lemma_plain_filter(cut_runs(c, s, e));
    assert(cut_runs(c, s, e).take(c.len() as int) =~= cut_runs(c, s, e));
    assert(c.take(c.len() as int) =~= c);
    crate::commands::lemma_prefix_full(c);
    lemma_widths_agree(c, c.len() as int);
}

} // verus!

