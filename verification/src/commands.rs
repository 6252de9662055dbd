//! Editing commands: positions, selections and the commands that change a
//! document at a selection.
use vstd::prelude::*;

use crate::ast::{
    copy_kind, copy_opt_link, copy_opt_string, is_uuid_v4_text, BlockAlign,
    empty_marks, inlines_model, inlines_width, Block, BlockKind, Doc, Inline, InlineM, Link, MarkSet,
};
use crate::text::{char_len, remove_range, splice, substring};

verus! {

/// A position in the document: a block index and a character offset in it.
#[derive(Debug, Clone, Copy, PartialEq, Eq, Structural)]
pub struct Position {
    pub block_index: usize,
    pub offset: usize,
}

impl Position {
    pub fn new(block_index: usize, offset: usize) -> (r: Self)
        ensures
            r == (Position { block_index, offset }),
    {
        Position { block_index, offset }
    }

    /// The start of the document.
    pub fn start() -> (r: Self)
        ensures
            r == (Position { block_index: 0, offset: 0 }),
    {
        Position { block_index: 0, offset: 0 }
    }
}

/// `a` comes no later than `b` in document order.
pub open spec fn pos_le(a: Position, b: Position) -> bool {
    a.block_index < b.block_index || (a.block_index == b.block_index && a.offset <= b.offset)
}

/// A selection: where it was started (anchor) and where it ends (focus).
#[derive(Debug, Clone, Copy, PartialEq, Eq, Structural)]
pub struct Selection {
    pub anchor: Position,
    pub focus: Position,
}

/// The spec form of `Selection::collapsed`.
pub open spec fn collapsed_at(p: Position) -> Selection {
    Selection { anchor: p, focus: p }
}

impl Selection {
    pub fn new(anchor: Position, focus: Position) -> (r: Self)
        ensures
            r == (Selection { anchor, focus }),
    {
        Selection { anchor, focus }
    }

    /// The empty selection at `pos`.
    pub fn collapsed(pos: Position) -> (r: Self)
        ensures
            r == collapsed_at(pos),
    {
        Selection { anchor: pos, focus: pos }
    }

    /// True when anchor and focus are the same position.
    pub fn is_collapsed(&self) -> (r: bool)
        ensures
            r == (self.anchor == self.focus),
    {
        self.anchor == self.focus
    }

    /// The two ends of the selection in document order.
    pub fn normalized(&self) -> (r: (Position, Position))
        ensures
            r == (if pos_le(self.anchor, self.focus) {
                (self.anchor, self.focus)
            } else {
                (self.focus, self.anchor)
            }),
    {
        if self.anchor.block_index < self.focus.block_index || (self.anchor.block_index
            == self.focus.block_index && self.anchor.offset <= self.focus.offset) {
            (self.anchor, self.focus)
        } else {
            (self.focus, self.anchor)
        }
    }
}

/// The spec form of `Selection::normalized`.
pub open spec fn normalized_of(s: Selection) -> (Position, Position) {
    if pos_le(s.anchor, s.focus) {
        (s.anchor, s.focus)
    } else {
        (s.focus, s.anchor)
    }
}

/// Why a command did not run.
#[derive(Debug, Clone, Copy, PartialEq, Eq, Structural)]
pub enum CommandError {
    InvalidSelection,
    InvalidBlockIndex,
    EmptyDocument,
    UnsupportedOperation,
}

// ---------------------------------------------------------------------------
// Character positions inside a run of inlines
// ---------------------------------------------------------------------------

/// Number of character positions taken by the first `i` inlines.
pub open spec fn prefix_width(c: Seq<Inline>, i: int) -> nat {
    inlines_width(c.take(i))
}

/// Number of text characters (hard breaks not counted) in the first `i` inlines.
pub open spec fn prefix_text_width(c: Seq<Inline>, i: int) -> nat {
    texts_width(c.take(i))
}

/// Number of text characters of `s`; hard breaks count for nothing.
pub open spec fn texts_width(s: Seq<Inline>) -> nat
    decreases s.len(),
{
    if s.len() == 0 {
        0
    } else {
        texts_width(s.drop_last()) + text_len(s.last())
    }
}

/// Characters of a text run; zero for a hard break.
pub open spec fn text_len(x: Inline) -> nat {
    match x {
        Inline::Text { text, .. } => text@.len(),
        Inline::HardBreak => 0,
    }
}

/// Inline `i` is a text run that ends at or after position `off`.
pub open spec fn reaches(c: Seq<Inline>, off: int, i: int) -> bool {
    &&& 0 <= i < c.len()
    &&& c[i] is Text
    &&& prefix_width(c, i) + c[i].width() >= off
}

/// Inline `i` is the first text run that ends at or after `off`: the run in
/// which text at `off` is inserted and at which a block is split.
pub open spec fn is_reach_target(c: Seq<Inline>, off: int, i: int) -> bool {
    &&& reaches(c, off, i)
    &&& forall|j: int| 0 <= j < i ==> !#[trigger] reaches(c, off, j)
}

/// No text run ends at or after `off`.
pub open spec fn no_reach_target(c: Seq<Inline>, off: int) -> bool {
    forall|j: int| 0 <= j < c.len() ==> !#[trigger] reaches(c, off, j)
}

/// The text run model `m` with its text replaced by `t`.
pub open spec fn retext(m: InlineM, t: Seq<char>) -> InlineM {
    match m {
        InlineM::Text { marks, link, .. } => InlineM::Text { text: t, marks, link },
        InlineM::HardBreak => InlineM::HardBreak,
    }
}

/// The text of a run model; empty for a hard break.
pub open spec fn text_m(m: InlineM) -> Seq<char> {
    match m {
        InlineM::Text { text, .. } => text,
        InlineM::HardBreak => Seq::empty(),
    }
}

/// Adding one more inline adds its width.
pub proof fn lemma_prefix_step(c: Seq<Inline>, i: int)
    requires
        0 <= i < c.len(),
    ensures
        prefix_width(c, i + 1) == prefix_width(c, i) + c[i].width(),
        prefix_text_width(c, i + 1) == prefix_text_width(c, i) + text_len(c[i]),
{
    assert(c.take(i + 1).drop_last() =~= c.take(i));
}

/// Widths of prefixes grow with the prefix.
pub proof fn lemma_prefix_mono(c: Seq<Inline>, i: int, j: int)
    requires
        0 <= i <= j <= c.len(),
    ensures
        prefix_width(c, i) <= prefix_width(c, j),
        prefix_text_width(c, i) <= prefix_text_width(c, j),
    decreases j - i,
{
    if i < j {
        lemma_prefix_mono(c, i, j - 1);
        lemma_prefix_step(c, j - 1);
    }
}

/// The widths of the whole run are those of its longest prefix.
pub proof fn lemma_prefix_full(c: Seq<Inline>)
    ensures
        prefix_width(c, c.len() as int) == inlines_width(c),
        prefix_text_width(c, c.len() as int) == texts_width(c),
{
    assert(c.take(c.len() as int) =~= c);
}

/// Width of one inline.
fn inline_width(x: &Inline) -> (w: usize)
    ensures
        w == x.width(),
{
    match x {
        Inline::Text { text, .. } => char_len(text.as_str()),
        Inline::HardBreak => 1,
    }
}

/// Finds the first text run that ends at or after `off`, with the number of
/// character positions before it.
fn find_reach_target(c: &Vec<Inline>, off: usize) -> (r: Option<(usize, usize)>)
    requires
        inlines_width(c@) <= usize::MAX,
    ensures
        match r {
            Some((i, p)) => is_reach_target(c@, off as int, i as int) && p == prefix_width(
                c@,
                i as int,
            ),
            None => no_reach_target(c@, off as int),
        },
{
    let mut count: usize = 0;
    let mut idx: usize = 0;
    proof {
        assert(c@.take(0) =~= Seq::<Inline>::empty());
    }
    while idx < c.len()
        invariant
            idx <= c@.len(),
            inlines_width(c@) <= usize::MAX,
            count == prefix_width(c@, idx as int),
            forall|j: int| 0 <= j < idx ==> !#[trigger] reaches(c@, off as int, j),
        decreases c@.len() - idx,
    {
        proof {
            lemma_prefix_step(c@, idx as int);
            lemma_prefix_mono(c@, idx + 1, c@.len() as int);
            lemma_prefix_full(c@);
        }
        let w = inline_width(&c[idx]);
        let is_text = match &c[idx] {
            Inline::Text { .. } => true,
            Inline::HardBreak => false,
        };
        if is_text && count + w >= off {
            return Some((idx, count));
        }
        count = count + w;
        idx = idx + 1;
    }
    None
}

} // verus!

verus! {

// ---------------------------------------------------------------------------
// The command interface
// ---------------------------------------------------------------------------

/// An editing command.
pub trait Command {
    /// The inputs on which `execute` runs to its end: the counts of
    /// characters it forms stay within `usize`, and no offset it subtracts
    /// lies below the position it is subtracted from.
    spec fn fits(&self, doc: Doc, selection: Selection) -> bool;

    /// Executes the command on the document; returns the new selection.
    fn execute(&self, doc: &mut Doc, selection: &Selection) -> (r: Result<Selection, CommandError>)
        requires
            self.fits(*old(doc), *selection),
    ;

    /// A human-readable description of the command.
    fn description(&self) -> &str;
}

/// `new` is `old` with the children of block `bi` replaced: every other
/// block, and every other field of block `bi`, is unchanged.
pub open spec fn only_children_changed(old: Seq<Block>, new: Seq<Block>, bi: int) -> bool {
    &&& new.len() == old.len()
    &&& 0 <= bi < old.len()
    &&& forall|j: int| 0 <= j < old.len() && j != bi ==> #[trigger] new[j] == old[j]
    &&& new[bi].id == old[bi].id
    &&& new[bi].kind == old[bi].kind
    &&& new[bi].align == old[bi].align
    &&& new[bi].attrs == old[bi].attrs
}

// ---------------------------------------------------------------------------
// InsertText
// ---------------------------------------------------------------------------

/// Inserts text at the focus of the selection.
pub struct InsertText {
    pub text: String,
}

/// The children of a block after inserting `ins` at offset `off`: inside the
/// first text run that ends at or after `off`, or, if there is none, as a new
/// plain run at the end.
pub open spec fn inserted(c: Seq<Inline>, off: int, ins: Seq<char>) -> Seq<InlineM> {
    if exists|i: int| is_reach_target(c, off, i) {
        let i = choose|i: int| is_reach_target(c, off, i);
        let t = text_m(c[i].model());
        let k = off - prefix_width(c, i);
        inlines_model(c).update(i, retext(c[i].model(), t.take(k) + ins + t.skip(k)))
    } else {
        inlines_model(c).push(InlineM::Text { text: ins, marks: empty_marks(), link: None })
    }
}

impl Command for InsertText {
    open spec fn fits(&self, doc: Doc, selection: Selection) -> bool {
        let bi = selection.focus.block_index;
        let off = selection.focus.offset;
        doc.blocks@.len() > 0 && bi < doc.blocks@.len() ==> {
            let c = doc.blocks@[bi as int].children@;
            &&& inlines_width(c) <= usize::MAX
            &&& off + self.text@.len() <= usize::MAX
            &&& forall|i: int| is_reach_target(c, off as int, i) ==> prefix_width(c, i) <= off
        }
    }

    fn execute(&self, doc: &mut Doc, selection: &Selection) -> (r: Result<Selection, CommandError>)
        ensures
            old(doc).blocks@.len() == 0 ==> r == Err::<Selection, CommandError>(
                CommandError::EmptyDocument,
            ) && *final(doc) == *old(doc),
            old(doc).blocks@.len() > 0 && selection.focus.block_index >= old(doc).blocks@.len()
                ==> r == Err::<Selection, CommandError>(CommandError::InvalidBlockIndex)
                && *final(doc) == *old(doc),
            old(doc).blocks@.len() > 0 && selection.focus.block_index < old(doc).blocks@.len()
                ==> {
                let bi = selection.focus.block_index as int;
                let off = selection.focus.offset;
                &&& only_children_changed(old(doc).blocks@, final(doc).blocks@, bi)
                &&& inlines_model(final(doc).blocks@[bi].children@) == inserted(
                    old(doc).blocks@[bi].children@,
                    off as int,
                    self.text@,
                )
                &&& r == Ok::<Selection, CommandError>(
                    collapsed_at(
                        Position {
                            block_index: selection.focus.block_index,
                            offset: (off + self.text@.len()) as usize,
                        },
                    ),
                )
            },
    {
        if doc.blocks.len() == 0 {
            return Err(CommandError::EmptyDocument);
        }
        let pos = selection.focus;
        if pos.block_index >= doc.blocks.len() {
            return Err(CommandError::InvalidBlockIndex);
        }
        let bi = pos.block_index;
        let ins_len = char_len(self.text.as_str());
        let ghost c = doc.blocks@[bi as int].children@;
        let found = find_reach_target(&doc.blocks[bi].children, pos.offset);
        match found {
            Some((idx, before)) => {
                let local = pos.offset - before;
                let new_inline = match &doc.blocks[bi].children[idx] {
                    Inline::Text { text, marks, link } => {
                        let t = splice(text.as_str(), local, local, self.text.as_str());
                        Inline::Text { text: t, marks: marks.clone(), link: copy_opt_link(link) }
                    },
                    Inline::HardBreak => Inline::HardBreak,
                };
                doc.blocks[bi].children[idx] = new_inline;
                proof {
                    assert(is_reach_target(c, pos.offset as int, idx as int));
                    assert(inlines_model(doc.blocks@[bi as int].children@) =~= inserted(
                        c,
                        pos.offset as int,
                        self.text@,
                    ));
                }
                Ok(Selection::collapsed(Position::new(bi, pos.offset + ins_len)))
            },
            None => {
                doc.blocks[bi].children.push(Inline::text(self.text.as_str()));
                proof {
                    assert(inlines_model(doc.blocks@[bi as int].children@) =~= inserted(
                        c,
                        pos.offset as int,
                        self.text@,
                    ));
                }
                Ok(Selection::collapsed(Position::new(bi, pos.offset + ins_len)))
            },
        }
    }

    fn description(&self) -> (r: &str)
        ensures
            r@ == "Insert text"@,
    {
        "Insert text"
    }
}

} // verus!

verus! {

// ---------------------------------------------------------------------------
// ToggleMark
// ---------------------------------------------------------------------------

/// The marks that `ToggleMark` switches.
#[derive(Debug, Clone, Copy, PartialEq, Eq, Structural)]
pub enum MarkType {
    Bold,
    Italic,
    Underline,
    Strike,
    Code,
}

/// Toggles one mark on every text run that the selection overlaps.
pub struct ToggleMark {
    pub mark_type: MarkType,
}

/// `m` with the mark `t` switched.
pub open spec fn toggled(m: MarkSet, t: MarkType) -> MarkSet {
    match t {
        MarkType::Bold => MarkSet { bold: !m.bold, ..m },
        MarkType::Italic => MarkSet { italic: !m.italic, ..m },
        MarkType::Underline => MarkSet { underline: !m.underline, ..m },
        MarkType::Strike => MarkSet { strike: !m.strike, ..m },
        MarkType::Code => MarkSet { code: !m.code, ..m },
    }
}

/// Inline `i` is a text run whose character range meets the range from `s` to `e`.
pub open spec fn overlaps(c: Seq<Inline>, i: int, s: int, e: int) -> bool {
    &&& c[i] is Text
    &&& prefix_width(c, i) < e
    &&& prefix_width(c, i) + c[i].width() > s
}

/// `x` with the mark `t` switched, if it is a text run.
pub open spec fn toggle_inline(x: Inline, t: MarkType) -> Inline {
    match x {
        Inline::Text { text, marks, link } => Inline::Text { text, marks: toggled(marks, t), link },
        Inline::HardBreak => Inline::HardBreak,
    }
}

/// The children after toggling `t` on the runs that meet the range from `s` to `e`.
pub open spec fn toggled_children(c: Seq<Inline>, s: int, e: int, t: MarkType) -> Seq<Inline> {
    Seq::new(c.len(), |i: int| if overlaps(c, i, s, e) { toggle_inline(c[i], t) } else { c[i] })
}

/// Runs whose inlines match one for one in width and in text length have
/// the same width and the same text width.
pub proof fn lemma_widths_match(c: Seq<Inline>, d: Seq<Inline>)
    requires
        c.len() == d.len(),
        forall|j: int|
            0 <= j < c.len() ==> #[trigger] c[j].width() == d[j].width() && text_len(c[j]) == text_len(
                d[j],
            ),
    ensures
        inlines_width(c) == inlines_width(d),
        texts_width(c) == texts_width(d),
    decreases c.len(),
{
    if c.len() > 0 {
        let c0 = c.drop_last();
        let d0 = d.drop_last();
        assert forall|j: int| 0 <= j < c0.len() implies #[trigger] c0[j].width() == d0[j].width()
            && text_len(c0[j]) == text_len(d0[j]) by {
            assert(c0[j] == c[j] && d0[j] == d[j]);
        }
        lemma_widths_match(c0, d0);
        assert(c.last() == c[c.len() - 1] && d.last() == d[d.len() - 1]);
    }
}

/// Switching a mark changes no width: the runs after it take as many
/// positions, and hold as many text characters, as before; so the command
/// still fits the block it changed.
pub proof fn law_toggle_keeps_widths(c: Seq<Inline>, s: int, e: int, t: MarkType)
    ensures
        inlines_width(toggled_children(c, s, e, t)) == inlines_width(c),
        texts_width(toggled_children(c, s, e, t)) == texts_width(c),
{
    let d = toggled_children(c, s, e, t);
    assert forall|j: int| 0 <= j < c.len() implies #[trigger] c[j].width() == d[j].width() && text_len(
        c[j],
    ) == text_len(d[j]) by {}
    lemma_widths_match(c, d);
}

/// Switches one mark.
fn toggle_marks(m: &MarkSet, t: MarkType) -> (r: MarkSet)
    ensures
        r == toggled(*m, t),
{
    let mut r = m.clone();
    match t {
        MarkType::Bold => r.bold = !r.bold,
        MarkType::Italic => r.italic = !r.italic,
        MarkType::Underline => r.underline = !r.underline,
        MarkType::Strike => r.strike = !r.strike,
        MarkType::Code => r.code = !r.code,
    }
    r
}

impl Command for ToggleMark {
    open spec fn fits(&self, doc: Doc, selection: Selection) -> bool {
        let start = normalized_of(selection).0;
        start.block_index < doc.blocks@.len() ==> inlines_width(
            doc.blocks@[start.block_index as int].children@,
        ) <= usize::MAX
    }

    fn execute(&self, doc: &mut Doc, selection: &Selection) -> (r: Result<Selection, CommandError>)
        ensures
            ({
                let (start, end) = normalized_of(*selection);
                let blocks = old(doc).blocks@;
                if blocks.len() == 0 {
                    r == Err::<Selection, CommandError>(CommandError::EmptyDocument) && *final(doc)
                        == *old(doc)
                } else if start.block_index != end.block_index {
                    r == Err::<Selection, CommandError>(CommandError::UnsupportedOperation)
                        && *final(doc) == *old(doc)
                } else if start.block_index >= blocks.len() {
                    r == Err::<Selection, CommandError>(CommandError::InvalidBlockIndex)
                        && *final(doc) == *old(doc)
                } else {
                    let bi = start.block_index as int;
                    &&& only_children_changed(blocks, final(doc).blocks@, bi)
                    &&& final(doc).blocks@[bi].children@ == toggled_children(
                        blocks[bi].children@,
                        start.offset as int,
                        end.offset as int,
                        self.mark_type,
                    )
                    &&& r == Ok::<Selection, CommandError>(*selection)
                }
            }),
            self.fits(*old(doc), *selection) ==> self.fits(*final(doc), *selection),
    {
        if doc.blocks.len() == 0 {
            return Err(CommandError::EmptyDocument);
        }
        let (start, end) = selection.normalized();
        if start.block_index != end.block_index {
            return Err(CommandError::UnsupportedOperation);
        }
        if start.block_index >= doc.blocks.len() {
            return Err(CommandError::InvalidBlockIndex);
        }
        let bi = start.block_index;
        let ghost c = doc.blocks@[bi as int].children@;
        let ghost blocks0 = doc.blocks@;
        let n = doc.blocks[bi].children.len();
        let mut count: usize = 0;
        let mut idx: usize = 0;
        proof {
            assert(c.take(0) =~= Seq::<Inline>::empty());
        }
        while idx < n
            invariant
                n == c.len(),
                idx <= n,
                bi < blocks0.len(),
                c == blocks0[bi as int].children@,
                inlines_width(c) <= usize::MAX,
                count == prefix_width(c, idx as int),
                only_children_changed(blocks0, doc.blocks@, bi as int),
                doc.blocks@[bi as int].children@.len() == n,
                forall|j: int|
                    0 <= j < idx ==> #[trigger] doc.blocks@[bi as int].children@[j]
                        == toggled_children(c, start.offset as int, end.offset as int, self.mark_type)[j],
                forall|j: int| idx <= j < n ==> #[trigger] doc.blocks@[bi as int].children@[j] == c[j],
            decreases n - idx,
        {
            proof {
                lemma_prefix_step(c, idx as int);
                lemma_prefix_mono(c, idx + 1, c.len() as int);
                lemma_prefix_full(c);
            }
            let w = inline_width(&doc.blocks[bi].children[idx]);
            let new_inline = match &doc.blocks[bi].children[idx] {
                Inline::Text { text, marks, link } => {
                    if count < end.offset && count + w > start.offset {
                        Some(
                            Inline::Text {
                                text: text.clone(),
                                marks: toggle_marks(marks, self.mark_type),
                                link: copy_opt_link(link),
                            },
                        )
                    } else {
                        None
                    }
                },
                Inline::HardBreak => None,
            };
            match new_inline {
                Some(x) => {
                    doc.blocks[bi].children[idx] = x;
                },
                None => {},
            }
            count = count + w;
            idx = idx + 1;
        }
        proof {
            assert(doc.blocks@[bi as int].children@ =~= toggled_children(
                c,
                start.offset as int,
                end.offset as int,
                self.mark_type,
            ));
            law_toggle_keeps_widths(c, start.offset as int, end.offset as int, self.mark_type);
        }
        Ok(*selection)
    }

    fn description(&self) -> (r: &str)
        ensures
            r@ == (match self.mark_type {
                MarkType::Bold => "Toggle bold"@,
                MarkType::Italic => "Toggle italic"@,
                MarkType::Underline => "Toggle underline"@,
                MarkType::Strike => "Toggle strikethrough"@,
                MarkType::Code => "Toggle code"@,
            }),
    {
        match self.mark_type {
            MarkType::Bold => "Toggle bold",
            MarkType::Italic => "Toggle italic",
            MarkType::Underline => "Toggle underline",
            MarkType::Strike => "Toggle strikethrough",
            MarkType::Code => "Toggle code",
        }
    }
}

} // verus!

verus! {

// ---------------------------------------------------------------------------
// SetBlockType and InsertBlock
// ---------------------------------------------------------------------------

/// Changes the kind of the block at the focus.
pub struct SetBlockType {
    pub block_type: BlockKind,
}

impl Command for SetBlockType {
    open spec fn fits(&self, doc: Doc, selection: Selection) -> bool {
        true
    }

    fn execute(&self, doc: &mut Doc, selection: &Selection) -> (r: Result<Selection, CommandError>)
        ensures
            ({
                let blocks = old(doc).blocks@;
                let bi = selection.focus.block_index as int;
                if blocks.len() == 0 {
                    r == Err::<Selection, CommandError>(CommandError::EmptyDocument) && *final(doc)
                        == *old(doc)
                } else if bi >= blocks.len() {
                    r == Err::<Selection, CommandError>(CommandError::InvalidBlockIndex)
                        && *final(doc) == *old(doc)
                } else {
                    &&& final(doc).blocks@.len() == blocks.len()
                    &&& forall|j: int|
                        0 <= j < blocks.len() && j != bi ==> #[trigger] final(doc).blocks@[j]
                            == blocks[j]
                    &&& final(doc).blocks@[bi].id == blocks[bi].id
                    &&& final(doc).blocks@[bi].align == blocks[bi].align
                    &&& final(doc).blocks@[bi].attrs == blocks[bi].attrs
                    &&& final(doc).blocks@[bi].children == blocks[bi].children
                    &&& final(doc).blocks@[bi].kind@ == self.block_type@
                    &&& r == Ok::<Selection, CommandError>(*selection)
                }
            }),
    {
        if doc.blocks.len() == 0 {
            return Err(CommandError::EmptyDocument);
        }
        let pos = selection.focus;
        if pos.block_index >= doc.blocks.len() {
            return Err(CommandError::InvalidBlockIndex);
        }
        doc.blocks[pos.block_index].kind = copy_kind(&self.block_type);
        Ok(*selection)
    }

    fn description(&self) -> (r: &str)
        ensures
            r@ == "Change block type"@,
    {
        "Change block type"
    }
}

/// Inserts a new empty block after the block at the focus.
pub struct InsertBlock {
    pub block_type: BlockKind,
}

impl Command for InsertBlock {
    open spec fn fits(&self, doc: Doc, selection: Selection) -> bool {
        true
    }

    fn execute(&self, doc: &mut Doc, selection: &Selection) -> (r: Result<Selection, CommandError>)
        ensures
            ({
                let blocks = old(doc).blocks@;
                let bi = selection.focus.block_index as int;
                if bi >= blocks.len() {
                    r == Err::<Selection, CommandError>(CommandError::InvalidBlockIndex)
                        && *final(doc) == *old(doc)
                } else {
                    let nb = final(doc).blocks@[bi + 1];
                    &&& final(doc).blocks@.len() == blocks.len() + 1
                    &&& forall|j: int| 0 <= j <= bi ==> #[trigger] final(doc).blocks@[j] == blocks[j]
                    &&& forall|j: int|
                        bi + 1 < j <= blocks.len() ==> #[trigger] final(doc).blocks@[j] == blocks[j
                            - 1]
                    &&& nb.kind@ == self.block_type@
                    &&& is_uuid_v4_text(nb.id@)
                    &&& nb.id@.len() == 36
                    &&& nb.align == BlockAlign::Left
                    &&& nb.attrs@.len() == 0
                    &&& nb.children@.len() == 0
                    &&& r == Ok::<Selection, CommandError>(
                        collapsed_at(Position { block_index: (bi + 1) as usize, offset: 0 }),
                    )
                }
            }),
    {
        let pos = selection.focus;
        if pos.block_index >= doc.blocks.len() {
            return Err(CommandError::InvalidBlockIndex);
        }
        let new_block = Block::new(copy_kind(&self.block_type));
        doc.blocks.insert(pos.block_index + 1, new_block);
        Ok(Selection::collapsed(Position::new(pos.block_index + 1, 0)))
    }

    fn description(&self) -> (r: &str)
        ensures
            r@ == "Insert block"@,
    {
        "Insert block"
    }
}

// ---------------------------------------------------------------------------
// SplitBlock
// ---------------------------------------------------------------------------

/// Splits the block at the focus in two (the Enter key).
pub struct SplitBlock;

/// Children left in the block that is split at offset `off`.
pub open spec fn split_head(c: Seq<Inline>, off: int) -> Seq<InlineM> {
    if exists|i: int| is_reach_target(c, off, i) {
        let i = choose|i: int| is_reach_target(c, off, i);
        let t = text_m(c[i].model());
        let k = off - prefix_width(c, i);
        inlines_model(c).take(i).push(retext(c[i].model(), t.take(k)))
    } else {
        inlines_model(c)
    }
}

/// Children of the new block made by splitting at offset `off`.
pub open spec fn split_tail(c: Seq<Inline>, off: int) -> Seq<InlineM> {
    if exists|i: int| is_reach_target(c, off, i) {
        let i = choose|i: int| is_reach_target(c, off, i);
        let t = text_m(c[i].model());
        let k = off - prefix_width(c, i);
        let rest = inlines_model(c).skip(i + 1);
        if t.skip(k).len() > 0 {
            seq![retext(c[i].model(), t.skip(k))] + rest
        } else {
            rest
        }
    } else {
        Seq::empty()
    }
}

impl Command for SplitBlock {
    open spec fn fits(&self, doc: Doc, selection: Selection) -> bool {
        let bi = selection.focus.block_index;
        let off = selection.focus.offset;
        doc.blocks@.len() > 0 && bi < doc.blocks@.len() ==> {
            let c = doc.blocks@[bi as int].children@;
            &&& inlines_width(c) <= usize::MAX
            &&& forall|i: int| is_reach_target(c, off as int, i) ==> prefix_width(c, i) <= off
        }
    }

    fn execute(&self, doc: &mut Doc, selection: &Selection) -> (r: Result<Selection, CommandError>)
        ensures
            ({
                let blocks = old(doc).blocks@;
                let bi = selection.focus.block_index as int;
                let off = selection.focus.offset as int;
                if blocks.len() == 0 {
                    r == Err::<Selection, CommandError>(CommandError::EmptyDocument) && *final(doc)
                        == *old(doc)
                } else if bi >= blocks.len() {
                    r == Err::<Selection, CommandError>(CommandError::InvalidBlockIndex)
                        && *final(doc) == *old(doc)
                } else {
                    let head = final(doc).blocks@[bi];
                    let nb = final(doc).blocks@[bi + 1];
                    &&& final(doc).blocks@.len() == blocks.len() + 1
                    &&& forall|j: int| 0 <= j < bi ==> #[trigger] final(doc).blocks@[j] == blocks[j]
                    &&& forall|j: int|
                        bi + 1 < j <= blocks.len() ==> #[trigger] final(doc).blocks@[j] == blocks[j
                            - 1]
                    &&& head.id == blocks[bi].id
                    &&& head.kind == blocks[bi].kind
                    &&& head.align == blocks[bi].align
                    &&& head.attrs == blocks[bi].attrs
                    &&& inlines_model(head.children@) == split_head(blocks[bi].children@, off)
                    &&& nb.kind@ == blocks[bi].kind@
                    &&& is_uuid_v4_text(nb.id@)
                    &&& nb.id@.len() == 36
                    &&& nb.align == blocks[bi].align
                    &&& nb.attrs@.len() == 0
                    &&& inlines_model(nb.children@) == split_tail(blocks[bi].children@, off)
                    &&& r == Ok::<Selection, CommandError>(
                        collapsed_at(Position { block_index: (bi + 1) as usize, offset: 0 }),
                    )
                }
            }),
    {
        if doc.blocks.len() == 0 {
            return Err(CommandError::EmptyDocument);
        }
        let pos = selection.focus;
        if pos.block_index >= doc.blocks.len() {
            return Err(CommandError::InvalidBlockIndex);
        }
        let bi = pos.block_index;
        let ghost c = doc.blocks@[bi as int].children@;
        let ghost b0 = doc.blocks@[bi as int];
        let mut new_block = Block::new(copy_kind(&doc.blocks[bi].kind));
        new_block.align = doc.blocks[bi].align;
        let found = find_reach_target(&doc.blocks[bi].children, pos.offset);
        match found {
            Some((idx, before)) => {
                let local = pos.offset - before;
                let clen = doc.blocks[bi].children.len();
                assert(idx < clen);
                let (first, second) = match &doc.blocks[bi].children[idx] {
                    Inline::Text { text, marks, link } => {
                        let n = char_len(text.as_str());
                        let head_text = substring(text.as_str(), 0, local);
                        let tail_text = substring(text.as_str(), local, n);
                        let first = Inline::Text {
                            text: head_text,
                            marks: marks.clone(),
                            link: copy_opt_link(link),
                        };
                        if local < n {
                            (
                                first,
                                Some(
                                    Inline::Text {
                                        text: tail_text,
                                        marks: marks.clone(),
                                        link: copy_opt_link(link),
                                    },
                                ),
                            )
                        } else {
                            (first, None)
                        }
                    },
                    Inline::HardBreak => (Inline::HardBreak, None),
                };
                doc.blocks[bi].children[idx] = first;
                match second {
                    Some(x) => new_block.children.push(x),
                    None => {},
                }
                let mut rest = doc.blocks[bi].children.split_off(idx + 1);
                new_block.children.append(&mut rest);
                proof {
                    assert(is_reach_target(c, pos.offset as int, idx as int));
                    let t = text_m(c[idx as int].model());
                    assert(t.subrange(0, local as int) =~= t.take(local as int));
                    assert(t.subrange(local as int, t.len() as int) =~= t.skip(local as int));
                    assert(inlines_model(doc.blocks@[bi as int].children@) =~= split_head(
                        c,
                        pos.offset as int,
                    ));
                    assert(inlines_model(new_block.children@) =~= split_tail(c, pos.offset as int));
                }
            },
            None => {
                proof {
                    assert(inlines_model(doc.blocks@[bi as int].children@) =~= split_head(
                        c,
                        pos.offset as int,
                    ));
                    assert(inlines_model(new_block.children@) =~= split_tail(c, pos.offset as int));
                }
            },
        }
        doc.blocks.insert(bi + 1, new_block);
        Ok(Selection::collapsed(Position::new(bi + 1, 0)))
    }

    fn description(&self) -> (r: &str)
        ensures
            r@ == "Split block (Enter)"@,
    {
        "Split block (Enter)"
    }
}

} // verus!

verus! {

// ---------------------------------------------------------------------------
// DeleteSelection
// ---------------------------------------------------------------------------

/// Deletes the selected characters inside one block.
pub struct DeleteSelection;

/// Inline `i` is a text run whose range, counted in text characters only
/// (hard breaks count for nothing), meets the range from `s` to `e`.
pub open spec fn overlaps_text(c: Seq<Inline>, i: int, s: int, e: int) -> bool {
    &&& c[i] is Text
    &&& prefix_text_width(c, i) < e
    &&& prefix_text_width(c, i) + text_len(c[i]) > s
}

/// The text `t` of a run that starts at character `p`, without the
/// characters of the range from `s` to `e`.
pub open spec fn cut(t: Seq<char>, p: int, s: int, e: int) -> Seq<char> {
    let ds = if s > p {
        s - p
    } else {
        0
    };
    let de = if e - p < t.len() {
        e - p
    } else {
        t.len() as int
    };
    t.take(ds) + t.skip(de)
}

/// A run that stays after a deletion: anything but an empty text run.
pub open spec fn keep_run(m: InlineM) -> bool {
    !(m is Text && text_m(m).len() == 0)
}

/// Inline `i` after cutting the range from `s` to `e`.
pub open spec fn cut_inline(c: Seq<Inline>, i: int, s: int, e: int) -> InlineM {
    if overlaps_text(c, i, s, e) {
        retext(c[i].model(), cut(text_m(c[i].model()), prefix_text_width(c, i) as int, s, e))
    } else {
        c[i].model()
    }
}

/// The children after deleting the range from `s` to `e`: each run that the
/// range meets loses the characters in it, then empty text runs are dropped.
pub open spec fn deleted(c: Seq<Inline>, s: int, e: int) -> Seq<InlineM> {
    Seq::new(c.len(), |i: int| cut_inline(c, i, s, e)).filter(|m: InlineM| keep_run(m))
}

impl Command for DeleteSelection {
    open spec fn fits(&self, doc: Doc, selection: Selection) -> bool {
        let start = normalized_of(selection).0;
        start.block_index < doc.blocks@.len() ==> texts_width(
            doc.blocks@[start.block_index as int].children@,
        ) <= usize::MAX
    }

    fn execute(&self, doc: &mut Doc, selection: &Selection) -> (r: Result<Selection, CommandError>)
        ensures
            ({
                let (start, end) = normalized_of(*selection);
                let blocks = old(doc).blocks@;
                if blocks.len() == 0 {
                    r == Err::<Selection, CommandError>(CommandError::EmptyDocument) && *final(doc)
                        == *old(doc)
                } else if start.block_index != end.block_index {
                    r == Err::<Selection, CommandError>(CommandError::UnsupportedOperation)
                        && *final(doc) == *old(doc)
                } else if start.block_index >= blocks.len() {
                    r == Err::<Selection, CommandError>(CommandError::InvalidBlockIndex)
                        && *final(doc) == *old(doc)
                } else {
                    let bi = start.block_index as int;
                    &&& only_children_changed(blocks, final(doc).blocks@, bi)
                    &&& inlines_model(final(doc).blocks@[bi].children@) == deleted(
                        blocks[bi].children@,
                        start.offset as int,
                        end.offset as int,
                    )
                    &&& r == Ok::<Selection, CommandError>(collapsed_at(start))
                }
            }),
    {
        if doc.blocks.len() == 0 {
            return Err(CommandError::EmptyDocument);
        }
        let (start, end) = selection.normalized();
        if start.block_index != end.block_index {
            return Err(CommandError::UnsupportedOperation);
        }
        if start.block_index >= doc.blocks.len() {
            return Err(CommandError::InvalidBlockIndex);
        }
        let bi = start.block_index;
        let ghost c = doc.blocks@[bi as int].children@;
        let ghost mid = Seq::new(
            c.len(),
            |i: int| cut_inline(c, i, start.offset as int, end.offset as int),
        );
        let mut kept: Vec<Inline> = Vec::new();
        {
            let children = &doc.blocks[bi].children;
            let n = children.len();
            let mut count: usize = 0;
            let mut idx: usize = 0;
            proof {
                assert(c.take(0) =~= Seq::<Inline>::empty());
                assert(mid.take(0) =~= Seq::<InlineM>::empty());
                reveal(Seq::filter);
            }
            while idx < n
                invariant
                    children@ == c,
                    n == c.len(),
                    idx <= n,
                    start.offset <= end.offset,
                    texts_width(c) <= usize::MAX,
                    count == prefix_text_width(c, idx as int),
                    mid == Seq::new(
                        c.len(),
                        |i: int| cut_inline(c, i, start.offset as int, end.offset as int),
                    ),
                    inlines_model(kept@) == mid.take(idx as int).filter(|m: InlineM| keep_run(m)),
                decreases n - idx,
            {
                proof {
                    lemma_prefix_step(c, idx as int);
                    lemma_prefix_mono(c, idx + 1, c.len() as int);
                    lemma_prefix_full(c);
                }
                let m = match &children[idx] {
                    Inline::Text { text, marks, link } => {
                        let len = char_len(text.as_str());
                        if count < end.offset && count + len > start.offset {
                            let ds = if start.offset > count {
                                start.offset - count
                            } else {
                                0
                            };
                            let de = if end.offset - count < len {
                                end.offset - count
                            } else {
                                len
                            };
                            let t = remove_range(text.as_str(), ds, de);
                            Inline::Text { text: t, marks: marks.clone(), link: copy_opt_link(link) }
                        } else {
                            Inline::Text {
                                text: text.clone(),
                                marks: marks.clone(),
                                link: copy_opt_link(link),
                            }
                        }
                    },
                    Inline::HardBreak => Inline::HardBreak,
                };
                proof {
                    assert(m.model() == mid[idx as int]);
                    assert(mid.take(idx + 1).drop_last() =~= mid.take(idx as int));
                    reveal(Seq::filter);
                }
                let keep = match &m {
                    Inline::Text { text, .. } => char_len(text.as_str()) > 0,
                    Inline::HardBreak => true,
                };
                if keep {
                    kept.push(m);
                    proof {
                        assert(inlines_model(kept@) =~= mid.take(idx as int).filter(
                            |m: InlineM| keep_run(m),
                        ).push(mid[idx as int]));
                    }
                }
                count = count + text_len_exec(&children[idx]);
                idx = idx + 1;
            }
            proof {
                assert(mid.take(n as int) =~= mid);
            }
        }
        doc.blocks[bi].children = kept;
        Ok(Selection::collapsed(start))
    }

    fn description(&self) -> (r: &str)
        ensures
            r@ == "Delete selection"@,
    {
        "Delete selection"
    }
}

/// Characters of a text run; zero for a hard break.
fn text_len_exec(x: &Inline) -> (n: usize)
    ensures
        n == text_len(*x),
{
    match x {
        Inline::Text { text, .. } => char_len(text.as_str()),
        Inline::HardBreak => 0,
    }
}

// ---------------------------------------------------------------------------
// InsertLink
// ---------------------------------------------------------------------------

/// Sets a link on every text run that the selection meets.
pub struct InsertLink {
    pub href: String,
    pub title: Option<String>,
    pub target_blank: bool,
}

/// `x` linking to `l`, if it is a text run.
pub open spec fn with_link(x: Inline, l: Link) -> Inline {
    match x {
        Inline::Text { text, marks, .. } => Inline::Text { text, marks, link: Some(l) },
        Inline::HardBreak => Inline::HardBreak,
    }
}

/// The children after linking the runs that meet the range from `s` to `e`
/// (counted in text characters only).
pub open spec fn linked_children(c: Seq<Inline>, s: int, e: int, l: Link) -> Seq<Inline> {
    Seq::new(c.len(), |i: int| if overlaps_text(c, i, s, e) { with_link(c[i], l) } else { c[i] })
}

/// Linking changes no width: the runs after it take as many positions, and
/// hold as many text characters, as before; so the command still fits the
/// block it changed.
pub proof fn law_link_keeps_widths(c: Seq<Inline>, s: int, e: int, l: Link)
    ensures
        inlines_width(linked_children(c, s, e, l)) == inlines_width(c),
        texts_width(linked_children(c, s, e, l)) == texts_width(c),
{
    let d = linked_children(c, s, e, l);
    assert forall|j: int| 0 <= j < c.len() implies #[trigger] c[j].width() == d[j].width() && text_len(
        c[j],
    ) == text_len(d[j]) by {}
    lemma_widths_match(c, d);
}

impl InsertLink {
    /// The link that the command sets.
    pub open spec fn spec_link(&self) -> Link {
        Link { href: self.href, title: self.title, target_blank: self.target_blank }
    }
}

impl Command for InsertLink {
    open spec fn fits(&self, doc: Doc, selection: Selection) -> bool {
        let start = normalized_of(selection).0;
        start.block_index < doc.blocks@.len() ==> texts_width(
            doc.blocks@[start.block_index as int].children@,
        ) <= usize::MAX
    }

    fn execute(&self, doc: &mut Doc, selection: &Selection) -> (r: Result<Selection, CommandError>)
        ensures
            ({
                let (start, end) = normalized_of(*selection);
                let blocks = old(doc).blocks@;
                if blocks.len() == 0 {
                    r == Err::<Selection, CommandError>(CommandError::EmptyDocument) && *final(doc)
                        == *old(doc)
                } else if start.block_index != end.block_index {
                    r == Err::<Selection, CommandError>(CommandError::UnsupportedOperation)
                        && *final(doc) == *old(doc)
                } else if start.block_index >= blocks.len() {
                    r == Err::<Selection, CommandError>(CommandError::InvalidBlockIndex)
                        && *final(doc) == *old(doc)
                } else {
                    let bi = start.block_index as int;
                    &&& only_children_changed(blocks, final(doc).blocks@, bi)
                    &&& final(doc).blocks@[bi].children@ == linked_children(
                        blocks[bi].children@,
                        start.offset as int,
                        end.offset as int,
                        self.spec_link(),
                    )
                    &&& r == Ok::<Selection, CommandError>(*selection)
                }
            }),
            self.fits(*old(doc), *selection) ==> self.fits(*final(doc), *selection),
    {
        if doc.blocks.len() == 0 {
            return Err(CommandError::EmptyDocument);
        }
        let (start, end) = selection.normalized();
        if start.block_index != end.block_index {
            return Err(CommandError::UnsupportedOperation);
        }
        if start.block_index >= doc.blocks.len() {
            return Err(CommandError::InvalidBlockIndex);
        }
        let bi = start.block_index;
        let link = Link {
            href: self.href.clone(),
            title: copy_opt_string(&self.title),
            target_blank: self.target_blank,
        };
        let ghost c = doc.blocks@[bi as int].children@;
        let ghost blocks0 = doc.blocks@;
        let n = doc.blocks[bi].children.len();
        let mut count: usize = 0;
        let mut idx: usize = 0;
        proof {
            assert(c.take(0) =~= Seq::<Inline>::empty());
        }
        while idx < n
            invariant
                n == c.len(),
                idx <= n,
                bi < blocks0.len(),
                c == blocks0[bi as int].children@,
                texts_width(c) <= usize::MAX,
                count == prefix_text_width(c, idx as int),
                link == self.spec_link(),
                only_children_changed(blocks0, doc.blocks@, bi as int),
                doc.blocks@[bi as int].children@.len() == n,
                forall|j: int|
                    0 <= j < idx ==> #[trigger] doc.blocks@[bi as int].children@[j]
                        == linked_children(c, start.offset as int, end.offset as int, link)[j],
                forall|j: int| idx <= j < n ==> #[trigger] doc.blocks@[bi as int].children@[j] == c[j],
            decreases n - idx,
        {
            proof {
                lemma_prefix_step(c, idx as int);
                lemma_prefix_mono(c, idx + 1, c.len() as int);
                lemma_prefix_full(c);
            }
            let w = text_len_exec(&doc.blocks[bi].children[idx]);
            let new_inline = match &doc.blocks[bi].children[idx] {
                Inline::Text { text, marks, .. } => {
                    if count < end.offset && count + w > start.offset {
                        Some(
                            Inline::Text {
                                text: text.clone(),
                                marks: marks.clone(),
                                link: Some(link.clone()),
                            },
                        )
                    } else {
                        None
                    }
                },
                Inline::HardBreak => None,
            };
            match new_inline {
                Some(x) => {
                    doc.blocks[bi].children[idx] = x;
                },
                None => {},
            }
            count = count + w;
            idx = idx + 1;
        }
        proof {
            assert(doc.blocks@[bi as int].children@ =~= linked_children(
                c,
                start.offset as int,
                end.offset as int,
                link,
            ));
            law_link_keeps_widths(c, start.offset as int, end.offset as int, link);
        }
        Ok(*selection)
    }

    fn description(&self) -> (r: &str)
        ensures
            r@ == "Insert link"@,
    {
        "Insert link"
    }
}

} // verus!

verus! {

/// Whether the mark `t` is set in `m`.
pub open spec fn mark_is_set(m: MarkSet, t: MarkType) -> bool {
    match t {
        MarkType::Bold => m.bold,
        MarkType::Italic => m.italic,
        MarkType::Underline => m.underline,
        MarkType::Strike => m.strike,
        MarkType::Code => m.code,
    }
}

/// Switching the mark `t` flips that mark and no other: every other mark,
/// the text size and the highlight stay as they were.
pub proof fn law_toggle_flips_only_its_mark(m: MarkSet, t: MarkType)
    ensures
        mark_is_set(toggled(m, t), t) == !mark_is_set(m, t),
        forall|u: MarkType| u != t ==> mark_is_set(#[trigger] toggled(m, t), u) == mark_is_set(m, u),
        toggled(m, t).size == m.size,
        toggled(m, t).highlight == m.highlight,
{
}

} // verus!
