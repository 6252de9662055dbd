//! Character-level model of a document: every string of a block, of its
//! kind and of its inline runs taken as its sequence of characters.
use vstd::prelude::*;

use crate::ast::{Block, BlockAlign, BlockKind, EmbedProvider, Inline, Link, MarkSet, TableAlign, TextSize};

verus! {

/// Model of a mark set.
pub struct MarksD {
    pub bold: bool,
    pub italic: bool,
    pub underline: bool,
    pub strike: bool,
    pub code: bool,
    pub size: Option<TextSize>,
    pub highlight: Option<Seq<char>>,
}

/// Model of a link.
pub struct LinkD {
    pub href: Seq<char>,
    pub title: Option<Seq<char>>,
    pub target_blank: bool,
}

/// Model of an inline.
pub enum InlineD {
    Text { text: Seq<char>, marks: MarksD, link: Option<LinkD> },
    HardBreak,
}

/// Model of a block.
pub struct BlockD {
    pub id: Seq<char>,
    pub kind: KindD,
    pub align: BlockAlign,
    pub attrs: Seq<(Seq<char>, Seq<char>)>,
    pub children: Seq<InlineD>,
}

/// Model of a block kind.
pub enum KindD {
    Paragraph,
    Heading { level: u8 },
    BulletList { items: Seq<BlockD> },
    OrderedList { items: Seq<BlockD> },
    TaskList { items: Seq<BlockD> },
    ListItem,
    TaskItem { checked: bool },
    Quote,
    CodeBlock { language: Option<Seq<char>>, code: Seq<char> },
    Image {
        src: Seq<char>,
        alt: Option<Seq<char>>,
        title: Option<Seq<char>>,
        width: Option<u32>,
        height: Option<u32>,
        caption: Option<Seq<char>>,
    },
    Embed {
        provider: EmbedProvider,
        url: Seq<char>,
        title: Option<Seq<char>>,
        width: Option<u32>,
        height: Option<u32>,
    },
    Rule,
    Table {
        headers: Seq<Seq<InlineD>>,
        rows: Seq<Seq<Seq<InlineD>>>,
        column_align: Seq<TableAlign>,
    },
}

/// The characters of an optional string.
pub open spec fn opt_chars(o: Option<String>) -> Option<Seq<char>> {
    match o {
        Some(s) => Some(s@),
        None => None,
    }
}

/// The marks with none set.
pub open spec fn no_marks() -> MarksD {
    MarksD {
        bold: false,
        italic: false,
        underline: false,
        strike: false,
        code: false,
        size: None,
        highlight: None,
    }
}

/// Model of a mark set.
pub open spec fn marks_d(m: MarkSet) -> MarksD {
    MarksD {
        bold: m.bold,
        italic: m.italic,
        underline: m.underline,
        strike: m.strike,
        code: m.code,
        size: m.size,
        highlight: opt_chars(m.highlight),
    }
}

/// Model of an optional link.
pub open spec fn link_d(l: Option<Link>) -> Option<LinkD> {
    match l {
        Some(l) => Some(LinkD { href: l.href@, title: opt_chars(l.title), target_blank: l.target_blank }),
        None => None,
    }
}

/// Model of an inline.
pub open spec fn inline_d(x: Inline) -> InlineD {
    match x {
        Inline::Text { text, marks, link } => InlineD::Text {
            text: text@,
            marks: marks_d(marks),
            link: link_d(link),
        },
        Inline::HardBreak => InlineD::HardBreak,
    }
}

/// Model of a run of inlines.
pub open spec fn inlines_d(s: Seq<Inline>) -> Seq<InlineD> {
    s.map_values(|x: Inline| inline_d(x))
}

/// Model of the cells of a table row.
pub open spec fn cells_d(row: Seq<Vec<Inline>>) -> Seq<Seq<InlineD>> {
    row.map_values(|c: Vec<Inline>| inlines_d(c@))
}

/// Model of the rows of a table.
pub open spec fn rows_d(rows: Seq<Vec<Vec<Inline>>>) -> Seq<Seq<Seq<InlineD>>> {
    rows.map_values(|r: Vec<Vec<Inline>>| cells_d(r@))
}

/// Model of a list of attributes.
pub open spec fn pairs_d(a: Seq<(String, String)>) -> Seq<(Seq<char>, Seq<char>)> {
    a.map_values(|p: (String, String)| (p.0@, p.1@))
}

/// Model of a block.
pub open spec fn block_d(b: Block) -> BlockD
    decreases b,
{
    BlockD {
        id: b.id@,
        kind: kind_d(b.kind),
        align: b.align,
        attrs: pairs_d(b.attrs@),
        children: inlines_d(b.children@),
    }
}

/// Model of a block kind.
pub open spec fn kind_d(k: BlockKind) -> KindD
    decreases k,
{
    match k {
        BlockKind::Paragraph => KindD::Paragraph,
        BlockKind::Heading { level } => KindD::Heading { level },
        BlockKind::BulletList { items } => KindD::BulletList { items: blocks_d(items@) },
        BlockKind::OrderedList { items } => KindD::OrderedList { items: blocks_d(items@) },
        BlockKind::TaskList { items } => KindD::TaskList { items: blocks_d(items@) },
        BlockKind::ListItem => KindD::ListItem,
        BlockKind::TaskItem { checked } => KindD::TaskItem { checked },
        BlockKind::Quote => KindD::Quote,
        BlockKind::CodeBlock { language, code } => KindD::CodeBlock {
            language: opt_chars(language),
            code: code@,
        },
        BlockKind::Image { src, alt, title, width, height, caption } => KindD::Image {
            src: src@,
            alt: opt_chars(alt),
            title: opt_chars(title),
            width,
            height,
            caption: opt_chars(caption),
        },
        BlockKind::Embed { provider, url, title, width, height } => KindD::Embed {
            provider,
            url: url@,
            title: opt_chars(title),
            width,
            height,
        },
        BlockKind::Rule => KindD::Rule,
        BlockKind::Table { headers, rows, column_align } => KindD::Table {
            headers: cells_d(headers@),
            rows: rows_d(rows@),
            column_align: column_align@,
        },
    }
}

/// Models of a sequence of blocks.
pub open spec fn blocks_d(s: Seq<Block>) -> Seq<BlockD>
    decreases s,
{
    if s.len() == 0 {
        Seq::empty()
    } else {
        blocks_d(s.subrange(0, s.len() - 1)).push(block_d(s[s.len() - 1]))
    }
}

/// The model of a sequence of blocks is the models of its blocks.
pub proof fn lemma_blocks_d(s: Seq<Block>)
    ensures
        blocks_d(s).len() == s.len(),
        forall|i: int| 0 <= i < s.len() ==> #[trigger] blocks_d(s)[i] == block_d(s[i]),
    decreases s.len(),
{
    if s.len() > 0 {
        lemma_blocks_d(s.subrange(0, s.len() - 1));
    }
}

/// Pushing a block extends the model by the block's model.
pub proof fn lemma_blocks_d_push(s: Seq<Block>, b: Block)
    ensures
        blocks_d(s.push(b)) == blocks_d(s).push(block_d(b)),
{
    assert(s.push(b).subrange(0, s.len() as int) =~= s);
}

} // verus!
