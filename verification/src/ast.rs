//! Document model of the rich text editor: a document is a list of blocks,
//! a block holds inline runs of text.
use vstd::prelude::*;

use crate::grid::RandomSource;

verus! {

/// The root document: its blocks in order.
#[derive(Debug, PartialEq)]
pub struct Doc {
    pub blocks: Vec<Block>,
}

/// A block-level element.
#[derive(Debug, PartialEq)]
pub struct Block {
    pub id: String,
    pub kind: BlockKind,
    pub align: BlockAlign,
    /// Extra attributes as (name, value) pairs, in the order they were read.
    pub attrs: Vec<(String, String)>,
    pub children: Vec<Inline>,
}

/// Block-level element types.
#[derive(Debug, PartialEq)]
pub enum BlockKind {
    Paragraph,
    Heading { level: u8 },
    BulletList { items: Vec<Block> },
    OrderedList { items: Vec<Block> },
    TaskList { items: Vec<Block> },
    ListItem,
    TaskItem { checked: bool },
    Quote,
    CodeBlock { language: Option<String>, code: String },
    Image {
        src: String,
        alt: Option<String>,
        title: Option<String>,
        width: Option<u32>,
        height: Option<u32>,
        caption: Option<String>,
    },
    Embed {
        provider: EmbedProvider,
        url: String,
        title: Option<String>,
        width: Option<u32>,
        height: Option<u32>,
    },
    Rule,
    Table {
        headers: Vec<Vec<Inline>>,
        rows: Vec<Vec<Vec<Inline>>>,
        column_align: Vec<TableAlign>,
    },
}

/// Column alignment of a table.
#[derive(Debug, Clone, Copy, PartialEq, Eq, Structural)]
pub enum TableAlign {
    Left,
    Center,
    Right,
}

/// Embed providers that the renderer knows.
#[derive(Debug, Clone, Copy, PartialEq, Eq, Structural)]
pub enum EmbedProvider {
    Youtube,
    X,
    Generic,
}

/// Alignment of a block.
#[derive(Debug, Clone, Copy, PartialEq, Eq, Structural)]
pub enum BlockAlign {
    Left,
    Center,
    Right,
    Justify,
}

/// Inline-level elements: runs of text and hard line breaks.
#[derive(Debug, PartialEq)]
pub enum Inline {
    Text { text: String, marks: MarkSet, link: Option<Link> },
    HardBreak,
}

/// Formatting marks of a text run.
#[derive(Debug, PartialEq)]
pub struct MarkSet {
    pub bold: bool,
    pub italic: bool,
    pub underline: bool,
    pub strike: bool,
    pub code: bool,
    pub size: Option<TextSize>,
    pub highlight: Option<String>,
}

/// Text size variants.
#[derive(Debug, Clone, Copy, PartialEq, Eq, Structural)]
pub enum TextSize {
    Small,
    Normal,
    Lead,
}

/// Link metadata of a text run.
#[derive(Debug, PartialEq)]
pub struct Link {
    pub href: String,
    pub title: Option<String>,
    pub target_blank: bool,
}

// ---------------------------------------------------------------------------
// Mathematical model
// ---------------------------------------------------------------------------

/// Model of a block: vectors become sequences, nested blocks become models.
pub struct BlockV {
    pub id: String,
    pub kind: BlockKindV,
    pub align: BlockAlign,
    pub attrs: Seq<(String, String)>,
    pub children: Seq<Inline>,
}

/// Model of a block kind.
pub enum BlockKindV {
    Paragraph,
    Heading { level: u8 },
    BulletList { items: Seq<BlockV> },
    OrderedList { items: Seq<BlockV> },
    TaskList { items: Seq<BlockV> },
    ListItem,
    TaskItem { checked: bool },
    Quote,
    CodeBlock { language: Option<String>, code: String },
    Image {
        src: String,
        alt: Option<String>,
        title: Option<String>,
        width: Option<u32>,
        height: Option<u32>,
        caption: Option<String>,
    },
    Embed {
        provider: EmbedProvider,
        url: String,
        title: Option<String>,
        width: Option<u32>,
        height: Option<u32>,
    },
    Rule,
    Table {
        headers: Seq<Seq<Inline>>,
        rows: Seq<Seq<Seq<Inline>>>,
        column_align: Seq<TableAlign>,
    },
}

/// Model of a block.
pub open spec fn block_view(b: Block) -> BlockV
    decreases b,
{
    BlockV {
        id: b.id,
        kind: kind_view(b.kind),
        align: b.align,
        attrs: b.attrs@,
        children: b.children@,
    }
}

/// Model of a block kind.
pub open spec fn kind_view(k: BlockKind) -> BlockKindV
    decreases k,
{
    match k {
        BlockKind::Paragraph => BlockKindV::Paragraph,
        BlockKind::Heading { level } => BlockKindV::Heading { level },
        BlockKind::BulletList { items } => BlockKindV::BulletList { items: blocks_view(items@) },
        BlockKind::OrderedList { items } => BlockKindV::OrderedList { items: blocks_view(items@) },
        BlockKind::TaskList { items } => BlockKindV::TaskList { items: blocks_view(items@) },
        BlockKind::ListItem => BlockKindV::ListItem,
        BlockKind::TaskItem { checked } => BlockKindV::TaskItem { checked },
        BlockKind::Quote => BlockKindV::Quote,
        BlockKind::CodeBlock { language, code } => BlockKindV::CodeBlock { language, code },
        BlockKind::Image { src, alt, title, width, height, caption } => BlockKindV::Image {
            src,
            alt,
            title,
            width,
            height,
            caption,
        },
        BlockKind::Embed { provider, url, title, width, height } => BlockKindV::Embed {
            provider,
            url,
            title,
            width,
            height,
        },
        BlockKind::Rule => BlockKindV::Rule,
        BlockKind::Table { headers, rows, column_align } => BlockKindV::Table {
            headers: cells_view(headers@),
            rows: rows_view(rows@),
            column_align: column_align@,
        },
    }
}

/// Model of the cells of one table row.
pub open spec fn cells_view(row: Seq<Vec<Inline>>) -> Seq<Seq<Inline>> {
    row.map_values(|c: Vec<Inline>| c@)
}

/// Model of the rows of a table.
pub open spec fn rows_view(rows: Seq<Vec<Vec<Inline>>>) -> Seq<Seq<Seq<Inline>>> {
    rows.map_values(|r: Vec<Vec<Inline>>| cells_view(r@))
}

/// Models of a sequence of blocks.
pub open spec fn blocks_view(s: Seq<Block>) -> Seq<BlockV>
    decreases s,
{
    if s.len() == 0 {
        Seq::empty()
    } else {
        blocks_view(s.subrange(0, s.len() - 1)).push(block_view(s[s.len() - 1]))
    }
}

impl View for Block {
    type V = BlockV;

    open spec fn view(&self) -> BlockV {
        block_view(*self)
    }
}

impl View for BlockKind {
    type V = BlockKindV;

    open spec fn view(&self) -> BlockKindV {
        kind_view(*self)
    }
}

impl View for Doc {
    type V = Seq<BlockV>;

    open spec fn view(&self) -> Seq<BlockV> {
        blocks_view(self.blocks@)
    }
}

// ---------------------------------------------------------------------------
// Spec helpers
// ---------------------------------------------------------------------------

/// The mark set with every mark off.
pub open spec fn empty_marks() -> MarkSet {
    MarkSet {
        bold: false,
        italic: false,
        underline: false,
        strike: false,
        code: false,
        size: None,
        highlight: None,
    }
}

impl MarkSet {
    /// No mark is set.
    pub open spec fn spec_is_empty(self) -> bool {
        !self.bold && !self.italic && !self.underline && !self.strike && !self.code
            && self.size is None && self.highlight is None
    }
}

impl Inline {
    /// Number of character positions the inline occupies: the characters of a
    /// text run, or one for a hard break.
    pub open spec fn width(self) -> nat {
        match self {
            Inline::Text { text, .. } => text@.len(),
            Inline::HardBreak => 1,
        }
    }

    /// The inline is a text run holding `t`, with no mark and no link.
    pub open spec fn is_plain_text(self, t: Seq<char>) -> bool {
        &&& self matches Inline::Text { text, marks, link }
        &&& text@ == t
        &&& marks == empty_marks()
        &&& link is None
    }
}

/// Model of an inline: the text of a run as a character sequence.
pub enum InlineM {
    Text { text: Seq<char>, marks: MarkSet, link: Option<Link> },
    HardBreak,
}

impl InlineM {
    /// Number of character positions the inline occupies.
    pub open spec fn width(self) -> nat {
        match self {
            InlineM::Text { text, .. } => text.len(),
            InlineM::HardBreak => 1,
        }
    }
}

impl Inline {
    /// Model of the inline.
    pub open spec fn model(self) -> InlineM {
        match self {
            Inline::Text { text, marks, link } => InlineM::Text { text: text@, marks, link },
            Inline::HardBreak => InlineM::HardBreak,
        }
    }
}

/// Models of a run of inlines.
pub open spec fn inlines_model(s: Seq<Inline>) -> Seq<InlineM> {
    s.map_values(|x: Inline| x.model())
}

/// Number of character positions taken by all inlines of `s`.
pub open spec fn inlines_width(s: Seq<Inline>) -> nat
    decreases s.len(),
{
    if s.len() == 0 {
        0
    } else {
        inlines_width(s.drop_last()) + s.last().width()
    }
}

} // verus!

verus! {

// ---------------------------------------------------------------------------
// Fresh block ids
// ---------------------------------------------------------------------------

/// Hex digit `i` of `bits`, counted from the most significant of its 32.
pub open spec fn nibble(bits: u128, i: int) -> nat {
    ((bits as nat) / (vstd::arithmetic::power::pow(16, (31 - i) as nat) as nat)) % 16
}

/// Hex digit `i` of the version-4 UUID made from `bits`: the digit of
/// `bits`, except that digit 12 is the version, 4, and digit 16 keeps its
/// low two bits under the variant bits `10`.
pub open spec fn uuid_v4_nibble(bits: u128, i: int) -> nat {
    if i == 12 {
        4
    } else if i == 16 {
        8 + nibble(bits, 16) % 4
    } else {
        nibble(bits, i)
    }
}

/// The lower-case hex digit for a value below 16.
pub open spec fn hex_lower(d: nat) -> char {
    if d < 10 {
        (d + 48) as char
    } else {
        (d - 10 + 97) as char
    }
}

/// The hyphenated lower-case text of the version-4 UUID made from `bits`:
/// its 32 hex digits in groups of 8, 4, 4, 4 and 12, joined by `-`.
pub open spec fn uuid_v4_text(bits: u128) -> Seq<char> {
    let h = Seq::new(32, |i: int| hex_lower(uuid_v4_nibble(bits, i)));
    h.subrange(0, 8) + seq!['-'] + h.subrange(8, 12) + seq!['-'] + h.subrange(12, 16) + seq!['-']
        + h.subrange(16, 20) + seq!['-'] + h.subrange(20, 32)
}

/// `s` is the hyphenated text of a version-4 UUID.
pub open spec fn is_uuid_v4_text(s: Seq<char>) -> bool {
    exists|bits: u128| s == #[trigger] uuid_v4_text(bits)
}

/// Calls `uuid::Builder::from_random_bytes` on the big-endian bytes of `bits`
/// (it sets the version and variant bits and keeps the rest) and formats the
/// UUID with its `Display` impl, the hyphenated form of 32 hex digits and
/// four hyphens. Neither call can fail.
#[verifier::external_body]
fn uuid_v4_from_bits(bits: u128) -> (id: String)
    ensures
        id@ == uuid_v4_text(bits),
{
    uuid::Builder::from_random_bytes(bits.to_be_bytes()).into_uuid().to_string()
}

/// A fresh block id: a version-4 UUID made from 128 random bits, drawn from
/// the platform's random source (or, where that fails, from the fallback
/// generator, so that no block is ever left without an id).
fn fresh_block_id() -> (id: String)
    ensures
        is_uuid_v4_text(id@),
        id@.len() == 36,
{
    let mut rng = RandomSource::new();
    let hi = rng.next_u64();
    let lo = rng.next_u64();
    let bits: u128 = (hi as u128) * 0x1_0000_0000_0000_0000u128 + (lo as u128);
    let id = uuid_v4_from_bits(bits);
    proof {
        assert(uuid_v4_text(bits).len() == 36);
    }
    id
}

// ---------------------------------------------------------------------------
// Deep copies
// ---------------------------------------------------------------------------

/// Copies an optional string.
pub fn copy_opt_string(o: &Option<String>) -> (r: Option<String>)
    ensures
        r == *o,
{
    match o {
        Some(s) => Some(s.clone()),
        None => None,
    }
}

impl Clone for Link {
    fn clone(&self) -> (r: Self)
        ensures
            r == *self,
    {
        Link { href: self.href.clone(), title: copy_opt_string(&self.title), target_blank: self.target_blank }
    }
}

impl Clone for MarkSet {
    fn clone(&self) -> (r: Self)
        ensures
            r == *self,
    {
        MarkSet {
            bold: self.bold,
            italic: self.italic,
            underline: self.underline,
            strike: self.strike,
            code: self.code,
            size: self.size,
            highlight: copy_opt_string(&self.highlight),
        }
    }
}

/// Copies an optional link.
pub fn copy_opt_link(o: &Option<Link>) -> (r: Option<Link>)
    ensures
        r == *o,
{
    match o {
        Some(l) => Some(l.clone()),
        None => None,
    }
}

impl Clone for Inline {
    fn clone(&self) -> (r: Self)
        ensures
            r == *self,
    {
        match self {
            Inline::Text { text, marks, link } => Inline::Text {
                text: text.clone(),
                marks: marks.clone(),
                link: copy_opt_link(link),
            },
            Inline::HardBreak => Inline::HardBreak,
        }
    }
}

/// Copies a run of inlines.
pub fn copy_inlines(v: &Vec<Inline>) -> (r: Vec<Inline>)
    ensures
        r@ == v@,
{
    let mut r: Vec<Inline> = Vec::new();
    let mut i: usize = 0;
    while i < v.len()
        invariant
            i <= v@.len(),
            r@ == v@.take(i as int),
        decreases v@.len() - i,
    {
        r.push(v[i].clone());
        proof {
            assert(v@.take(i + 1) == v@.take(i as int).push(v@[i as int]));
        }
        i = i + 1;
    }
    proof {
        assert(v@.take(v@.len() as int) == v@);
    }
    r
}

/// Copies the cells of one table row.
fn copy_cells(v: &Vec<Vec<Inline>>) -> (r: Vec<Vec<Inline>>)
    ensures
        cells_view(r@) == cells_view(v@),
{
    let mut r: Vec<Vec<Inline>> = Vec::new();
    let mut i: usize = 0;
    while i < v.len()
        invariant
            i <= v@.len(),
            r@.len() == i,
            forall|k: int| 0 <= k < i ==> #[trigger] r@[k]@ == v@[k]@,
        decreases v@.len() - i,
    {
        r.push(copy_inlines(&v[i]));
        i = i + 1;
    }
    proof {
        assert(cells_view(r@) =~= cells_view(v@));
    }
    r
}

/// Copies the rows of a table.
fn copy_rows(v: &Vec<Vec<Vec<Inline>>>) -> (r: Vec<Vec<Vec<Inline>>>)
    ensures
        rows_view(r@) == rows_view(v@),
{
    let mut r: Vec<Vec<Vec<Inline>>> = Vec::new();
    let mut i: usize = 0;
    while i < v.len()
        invariant
            i <= v@.len(),
            r@.len() == i,
            forall|k: int|
                0 <= k < i ==> #[trigger] cells_view(r@[k]@) == cells_view(v@[k]@),
        decreases v@.len() - i,
    {
        r.push(copy_cells(&v[i]));
        i = i + 1;
    }
    proof {
        assert(rows_view(r@) =~= rows_view(v@));
    }
    r
}

/// Copies a column alignment list.
fn copy_aligns(v: &Vec<TableAlign>) -> (r: Vec<TableAlign>)
    ensures
        r@ == v@,
{
    let mut r: Vec<TableAlign> = Vec::new();
    let mut i: usize = 0;
    while i < v.len()
        invariant
            i <= v@.len(),
            r@ == v@.take(i as int),
        decreases v@.len() - i,
    {
        r.push(v[i]);
        proof {
            assert(v@.take(i + 1) == v@.take(i as int).push(v@[i as int]));
        }
        i = i + 1;
    }
    proof {
        assert(v@.take(v@.len() as int) == v@);
    }
    r
}

/// Copies an attribute list.
fn copy_attrs(v: &Vec<(String, String)>) -> (r: Vec<(String, String)>)
    ensures
        r@ == v@,
{
    let mut r: Vec<(String, String)> = Vec::new();
    let mut i: usize = 0;
    while i < v.len()
        invariant
            i <= v@.len(),
            r@ == v@.take(i as int),
        decreases v@.len() - i,
    {
        let (a, b) = &v[i];
        r.push((a.clone(), b.clone()));
        proof {
            assert(v@.take(i + 1) == v@.take(i as int).push(v@[i as int]));
        }
        i = i + 1;
    }
    proof {
        assert(v@.take(v@.len() as int) == v@);
    }
    r
}

/// The model of a sequence of blocks holds the model of each block, in order.
pub proof fn lemma_blocks_view(s: Seq<Block>)
    ensures
        blocks_view(s).len() == s.len(),
        forall|i: int| 0 <= i < s.len() ==> #[trigger] blocks_view(s)[i] == block_view(s[i]),
    decreases s.len(),
{
    if s.len() > 0 {
        lemma_blocks_view(s.subrange(0, s.len() - 1));
    }
}

/// Two block sequences whose elements have the same models have the same model.
pub proof fn lemma_blocks_view_eq(s: Seq<Block>, t: Seq<Block>)
    requires
        s.len() == t.len(),
        forall|i: int| 0 <= i < s.len() ==> #[trigger] block_view(s[i]) == block_view(t[i]),
    ensures
        blocks_view(s) == blocks_view(t),
{
    lemma_blocks_view(s);
    lemma_blocks_view(t);
    assert(blocks_view(s) =~= blocks_view(t));
}

/// Copies a block, nested blocks included.
pub fn copy_block(b: &Block) -> (r: Block)
    ensures
        r@ == b@,
    decreases b,
{
    Block {
        id: b.id.clone(),
        kind: copy_kind(&b.kind),
        align: b.align,
        attrs: copy_attrs(&b.attrs),
        children: copy_inlines(&b.children),
    }
}

/// Copies a block kind, nested blocks included.
pub fn copy_kind(k: &BlockKind) -> (r: BlockKind)
    ensures
        r@ == k@,
    decreases k,
{
    match k {
        BlockKind::Paragraph => BlockKind::Paragraph,
        BlockKind::Heading { level } => BlockKind::Heading { level: *level },
        BlockKind::BulletList { items } => BlockKind::BulletList { items: copy_blocks(items) },
        BlockKind::OrderedList { items } => BlockKind::OrderedList { items: copy_blocks(items) },
        BlockKind::TaskList { items } => BlockKind::TaskList { items: copy_blocks(items) },
        BlockKind::ListItem => BlockKind::ListItem,
        BlockKind::TaskItem { checked } => BlockKind::TaskItem { checked: *checked },
        BlockKind::Quote => BlockKind::Quote,
        BlockKind::CodeBlock { language, code } => BlockKind::CodeBlock {
            language: copy_opt_string(language),
            code: code.clone(),
        },
        BlockKind::Image { src, alt, title, width, height, caption } => BlockKind::Image {
            src: src.clone(),
            alt: copy_opt_string(alt),
            title: copy_opt_string(title),
            width: *width,
            height: *height,
            caption: copy_opt_string(caption),
        },
        BlockKind::Embed { provider, url, title, width, height } => BlockKind::Embed {
            provider: *provider,
            url: url.clone(),
            title: copy_opt_string(title),
            width: *width,
            height: *height,
        },
        BlockKind::Rule => BlockKind::Rule,
        BlockKind::Table { headers, rows, column_align } => BlockKind::Table {
            headers: copy_cells(headers),
            rows: copy_rows(rows),
            column_align: copy_aligns(column_align),
        },
    }
}

/// Copies a sequence of blocks.
pub fn copy_blocks(v: &Vec<Block>) -> (r: Vec<Block>)
    ensures
        blocks_view(r@) == blocks_view(v@),
    decreases v,
{
    let mut r: Vec<Block> = Vec::new();
    let mut i: usize = 0;
    while i < v.len()
        invariant
            i <= v@.len(),
            r@.len() == i,
            forall|k: int| 0 <= k < i ==> #[trigger] block_view(r@[k]) == block_view(v@[k]),
        decreases v@.len() - i,
    {
        r.push(copy_block(&v[i]));
        i = i + 1;
    }
    proof {
        lemma_blocks_view_eq(r@, v@);
    }
    r
}

impl Clone for Block {
    fn clone(&self) -> (r: Self)
        ensures
            r@ == self@,
    {
        copy_block(self)
    }
}

impl Clone for Doc {
    fn clone(&self) -> (r: Self)
        ensures
            r@ == self@,
    {
        Doc { blocks: copy_blocks(&self.blocks) }
    }
}

impl Clone for BlockKind {
    fn clone(&self) -> (r: Self)
        ensures
            r@ == self@,
    {
        copy_kind(self)
    }
}

} // verus!

verus! {

// ---------------------------------------------------------------------------
// Constructors
// ---------------------------------------------------------------------------

impl Default for TableAlign {
    fn default() -> (r: Self)
        ensures
            r == TableAlign::Left,
    {
        TableAlign::Left
    }
}

impl Default for BlockAlign {
    fn default() -> (r: Self)
        ensures
            r == BlockAlign::Left,
    {
        BlockAlign::Left
    }
}

impl Default for MarkSet {
    fn default() -> (r: Self)
        ensures
            r == empty_marks(),
    {
        MarkSet {
            bold: false,
            italic: false,
            underline: false,
            strike: false,
            code: false,
            size: None,
            highlight: None,
        }
    }
}

impl MarkSet {
    /// Only the bold mark is set.
    pub fn bold() -> (r: Self)
        ensures
            r == (MarkSet { bold: true, ..empty_marks() }),
    {
        MarkSet {
            bold: true,
            italic: false,
            underline: false,
            strike: false,
            code: false,
            size: None,
            highlight: None,
        }
    }

    /// Only the italic mark is set.
    pub fn italic() -> (r: Self)
        ensures
            r == (MarkSet { italic: true, ..empty_marks() }),
    {
        MarkSet {
            bold: false,
            italic: true,
            underline: false,
            strike: false,
            code: false,
            size: None,
            highlight: None,
        }
    }

    /// True when no mark, size or highlight is set.
    pub fn is_empty(&self) -> (r: bool)
        ensures
            r == self.spec_is_empty(),
    {
        !self.bold && !self.italic && !self.underline && !self.strike && !self.code
            && self.size.is_none() && self.highlight.is_none()
    }
}

/// Negation of a flag; a mark whose flag it holds is left out of serialized output.
pub fn is_false(b: &bool) -> (r: bool)
    ensures
        r == !*b,
{
    !*b
}

impl Inline {
    /// A text run with no marks and no link.
    pub fn text(text: &str) -> (r: Self)
        ensures
            r.is_plain_text(text@),
    {
        Inline::Text { text: String::from_str(text), marks: MarkSet::default(), link: None }
    }

    /// A text run with the given marks and no link.
    pub fn text_with_marks(text: &str, marks: MarkSet) -> (r: Self)
        ensures
            r matches Inline::Text { text: t, marks: m, link: l } && t@ == text@ && m == marks
                && l is None,
    {
        Inline::Text { text: String::from_str(text), marks, link: None }
    }

    /// A text run linking to `href`, with no marks, no title and no new tab.
    pub fn link(text: &str, href: &str) -> (r: Self)
        ensures
            r matches Inline::Text { text: t, marks: m, link: Some(l) } && t@ == text@
                && m == empty_marks() && l.href@ == href@ && l.title is None && !l.target_blank,
    {
        Inline::Text {
            text: String::from_str(text),
            marks: MarkSet::default(),
            link: Some(Link { href: String::from_str(href), title: None, target_blank: false }),
        }
    }
}

impl Block {
    /// A block of the given kind with a fresh random id, left alignment, no
    /// attributes and no children.
    pub fn new(kind: BlockKind) -> (r: Self)
        ensures
            r.kind == kind,
            is_uuid_v4_text(r.id@),
            r.id@.len() == 36,
            r.align == BlockAlign::Left,
            r.attrs@.len() == 0,
            r.children@.len() == 0,
    {
        Block {
            id: fresh_block_id(),
            kind,
            align: BlockAlign::default(),
            attrs: Vec::new(),
            children: Vec::new(),
        }
    }

    /// An empty paragraph.
    pub fn new_paragraph() -> (r: Self)
        ensures
            r.kind == BlockKind::Paragraph,
            is_uuid_v4_text(r.id@),
            r.id@.len() == 36,
            r.align == BlockAlign::Left,
            r.attrs@.len() == 0,
            r.children@.len() == 0,
    {
        Self::new(BlockKind::Paragraph)
    }

    /// An empty heading of the given level.
    pub fn new_heading(level: u8) -> (r: Self)
        ensures
            r.kind == (BlockKind::Heading { level }),
            is_uuid_v4_text(r.id@),
            r.id@.len() == 36,
            r.align == BlockAlign::Left,
            r.attrs@.len() == 0,
            r.children@.len() == 0,
    {
        Self::new(BlockKind::Heading { level })
    }

    /// A table of `rows` rows and `cols` columns whose every header and cell
    /// holds one empty text run, all columns left aligned.
    pub fn new_table(rows: usize, cols: usize) -> (r: Self)
        ensures
            r@.kind matches BlockKindV::Table { headers, rows: body, column_align } && {
                &&& headers.len() == cols
                &&& forall|j: int| 0 <= j < cols ==> #[trigger] is_empty_cell(headers[j])
                &&& body.len() == rows
                &&& forall|i: int| 0 <= i < rows ==> #[trigger] body[i].len() == cols
                &&& forall|i: int, j: int|
                    0 <= i < rows && 0 <= j < cols ==> #[trigger] is_empty_cell(body[i][j])
                &&& column_align.len() == cols
                &&& forall|j: int| 0 <= j < cols ==> #[trigger] column_align[j] == TableAlign::Left
            },
            is_uuid_v4_text(r.id@),
            r.id@.len() == 36,
            r.align == BlockAlign::Left,
            r.attrs@.len() == 0,
            r.children@.len() == 0,
    {
        let headers = empty_row(cols);
        let mut body: Vec<Vec<Vec<Inline>>> = Vec::new();
        let mut i: usize = 0;
        while i < rows
            invariant
                i <= rows,
                body@.len() == i,
                forall|k: int| 0 <= k < i ==> #[trigger] body@[k]@.len() == cols,
                forall|k: int, j: int|
                    0 <= k < i && 0 <= j < cols ==> #[trigger] is_empty_cell(body@[k]@[j]@),
            decreases rows - i,
        {
            body.push(empty_row(cols));
            i = i + 1;
        }
        let mut column_align: Vec<TableAlign> = Vec::new();
        let mut j: usize = 0;
        while j < cols
            invariant
                j <= cols,
                column_align@.len() == j,
                forall|k: int| 0 <= k < j ==> #[trigger] column_align@[k] == TableAlign::Left,
            decreases cols - j,
        {
            column_align.push(TableAlign::default());
            j = j + 1;
        }
        Self::new(BlockKind::Table { headers, rows: body, column_align })
    }

    /// Appends one plain text run to the children.
    pub fn with_text(self, text: &str) -> (r: Self)
        ensures
            r.id == self.id,
            r.kind == self.kind,
            r.align == self.align,
            r.attrs == self.attrs,
            r.children@.len() == self.children@.len() + 1,
            r.children@.drop_last() == self.children@,
            r.children@.last().is_plain_text(text@),
    {
        let mut b = self;
        b.children.push(Inline::text(text));
        b
    }

    /// Replaces the children.
    pub fn with_children(self, children: Vec<Inline>) -> (r: Self)
        ensures
            r.id == self.id,
            r.kind == self.kind,
            r.align == self.align,
            r.attrs == self.attrs,
            r.children == children,
    {
        let mut b = self;
        b.children = children;
        b
    }
}

/// A table cell holding one empty text run.
pub open spec fn is_empty_cell(c: Seq<Inline>) -> bool {
    c.len() == 1 && c[0].is_plain_text(Seq::empty())
}

/// A row of `cols` empty cells.
fn empty_row(cols: usize) -> (r: Vec<Vec<Inline>>)
    ensures
        r@.len() == cols,
        forall|j: int| 0 <= j < cols ==> #[trigger] is_empty_cell(r@[j]@),
{
    let mut r: Vec<Vec<Inline>> = Vec::new();
    let mut j: usize = 0;
    while j < cols
        invariant
            j <= cols,
            r@.len() == j,
            forall|k: int| 0 <= k < j ==> #[trigger] is_empty_cell(r@[k]@),
        decreases cols - j,
    {
        let mut cell: Vec<Inline> = Vec::new();
        cell.push(Inline::text(""));
        proof {
            reveal_strlit("");
            assert(""@ =~= Seq::<char>::empty());
        }
        r.push(cell);
        j = j + 1;
    }
    r
}

impl Default for Doc {
    /// A document holding one empty paragraph.
    fn default() -> (r: Self)
        ensures
            r.blocks@.len() == 1,
            r.blocks@[0].kind == BlockKind::Paragraph,
            r.blocks@[0].children@.len() == 0,
            r.blocks@[0].align == BlockAlign::Left,
            r.blocks@[0].attrs@.len() == 0,
    {
        let mut blocks: Vec<Block> = Vec::new();
        blocks.push(Block::new_paragraph());
        Doc { blocks }
    }
}

} // verus!
