//! The choices the editor makes when it formats the page under the cursor:
//! which browser command a mark uses, what a block type becomes, whether a
//! block is replaced or toggled back, what a link gets and what markup an
//! inserted block is. The page edits themselves are the view's.
use vstd::prelude::*;

use crate::ast::BlockKind;
use crate::commands::{InsertLink, MarkType};
use crate::embed::{contains, contains_text};
use crate::escape::{escape, escape_html};
use crate::markup::{build_embed_html, build_image_html, embed_html, image_html, opt_text};
use crate::model::opt_chars;
use crate::shortcuts::{lowercase, to_lower, ShortcutAction};
use crate::slash::SlashCommand;
use crate::text::{trim, trimmed};

verus! {

/// How a mark is applied.
#[derive(Clone, Copy, Debug, PartialEq, Eq)]
pub enum MarkCommand {
    /// Through the browser editing command of this name.
    Exec(&'static str),
    /// By wrapping or unwrapping the selection in `<code>`.
    ToggleInlineCode,
}

/// How `mark` is applied.
pub fn mark_command(mark: MarkType) -> (r: MarkCommand)
    ensures
        match mark {
            MarkType::Bold => r matches MarkCommand::Exec(c) && c@ == "bold"@,
            MarkType::Italic => r matches MarkCommand::Exec(c) && c@ == "italic"@,
            MarkType::Underline => r matches MarkCommand::Exec(c) && c@ == "underline"@,
            MarkType::Strike => r matches MarkCommand::Exec(c) && c@ == "strikeThrough"@,
            MarkType::Code => r == MarkCommand::ToggleInlineCode,
        },
{
    match mark {
        MarkType::Bold => MarkCommand::Exec("bold"),
        MarkType::Italic => MarkCommand::Exec("italic"),
        MarkType::Underline => MarkCommand::Exec("underline"),
        MarkType::Strike => MarkCommand::Exec("strikeThrough"),
        MarkType::Code => MarkCommand::ToggleInlineCode,
    }
}

/// What setting a block type does to the block under the cursor.
#[derive(Clone, Copy, Debug, PartialEq, Eq)]
pub enum BlockFormat {
    /// Make it an element with this tag; with `allow_toggle`, an element
    /// that already has the tag goes back to a paragraph; with `with_code`,
    /// a `<code>` is kept inside it.
    Format { tag: &'static str, allow_toggle: bool, with_code: bool },
    /// Run the browser editing command of this name.
    Exec(&'static str),
    /// Turn the list under the cursor into a task list or back.
    ToggleTaskList,
    /// Nothing: the type is not one a block can be set to.
    Nothing,
}

/// The heading tag for a level, brought into 1 to 6.
pub open spec fn heading_tag(level: u8) -> Seq<char> {
    if level <= 1 {
        "h1"@
    } else if level == 2 {
        "h2"@
    } else if level == 3 {
        "h3"@
    } else if level == 4 {
        "h4"@
    } else if level == 5 {
        "h5"@
    } else {
        "h6"@
    }
}

/// What setting the type `kind` does: paragraphs and headings are formatted
/// in place, quotes and code blocks too but toggle back, lists use the
/// browser's list commands, task lists toggle.
pub open spec fn block_format_spec(kind: BlockKind, r: BlockFormat) -> bool {
    match kind {
        BlockKind::Paragraph => r matches BlockFormat::Format { tag, allow_toggle, with_code } && tag@
            == "p"@ && !allow_toggle && !with_code,
        BlockKind::Heading { level } => r matches BlockFormat::Format { tag, allow_toggle, with_code }
            && tag@ == heading_tag(level) && !allow_toggle && !with_code,
        BlockKind::Quote => r matches BlockFormat::Format { tag, allow_toggle, with_code } && tag@
            == "blockquote"@ && allow_toggle && !with_code,
        BlockKind::CodeBlock { .. } => r matches BlockFormat::Format { tag, allow_toggle, with_code }
            && tag@ == "pre"@ && allow_toggle && with_code,
        BlockKind::BulletList { .. } => r matches BlockFormat::Exec(c) && c@ == "insertUnorderedList"@,
        BlockKind::OrderedList { .. } => r matches BlockFormat::Exec(c) && c@ == "insertOrderedList"@,
        BlockKind::TaskList { .. } => r == BlockFormat::ToggleTaskList,
        _ => r == BlockFormat::Nothing,
    }
}

/// What setting the type `kind` does.
pub fn block_format(kind: &BlockKind) -> (r: BlockFormat)
    ensures
        block_format_spec(*kind, r),
{
    match kind {
        BlockKind::Paragraph => BlockFormat::Format { tag: "p", allow_toggle: false, with_code: false },
        BlockKind::Heading { level } => {
            let tag = if *level <= 1 {
                "h1"
            } else if *level == 2 {
                "h2"
            } else if *level == 3 {
                "h3"
            } else if *level == 4 {
                "h4"
            } else if *level == 5 {
                "h5"
            } else {
                "h6"
            };
            BlockFormat::Format { tag, allow_toggle: false, with_code: false }
        },
        BlockKind::Quote => BlockFormat::Format { tag: "blockquote", allow_toggle: true, with_code: false },
        BlockKind::CodeBlock { .. } => BlockFormat::Format { tag: "pre", allow_toggle: true, with_code: true },
        BlockKind::BulletList { .. } => BlockFormat::Exec("insertUnorderedList"),
        BlockKind::OrderedList { .. } => BlockFormat::Exec("insertOrderedList"),
        BlockKind::TaskList { .. } => BlockFormat::ToggleTaskList,
        _ => BlockFormat::Nothing,
    }
}

/// What formatting does to the block under the cursor.
#[derive(Clone, Copy, Debug, PartialEq, Eq, Structural)]
pub enum FormatAction {
    /// There is no block: the selection is wrapped in a new element.
    Wrap,
    /// The block is replaced by an element with the new tag, content and
    /// classes kept.
    Replace,
    /// The block already has the tag and toggles back to a paragraph.
    ToParagraph,
    /// The block already has the tag; nothing changes.
    Keep,
}

/// What formatting to `tag` does to a block whose tag is `current` (none
/// where the cursor is in no block); tags are compared in lower case.
pub open spec fn format_action_spec(current: Option<Seq<char>>, tag: Seq<char>, allow_toggle: bool) -> FormatAction {
    match current {
        None => FormatAction::Wrap,
        Some(c) => if lowercase(c) == lowercase(tag) {
            if allow_toggle {
                FormatAction::ToParagraph
            } else {
                FormatAction::Keep
            }
        } else {
            FormatAction::Replace
        },
    }
}

/// What formatting to `tag` does to the block whose tag is `current`.
pub fn format_action(current: Option<&str>, tag: &str, allow_toggle: bool) -> (r: FormatAction)
    ensures
        r == format_action_spec(opt_text(current), tag@, allow_toggle),
{
    match current {
        None => FormatAction::Wrap,
        Some(c) => {
            let a = to_lower(c);
            let b = to_lower(tag);
            if crate::text::text_eq(a.as_str(), b.as_str()) {
                if allow_toggle {
                    FormatAction::ToParagraph
                } else {
                    FormatAction::Keep
                }
            } else {
                FormatAction::Replace
            }
        },
    }
}

/// The attributes a link gets: its trimmed address, its trimmed title where
/// that is not empty, and whether it opens in a new tab.
pub struct LinkAttributes {
    pub href: String,
    pub title: Option<String>,
    pub target_blank: bool,
}

/// A link title trimmed, where that leaves text.
pub open spec fn kept_title(t: Option<String>) -> Option<Seq<char>> {
    match t {
        Some(t) => if trimmed(t@).len() > 0 {
            Some(trimmed(t@))
        } else {
            None
        },
        None => None,
    }
}

/// The attributes for inserting `command`'s link; none where the trimmed
/// address is empty, and then nothing is inserted.
pub fn link_attributes(command: &InsertLink) -> (r: Option<LinkAttributes>)
    ensures
        match r {
            None => trimmed(command.href@).len() == 0,
            Some(a) => {
                &&& trimmed(command.href@).len() > 0
                &&& a.href@ == trimmed(command.href@)
                &&& opt_chars(a.title) == kept_title(command.title)
                &&& a.target_blank == command.target_blank
            },
        },
{
    let href = trim(command.href.as_str());
    if href.unicode_len() == 0 {
        return None;
    }
    let title = match &command.title {
        Some(t) => {
            let tt = trim(t.as_str());
            if tt.unicode_len() > 0 {
                Some(tt)
            } else {
                None
            }
        },
        None => None,
    };
    Some(LinkAttributes { href, title, target_blank: command.target_blank })
}

/// What inserting a block does.
pub enum InsertBlockAction {
    /// Run the browser's horizontal rule command.
    InsertRule,
    /// Insert this markup.
    InsertHtml(String),
    /// Nothing: the block is not one that is inserted this way.
    Nothing,
}

/// What inserting `kind` does: a rule uses the browser command, an image or
/// an embed inserts its markup, other kinds do nothing.
pub fn insert_block_action(kind: &BlockKind) -> (r: InsertBlockAction)
    ensures
        match *kind {
            BlockKind::Rule => r is InsertRule,
            BlockKind::Image { src, alt, title, width, height, caption } => r matches InsertBlockAction::InsertHtml(
                h,
            ) && h@ == image_html(src@, opt_chars(alt), opt_chars(title), width, height, opt_chars(caption)),
            BlockKind::Embed { provider, url, title, width, height } => r matches InsertBlockAction::InsertHtml(
                h,
            ) && h@ == embed_html(provider, url@, opt_chars(title), width, height),
            _ => r is Nothing,
        },
{
    match kind {
        BlockKind::Rule => InsertBlockAction::InsertRule,
        BlockKind::Image { src, alt, title, width, height, caption } => {
            let a: Option<&str> = match alt {
                Some(x) => Some(x.as_str()),
                None => None,
            };
            let t: Option<&str> = match title {
                Some(x) => Some(x.as_str()),
                None => None,
            };
            let c: Option<&str> = match caption {
                Some(x) => Some(x.as_str()),
                None => None,
            };
            InsertBlockAction::InsertHtml(build_image_html(src.as_str(), a, t, *width, *height, c))
        },
        BlockKind::Embed { provider, url, title, width, height } => {
            let t: Option<&str> = match title {
                Some(x) => Some(x.as_str()),
                None => None,
            };
            InsertBlockAction::InsertHtml(build_embed_html(provider, url.as_str(), t, *width, *height))
        },
        _ => InsertBlockAction::Nothing,
    }
}

/// What the editor does when a shortcut fires or a slash command is chosen.
#[derive(Debug)]
pub enum EditorAction {
    /// Run `ToggleMark` with this mark on the selection.
    ToggleMark(MarkType),
    /// Open the link dialog.
    OpenLinkDialog,
    /// Set the type of the block under the cursor (see `block_format`).
    SetBlockType(BlockKind),
    /// Insert a block of this kind at the cursor (see `insert_block_action`).
    InsertBlock(BlockKind),
    /// Run the browser editing command of this name.
    Exec(&'static str),
    /// Step back in the edit history.
    Undo,
    /// Step forward in the edit history.
    Redo,
    /// Save the content.
    Save,
    /// Search the content.
    Find,
    /// Swap the block under the cursor with the one before it.
    MoveBlockUp,
    /// Swap the block under the cursor with the one after it.
    MoveBlockDown,
    /// Nothing.
    Nothing,
}

/// An empty code block with no language.
pub open spec fn is_empty_code_block(k: BlockKind) -> bool {
    k matches BlockKind::CodeBlock { language, code } && language is None && code@.len() == 0
}

/// An image with no source, text or size yet.
pub open spec fn is_empty_image(k: BlockKind) -> bool {
    &&& k matches BlockKind::Image { src, alt, title, width, height, caption }
    &&& src@.len() == 0
    &&& alt is None
    &&& title is None
    &&& width is None
    &&& height is None
    &&& caption is None
}

/// What the editor does for the shortcut action `a`: marks are toggled,
/// links open their dialog, block types are set in place, bullet and
/// numbered lists use the browser's list commands, a task list is inserted,
/// and the history, save, find and move actions pass through.
pub open spec fn shortcut_dispatch(a: ShortcutAction, r: EditorAction) -> bool {
    match a {
        ShortcutAction::ToggleBold => r == EditorAction::ToggleMark(MarkType::Bold),
        ShortcutAction::ToggleItalic => r == EditorAction::ToggleMark(MarkType::Italic),
        ShortcutAction::ToggleUnderline => r == EditorAction::ToggleMark(MarkType::Underline),
        ShortcutAction::ToggleStrike => r == EditorAction::ToggleMark(MarkType::Strike),
        ShortcutAction::ToggleCode => r == EditorAction::ToggleMark(MarkType::Code),
        ShortcutAction::InsertLink => r == EditorAction::OpenLinkDialog,
        ShortcutAction::SetHeading(level) => r == EditorAction::SetBlockType(BlockKind::Heading { level }),
        ShortcutAction::SetParagraph => r == EditorAction::SetBlockType(BlockKind::Paragraph),
        ShortcutAction::SetQuote => r == EditorAction::SetBlockType(BlockKind::Quote),
        ShortcutAction::SetCodeBlock => r matches EditorAction::SetBlockType(k) && is_empty_code_block(k),
        ShortcutAction::InsertBulletList => r matches EditorAction::Exec(c) && c@ == "insertUnorderedList"@,
        ShortcutAction::InsertOrderedList => r matches EditorAction::Exec(c) && c@ == "insertOrderedList"@,
        ShortcutAction::InsertTaskList => r == EditorAction::InsertBlock(BlockKind::TaskItem { checked: false }),
        ShortcutAction::Undo => r == EditorAction::Undo,
        ShortcutAction::Redo => r == EditorAction::Redo,
        ShortcutAction::Save => r == EditorAction::Save,
        ShortcutAction::Find => r == EditorAction::Find,
        ShortcutAction::MoveBlockUp => r == EditorAction::MoveBlockUp,
        ShortcutAction::MoveBlockDown => r == EditorAction::MoveBlockDown,
    }
}

/// What the editor does for a shortcut action.
pub fn shortcut_editor_action(a: ShortcutAction) -> (r: EditorAction)
    ensures
        shortcut_dispatch(a, r),
{
    match a {
        ShortcutAction::ToggleBold => EditorAction::ToggleMark(MarkType::Bold),
        ShortcutAction::ToggleItalic => EditorAction::ToggleMark(MarkType::Italic),
        ShortcutAction::ToggleUnderline => EditorAction::ToggleMark(MarkType::Underline),
        ShortcutAction::ToggleStrike => EditorAction::ToggleMark(MarkType::Strike),
        ShortcutAction::ToggleCode => EditorAction::ToggleMark(MarkType::Code),
        ShortcutAction::InsertLink => EditorAction::OpenLinkDialog,
        ShortcutAction::SetHeading(level) => EditorAction::SetBlockType(BlockKind::Heading { level }),
        ShortcutAction::SetParagraph => EditorAction::SetBlockType(BlockKind::Paragraph),
        ShortcutAction::SetQuote => EditorAction::SetBlockType(BlockKind::Quote),
        ShortcutAction::SetCodeBlock => EditorAction::SetBlockType(
            BlockKind::CodeBlock { language: None, code: String::new() },
        ),
        ShortcutAction::InsertBulletList => EditorAction::Exec("insertUnorderedList"),
        ShortcutAction::InsertOrderedList => EditorAction::Exec("insertOrderedList"),
        ShortcutAction::InsertTaskList => EditorAction::InsertBlock(BlockKind::TaskItem { checked: false }),
        ShortcutAction::Undo => EditorAction::Undo,
        ShortcutAction::Redo => EditorAction::Redo,
        ShortcutAction::Save => EditorAction::Save,
        ShortcutAction::Find => EditorAction::Find,
        ShortcutAction::MoveBlockUp => EditorAction::MoveBlockUp,
        ShortcutAction::MoveBlockDown => EditorAction::MoveBlockDown,
    }
}

/// What the editor does for the slash command `c`: paragraph, headings,
/// quote and code block set the type of the block in place, the lists use
/// the browser's list commands, a task list, a divider and an image are
/// inserted; the table command has no action in the editor.
pub open spec fn slash_dispatch(c: SlashCommand, r: EditorAction) -> bool {
    match c {
        SlashCommand::Paragraph => r == EditorAction::SetBlockType(BlockKind::Paragraph),
        SlashCommand::Heading1 => r == EditorAction::SetBlockType(BlockKind::Heading { level: 1 }),
        SlashCommand::Heading2 => r == EditorAction::SetBlockType(BlockKind::Heading { level: 2 }),
        SlashCommand::Heading3 => r == EditorAction::SetBlockType(BlockKind::Heading { level: 3 }),
        SlashCommand::BulletList => r matches EditorAction::Exec(x) && x@ == "insertUnorderedList"@,
        SlashCommand::OrderedList => r matches EditorAction::Exec(x) && x@ == "insertOrderedList"@,
        SlashCommand::TaskList => r == EditorAction::InsertBlock(BlockKind::TaskItem { checked: false }),
        SlashCommand::Quote => r == EditorAction::SetBlockType(BlockKind::Quote),
        SlashCommand::CodeBlock => r matches EditorAction::SetBlockType(k) && is_empty_code_block(k),
        SlashCommand::Divider => r == EditorAction::InsertBlock(BlockKind::Rule),
        SlashCommand::Image => r matches EditorAction::InsertBlock(k) && is_empty_image(k),
        SlashCommand::Table => r == EditorAction::Nothing,
    }
}

/// What the editor does for a slash command.
pub fn slash_editor_action(c: SlashCommand) -> (r: EditorAction)
    ensures
        slash_dispatch(c, r),
{
    match c {
        SlashCommand::Paragraph => EditorAction::SetBlockType(BlockKind::Paragraph),
        SlashCommand::Heading1 => EditorAction::SetBlockType(BlockKind::Heading { level: 1 }),
        SlashCommand::Heading2 => EditorAction::SetBlockType(BlockKind::Heading { level: 2 }),
        SlashCommand::Heading3 => EditorAction::SetBlockType(BlockKind::Heading { level: 3 }),
        SlashCommand::BulletList => EditorAction::Exec("insertUnorderedList"),
        SlashCommand::OrderedList => EditorAction::Exec("insertOrderedList"),
        SlashCommand::TaskList => EditorAction::InsertBlock(BlockKind::TaskItem { checked: false }),
        SlashCommand::Quote => EditorAction::SetBlockType(BlockKind::Quote),
        SlashCommand::CodeBlock => EditorAction::SetBlockType(
            BlockKind::CodeBlock { language: None, code: String::new() },
        ),
        SlashCommand::Divider => EditorAction::InsertBlock(BlockKind::Rule),
        SlashCommand::Image => EditorAction::InsertBlock(
            BlockKind::Image {
                src: String::new(),
                alt: None,
                title: None,
                width: None,
                height: None,
                caption: None,
            },
        ),
        SlashCommand::Table => EditorAction::Nothing,
    }
}

/// The markup that wraps the selected text in `<code>`: the text escaped,
/// or the word `code` where the selection holds only white space.
pub open spec fn inline_code_html(selected: Seq<char>) -> Seq<char> {
    let content = if trimmed(selected).len() == 0 {
        "code"@
    } else {
        selected
    };
    "<code>"@ + escape(content) + "</code>"@
}

/// The markup that wraps the selected text in `<code>`.
pub fn apply_inline_code_html(selected: &str) -> (r: String)
    ensures
        r@ == inline_code_html(selected@),
{
    let t = trim(selected);
    let content = if t.unicode_len() == 0 {
        "code"
    } else {
        selected
    };
    let mut r = String::from_str("<code>");
    r.append(escape_html(content).as_str());
    r.append("</code>");
    r
}

/// One step of the walk up from the cursor to the block it is in.
#[derive(Clone, Copy, Debug, PartialEq, Eq, Structural)]
pub enum BlockWalk {
    /// This element is the block.
    Found,
    /// This is the editor's content area: there is no block.
    Stop,
    /// Go on to the parent.
    Continue,
}

/// The tags of the blocks that can be formatted.
pub open spec fn is_formattable_tag(t: Seq<char>) -> bool {
    t == "p"@ || t == "h1"@ || t == "h2"@ || t == "h3"@ || t == "h4"@ || t == "h5"@ || t == "h6"@ || t
        == "blockquote"@ || t == "pre"@
}

/// What the walk does at an element with tag `tag` and class attribute
/// `class`: it stops at the editor's content area (a `div` whose class holds
/// `editor-content`), finds a formattable block, and goes on otherwise.
pub open spec fn block_walk_spec(tag: Seq<char>, class: Option<Seq<char>>) -> BlockWalk {
    let t = lowercase(tag);
    if t == "div"@ && (class matches Some(c) && contains(c, "editor-content"@)) {
        BlockWalk::Stop
    } else if is_formattable_tag(t) {
        BlockWalk::Found
    } else {
        BlockWalk::Continue
    }
}

/// What the walk to the cursor's block does at one element.
pub fn block_walk_step(tag: &str, class: Option<&str>) -> (r: BlockWalk)
    ensures
        r == block_walk_spec(tag@, opt_text(class)),
{
    let t = to_lower(tag);
    let ts = t.as_str();
    let in_content = match class {
        Some(c) => contains_text(c, "editor-content"),
        None => false,
    };
    if crate::text::text_eq(ts, "div") && in_content {
        BlockWalk::Stop
    } else if crate::text::text_eq(ts, "p") || crate::text::text_eq(ts, "h1") || crate::text::text_eq(ts, "h2")
        || crate::text::text_eq(ts, "h3") || crate::text::text_eq(ts, "h4") || crate::text::text_eq(ts, "h5")
        || crate::text::text_eq(ts, "h6") || crate::text::text_eq(ts, "blockquote") || crate::text::text_eq(
        ts,
        "pre",
    ) {
        BlockWalk::Found
    } else {
        BlockWalk::Continue
    }
}

} // verus!
