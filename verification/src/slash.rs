//! Slash commands: the block types offered when `/` is typed.
use vstd::prelude::*;

use crate::embed::contains;
use crate::shortcuts::{lowercase, to_lower};

verus! {

/// The block types offered by the slash menu.
#[derive(Debug, Clone, Copy, PartialEq, Eq, Structural)]
pub enum SlashCommand {
    Paragraph,
    Heading1,
    Heading2,
    Heading3,
    BulletList,
    OrderedList,
    TaskList,
    Quote,
    CodeBlock,
    Divider,
    Image,
    Table,
}

/// Every slash command, in menu order.
pub open spec fn all_commands() -> Seq<SlashCommand> {
    seq![
        SlashCommand::Paragraph,
        SlashCommand::Heading1,
        SlashCommand::Heading2,
        SlashCommand::Heading3,
        SlashCommand::BulletList,
        SlashCommand::OrderedList,
        SlashCommand::TaskList,
        SlashCommand::Quote,
        SlashCommand::CodeBlock,
        SlashCommand::Divider,
        SlashCommand::Image,
        SlashCommand::Table,
    ]
}

/// The menu label of a command.
pub open spec fn label_of(c: SlashCommand) -> Seq<char> {
    match c {
        SlashCommand::Paragraph => "Paragraph"@,
        SlashCommand::Heading1 => "Heading 1"@,
        SlashCommand::Heading2 => "Heading 2"@,
        SlashCommand::Heading3 => "Heading 3"@,
        SlashCommand::BulletList => "Bullet List"@,
        SlashCommand::OrderedList => "Numbered List"@,
        SlashCommand::TaskList => "Task List"@,
        SlashCommand::Quote => "Quote"@,
        SlashCommand::CodeBlock => "Code Block"@,
        SlashCommand::Divider => "Divider"@,
        SlashCommand::Image => "Image"@,
        SlashCommand::Table => "Table"@,
    }
}

/// The menu icon of a command.
pub open spec fn icon_of(c: SlashCommand) -> Seq<char> {
    match c {
        SlashCommand::Paragraph => "\u{b6}"@,
        SlashCommand::Heading1 => "H1"@,
        SlashCommand::Heading2 => "H2"@,
        SlashCommand::Heading3 => "H3"@,
        SlashCommand::BulletList => "\u{2022}"@,
        SlashCommand::OrderedList => "1."@,
        SlashCommand::TaskList => "\u{2611}"@,
        SlashCommand::Quote => "\u{275d}"@,
        SlashCommand::CodeBlock => "</>"@,
        SlashCommand::Divider => "\u{2014}"@,
        SlashCommand::Image => "\u{1f5bc}"@,
        SlashCommand::Table => "\u{25a6}"@,
    }
}

/// The description shown under a command.
pub open spec fn description_of(c: SlashCommand) -> Seq<char> {
    match c {
        SlashCommand::Paragraph => "Plain text paragraph"@,
        SlashCommand::Heading1 => "Large section heading"@,
        SlashCommand::Heading2 => "Medium section heading"@,
        SlashCommand::Heading3 => "Small section heading"@,
        SlashCommand::BulletList => "Unordered list"@,
        SlashCommand::OrderedList => "Numbered list"@,
        SlashCommand::TaskList => "Interactive checklist"@,
        SlashCommand::Quote => "Block quotation"@,
        SlashCommand::CodeBlock => "Code with syntax highlighting"@,
        SlashCommand::Divider => "Horizontal rule"@,
        SlashCommand::Image => "Insert image"@,
        SlashCommand::Table => "Insert table with rows and columns"@,
    }
}

impl SlashCommand {
    /// Every slash command, in menu order.
    pub fn all() -> (r: Vec<Self>)
        ensures
            r@ == all_commands(),
    {
        let r = vec![
            SlashCommand::Paragraph,
            SlashCommand::Heading1,
            SlashCommand::Heading2,
            SlashCommand::Heading3,
            SlashCommand::BulletList,
            SlashCommand::OrderedList,
            SlashCommand::TaskList,
            SlashCommand::Quote,
            SlashCommand::CodeBlock,
            SlashCommand::Divider,
            SlashCommand::Image,
            SlashCommand::Table,
        ];
        proof {
            assert(r@ =~= all_commands());
        }
        r
    }

    /// The menu label.
    pub fn label(&self) -> (r: &str)
        ensures
            r@ == label_of(*self),
    {
        match self {
            SlashCommand::Paragraph => "Paragraph",
            SlashCommand::Heading1 => "Heading 1",
            SlashCommand::Heading2 => "Heading 2",
            SlashCommand::Heading3 => "Heading 3",
            SlashCommand::BulletList => "Bullet List",
            SlashCommand::OrderedList => "Numbered List",
            SlashCommand::TaskList => "Task List",
            SlashCommand::Quote => "Quote",
            SlashCommand::CodeBlock => "Code Block",
            SlashCommand::Divider => "Divider",
            SlashCommand::Image => "Image",
            SlashCommand::Table => "Table",
        }
    }

    /// The menu icon.
    pub fn icon(&self) -> (r: &str)
        ensures
            r@ == icon_of(*self),
    {
        match self {
            SlashCommand::Paragraph => "\u{b6}",
            SlashCommand::Heading1 => "H1",
            SlashCommand::Heading2 => "H2",
            SlashCommand::Heading3 => "H3",
            SlashCommand::BulletList => "\u{2022}",
            SlashCommand::OrderedList => "1.",
            SlashCommand::TaskList => "\u{2611}",
            SlashCommand::Quote => "\u{275d}",
            SlashCommand::CodeBlock => "</>",
            SlashCommand::Divider => "\u{2014}",
            SlashCommand::Image => "\u{1f5bc}",
            SlashCommand::Table => "\u{25a6}",
        }
    }

    /// The description shown under the label.
    pub fn description(&self) -> (r: &str)
        ensures
            r@ == description_of(*self),
    {
        match self {
            SlashCommand::Paragraph => "Plain text paragraph",
            SlashCommand::Heading1 => "Large section heading",
            SlashCommand::Heading2 => "Medium section heading",
            SlashCommand::Heading3 => "Small section heading",
            SlashCommand::BulletList => "Unordered list",
            SlashCommand::OrderedList => "Numbered list",
            SlashCommand::TaskList => "Interactive checklist",
            SlashCommand::Quote => "Block quotation",
            SlashCommand::CodeBlock => "Code with syntax highlighting",
            SlashCommand::Divider => "Horizontal rule",
            SlashCommand::Image => "Insert image",
            SlashCommand::Table => "Insert table with rows and columns",
        }
    }

    /// True when the query is empty, or when its lower-case form occurs in
    /// the lower-cased label or description.
    pub fn matches_query(&self, query: &str) -> (r: bool)
        ensures
            r == (query@.len() == 0 || contains(lowercase(label_of(*self)), lowercase(query@))
                || contains(lowercase(description_of(*self)), lowercase(query@))),
    {
        if query.unicode_len() == 0 {
            return true;
        }
        let q = to_lower(query);
        let l = to_lower(self.label());
        if crate::embed::find(l.as_str(), q.as_str(), false).is_some() {
            return true;
        }
        let d = to_lower(self.description());
        crate::embed::find(d.as_str(), q.as_str(), false).is_some()
    }
}

/// Whether `c` is offered for the query `q`.
pub open spec fn offered(c: SlashCommand, q: Seq<char>) -> bool {
    q.len() == 0 || contains(lowercase(label_of(c)), lowercase(q)) || contains(
        lowercase(description_of(c)),
        lowercase(q),
    )
}

/// The commands of `cs` offered for the query `q`, in order.
pub open spec fn offered_in(cs: Seq<SlashCommand>, q: Seq<char>) -> Seq<SlashCommand>
    decreases cs.len(),
{
    if cs.len() == 0 {
        Seq::empty()
    } else if offered(cs.last(), q) {
        offered_in(cs.drop_last(), q).push(cs.last())
    } else {
        offered_in(cs.drop_last(), q)
    }
}

/// The commands offered for `query`, in menu order.
pub fn filtered_commands(query: &str) -> (r: Vec<SlashCommand>)
    ensures
        r@ == offered_in(all_commands(), query@),
{
    let all = SlashCommand::all();
    let mut r: Vec<SlashCommand> = Vec::new();
    let mut i: usize = 0;
    proof {
        assert(all@.take(0) =~= Seq::<SlashCommand>::empty());
    }
    while i < all.len()
        invariant
            all@ == all_commands(),
            i <= all@.len(),
            r@ == offered_in(all@.take(i as int), query@),
        decreases all@.len() - i,
    {
        proof {
            assert(all@.take(i + 1).drop_last() =~= all@.take(i as int));
        }
        if all[i].matches_query(query) {
            r.push(all[i]);
        }
        i = i + 1;
    }
    proof {
        assert(all@.take(i as int) =~= all@);
    }
    r
}

/// What a key does in the open command list.
#[derive(Clone, Copy, Debug, PartialEq, Eq, Structural)]
pub enum ListKeyOutcome {
    /// The key is not the list's.
    Ignore,
    /// The highlighted entry moves to this position.
    Highlight(usize),
    /// The entry at the highlighted position is chosen, where there is one.
    Choose(usize),
    /// The list closes.
    Close,
}

/// A key of the command list.
#[derive(Clone, Copy, Debug, PartialEq, Eq, Structural)]
pub enum ListKey {
    ArrowDown,
    ArrowUp,
    Enter,
    Escape,
    Other,
}

/// What `key` does with the entry at `selected` highlighted among `count`:
/// the arrows move the highlight and stop at either end, Enter chooses,
/// Escape closes.
pub open spec fn list_key_outcome(selected: usize, count: usize, key: ListKey) -> ListKeyOutcome {
    match key {
        ListKey::ArrowDown => ListKeyOutcome::Highlight(
            if count > 0 && selected < count - 1 {
                (selected + 1) as usize
            } else {
                selected
            },
        ),
        ListKey::ArrowUp => ListKeyOutcome::Highlight(
            if selected > 0 {
                (selected - 1) as usize
            } else {
                selected
            },
        ),
        ListKey::Enter => ListKeyOutcome::Choose(selected),
        ListKey::Escape => ListKeyOutcome::Close,
        ListKey::Other => ListKeyOutcome::Ignore,
    }
}

/// What a key does in the open command list.
pub fn list_key(selected: usize, count: usize, key: ListKey) -> (r: ListKeyOutcome)
    ensures
        r == list_key_outcome(selected, count, key),
{
    match key {
        ListKey::ArrowDown => {
            if selected < count.saturating_sub(1) {
                ListKeyOutcome::Highlight(selected + 1)
            } else {
                ListKeyOutcome::Highlight(selected)
            }
        },
        ListKey::ArrowUp => {
            if selected > 0 {
                ListKeyOutcome::Highlight(selected - 1)
            } else {
                ListKeyOutcome::Highlight(selected)
            }
        },
        ListKey::Enter => ListKeyOutcome::Choose(selected),
        ListKey::Escape => ListKeyOutcome::Close,
        ListKey::Other => ListKeyOutcome::Ignore,
    }
}

/// The highlight stays on an entry: moving it from an entry among `count`
/// lands on an entry.
pub proof fn law_list_highlight_in_range(selected: usize, count: usize, key: ListKey)
    requires
        selected < count,
    ensures
        list_key_outcome(selected, count, key) matches ListKeyOutcome::Highlight(i) ==> i < count,
{
}

// ---------------------------------------------------------------------------
// The slash menu
// ---------------------------------------------------------------------------

/// A key press as the slash menu sees it.
pub enum MenuKey {
    /// A key that types text.
    Character(String),
    Escape,
    Enter,
    Backspace,
    /// Any other key.
    Other,
}

/// Whether the slash menu is open and what has been typed after the slash.
pub struct SlashMenu {
    pub open: bool,
    pub query: String,
}

/// Model of the slash menu.
pub struct SlashMenuV {
    pub open: bool,
    pub query: Seq<char>,
}

impl View for SlashMenu {
    type V = SlashMenuV;

    open spec fn view(&self) -> SlashMenuV {
        SlashMenuV { open: self.open, query: self.query@ }
    }
}

/// The menu after a key press, where `has_selection` tells whether text is
/// selected: a `/` with nothing selected opens it with an empty query;
/// while it is open, Escape and Enter close it, Backspace takes back the
/// last character (or closes it where the query is empty), and typing adds
/// to the query. Other keys leave it as it is.
pub open spec fn menu_after(m: SlashMenuV, key: MenuKey, has_selection: bool) -> SlashMenuV {
    match key {
        MenuKey::Character(c) if c@ == "/"@ && !has_selection => SlashMenuV { open: true, query: Seq::empty() },
        _ => if !m.open {
            m
        } else {
            match key {
                MenuKey::Escape | MenuKey::Enter => SlashMenuV { open: false, query: Seq::empty() },
                MenuKey::Backspace => if m.query.len() == 0 {
                    SlashMenuV { open: false, ..m }
                } else {
                    SlashMenuV { query: m.query.drop_last(), ..m }
                },
                MenuKey::Character(c) => SlashMenuV { query: m.query + c@, ..m },
                MenuKey::Other => m,
            }
        },
    }
}

impl SlashMenu {
    /// A closed menu with an empty query.
    pub fn new() -> (r: SlashMenu)
        ensures
            r@ == (SlashMenuV { open: false, query: Seq::empty() }),
    {
        SlashMenu { open: false, query: String::new() }
    }

    /// Applies a key press.
    pub fn handle_key(&mut self, key: &MenuKey, has_selection: bool)
        ensures
            final(self)@ == menu_after(old(self)@, *key, has_selection),
    {
        let is_slash = match key {
            MenuKey::Character(c) => crate::text::text_eq(c.as_str(), "/"),
            _ => false,
        };
        if is_slash && !has_selection {
            self.open = true;
            self.query = String::new();
            return;
        }
        if !self.open {
            return;
        }
        match key {
            MenuKey::Escape | MenuKey::Enter => {
                self.open = false;
                self.query = String::new();
            },
            MenuKey::Backspace => {
                let n = self.query.unicode_len();
                if n == 0 {
                    self.open = false;
                } else {
                    self.query = crate::text::substring(self.query.as_str(), 0, n - 1);
                    proof {
                        assert(old(self).query@.subrange(0, n - 1) =~= old(self).query@.drop_last());
                    }
                }
            },
            MenuKey::Character(c) => {
                self.query.append(c.as_str());
            },
            MenuKey::Other => {},
        }
    }
}

/// Typing a character other than `/` into the open menu and then pressing
/// Backspace gives back the menu as it was.
pub proof fn law_type_then_backspace(m: SlashMenuV, key: MenuKey)
    requires
        m.open,
        key matches MenuKey::Character(c) && c@.len() == 1 && c@ != "/"@,
    ensures
        menu_after(menu_after(m, key, false), MenuKey::Backspace, false) == m,
{
    if let MenuKey::Character(c) = key {
        assert((m.query + c@).drop_last() =~= m.query);
    }
}

/// A closed menu has an empty query, and every key press keeps it so.
pub proof fn law_closed_menu_has_empty_query(m: SlashMenuV, key: MenuKey, has_selection: bool)
    requires
        !m.open ==> m.query.len() == 0,
    ensures
        !menu_after(m, key, has_selection).open ==> menu_after(m, key, has_selection).query.len() == 0,
{
}

} // verus!
