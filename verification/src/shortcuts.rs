//! Keyboard shortcuts: key combinations, the actions they trigger and a
//! registry that maps one to the other.
use vstd::prelude::*;

use crate::escape::u32_to_decimal;

verus! {

/// Names what `str::to_lowercase` returns for a text.
pub uninterp spec fn lowercase(s: Seq<char>) -> Seq<char>;

/// Names what `str::to_uppercase` returns for a text.
pub uninterp spec fn uppercase(s: Seq<char>) -> Seq<char>;

/// Calls `str::to_lowercase`. Its result, the Unicode lower-case mapping of
/// each character, is a function of the text alone; it is named, not spelled out.
#[verifier::external_body]
pub(crate) fn to_lower(s: &str) -> (r: String)
    ensures
        r@ == lowercase(s@),
{
    s.to_lowercase()
}

/// Calls `str::to_uppercase`. Its result, the Unicode upper-case mapping of
/// each character, is a function of the text alone; it is named, not spelled out.
#[verifier::external_body]
pub(crate) fn to_upper(s: &str) -> (r: String)
    ensures
        r@ == uppercase(s@),
{
    s.to_uppercase()
}

/// A key combination: a key and the modifiers held with it.
#[derive(Debug, PartialEq, Eq, Hash)]
pub struct Shortcut {
    pub key: String,
    pub ctrl: bool,
    pub shift: bool,
    pub alt: bool,
    pub meta: bool,
}

/// Model of a shortcut.
pub struct ShortcutV {
    pub key: Seq<char>,
    pub ctrl: bool,
    pub shift: bool,
    pub alt: bool,
    pub meta: bool,
}

impl View for Shortcut {
    type V = ShortcutV;

    open spec fn view(&self) -> ShortcutV {
        ShortcutV {
            key: self.key@,
            ctrl: self.ctrl,
            shift: self.shift,
            alt: self.alt,
            meta: self.meta,
        }
    }
}

impl Clone for Shortcut {
    fn clone(&self) -> (r: Self)
        ensures
            r@ == self@,
    {
        Shortcut {
            key: self.key.clone(),
            ctrl: self.ctrl,
            shift: self.shift,
            alt: self.alt,
            meta: self.meta,
        }
    }
}

impl Shortcut {
    /// The key alone, with no modifier.
    pub fn new(key: String) -> (r: Self)
        ensures
            r@ == (ShortcutV { key: key@, ctrl: false, shift: false, alt: false, meta: false }),
    {
        Shortcut { key, ctrl: false, shift: false, alt: false, meta: false }
    }

    /// The same combination with Ctrl held.
    pub fn ctrl(self) -> (r: Self)
        ensures
            r@ == (ShortcutV { ctrl: true, ..self@ }),
    {
        let mut s = self;
        s.ctrl = true;
        s
    }

    /// The same combination with Shift held.
    pub fn shift(self) -> (r: Self)
        ensures
            r@ == (ShortcutV { shift: true, ..self@ }),
    {
        let mut s = self;
        s.shift = true;
        s
    }

    /// The same combination with Alt held.
    pub fn alt(self) -> (r: Self)
        ensures
            r@ == (ShortcutV { alt: true, ..self@ }),
    {
        let mut s = self;
        s.alt = true;
        s
    }

    /// The same combination with Meta held.
    pub fn meta(self) -> (r: Self)
        ensures
            r@ == (ShortcutV { meta: true, ..self@ }),
    {
        let mut s = self;
        s.meta = true;
        s
    }

    /// True when a key press matches the combination: the key names agree
    /// once both are lower-cased, and each modifier is held exactly when the
    /// combination asks for it. `key` is the text of a character key, or the
    /// name of any other key.
    pub fn matches(&self, key: &str, ctrl: bool, shift: bool, alt: bool, meta: bool) -> (r: bool)
        ensures
            r == shortcut_matches(self@, key@, ctrl, shift, alt, meta),
    {
        let a = to_lower(key);
        let b = to_lower(self.key.as_str());
        a == b && ctrl == self.ctrl && shift == self.shift && alt == self.alt && meta == self.meta
    }
}

/// The spec form of `Shortcut::matches`.
pub open spec fn shortcut_matches(
    s: ShortcutV,
    key: Seq<char>,
    ctrl: bool,
    shift: bool,
    alt: bool,
    meta: bool,
) -> bool {
    lowercase(key) == lowercase(s.key) && ctrl == s.ctrl && shift == s.shift && alt == s.alt
        && meta == s.meta
}

/// Two shortcuts are the same combination.
fn same_shortcut(a: &Shortcut, b: &Shortcut) -> (r: bool)
    ensures
        r == (a@ == b@),
{
    a.key == b.key && a.ctrl == b.ctrl && a.shift == b.shift && a.alt == b.alt && a.meta == b.meta
}

/// What a shortcut does.
#[derive(Debug, Clone, Copy, PartialEq, Eq, Structural)]
pub enum ShortcutAction {
    ToggleBold,
    ToggleItalic,
    ToggleUnderline,
    ToggleStrike,
    ToggleCode,
    InsertLink,
    SetHeading(u8),
    SetParagraph,
    SetQuote,
    SetCodeBlock,
    InsertBulletList,
    InsertOrderedList,
    InsertTaskList,
    Undo,
    Redo,
    Save,
    Find,
    /// Move current block up
    MoveBlockUp,
    /// Move current block down
    MoveBlockDown,
}

impl ShortcutAction {
    /// A human-readable description of the action.
    pub fn description(&self) -> (r: &str)
        ensures
            r@ == action_description(*self),
    {
        match self {
            ShortcutAction::ToggleBold => "Toggle bold",
            ShortcutAction::ToggleItalic => "Toggle italic",
            ShortcutAction::ToggleUnderline => "Toggle underline",
            ShortcutAction::ToggleStrike => "Toggle strikethrough",
            ShortcutAction::ToggleCode => "Toggle inline code",
            ShortcutAction::InsertLink => "Insert link",
            ShortcutAction::SetHeading(level) => {
                if *level == 1 {
                    "Set heading 1"
                } else if *level == 2 {
                    "Set heading 2"
                } else if *level == 3 {
                    "Set heading 3"
                } else if *level == 4 {
                    "Set heading 4"
                } else if *level == 5 {
                    "Set heading 5"
                } else if *level == 6 {
                    "Set heading 6"
                } else {
                    "Set heading"
                }
            },
            ShortcutAction::SetParagraph => "Set paragraph",
            ShortcutAction::SetQuote => "Set quote",
            ShortcutAction::SetCodeBlock => "Set code block",
            ShortcutAction::InsertBulletList => "Insert bullet list",
            ShortcutAction::InsertOrderedList => "Insert numbered list",
            ShortcutAction::InsertTaskList => "Insert task list",
            ShortcutAction::Undo => "Undo",
            ShortcutAction::Redo => "Redo",
            ShortcutAction::Save => "Save",
            ShortcutAction::Find => "Find",
            ShortcutAction::MoveBlockUp => "Move block up",
            ShortcutAction::MoveBlockDown => "Move block down",
        }
    }
}

/// The description of an action.
pub open spec fn action_description(a: ShortcutAction) -> Seq<char> {
    match a {
        ShortcutAction::ToggleBold => "Toggle bold"@,
        ShortcutAction::ToggleItalic => "Toggle italic"@,
        ShortcutAction::ToggleUnderline => "Toggle underline"@,
        ShortcutAction::ToggleStrike => "Toggle strikethrough"@,
        ShortcutAction::ToggleCode => "Toggle inline code"@,
        ShortcutAction::InsertLink => "Insert link"@,
        ShortcutAction::SetHeading(level) => if level == 1 {
            "Set heading 1"@
        } else if level == 2 {
            "Set heading 2"@
        } else if level == 3 {
            "Set heading 3"@
        } else if level == 4 {
            "Set heading 4"@
        } else if level == 5 {
            "Set heading 5"@
        } else if level == 6 {
            "Set heading 6"@
        } else {
            "Set heading"@
        },
        ShortcutAction::SetParagraph => "Set paragraph"@,
        ShortcutAction::SetQuote => "Set quote"@,
        ShortcutAction::SetCodeBlock => "Set code block"@,
        ShortcutAction::InsertBulletList => "Insert bullet list"@,
        ShortcutAction::InsertOrderedList => "Insert numbered list"@,
        ShortcutAction::InsertTaskList => "Insert task list"@,
        ShortcutAction::Undo => "Undo"@,
        ShortcutAction::Redo => "Redo"@,
        ShortcutAction::Save => "Save"@,
        ShortcutAction::Find => "Find"@,
        ShortcutAction::MoveBlockUp => "Move block up"@,
        ShortcutAction::MoveBlockDown => "Move block down"@,
    }
}

// ---------------------------------------------------------------------------
// The registry
// ---------------------------------------------------------------------------

/// The shortcuts in use and their actions. Each combination appears at most
/// once; the entries are kept in the order they were first registered.
pub struct ShortcutRegistry {
    shortcuts: Vec<(Shortcut, ShortcutAction)>,
}

/// The map that a list of entries describes, a later entry for a
/// combination replacing an earlier one.
pub open spec fn entries_map(s: Seq<(Shortcut, ShortcutAction)>) -> Map<ShortcutV, ShortcutAction>
    decreases s.len(),
{
    if s.len() == 0 {
        Map::empty()
    } else {
        entries_map(s.drop_last()).insert(s.last().0@, s.last().1)
    }
}

/// No combination appears twice among the entries.
pub open spec fn distinct_keys(s: Seq<(Shortcut, ShortcutAction)>) -> bool {
    forall|i: int, j: int| 0 <= i < j < s.len() ==> #[trigger] s[i].0@ != #[trigger] s[j].0@
}

impl View for ShortcutRegistry {
    type V = Map<ShortcutV, ShortcutAction>;

    closed spec fn view(&self) -> Map<ShortcutV, ShortcutAction> {
        entries_map(self.shortcuts@)
    }
}

/// The combinations of a list of entries are exactly the keys of its map,
/// and each maps to its own action.
proof fn lemma_entries_map(s: Seq<(Shortcut, ShortcutAction)>)
    requires
        distinct_keys(s),
    ensures
        forall|k: ShortcutV|
            #[trigger] entries_map(s).contains_key(k) <==> exists|i: int|
                0 <= i < s.len() && #[trigger] s[i].0@ == k,
        forall|i: int| 0 <= i < s.len() ==> #[trigger] entries_map(s)[s[i].0@] == s[i].1,
        entries_map(s).dom().finite(),
        entries_map(s).dom().len() == s.len(),
    decreases s.len(),
{
    if s.len() > 0 {
        let t = s.drop_last();
        lemma_entries_map(t);
        assert forall|k: ShortcutV|
            #[trigger] entries_map(s).contains_key(k) <==> exists|i: int|
                0 <= i < s.len() && #[trigger] s[i].0@ == k by {
            if entries_map(s).contains_key(k) && k != s.last().0@ {
                let i = choose|i: int| 0 <= i < t.len() && #[trigger] t[i].0@ == k;
                assert(s[i].0@ == k);
            }
            if exists|i: int| 0 <= i < s.len() && #[trigger] s[i].0@ == k {
                let i = choose|i: int| 0 <= i < s.len() && #[trigger] s[i].0@ == k;
                if i < s.len() - 1 {
                    assert(t[i].0@ == k);
                }
            }
        }
        assert forall|i: int| 0 <= i < s.len() implies #[trigger] entries_map(s)[s[i].0@]
            == s[i].1 by {
            if i < s.len() - 1 {
                assert(t[i] == s[i]);
                assert(s[i].0@ != s.last().0@);
            }
        }
        assert(!entries_map(t).contains_key(s.last().0@)) by {
            if entries_map(t).contains_key(s.last().0@) {
                let i = choose|i: int| 0 <= i < t.len() && #[trigger] t[i].0@ == s.last().0@;
                assert(s[i].0@ == s[s.len() - 1].0@);
            }
        }
    }
}

/// Replacing the action of entry `i` changes the map at that combination only.
proof fn lemma_entries_update(s: Seq<(Shortcut, ShortcutAction)>, i: int, e: (Shortcut, ShortcutAction))
    requires
        distinct_keys(s),
        0 <= i < s.len(),
        e.0@ == s[i].0@,
    ensures
        entries_map(s.update(i, e)) == entries_map(s).insert(e.0@, e.1),
        distinct_keys(s.update(i, e)),
{
    let u = s.update(i, e);
    assert(distinct_keys(u)) by {
        assert forall|a: int, b: int| 0 <= a < b < u.len() implies #[trigger] u[a].0@
            != #[trigger] u[b].0@ by {
            assert(s[a].0@ != s[b].0@);
        }
    }
    lemma_entries_map(s);
    lemma_entries_map(u);
    assert forall|k: ShortcutV| #[trigger] entries_map(u).contains_key(k) <==> entries_map(
        s,
    ).insert(e.0@, e.1).contains_key(k) by {
        if exists|j: int| 0 <= j < s.len() && #[trigger] s[j].0@ == k {
            let j = choose|j: int| 0 <= j < s.len() && #[trigger] s[j].0@ == k;
            assert(u[j].0@ == k);
        }
        if exists|j: int| 0 <= j < u.len() && #[trigger] u[j].0@ == k {
            let j = choose|j: int| 0 <= j < u.len() && #[trigger] u[j].0@ == k;
            assert(s[j].0@ == k);
        }
    }
    assert forall|k: ShortcutV| #[trigger] entries_map(u).contains_key(k) implies entries_map(u)[k]
        == entries_map(s).insert(e.0@, e.1)[k] by {
        let j = choose|j: int| 0 <= j < u.len() && #[trigger] u[j].0@ == k;
        assert(entries_map(u)[u[j].0@] == u[j].1);
        if j != i {
            assert(entries_map(s)[s[j].0@] == s[j].1);
        }
    }
    assert(entries_map(u) =~= entries_map(s).insert(e.0@, e.1));
}

/// Removing entry `i` removes its combination from the map.
proof fn lemma_entries_remove(s: Seq<(Shortcut, ShortcutAction)>, i: int)
    requires
        distinct_keys(s),
        0 <= i < s.len(),
    ensures
        entries_map(s.remove(i)) == entries_map(s).remove(s[i].0@),
        distinct_keys(s.remove(i)),
{
    let u = s.remove(i);
    assert(distinct_keys(u)) by {
        assert forall|a: int, b: int| 0 <= a < b < u.len() implies #[trigger] u[a].0@
            != #[trigger] u[b].0@ by {
            let a2 = if a < i {
                a
            } else {
                a + 1
            };
            let b2 = if b < i {
                b
            } else {
                b + 1
            };
            assert(u[a] == s[a2]);
            assert(u[b] == s[b2]);
            assert(s[a2].0@ != s[b2].0@);
        }
    }
    lemma_entries_map(s);
    lemma_entries_map(u);
    let k0 = s[i].0@;
    assert forall|k: ShortcutV| #[trigger] entries_map(u).contains_key(k) <==> entries_map(
        s,
    ).remove(k0).contains_key(k) by {
        if exists|j: int| 0 <= j < s.len() && #[trigger] s[j].0@ == k {
            let j = choose|j: int| 0 <= j < s.len() && #[trigger] s[j].0@ == k;
            if j < i {
                assert(u[j].0@ == k);
            } else if j > i {
                assert(u[j - 1].0@ == k);
            }
        }
        if exists|j: int| 0 <= j < u.len() && #[trigger] u[j].0@ == k {
            let j = choose|j: int| 0 <= j < u.len() && #[trigger] u[j].0@ == k;
            let j2 = if j < i {
                j
            } else {
                j + 1
            };
            assert(s[j2].0@ == k);
            assert(j2 != i);
        }
    }
    assert forall|k: ShortcutV| #[trigger] entries_map(u).contains_key(k) implies entries_map(u)[k]
        == entries_map(s).remove(k0)[k] by {
        let j = choose|j: int| 0 <= j < u.len() && #[trigger] u[j].0@ == k;
        let j2 = if j < i {
            j
        } else {
            j + 1
        };
        assert(u[j] == s[j2]);
        assert(entries_map(u)[u[j].0@] == u[j].1);
        assert(entries_map(s)[s[j2].0@] == s[j2].1);
    }
    assert(entries_map(u) =~= entries_map(s).remove(k0));
}

/// Maps `shortcut` to `action` in a list of entries, replacing any action
/// it had; a new combination goes at the end.
fn register_entry(v: &mut Vec<(Shortcut, ShortcutAction)>, shortcut: Shortcut, action: ShortcutAction)
    requires
        distinct_keys(old(v)@),
    ensures
        distinct_keys(final(v)@),
        entries_map(final(v)@) == entries_map(old(v)@).insert(shortcut@, action),
{
    let mut i: usize = 0;
    while i < v.len()
        invariant
            i <= v@.len(),
            *v == *old(v),
            distinct_keys(v@),
            forall|j: int| 0 <= j < i ==> #[trigger] v@[j].0@ != shortcut@,
        decreases v@.len() - i,
    {
        if same_shortcut(&v[i].0, &shortcut) {
            proof {
                lemma_entries_update(v@, i as int, (shortcut, action));
            }
            v.set(i, (shortcut, action));
            return;
        }
        i = i + 1;
    }
    let ghost s = v@;
    v.push((shortcut, action));
    proof {
        assert(v@.drop_last() =~= s);
        assert(distinct_keys(v@)) by {
            assert forall|a: int, b: int|
                0 <= a < b < v@.len() implies #[trigger] v@[a].0@ != #[trigger] v@[b].0@ by {
                if b < s.len() {
                    assert(s[a].0@ != s[b].0@);
                }
            }
        }
    }
}

/// Removes `shortcut` and its action from a list of entries, if it is there.
fn unregister_entry(v: &mut Vec<(Shortcut, ShortcutAction)>, shortcut: &Shortcut)
    requires
        distinct_keys(old(v)@),
    ensures
        distinct_keys(final(v)@),
        entries_map(final(v)@) == entries_map(old(v)@).remove(shortcut@),
{
    let mut i: usize = 0;
    while i < v.len()
        invariant
            i <= v@.len(),
            *v == *old(v),
            distinct_keys(v@),
            forall|j: int| 0 <= j < i ==> #[trigger] v@[j].0@ != shortcut@,
        decreases v@.len() - i,
    {
        if same_shortcut(&v[i].0, shortcut) {
            proof {
                lemma_entries_remove(v@, i as int);
            }
            v.remove(i);
            return;
        }
        i = i + 1;
    }
    proof {
        lemma_entries_map(v@);
        assert(!entries_map(v@).contains_key(shortcut@));
        assert(entries_map(v@).remove(shortcut@) =~= entries_map(v@));
    }
}

impl ShortcutRegistry {
    /// The registry's invariant: no combination appears twice.
    #[verifier::type_invariant]
    closed spec fn keys_distinct(self) -> bool {
        distinct_keys(self.shortcuts@)
    }

    /// An empty registry.
    pub fn new() -> (r: Self)
        ensures
            r@ == Map::<ShortcutV, ShortcutAction>::empty(),
    {
        ShortcutRegistry { shortcuts: Vec::new() }
    }

    /// Maps `shortcut` to `action`, replacing any action it had.
    pub fn register(&mut self, shortcut: Shortcut, action: ShortcutAction)
        ensures
            final(self)@ == old(self)@.insert(shortcut@, action),
    {
        proof {
            use_type_invariant(&*self);
        }
        let mut entries: Vec<(Shortcut, ShortcutAction)> = Vec::new();
        std::mem::swap(&mut entries, &mut self.shortcuts);
        register_entry(&mut entries, shortcut, action);
        self.shortcuts = entries;
    }

    /// Removes `shortcut` and its action, if it is registered.
    pub fn unregister(&mut self, shortcut: &Shortcut)
        ensures
            final(self)@ == old(self)@.remove(shortcut@),
    {
        proof {
            use_type_invariant(&*self);
        }
        let mut entries: Vec<(Shortcut, ShortcutAction)> = Vec::new();
        std::mem::swap(&mut entries, &mut self.shortcuts);
        unregister_entry(&mut entries, shortcut);
        self.shortcuts = entries;
    }

    /// Number of registered shortcuts.
    pub fn len(&self) -> (r: usize)
        ensures
            r == self@.len(),
    {
        proof {
            use_type_invariant(self);
            lemma_entries_map(self.shortcuts@);
        }
        self.shortcuts.len()
    }

    /// True when no shortcut is registered.
    pub fn is_empty(&self) -> (r: bool)
        ensures
            r == (self@.len() == 0),
    {
        proof {
            use_type_invariant(self);
            lemma_entries_map(self.shortcuts@);
        }
        self.shortcuts.len() == 0
    }

    /// The action of a registered shortcut that matches a key press, if any.
    /// When several match, which one is returned is left open.
    pub fn find_action(&self, key: &str, ctrl: bool, shift: bool, alt: bool, meta: bool) -> (r:
        Option<ShortcutAction>)
        ensures
            match r {
                Some(a) => exists|s: ShortcutV|
                    #[trigger] self@.contains_key(s) && self@[s] == a && shortcut_matches(
                        s,
                        key@,
                        ctrl,
                        shift,
                        alt,
                        meta,
                    ),
                None => forall|s: ShortcutV|
                    #[trigger] self@.contains_key(s) ==> !shortcut_matches(
                        s,
                        key@,
                        ctrl,
                        shift,
                        alt,
                        meta,
                    ),
            },
    {
        proof {
            use_type_invariant(self);
            lemma_entries_map(self.shortcuts@);
        }
        let mut i: usize = 0;
        while i < self.shortcuts.len()
            invariant
                i <= self.shortcuts@.len(),
                distinct_keys(self.shortcuts@),
                forall|j: int|
                    0 <= j < i ==> !shortcut_matches(
                        #[trigger] self.shortcuts@[j].0@,
                        key@,
                        ctrl,
                        shift,
                        alt,
                        meta,
                    ),
            decreases self.shortcuts@.len() - i,
        {
            if self.shortcuts[i].0.matches(key, ctrl, shift, alt, meta) {
                proof {
                    lemma_entries_map(self.shortcuts@);
                    assert(self@.contains_key(self.shortcuts@[i as int].0@));
                }
                return Some(self.shortcuts[i].1);
            }
            i = i + 1;
        }
        None
    }

    /// Every registered shortcut with its action, each once.
    pub fn get_all(&self) -> (r: Vec<(Shortcut, ShortcutAction)>)
        ensures
            distinct_keys(r@),
            entries_map(r@) == self@,
    {
        proof {
            use_type_invariant(self);
        }
        let mut r: Vec<(Shortcut, ShortcutAction)> = Vec::new();
        let mut i: usize = 0;
        while i < self.shortcuts.len()
            invariant
                i <= self.shortcuts@.len(),
                r@.len() == i,
                forall|k: int|
                    0 <= k < i ==> #[trigger] r@[k].0@ == self.shortcuts@[k].0@ && r@[k].1
                        == self.shortcuts@[k].1,
            decreases self.shortcuts@.len() - i,
        {
            r.push((self.shortcuts[i].0.clone(), self.shortcuts[i].1));
            i = i + 1;
        }
        proof {
            lemma_same_map(r@, self.shortcuts@);
        }
        r
    }
}

/// Entry lists that agree on every combination and action describe the same map.
proof fn lemma_same_map(a: Seq<(Shortcut, ShortcutAction)>, b: Seq<(Shortcut, ShortcutAction)>)
    requires
        a.len() == b.len(),
        forall|k: int| 0 <= k < a.len() ==> #[trigger] a[k].0@ == b[k].0@ && a[k].1 == b[k].1,
    ensures
        entries_map(a) == entries_map(b),
        distinct_keys(b) ==> distinct_keys(a),
    decreases a.len(),
{
    if a.len() > 0 {
        lemma_same_map(a.drop_last(), b.drop_last());
    }
    assert(distinct_keys(b) ==> distinct_keys(a)) by {
        if distinct_keys(b) {
            assert forall|i: int, j: int| 0 <= i < j < a.len() implies #[trigger] a[i].0@
                != #[trigger] a[j].0@ by {
                assert(b[i].0@ != b[j].0@);
            }
        }
    }
}

/// The combination of `key` with the given modifiers.
pub open spec fn combo(key: Seq<char>, ctrl: bool, shift: bool, alt: bool) -> ShortcutV {
    ShortcutV { key, ctrl, shift, alt, meta: false }
}

/// The default shortcuts.
pub open spec fn default_map() -> Map<ShortcutV, ShortcutAction> {
    Map::empty().insert(combo("b"@, true, false, false), ShortcutAction::ToggleBold).insert(
        combo("i"@, true, false, false),
        ShortcutAction::ToggleItalic,
    ).insert(combo("u"@, true, false, false), ShortcutAction::ToggleUnderline).insert(
        combo("d"@, true, true, false),
        ShortcutAction::ToggleStrike,
    ).insert(combo("e"@, true, false, false), ShortcutAction::ToggleCode).insert(
        combo("k"@, true, false, false),
        ShortcutAction::InsertLink,
    ).insert(combo(decimal_u8(1), true, false, true), ShortcutAction::SetHeading(1)).insert(
        combo(decimal_u8(2), true, false, true),
        ShortcutAction::SetHeading(2),
    ).insert(combo(decimal_u8(3), true, false, true), ShortcutAction::SetHeading(3)).insert(
        combo(decimal_u8(4), true, false, true),
        ShortcutAction::SetHeading(4),
    ).insert(combo(decimal_u8(5), true, false, true), ShortcutAction::SetHeading(5)).insert(
        combo(decimal_u8(6), true, false, true),
        ShortcutAction::SetHeading(6),
    ).insert(combo("0"@, true, false, true), ShortcutAction::SetParagraph).insert(
        combo("q"@, true, true, false),
        ShortcutAction::SetQuote,
    ).insert(combo("c"@, true, false, true), ShortcutAction::SetCodeBlock).insert(
        combo("l"@, true, true, false),
        ShortcutAction::InsertBulletList,
    ).insert(combo("o"@, true, true, false), ShortcutAction::InsertOrderedList).insert(
        combo("t"@, true, true, false),
        ShortcutAction::InsertTaskList,
    ).insert(combo("z"@, true, false, false), ShortcutAction::Undo).insert(
        combo("z"@, true, true, false),
        ShortcutAction::Redo,
    ).insert(combo("y"@, true, false, false), ShortcutAction::Redo).insert(
        combo("s"@, true, false, false),
        ShortcutAction::Save,
    ).insert(combo("f"@, true, false, false), ShortcutAction::Find).insert(
        combo("ArrowUp"@, false, false, true),
        ShortcutAction::MoveBlockUp,
    ).insert(combo("ArrowDown"@, false, false, true), ShortcutAction::MoveBlockDown)
}

/// The decimal form of a small number.
pub open spec fn decimal_u8(n: u8) -> Seq<char> {
    crate::escape::decimal(n as nat)
}

/// Registers the combination of `key` with the given modifiers.
fn register_combo(
    r: &mut ShortcutRegistry,
    key: String,
    ctrl: bool,
    shift: bool,
    alt: bool,
    action: ShortcutAction,
)
    ensures
        final(r)@ == old(r)@.insert(combo(key@, ctrl, shift, alt), action),
{
    let mut s = Shortcut::new(key);
    if ctrl {
        s = s.ctrl();
    }
    if shift {
        s = s.shift();
    }
    if alt {
        s = s.alt();
    }
    r.register(s, action);
}

impl ShortcutRegistry {
    /// A registry holding the default shortcuts.
    pub fn with_defaults() -> (r: Self)
        ensures
            r@ == default_map(),
    {
        let mut r = ShortcutRegistry::new();
        register_combo(&mut r, String::from_str("b"), true, false, false, ShortcutAction::ToggleBold);
        register_combo(&mut r, String::from_str("i"), true, false, false, ShortcutAction::ToggleItalic);
        register_combo(
            &mut r,
            String::from_str("u"),
            true,
            false,
            false,
            ShortcutAction::ToggleUnderline,
        );
        register_combo(&mut r, String::from_str("d"), true, true, false, ShortcutAction::ToggleStrike);
        register_combo(&mut r, String::from_str("e"), true, false, false, ShortcutAction::ToggleCode);
        register_combo(&mut r, String::from_str("k"), true, false, false, ShortcutAction::InsertLink);
        let mut level: u8 = 1;
        while level <= 6
            invariant
                1 <= level <= 7,
                    r@ == heading_defaults(level),
            decreases 7 - level,
        {
            register_combo(
                &mut r,
                u32_to_decimal(level as u32),
                true,
                false,
                true,
                ShortcutAction::SetHeading(level),
            );
            level = level + 1;
        }
        proof {
            reveal_with_fuel(heading_defaults, 8);
        }
        register_combo(&mut r, String::from_str("0"), true, false, true, ShortcutAction::SetParagraph);
        register_combo(&mut r, String::from_str("q"), true, true, false, ShortcutAction::SetQuote);
        register_combo(&mut r, String::from_str("c"), true, false, true, ShortcutAction::SetCodeBlock);
        register_combo(
            &mut r,
            String::from_str("l"),
            true,
            true,
            false,
            ShortcutAction::InsertBulletList,
        );
        register_combo(
            &mut r,
            String::from_str("o"),
            true,
            true,
            false,
            ShortcutAction::InsertOrderedList,
        );
        register_combo(
            &mut r,
            String::from_str("t"),
            true,
            true,
            false,
            ShortcutAction::InsertTaskList,
        );
        register_combo(&mut r, String::from_str("z"), true, false, false, ShortcutAction::Undo);
        register_combo(&mut r, String::from_str("z"), true, true, false, ShortcutAction::Redo);
        register_combo(&mut r, String::from_str("y"), true, false, false, ShortcutAction::Redo);
        register_combo(&mut r, String::from_str("s"), true, false, false, ShortcutAction::Save);
        register_combo(&mut r, String::from_str("f"), true, false, false, ShortcutAction::Find);
        register_combo(
            &mut r,
            String::from_str("ArrowUp"),
            false,
            false,
            true,
            ShortcutAction::MoveBlockUp,
        );
        register_combo(
            &mut r,
            String::from_str("ArrowDown"),
            false,
            false,
            true,
            ShortcutAction::MoveBlockDown,
        );
        r
    }
}

/// The registry after the formatting and link defaults and the heading
/// shortcuts below level `level`.
pub open spec fn heading_defaults(level: u8) -> Map<ShortcutV, ShortcutAction>
    decreases level,
{
    if level <= 1 {
        Map::empty().insert(combo("b"@, true, false, false), ShortcutAction::ToggleBold).insert(
            combo("i"@, true, false, false),
            ShortcutAction::ToggleItalic,
        ).insert(combo("u"@, true, false, false), ShortcutAction::ToggleUnderline).insert(
            combo("d"@, true, true, false),
            ShortcutAction::ToggleStrike,
        ).insert(combo("e"@, true, false, false), ShortcutAction::ToggleCode).insert(
            combo("k"@, true, false, false),
            ShortcutAction::InsertLink,
        )
    } else {
        heading_defaults((level - 1) as u8).insert(
            combo(decimal_u8((level - 1) as u8), true, false, true),
            ShortcutAction::SetHeading((level - 1) as u8),
        )
    }
}

impl Default for ShortcutRegistry {
    fn default() -> (r: Self)
        ensures
            r@ == default_map(),
    {
        Self::with_defaults()
    }
}

/// The parts of a formatted shortcut, joined by `+`: the modifiers held, in
/// the order Ctrl, Alt, Shift, Cmd, then the key in upper case.
pub open spec fn formatted_shortcut(s: ShortcutV) -> Seq<char> {
    (if s.ctrl {
        "Ctrl+"@
    } else {
        ""@
    }) + (if s.alt {
        "Alt+"@
    } else {
        ""@
    }) + (if s.shift {
        "Shift+"@
    } else {
        ""@
    }) + (if s.meta {
        "Cmd+"@
    } else {
        ""@
    }) + uppercase(s.key)
}

/// Formats a shortcut as a human-readable string such as `Ctrl+Alt+1`.
pub fn format_shortcut(shortcut: &Shortcut) -> (r: String)
    ensures
        r@ == formatted_shortcut(shortcut@),
{
    let mut out = String::new();
    if shortcut.ctrl {
        out.append("Ctrl+");
    } else {
        out.append("");
    }
    if shortcut.alt {
        out.append("Alt+");
    } else {
        out.append("");
    }
    if shortcut.shift {
        out.append("Shift+");
    } else {
        out.append("");
    }
    if shortcut.meta {
        out.append("Cmd+");
    } else {
        out.append("");
    }
    out.append(to_upper(shortcut.key.as_str()).as_str());
    proof {
        assert(Seq::<char>::empty() + formatted_shortcut(shortcut@) == formatted_shortcut(
            shortcut@,
        ));
    }
    out
}

} // verus!

verus! {

/// Registering a combination that was not registered and then removing it
/// gives back the registry one started with.
pub proof fn law_register_then_unregister(
    m: Map<ShortcutV, ShortcutAction>,
    s: ShortcutV,
    a: ShortcutAction,
)
    requires
        !m.contains_key(s),
    ensures
        m.insert(s, a).remove(s) == m,
{
    assert(m.insert(s, a).remove(s) =~= m);
}

/// After registering a combination, the registry maps it to the new action
/// and leaves every other combination as it was.
pub proof fn law_register_overrides(
    m: Map<ShortcutV, ShortcutAction>,
    s: ShortcutV,
    a: ShortcutAction,
    t: ShortcutV,
)
    ensures
        m.insert(s, a)[s] == a,
        t != s ==> (m.insert(s, a).contains_key(t) == m.contains_key(t) && (m.contains_key(t)
            ==> m.insert(s, a)[t] == m[t])),
{
}

} // verus!

verus! {

/// A key press matches a shortcut only with exactly the shortcut's
/// modifiers: Ctrl, Shift, Alt and Meta each held where the shortcut holds
/// it and released where it does not, and the key the same once lower-cased.
pub proof fn law_match_needs_same_modifiers(
    s: ShortcutV,
    key: Seq<char>,
    ctrl: bool,
    shift: bool,
    alt: bool,
    meta: bool,
)
    ensures
        shortcut_matches(s, key, ctrl, shift, alt, meta) ==> s.ctrl == ctrl && s.shift == shift
            && s.alt == alt && s.meta == meta && lowercase(key) == lowercase(s.key),
        s.ctrl != ctrl || s.shift != shift || s.alt != alt || s.meta != meta ==> !shortcut_matches(
            s,
            key,
            ctrl,
            shift,
            alt,
            meta,
        ),
{
}

/// With the default shortcuts, Ctrl+Shift+Z is Redo: its own entry maps to
/// Redo and matches it, and no entry without Shift (Ctrl+Z, Undo, among them)
/// matches it; every entry it matches holds Ctrl and Shift alone.
pub proof fn law_defaults_ctrl_shift_z(s: ShortcutV)
    ensures
        default_map().contains_key(combo("z"@, true, true, false)),
        default_map()[combo("z"@, true, true, false)] == ShortcutAction::Redo,
        shortcut_matches(combo("z"@, true, true, false), "z"@, true, true, false, false),
        shortcut_matches(s, "z"@, true, true, false, false) ==> s.ctrl && s.shift && !s.alt && !s.meta,
        !shortcut_matches(combo("z"@, true, false, false), "z"@, true, true, false, false),
{
    reveal_strlit("z");
    reveal_strlit("y");
    reveal_strlit("s");
    reveal_strlit("f");
    assert("z"@ != "y"@) by {
        assert("z"@[0int] != "y"@[0int]);
    }
    assert(combo("z"@, true, true, false) != combo("y"@, true, false, false));
}

} // verus!
