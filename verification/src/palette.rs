//! Keyboard navigation of the command palette: which item a key selects.
use vstd::prelude::*;

use crate::text::text_eq;

verus! {

/// What a key press in the palette does.
#[derive(Clone, Copy, Debug, PartialEq, Eq, Structural)]
pub enum KeyAction {
    /// The key is not the palette's; its default is not prevented.
    Ignore,
    /// Select the item at this position of the visible items.
    Select(usize),
    /// Activate the selected item.
    Activate,
}

/// The position after moving by `change` from `current` among `len`
/// items: with `looping` it wraps round at either end, else it stops there;
/// where nothing is selected, moving down selects the first and moving up
/// the last.
pub open spec fn moved_index(current: Option<usize>, len: nat, change: int, looping: bool) -> Option<int> {
    if len == 0 {
        None
    } else {
        match current {
            Some(idx) => {
                let n = idx + change;
                Some(
                    if looping {
                        if n < 0 {
                            len - 1
                        } else if n >= len {
                            0
                        } else {
                            n
                        }
                    } else if n < 0 {
                        0
                    } else if n > len - 1 {
                        len - 1
                    } else {
                        n
                    },
                )
            },
            None => Some(
                if change > 0 {
                    0
                } else {
                    len - 1
                },
            ),
        }
    }
}

/// The position after moving by `change` from `current` among `len` items.
pub fn new_index(current: Option<usize>, len: usize, change: i32, looping: bool) -> (r: Option<usize>)
    requires
        len < 0x8000_0000,
        current matches Some(i) ==> i < 0x8000_0000,
        -1 <= change <= 1,
    ensures
        match r {
            Some(i) => moved_index(current, len as nat, change as int, looping) == Some(i as int),
            None => moved_index(current, len as nat, change as int, looping) is None,
        },
{
    if len == 0 {
        return None;
    }
    match current {
        Some(idx) => {
            let n: i64 = idx as i64 + change as i64;
            let last: i64 = len as i64 - 1;
            let m: i64 = if looping {
                if n < 0 {
                    last
                } else if n >= len as i64 {
                    0
                } else {
                    n
                }
            } else if n < 0 {
                0
            } else if n > last {
                last
            } else {
                n
            };
            Some(m as usize)
        },
        None => {
            if change > 0 {
                Some(0)
            } else {
                Some(len - 1)
            }
        },
    }
}

/// The action for `key` (with Ctrl held if `ctrl`) among `len` visible
/// items, `current` selected: the arrows move the selection, as do Ctrl+N,
/// Ctrl+J (down) and Ctrl+P, Ctrl+K (up) where `vim` keys are on; Home and
/// End select the first and last item; Enter activates. With no visible
/// item every key is ignored.
pub open spec fn key_action_spec(
    key: Seq<char>,
    ctrl: bool,
    vim: bool,
    current: Option<usize>,
    len: nat,
    looping: bool,
) -> KeyAction {
    let down = key == "ArrowDown"@ || (vim && ctrl && (key == "n"@ || key == "j"@));
    let up = key == "ArrowUp"@ || (vim && ctrl && (key == "p"@ || key == "k"@));
    if len == 0 {
        KeyAction::Ignore
    } else if down {
        KeyAction::Select(moved_index(current, len, 1, looping)->0 as usize)
    } else if up {
        KeyAction::Select(moved_index(current, len, -1, looping)->0 as usize)
    } else if key == "Home"@ {
        KeyAction::Select(0)
    } else if key == "End"@ {
        KeyAction::Select((len - 1) as usize)
    } else if key == "Enter"@ {
        KeyAction::Activate
    } else {
        KeyAction::Ignore
    }
}

/// The action for a key press in the palette.
pub fn key_action(
    key: &str,
    ctrl: bool,
    vim: bool,
    current: Option<usize>,
    len: usize,
    looping: bool,
) -> (r: KeyAction)
    requires
        len < 0x8000_0000,
        current matches Some(i) ==> i < 0x8000_0000,
    ensures
        r == key_action_spec(key@, ctrl, vim, current, len as nat, looping),
{
    if len == 0 {
        return KeyAction::Ignore;
    }
    let down = text_eq(key, "ArrowDown") || (vim && ctrl && (text_eq(key, "n") || text_eq(key, "j")));
    let up = text_eq(key, "ArrowUp") || (vim && ctrl && (text_eq(key, "p") || text_eq(key, "k")));
    if down {
        match new_index(current, len, 1, looping) {
            Some(i) => KeyAction::Select(i),
            None => KeyAction::Ignore,
        }
    } else if up {
        match new_index(current, len, -1, looping) {
            Some(i) => KeyAction::Select(i),
            None => KeyAction::Ignore,
        }
    } else if text_eq(key, "Home") {
        KeyAction::Select(0)
    } else if text_eq(key, "End") {
        KeyAction::Select(len - 1)
    } else if text_eq(key, "Enter") {
        KeyAction::Activate
    } else {
        KeyAction::Ignore
    }
}

/// Moving keeps the selection on an item: among `len` items the new
/// position is below `len`.
pub proof fn law_move_stays_in_list(current: Option<usize>, len: nat, change: int, looping: bool)
    requires
        len > 0,
        -1 <= change <= 1,
    ensures
        moved_index(current, len, change, looping) matches Some(i) && 0 <= i < len,
{
}

/// With looping on, moving down and then up from an item comes back to it.
pub proof fn law_loop_down_up(idx: usize, len: nat)
    requires
        idx < len <= usize::MAX,
    ensures
        moved_index(Some((moved_index(Some(idx), len, 1, true)->0) as usize), len, -1, true) == Some(
            idx as int,
        ),
{
}

} // verus!
