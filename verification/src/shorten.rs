//! Shortening text for display: chart labels and error payloads.
use vstd::prelude::*;

use crate::text::{push_char, substring};

verus! {

/// `label` cut to at most `max_len` characters: where it is longer, its
/// first `max_len - 1` characters and an ellipsis.
pub open spec fn truncated_label(label: Seq<char>, max_len: nat) -> Seq<char> {
    if label.len() <= max_len {
        label
    } else {
        let keep = if max_len == 0 {
            0
        } else {
            max_len - 1
        };
        label.take(keep).push('\u{2026}')
    }
}

/// Cuts a chart label to at most `max_len` characters, an ellipsis marking
/// the cut.
pub fn truncate_label(label: &str, max_len: usize) -> (r: String)
    ensures
        r@ == truncated_label(label@, max_len as nat),
{
    let n = label.unicode_len();
    if n <= max_len {
        String::from_str(label)
    } else {
        let keep = max_len.saturating_sub(1);
        let mut s = substring(label, 0, keep);
        push_char(&mut s, '\u{2026}');
        proof {
            assert(label@.subrange(0, keep as int) == label@.take(keep as int));
        }
        s
    }
}

/// Cuts `input` to its first `limit` characters and an ellipsis where it is
/// longer, and tells whether it did.
pub fn truncate(input: &str, limit: usize) -> (r: (String, bool))
    ensures
        r.1 == (input@.len() > limit),
        r.1 ==> r.0@ == input@.take(limit as int).push('\u{2026}'),
        !r.1 ==> r.0@ == input@,
{
    let n = input.unicode_len();
    if n <= limit {
        (String::from_str(input), false)
    } else {
        let mut s = substring(input, 0, limit);
        push_char(&mut s, '\u{2026}');
        proof {
            assert(input@.subrange(0, limit as int) == input@.take(limit as int));
        }
        (s, true)
    }
}

} // verus!
