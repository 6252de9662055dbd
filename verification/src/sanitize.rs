//! URL and color checks applied before values are written into HTML
//! attributes.
use vstd::prelude::*;

use crate::escape::{escape, escape_html};

verus! {

/// ASCII upper-case letters become lower-case; every other character stays.
pub open spec fn ascii_lower(c: char) -> char {
    if 'A' <= c && c <= 'Z' {
        ((c as u32) + 32) as char
    } else {
        c
    }
}

/// Lower-cases one ASCII letter.
pub fn ascii_lower_char(c: char) -> (r: char)
    ensures
        r == ascii_lower(c),
{
    if 'A' <= c && c <= 'Z' {
        let b = (c as u8) + 32;
        b as char
    } else {
        c
    }
}

/// `s` starts with `p`, letters compared without regard to ASCII case
/// (`p` is given in lower case).
pub open spec fn starts_with_ci(s: Seq<char>, p: Seq<char>) -> bool {
    p.len() <= s.len() && forall|i: int| 0 <= i < p.len() ==> ascii_lower(#[trigger] s[i]) == p[i]
}

/// Checks `starts_with_ci`.
pub fn has_prefix_ci(s: &str, p: &str) -> (r: bool)
    ensures
        r == starts_with_ci(s@, p@),
{
    let n = s.unicode_len();
    let m = p.unicode_len();
    if m > n {
        return false;
    }
    let mut i: usize = 0;
    while i < m
        invariant
            m == p@.len(),
            n == s@.len(),
            m <= n,
            i <= m,
            forall|k: int| 0 <= k < i ==> ascii_lower(#[trigger] s@[k]) == p@[k],
        decreases m - i,
    {
        if ascii_lower_char(s.get_char(i)) != p.get_char(i) {
            return false;
        }
        i = i + 1;
    }
    true
}

/// Characters that end the scheme part of a URL: a `:` after one of them is
/// not a scheme separator.
pub open spec fn ends_scheme_part(c: char) -> bool {
    c == '/' || c == '?' || c == '#'
}

/// `s` names a scheme: a `:` comes before any `/`, `?` or `#`.
pub open spec fn has_scheme(s: Seq<char>) -> bool {
    exists|i: int|
        0 <= i < s.len() && s[i] == ':' && forall|j: int|
            0 <= j < i ==> !ends_scheme_part(#[trigger] s[j])
}

/// A URL that may be written into a page: a relative one, or one with the
/// `http`, `https` or `mailto` scheme.
pub open spec fn url_allowed(s: Seq<char>) -> bool {
    ||| !has_scheme(s)
    ||| starts_with_ci(s, "http:"@)
    ||| starts_with_ci(s, "https:"@)
    ||| starts_with_ci(s, "mailto:"@)
}

/// The spec form of `sanitize_url`.
pub open spec fn sanitized_url(s: Seq<char>) -> Option<Seq<char>> {
    if url_allowed(s) {
        Some(escape(s))
    } else {
        None
    }
}

/// Decides whether `s` names a scheme.
fn scheme_present(s: &str) -> (r: bool)
    ensures
        r == has_scheme(s@),
{
    let n = s.unicode_len();
    let mut i: usize = 0;
    while i < n
        invariant
            n == s@.len(),
            i <= n,
            forall|j: int| 0 <= j < i ==> !ends_scheme_part(#[trigger] s@[j]) && s@[j] != ':',
        decreases n - i,
    {
        let c = s.get_char(i);
        if c == ':' {
            return true;
        }
        if c == '/' || c == '?' || c == '#' {
            proof {
                assert forall|k: int|
                    0 <= k < s@.len() && s@[k] == ':' implies !forall|j: int|
                    0 <= j < k ==> !ends_scheme_part(#[trigger] s@[j]) by {
                    assert(k > i);
                    assert(ends_scheme_part(s@[i as int]));
                }
            }
            return false;
        }
        i = i + 1;
    }
    false
}

/// Keeps a URL that is relative or uses the `http`, `https` or `mailto`
/// scheme (compared without regard to case), escaped for use inside a
/// double-quoted attribute; refuses any other URL (such as a `javascript:` one).
pub fn sanitize_url(url: &str) -> (r: Option<String>)
    ensures
        match r {
            Some(s) => sanitized_url(url@) == Some(s@),
            None => sanitized_url(url@) is None,
        },
{
    let allowed = !scheme_present(url) || has_prefix_ci(url, "http:") || has_prefix_ci(
        url,
        "https:",
    ) || has_prefix_ci(url, "mailto:");
    if allowed {
        Some(escape_html(url))
    } else {
        None
    }
}

/// A hexadecimal digit.
pub open spec fn is_hex_digit(c: char) -> bool {
    ('0' <= c && c <= '9') || ('a' <= c && c <= 'f') || ('A' <= c && c <= 'F')
}

/// An ASCII letter.
pub open spec fn is_ascii_letter(c: char) -> bool {
    ('a' <= c && c <= 'z') || ('A' <= c && c <= 'Z')
}

/// A color that may be written into a `style` attribute: `#` followed by
/// 3, 4, 6 or 8 hexadecimal digits, or a color name of 1 to 20 ASCII letters.
pub open spec fn color_safe(s: Seq<char>) -> bool {
    ||| {
        &&& (s.len() == 4 || s.len() == 5 || s.len() == 7 || s.len() == 9)
        &&& s[0] == '#'
        &&& forall|i: int| 1 <= i < s.len() ==> is_hex_digit(#[trigger] s[i])
    }
    ||| {
        &&& 1 <= s.len() <= 20
        &&& forall|i: int| 0 <= i < s.len() ==> is_ascii_letter(#[trigger] s[i])
    }
}

/// Decides `color_safe`.
pub fn is_safe_color(s: &str) -> (r: bool)
    ensures
        r == color_safe(s@),
{
    let n = s.unicode_len();
    if n == 0 {
        return false;
    }
    if s.get_char(0) == '#' {
        if !(n == 4 || n == 5 || n == 7 || n == 9) {
            return false;
        }
        let mut i: usize = 1;
        while i < n
            invariant
                n == s@.len(),
                1 <= i <= n,
                s@[0] == '#',
                n == 4 || n == 5 || n == 7 || n == 9,
                forall|k: int| 1 <= k < i ==> is_hex_digit(#[trigger] s@[k]),
            decreases n - i,
        {
            let c = s.get_char(i);
            if !(('0' <= c && c <= '9') || ('a' <= c && c <= 'f') || ('A' <= c && c <= 'F')) {
                proof {
                    assert(!is_hex_digit(s@[i as int]));
                    assert(!is_ascii_letter(s@[0]));
                }
                return false;
            }
            i = i + 1;
        }
        true
    } else {
        if n > 20 {
            return false;
        }
        let mut i: usize = 0;
        while i < n
            invariant
                n == s@.len(),
                i <= n,
                1 <= n <= 20,
                s@[0] != '#',
                forall|k: int| 0 <= k < i ==> is_ascii_letter(#[trigger] s@[k]),
            decreases n - i,
        {
            let c = s.get_char(i);
            if !(('a' <= c && c <= 'z') || ('A' <= c && c <= 'Z')) {
                proof {
                    assert(!is_ascii_letter(s@[i as int]));
                }
                return false;
            }
            i = i + 1;
        }
        true
    }
}

} // verus!

verus! {

/// A `javascript:` URL, in any letter case, is never written into a page.
pub proof fn law_javascript_url_refused(s: Seq<char>)
    requires
        starts_with_ci(s, "javascript:"@),
    ensures
        sanitized_url(s) is None,
{
    reveal_strlit("javascript:");
    reveal_strlit("http:");
    reveal_strlit("https:");
    reveal_strlit("mailto:");
    assert(ascii_lower(s[10]) == ':');
    assert(s[10] == ':');
    assert forall|j: int| 0 <= j < 10 implies !ends_scheme_part(#[trigger] s[j]) by {
        assert(ascii_lower(s[j]) == "javascript:"@[j]);
    }
    assert(has_scheme(s));
    assert(ascii_lower(s[0]) == 'j');
}

/// A URL that is kept comes out without `<`, `>`, `"` or `'`, so it cannot
/// leave the attribute it is written into.
pub proof fn law_sanitized_url_has_no_markup(s: Seq<char>)
    ensures
        sanitized_url(s) matches Some(u) ==> forall|i: int|
            0 <= i < u.len() ==> !crate::escape::is_markup_char(#[trigger] u[i]),
{
    crate::escape::law_escape_has_no_markup(s);
}

} // verus!
