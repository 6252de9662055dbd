//! Recognizing embedded media: the provider of an embed URL and the video id
//! of a YouTube URL.
use vstd::prelude::*;

use crate::ast::EmbedProvider;
use crate::sanitize::{ascii_lower, ascii_lower_char};
use crate::text::substring;

verus! {

/// `p` occurs in `s` at index `i`.
pub open spec fn matches_at(s: Seq<char>, p: Seq<char>, i: int) -> bool {
    0 <= i && i + p.len() <= s.len() && forall|k: int| 0 <= k < p.len() ==> #[trigger] s[i + k] == p[k]
}

/// `p` (given in lower case) occurs in `s` at index `i`, letters compared
/// without regard to ASCII case.
pub open spec fn matches_at_ci(s: Seq<char>, p: Seq<char>, i: int) -> bool {
    0 <= i && i + p.len() <= s.len() && forall|k: int|
        0 <= k < p.len() ==> ascii_lower(#[trigger] s[i + k]) == p[k]
}

/// `p` occurs in `s`.
pub open spec fn contains(s: Seq<char>, p: Seq<char>) -> bool {
    exists|i: int| matches_at(s, p, i)
}

/// `i` is the first index at which `p` occurs in `s` (`ci`: without regard to case).
pub open spec fn is_first_match(s: Seq<char>, p: Seq<char>, i: int, ci: bool) -> bool {
    &&& (if ci {
        matches_at_ci(s, p, i)
    } else {
        matches_at(s, p, i)
    })
    &&& forall|j: int|
        0 <= j < i ==> !(if ci {
            matches_at_ci(s, p, j)
        } else {
            matches_at(s, p, j)
        })
}

/// The first index at which `p` occurs in `s`, if any.
pub open spec fn first_match(s: Seq<char>, p: Seq<char>, ci: bool) -> Option<int> {
    if exists|i: int| is_first_match(s, p, i, ci) {
        Some(choose|i: int| is_first_match(s, p, i, ci))
    } else {
        None
    }
}

/// Finds the first occurrence of `p` in `s`.
pub fn find(s: &str, p: &str, ci: bool) -> (r: Option<usize>)
    ensures
        match r {
            Some(i) => is_first_match(s@, p@, i as int, ci),
            None => forall|i: int| !#[trigger] is_first_match(s@, p@, i, ci),
        },
        r is None ==> forall|i: int|
            !(if ci {
                matches_at_ci(s@, p@, i)
            } else {
                matches_at(s@, p@, i)
            }),
{
    let n = s.unicode_len();
    let m = p.unicode_len();
    if m > n {
        return None;
    }
    let mut i: usize = 0;
    while i <= n - m
        invariant
            n == s@.len(),
            m == p@.len(),
            m <= n,
            i <= n - m + 1,
            forall|j: int|
                0 <= j < i ==> !(if ci {
                    matches_at_ci(s@, p@, j)
                } else {
                    matches_at(s@, p@, j)
                }),
        decreases n - m + 1 - i,
    {
        let mut k: usize = 0;
        let mut ok = true;
        while k < m && ok
            invariant
                n == s@.len(),
                m == p@.len(),
                i + m <= n,
                k <= m,
                ok ==> forall|q: int|
                    0 <= q < k ==> (if ci {
                        ascii_lower(#[trigger] s@[i + q]) == p@[q]
                    } else {
                        s@[i + q] == p@[q]
                    }),
                !ok ==> !(if ci {
                    matches_at_ci(s@, p@, i as int)
                } else {
                    matches_at(s@, p@, i as int)
                }),
            decreases m - k + (if ok { 1int } else { 0int }),
        {
            let a = s.get_char(i + k);
            let b = p.get_char(k);
            let same = if ci {
                ascii_lower_char(a) == b
            } else {
                a == b
            };
            if !same {
                ok = false;
                proof {
                    assert(!(if ci {
                        ascii_lower(s@[i + k]) == p@[k as int]
                    } else {
                        s@[i + k] == p@[k as int]
                    }));
                }
            } else {
                k = k + 1;
            }
        }
        if ok {
            return Some(i);
        }
        i = i + 1;
    }
    proof {
        assert forall|j: int|
            !(if ci {
                matches_at_ci(s@, p@, j)
            } else {
                matches_at(s@, p@, j)
            }) by {
            if j > n - m {
            }
        }
    }
    None
}

/// `k` is where the text `s` stops at the first `a` or `b` (its length if
/// neither occurs).
pub open spec fn is_stop_index(s: Seq<char>, a: char, b: char, k: int) -> bool {
    &&& 0 <= k <= s.len()
    &&& (k == s.len() || s[k] == a || s[k] == b)
    &&& forall|j: int| 0 <= j < k ==> #[trigger] s[j] != a && s[j] != b
}

/// The text `s` up to its first `a` or `b`.
pub open spec fn until_stop(s: Seq<char>, a: char, b: char) -> Seq<char> {
    s.take(choose|k: int| is_stop_index(s, a, b, k))
}

/// The characters of `s` from index `start` up to the first `a` or `b` after it.
fn piece_until(s: &str, start: usize, a: char, b: char) -> (r: String)
    requires
        start <= s@.len(),
    ensures
        r@ == until_stop(s@.skip(start as int), a, b),
{
    let n = s.unicode_len();
    let mut k: usize = start;
    let mut stop = false;
    while k < n && !stop
        invariant
            n == s@.len(),
            start <= k <= n,
            stop ==> k < n && (s@[k as int] == a || s@[k as int] == b),
            forall|j: int| start <= j < k ==> #[trigger] s@[j] != a && s@[j] != b,
        decreases n - k + (if stop { 0int } else { 1int }),
    {
        let c = s.get_char(k);
        if c == a || c == b {
            stop = true;
        } else {
            k = k + 1;
        }
    }
    proof {
        let t = s@.skip(start as int);
        assert(is_stop_index(t, a, b, (k - start) as int));
        assert(s@.subrange(start as int, k as int) =~= t.take((k - start) as int));
    }
    substring(s, start, k)
}

/// A `v` query parameter starts at index `j` of `s`: `v=` right after a `?`
/// or an `&`.
pub open spec fn is_v_param_at(s: Seq<char>, j: int) -> bool {
    1 <= j && j + 2 <= s.len() && (s[j - 1] == '?' || s[j - 1] == '&') && s[j] == 'v' && s[j + 1] == '='
}

/// `j` is where the first `v` query parameter of `s` starts.
pub open spec fn is_first_v_param(s: Seq<char>, j: int) -> bool {
    is_v_param_at(s, j) && forall|k: int| 0 <= k < j ==> !#[trigger] is_v_param_at(s, k)
}

/// Where the first `v` query parameter of `s` starts, if there is one.
pub open spec fn first_v_param(s: Seq<char>) -> Option<int> {
    if exists|j: int| is_first_v_param(s, j) {
        Some(choose|j: int| is_first_v_param(s, j))
    } else {
        None
    }
}

/// Finds where the first `v` query parameter of `s` starts.
fn find_v_param(s: &str) -> (r: Option<usize>)
    ensures
        match r {
            Some(j) => is_first_v_param(s@, j as int),
            None => forall|j: int| !#[trigger] is_v_param_at(s@, j),
        },
{
    let n = s.unicode_len();
    if n < 3 {
        return None;
    }
    let mut j: usize = 1;
    while j + 1 < n
        invariant
            n == s@.len(),
            3 <= n,
            1 <= j <= n - 1,
            forall|k: int| 0 <= k < j ==> !#[trigger] is_v_param_at(s@, k),
        decreases n - j,
    {
        let p = s.get_char(j - 1);
        if (p == '?' || p == '&') && s.get_char(j) == 'v' && s.get_char(j + 1) == '=' {
            return Some(j);
        }
        j = j + 1;
    }
    None
}

/// The spec form of `extract_youtube_id`.
pub open spec fn youtube_id(url: Seq<char>) -> Option<Seq<char>> {
    let short = match first_match(url, "youtu.be/"@, true) {
        Some(i) => until_stop(url.skip(i + "youtu.be/"@.len()), '?', '&'),
        None => Seq::empty(),
    };
    let watch = match first_v_param(url) {
        Some(j) => until_stop(url.skip(j + 2), '&', '#'),
        None => Seq::empty(),
    };
    let embed = match first_match(url, "youtube.com/embed/"@, true) {
        Some(k) => until_stop(url.skip(k + "youtube.com/embed/"@.len()), '?', '&'),
        None => Seq::empty(),
    };
    if short.len() > 0 {
        Some(short)
    } else if (exists|i: int| matches_at_ci(url, "youtube.com/watch"@, i)) && watch.len() > 0 {
        Some(watch)
    } else if embed.len() > 0 {
        Some(embed)
    } else {
        None
    }
}

/// Extracts the video id of a `youtu.be/ID`, `youtube.com/watch?v=ID` or
/// `youtube.com/embed/ID` URL; the host parts are matched without regard to
/// ASCII case, the id ends at the next `?` or `&`; for a watch URL the id is
/// the value of its `v` query parameter, ending at the next `&` or `#`.
pub fn extract_youtube_id(url: &str) -> (r: Option<String>)
    ensures
        match r {
            Some(s) => youtube_id(url@) == Some(s@),
            None => youtube_id(url@) is None,
        },
{
    let n = url.unicode_len();
    match find(url, "youtu.be/", true) {
        Some(i) => {
            let plen = "youtu.be/".unicode_len();
            let id = piece_until(url, i + plen, '?', '&');
            if id.unicode_len() > 0 {
                return Some(id);
            }
        },
        None => {},
    }
    if find(url, "youtube.com/watch", true).is_some() {
        match find_v_param(url) {
            Some(j) => {
                let id = piece_until(url, j + 2, '&', '#');
                if id.unicode_len() > 0 {
                    return Some(id);
                }
            },
            None => {},
        }
    }
    match find(url, "youtube.com/embed/", true) {
        Some(k) => {
            let plen = "youtube.com/embed/".unicode_len();
            let id = piece_until(url, k + plen, '?', '&');
            if id.unicode_len() > 0 {
                return Some(id);
            }
        },
        None => {},
    }
    None
}

/// Whether `p` occurs in `s`.
pub fn contains_text(s: &str, p: &str) -> (r: bool)
    ensures
        r == contains(s@, p@),
{
    match find(s, p, false) {
        Some(i) => {
            assert(matches_at(s@, p@, i as int));
            true
        },
        None => false,
    }
}

/// Tells the embed provider from a URL: YouTube for a URL that contains
/// `youtube.com` or `youtu.be`, X for one that contains `twitter.com` or
/// `x.com`, any other is generic.
pub fn detect_embed_provider(url: &str) -> (r: EmbedProvider)
    ensures
        r == (if contains(url@, "youtube.com"@) || contains(url@, "youtu.be"@) {
            EmbedProvider::Youtube
        } else if contains(url@, "twitter.com"@) || contains(url@, "x.com"@) {
            EmbedProvider::X
        } else {
            EmbedProvider::Generic
        }),
{
    if find(url, "youtube.com", false).is_some() || find(url, "youtu.be", false).is_some() {
        EmbedProvider::Youtube
    } else if find(url, "twitter.com", false).is_some() || find(url, "x.com", false).is_some() {
        EmbedProvider::X
    } else {
        EmbedProvider::Generic
    }
}

} // verus!

verus! {

/// Where the text `s` first stops at an `a` or a `b` exists: at the first of
/// them from `j` on, where none lies before `j`.
proof fn lemma_stop_exists(s: Seq<char>, a: char, b: char, j: int)
    requires
        0 <= j <= s.len(),
        forall|i: int| 0 <= i < j ==> #[trigger] s[i] != a && s[i] != b,
    ensures
        exists|k: int| is_stop_index(s, a, b, k),
    decreases s.len() - j,
{
    if j == s.len() || s[j] == a || s[j] == b {
        assert(is_stop_index(s, a, b, j));
    } else {
        lemma_stop_exists(s, a, b, j + 1);
    }
}

/// The piece of `s` before its first `a` or `b` holds neither, and is where
/// `s` starts.
pub proof fn lemma_until_stop(s: Seq<char>, a: char, b: char)
    ensures
        until_stop(s, a, b).len() <= s.len(),
        forall|i: int| 0 <= i < until_stop(s, a, b).len() ==> #[trigger] until_stop(s, a, b)[i] != a
            && until_stop(s, a, b)[i] != b && until_stop(s, a, b)[i] == s[i],
{
    lemma_stop_exists(s, a, b, 0);
    let k = choose|k: int| is_stop_index(s, a, b, k);
    assert(until_stop(s, a, b) == s.take(k));
    assert forall|i: int| 0 <= i < until_stop(s, a, b).len() implies #[trigger] until_stop(s, a, b)[i]
        != a && until_stop(s, a, b)[i] != b && until_stop(s, a, b)[i] == s[i] by {
        assert(s.take(k)[i] == s[i]);
    }
}

/// A video id never runs on into what follows it in the URL: it is not
/// empty and holds no `&` (the id of a `youtu.be/` or `/embed/` URL ends at
/// `?` or `&`, that of a watch URL at `&` or `#`); and a URL that is neither a
/// `youtu.be/` nor an `/embed/` link, so a watch URL, gives an id without `#`.
pub proof fn law_youtube_id_stops_at_separators(url: Seq<char>)
    ensures
        youtube_id(url) matches Some(id) ==> id.len() > 0 && forall|i: int|
            0 <= i < id.len() ==> #[trigger] id[i] != '&',
        (forall|i: int| !matches_at_ci(url, "youtu.be/"@, i)) && (forall|i: int|
            !matches_at_ci(url, "youtube.com/embed/"@, i)) ==> (youtube_id(url) matches Some(id) ==> forall|i: int|
            0 <= i < id.len() ==> #[trigger] id[i] != '#'),
{
    if let Some(i) = first_match(url, "youtu.be/"@, true) {
        lemma_until_stop(url.skip(i + "youtu.be/"@.len()), '?', '&');
    }
    if let Some(j) = first_v_param(url) {
        lemma_until_stop(url.skip(j + 2), '&', '#');
    }
    if let Some(k) = first_match(url, "youtube.com/embed/"@, true) {
        lemma_until_stop(url.skip(k + "youtube.com/embed/"@.len()), '?', '&');
    }
    if forall|i: int| !matches_at_ci(url, "youtu.be/"@, i) {
        assert(first_match(url, "youtu.be/"@, true) is None);
    }
    if forall|i: int| !matches_at_ci(url, "youtube.com/embed/"@, i) {
        assert(first_match(url, "youtube.com/embed/"@, true) is None);
    }
}

} // verus!
