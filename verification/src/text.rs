//! Character-level string helpers.
use vstd::prelude::*;

verus! {

/// Calls `String::push`, which appends one character.
#[verifier::external_body]
pub(crate) fn push_char(s: &mut String, c: char)
    ensures
        final(s)@ == old(s)@.push(c),
{
    s.push(c)
}

/// Number of characters of `s`.
pub fn char_len(s: &str) -> (n: usize)
    ensures
        n == s@.len(),
{
    s.unicode_len()
}

/// The first `k` characters of `t`, then `ins`, then the characters of `t` from `m` on.
pub fn splice(t: &str, k: usize, m: usize, ins: &str) -> (r: String)
    requires
        k <= m <= t@.len(),
    ensures
        r@ == t@.take(k as int) + ins@ + t@.skip(m as int),
{
    let n = t.unicode_len();
    let before = t.substring_char(0, k);
    let after = t.substring_char(m, n);
    let mut r = String::from_str(before);
    r.append(ins);
    r.append(after);
    proof {
        assert(t@.subrange(0, k as int) == t@.take(k as int));
        assert(t@.subrange(m as int, n as int) == t@.skip(m as int));
    }
    r
}

/// The characters of `t` from `k` to `m`.
pub fn substring(t: &str, k: usize, m: usize) -> (r: String)
    requires
        k <= m <= t@.len(),
    ensures
        r@ == t@.subrange(k as int, m as int),
{
    String::from_str(t.substring_char(k, m))
}

} // verus!

verus! {

/// `t` without the characters from `k` to `m`.
pub fn remove_range(t: &str, k: usize, m: usize) -> (r: String)
    requires
        k <= m <= t@.len(),
    ensures
        r@ == t@.take(k as int) + t@.skip(m as int),
{
    let n = t.unicode_len();
    let mut r = String::from_str(t.substring_char(0, k));
    r.append(t.substring_char(m, n));
    proof {
        assert(t@.subrange(0, k as int) == t@.take(k as int));
        assert(t@.subrange(m as int, n as int) == t@.skip(m as int));
    }
    r
}

} // verus!

verus! {

/// A character with the Unicode `White_Space` property, as `char::is_whitespace` tests.
pub open spec fn is_white(c: char) -> bool {
    let n = c as u32;
    (9 <= n && n <= 13) || n == 32 || n == 0x85 || n == 0xa0 || n == 0x1680 || (0x2000 <= n && n
        <= 0x200a) || n == 0x2028 || n == 0x2029 || n == 0x202f || n == 0x205f || n == 0x3000
}

/// Tests `is_white`.
pub fn is_white_char(c: char) -> (r: bool)
    ensures
        r == is_white(c),
{
    let n = c as u32;
    (9 <= n && n <= 13) || n == 32 || n == 0x85 || n == 0xa0 || n == 0x1680 || (0x2000 <= n && n
        <= 0x200a) || n == 0x2028 || n == 0x2029 || n == 0x202f || n == 0x205f || n == 0x3000
}

/// `a` and `b` delimit `s` with its leading and trailing white space left out.
pub open spec fn is_trim_bounds(s: Seq<char>, a: int, b: int) -> bool {
    &&& 0 <= a <= b <= s.len()
    &&& forall|i: int| 0 <= i < a ==> is_white(#[trigger] s[i])
    &&& forall|i: int| b <= i < s.len() ==> is_white(#[trigger] s[i])
    &&& a < b ==> !is_white(s[a]) && !is_white(s[b - 1])
}

/// `s` without its leading and trailing white space, as `str::trim` returns it.
pub open spec fn trimmed(s: Seq<char>) -> Seq<char> {
    let (a, b) = choose|a: int, b: int| is_trim_bounds(s, a, b);
    s.subrange(a, b)
}

/// Removes leading and trailing white space.
pub fn trim(s: &str) -> (r: String)
    ensures
        r@ == trimmed(s@),
{
    let n = s.unicode_len();
    let mut a: usize = 0;
    while a < n && is_white_char(s.get_char(a))
        invariant
            n == s@.len(),
            a <= n,
            forall|i: int| 0 <= i < a ==> is_white(#[trigger] s@[i]),
        decreases n - a,
    {
        a = a + 1;
    }
    let mut b: usize = n;
    while b > a && is_white_char(s.get_char(b - 1))
        invariant
            n == s@.len(),
            a <= b <= n,
            forall|i: int| 0 <= i < a ==> is_white(#[trigger] s@[i]),
            a < n ==> !is_white(s@[a as int]),
            forall|i: int| b <= i < n ==> is_white(#[trigger] s@[i]),
        decreases b - a,
    {
        b = b - 1;
    }
    proof {
        assert(a < b ==> !is_white(s@[b - 1]));
        assert(is_trim_bounds(s@, a as int, b as int));
        let (a2, b2) = choose|a2: int, b2: int| is_trim_bounds(s@, a2, b2);
        assert(is_trim_bounds(s@, a2, b2));
        if a == b {
            assert(forall|i: int| 0 <= i < n ==> is_white(#[trigger] s@[i]));
            if a2 < b2 {
                assert(is_white(s@[a2]));
            }
            assert(s@.subrange(a2, b2) =~= s@.subrange(a as int, b as int));
        } else {
            assert(!is_white(s@[a as int]));
            if a2 < a {
                assert(is_white(s@[a2]));
                assert(a2 == b2);
                assert(is_white(s@[a as int]));
            }
            if a2 > a {
                assert(is_white(s@[a as int]));
            }
            assert(a2 == a);
            if b2 > b {
                assert(is_white(s@[b2 - 1]));
            }
            if b2 < b {
                assert(is_white(s@[b - 1]));
            }
            assert(b2 == b);
        }
    }
    substring(s, a, b)
}

/// Whether `a` and `b` hold the same characters.
pub fn text_eq(a: &str, b: &str) -> (r: bool)
    ensures
        r == (a@ == b@),
{
    let n = a.unicode_len();
    if n != b.unicode_len() {
        return false;
    }
    let mut i: usize = 0;
    while i < n
        invariant
            n == a@.len(),
            n == b@.len(),
            i <= n,
            forall|j: int| 0 <= j < i ==> a@[j] == b@[j],
        decreases n - i,
    {
        if a.get_char(i) != b.get_char(i) {
            return false;
        }
        i = i + 1;
    }
    proof {
        assert(a@ =~= b@);
    }
    true
}

/// Where the word of `s` that goes on at `j` ends: the first white space
/// from `j` on, or the end.
pub open spec fn word_end(s: Seq<char>, j: int) -> int
    decreases s.len() - j,
{
    if j < 0 || j >= s.len() || is_white(s[j]) {
        j
    } else {
        word_end(s, j + 1)
    }
}

/// The word ends at or after where it starts.
pub proof fn lemma_word_end_after(s: Seq<char>, j: int)
    requires
        0 <= j,
    ensures
        j <= word_end(s, j),
        j <= s.len() ==> word_end(s, j) <= s.len(),
    decreases s.len() - j,
{
    if j < s.len() && !is_white(s[j]) {
        lemma_word_end_after(s, j + 1);
    }
}

} // verus!
