//! The class lists of editor elements: testing for a class and the new
//! `class` attribute after adding or removing one. Classes are compared
//! without regard to ASCII case.
use vstd::prelude::*;

use crate::sanitize::{ascii_lower, ascii_lower_char};
use crate::text::{is_white, is_white_char, lemma_word_end_after, substring, word_end};

verus! {

/// The white-space separated words of `s` from index `a` on.
pub open spec fn words_from(s: Seq<char>, a: int) -> Seq<Seq<char>>
    decreases s.len() - a,
{
    if a < 0 || a >= s.len() {
        Seq::empty()
    } else if is_white(s[a]) {
        words_from(s, a + 1)
    } else {
        let e = if word_end(s, a) <= a {
            a + 1
        } else if word_end(s, a) > s.len() {
            s.len() as int
        } else {
            word_end(s, a)
        };
        seq![s.subrange(a, e)] + words_from(s, e)
    }
}

/// The white-space separated words of `s`, as `split_whitespace` yields them.
pub open spec fn words(s: Seq<char>) -> Seq<Seq<char>> {
    words_from(s, 0)
}

/// `a` and `b` are equal but for ASCII case.
pub open spec fn eq_ci(a: Seq<char>, b: Seq<char>) -> bool {
    a.len() == b.len() && forall|i: int| 0 <= i < a.len() ==> ascii_lower(#[trigger] a[i]) == ascii_lower(b[i])
}

/// The words joined by single spaces.
pub open spec fn joined(ws: Seq<Seq<char>>) -> Seq<char>
    decreases ws.len(),
{
    if ws.len() == 0 {
        Seq::empty()
    } else if ws.len() == 1 {
        ws[0]
    } else {
        joined(ws.drop_last()) + " "@ + ws.last()
    }
}

/// The words without those equal to `c` but for ASCII case.
pub open spec fn without_ci(ws: Seq<Seq<char>>, c: Seq<char>) -> Seq<Seq<char>>
    decreases ws.len(),
{
    if ws.len() == 0 {
        Seq::empty()
    } else if eq_ci(ws.last(), c) {
        without_ci(ws.drop_last(), c)
    } else {
        without_ci(ws.drop_last(), c).push(ws.last())
    }
}

/// The words with each run of equal neighbours kept once, as `Vec::dedup`
/// leaves them.
pub open spec fn dedup_runs(ws: Seq<Seq<char>>) -> Seq<Seq<char>>
    decreases ws.len(),
{
    if ws.len() <= 1 {
        ws
    } else if ws.last() == ws[ws.len() - 2] {
        dedup_runs(ws.drop_last())
    } else {
        dedup_runs(ws.drop_last()).push(ws.last())
    }
}

/// The class list `v` holds `c`, in any ASCII case.
pub open spec fn has_class_ci(v: Seq<char>, c: Seq<char>) -> bool {
    exists|i: int| 0 <= i < words(v).len() && eq_ci(#[trigger] words(v)[i], c)
}

/// The text of an optional attribute.
pub open spec fn attr_text(a: Option<&str>) -> Seq<char> {
    match a {
        Some(v) => v@,
        None => Seq::empty(),
    }
}

/// The new `class` attribute after adding `c`: none where it is already
/// there, else the old words and `c`, joined by spaces.
pub open spec fn added_class(attr: Option<&str>, c: Seq<char>) -> Option<Seq<char>> {
    if attr is Some && has_class_ci(attr_text(attr), c) {
        None
    } else {
        Some(joined(words(attr_text(attr)).push(c)))
    }
}

/// The new `class` attribute after removing `c`: none where no word is left
/// (the attribute goes), else the other words, neighbours that repeat kept
/// once, joined by spaces.
pub open spec fn removed_class(attr: Option<&str>, c: Seq<char>) -> Option<Seq<char>> {
    let kept = without_ci(words(attr_text(attr)), c);
    if kept.len() == 0 {
        None
    } else {
        Some(joined(dedup_runs(kept)))
    }
}

/// What becomes of an element's `class` attribute.
pub enum ClassUpdate {
    /// It stays as it is.
    Keep,
    /// It is given this value.
    Replace(String),
    /// It is removed.
    Remove,
}

/// The texts of a list of strings.
pub open spec fn texts(v: Seq<String>) -> Seq<Seq<char>> {
    v.map_values(|x: String| x@)
}

/// Splits `s` into its white-space separated words.
pub fn split_words(s: &str) -> (r: Vec<String>)
    ensures
        texts(r@) == words(s@),
{
    let n = s.unicode_len();
    let mut r: Vec<String> = Vec::new();
    let mut a: usize = 0;
    proof {
        assert(texts(r@) + words_from(s@, 0) =~= words(s@));
    }
    while a < n
        invariant
            n == s@.len(),
            a <= n,
            texts(r@) + words_from(s@, a as int) == words(s@),
        decreases n - a,
    {
        if is_white_char(s.get_char(a)) {
            a = a + 1;
        } else {
            let mut e = a + 1;
            proof {
                assert(word_end(s@, a as int) == word_end(s@, e as int));
                lemma_word_end_after(s@, e as int);
            }
            while e < n && !is_white_char(s.get_char(e))
                invariant
                    n == s@.len(),
                    a < e <= n,
                    word_end(s@, a as int) == word_end(s@, e as int),
                decreases n - e,
            {
                e = e + 1;
            }
            let w = substring(s, a, e);
            let ghost before = r@;
            r.push(w);
            proof {
                assert(texts(r@) =~= texts(before).push(w@));
                assert(words_from(s@, a as int) == seq![w@] + words_from(s@, e as int));
                assert(texts(r@) + words_from(s@, e as int) =~= texts(before) + words_from(s@, a as int));
            }
            a = e;
        }
    }
    proof {
        assert(texts(r@) + words_from(s@, a as int) =~= texts(r@));
    }
    r
}

/// Whether `a` and `b` are equal but for ASCII case.
pub fn eq_ignore_ascii_case(a: &str, b: &str) -> (r: bool)
    ensures
        r == eq_ci(a@, b@),
{
    let n = a.unicode_len();
    if n != b.unicode_len() {
        return false;
    }
    let mut i: usize = 0;
    while i < n
        invariant
            n == a@.len(),
            n == b@.len(),
            i <= n,
            forall|j: int| 0 <= j < i ==> ascii_lower(#[trigger] a@[j]) == ascii_lower(b@[j]),
        decreases n - i,
    {
        if ascii_lower_char(a.get_char(i)) != ascii_lower_char(b.get_char(i)) {
            return false;
        }
        i = i + 1;
    }
    true
}

/// Joins words with single spaces.
pub fn join_words(ws: &Vec<String>) -> (r: String)
    ensures
        r@ == joined(texts(ws@)),
{
    let ghost t = texts(ws@);
    let mut r = String::new();
    let mut i: usize = 0;
    proof {
        assert(t.take(0) =~= Seq::<Seq<char>>::empty());
    }
    while i < ws.len()
        invariant
            t == texts(ws@),
            i <= ws@.len(),
            r@ == joined(t.take(i as int)),
        decreases ws@.len() - i,
    {
        if i > 0 {
            r.append(" ");
        }
        r.append(ws[i].as_str());
        proof {
            assert(t.take(i + 1).drop_last() =~= t.take(i as int));
            if i == 0 {
                assert(r@ =~= joined(t.take(i + 1)));
            } else {
                assert(r@ =~= joined(t.take(i + 1)));
            }
        }
        i = i + 1;
    }
    proof {
        assert(t.take(i as int) =~= t);
    }
    r
}

/// Whether the class list `class_attr` holds `class_name`, in any ASCII case.
pub fn element_has_class(class_attr: Option<&str>, class_name: &str) -> (r: bool)
    ensures
        r == (class_attr is Some && has_class_ci(attr_text(class_attr), class_name@)),
{
    match class_attr {
        Some(v) => {
            let ws = split_words(v);
            let mut i: usize = 0;
            while i < ws.len()
                invariant
                    class_attr == Some(v),
                    texts(ws@) == words(v@),
                    i <= ws@.len(),
                    forall|j: int| 0 <= j < i ==> !eq_ci(#[trigger] words(v@)[j], class_name@),
                decreases ws@.len() - i,
            {
                if eq_ignore_ascii_case(ws[i].as_str(), class_name) {
                    proof {
                        assert(words(v@)[i as int] == ws@[i as int]@);
                        assert(0 <= i < words(v@).len());
                        assert(eq_ci(words(v@)[i as int], class_name@));
                        assert(attr_text(class_attr) == v@);
                    }
                    return true;
                }
                i = i + 1;
            }
            false
        },
        None => false,
    }
}

/// The `class` attribute after adding `class_name`.
pub fn add_class(class_attr: Option<&str>, class_name: &str) -> (r: ClassUpdate)
    ensures
        match added_class(class_attr, class_name@) {
            None => r is Keep,
            Some(v) => r matches ClassUpdate::Replace(x) && x@ == v,
        },
{
    if element_has_class(class_attr, class_name) {
        return ClassUpdate::Keep;
    }
    let mut ws = match class_attr {
        Some(v) => split_words(v),
        None => {
            proof {
                assert(words(Seq::<char>::empty()) =~= Seq::<Seq<char>>::empty());
            }
            Vec::new()
        },
    };
    let ghost before = ws@;
    ws.push(String::from_str(class_name));
    proof {
        assert(texts(ws@) =~= texts(before).push(class_name@));
    }
    ClassUpdate::Replace(join_words(&ws))
}

/// The words without those equal to `c` but for ASCII case.
fn drop_class_words(ws: &Vec<String>, c: &str) -> (r: Vec<String>)
    ensures
        texts(r@) == without_ci(texts(ws@), c@),
{
    let ghost t = texts(ws@);
    let mut r: Vec<String> = Vec::new();
    let mut i: usize = 0;
    proof {
        assert(t.take(0) =~= Seq::<Seq<char>>::empty());
    }
    while i < ws.len()
        invariant
            t == texts(ws@),
            i <= ws@.len(),
            texts(r@) == without_ci(t.take(i as int), c@),
        decreases ws@.len() - i,
    {
        proof {
            assert(t.take(i + 1).drop_last() =~= t.take(i as int));
            assert(t.take(i + 1).last() == ws@[i as int]@);
        }
        if !eq_ignore_ascii_case(ws[i].as_str(), c) {
            let ghost before = r@;
            r.push(ws[i].clone());
            proof {
                assert(texts(r@) =~= texts(before).push(ws@[i as int]@));
            }
        }
        i = i + 1;
    }
    proof {
        assert(t.take(i as int) =~= t);
    }
    r
}

/// The words with each run of equal neighbours kept once.
fn dedup_words(ws: &Vec<String>) -> (r: Vec<String>)
    ensures
        texts(r@) == dedup_runs(texts(ws@)),
{
    let ghost t = texts(ws@);
    let mut r: Vec<String> = Vec::new();
    let mut i: usize = 0;
    proof {
        assert(t.take(0) =~= Seq::<Seq<char>>::empty());
    }
    while i < ws.len()
        invariant
            t == texts(ws@),
            i <= ws@.len(),
            texts(r@) == dedup_runs(t.take(i as int)),
            i > 0 ==> r@.len() > 0 && r@.last()@ == t[i - 1],
        decreases ws@.len() - i,
    {
        proof {
            assert(t.take(i + 1).drop_last() =~= t.take(i as int));
            assert(t.take(i + 1).last() == ws@[i as int]@);
            if i > 0 {
                assert(t.take(i + 1)[i - 1] == t[i - 1]);
            }
        }
        let ghost before = r@;
        if i == 0 || !crate::text::text_eq(ws[i].as_str(), ws[i - 1].as_str()) {
            r.push(ws[i].clone());
            proof {
                assert(texts(r@) =~= texts(before).push(ws@[i as int]@));
            }
        }
        i = i + 1;
    }
    proof {
        assert(t.take(i as int) =~= t);
    }
    r
}

/// The `class` attribute after removing `class_name`.
pub fn remove_class(class_attr: Option<&str>, class_name: &str) -> (r: ClassUpdate)
    ensures
        match removed_class(class_attr, class_name@) {
            None => r is Remove,
            Some(v) => r matches ClassUpdate::Replace(x) && x@ == v,
        },
{
    let ws = match class_attr {
        Some(v) => split_words(v),
        None => {
            proof {
                assert(words(Seq::<char>::empty()) =~= Seq::<Seq<char>>::empty());
            }
            Vec::new()
        },
    };
    let kept = drop_class_words(&ws, class_name);
    if kept.len() == 0 {
        ClassUpdate::Remove
    } else {
        let d = dedup_words(&kept);
        ClassUpdate::Replace(join_words(&d))
    }
}

/// The classes every form input has.
pub open spec fn base_input_class() -> Seq<char> {
    "w-full rounded-md border border-border/70 bg-transparent px-4 py-2.5 text-foreground placeholder:text-muted-foreground transition-colors duration-200 focus:border-ring focus:ring-2 focus:ring-ring/40 disabled:cursor-not-allowed disabled:opacity-60"@
}

/// The class list of a form input: the base classes, then the extra ones.
pub fn compose_input_class(extra: &Option<String>) -> (r: String)
    ensures
        r@ == match extra {
            Some(e) => base_input_class() + " "@ + e@,
            None => base_input_class(),
        },
{
    let mut r = String::from_str(
        "w-full rounded-md border border-border/70 bg-transparent px-4 py-2.5 text-foreground placeholder:text-muted-foreground transition-colors duration-200 focus:border-ring focus:ring-2 focus:ring-ring/40 disabled:cursor-not-allowed disabled:opacity-60",
    );
    match extra {
        Some(e) => {
            r.append(" ");
            r.append(e.as_str());
        },
        None => {},
    }
    r
}

// ---------------------------------------------------------------------------
// Laws
// ---------------------------------------------------------------------------

/// A word: non-empty, with no white space.
pub open spec fn is_word(w: Seq<char>) -> bool {
    w.len() > 0 && forall|i: int| 0 <= i < w.len() ==> !is_white(#[trigger] w[i])
}

/// Every entry is a word.
pub open spec fn all_words(ws: Seq<Seq<char>>) -> bool {
    forall|i: int| 0 <= i < ws.len() ==> is_word(#[trigger] ws[i])
}

/// Between `j` and the end of the word that goes on there, nothing is white.
proof fn lemma_word_end_run(s: Seq<char>, j: int)
    requires
        0 <= j <= s.len(),
    ensures
        j <= word_end(s, j) <= s.len(),
        forall|k: int| j <= k < word_end(s, j) ==> !is_white(#[trigger] s[k]),
        word_end(s, j) < s.len() ==> is_white(s[word_end(s, j)]),
    decreases s.len() - j,
{
    if j < s.len() && !is_white(s[j]) {
        lemma_word_end_run(s, j + 1);
    }
}

/// The words of `s` from `a` on are words.
proof fn lemma_words_from_are_words(s: Seq<char>, a: int)
    requires
        0 <= a,
    ensures
        all_words(words_from(s, a)),
    decreases s.len() - a,
{
    if a < s.len() {
        if is_white(s[a]) {
            lemma_words_from_are_words(s, a + 1);
        } else {
            lemma_word_end_run(s, a);
            lemma_word_end_run(s, a + 1);
            let e = word_end(s, a);
            assert(e == word_end(s, a + 1));
            lemma_words_from_are_words(s, e);
            let w = s.subrange(a, e);
            assert forall|i: int| 0 <= i < w.len() implies !is_white(#[trigger] w[i]) by {
                assert(w[i] == s[a + i]);
            }
            let r = words_from(s, a);
            assert(r == seq![w] + words_from(s, e));
            assert forall|i: int| 0 <= i < r.len() implies is_word(#[trigger] r[i]) by {
                if i > 0 {
                    assert(r[i] == words_from(s, e)[i - 1]);
                }
            }
        }
    }
}

/// Where `x` is followed by white space, a word that goes on inside `x`
/// ends at the same place in `x` as in the longer text.
proof fn lemma_word_end_prefix(x: Seq<char>, s: Seq<char>, j: int)
    requires
        0 <= j <= x.len() < s.len(),
        s.subrange(0, x.len() as int) == x,
        is_white(s[x.len() as int]),
    ensures
        word_end(s, j) == word_end(x, j),
    decreases x.len() - j,
{
    if j < x.len() {
        assert(s[j] == x[j]);
        if !is_white(x[j]) {
            lemma_word_end_prefix(x, s, j + 1);
        }
    }
}

/// Where `x` is followed by white space, the words that start inside `x`
/// are those of `x`.
proof fn lemma_words_from_prefix(x: Seq<char>, s: Seq<char>, j: int)
    requires
        0 <= j <= x.len() < s.len(),
        s.subrange(0, x.len() as int) == x,
        is_white(s[x.len() as int]),
    ensures
        words_from(s, j) == words_from(x, j) + words_from(s, x.len() as int),
    decreases x.len() - j,
{
    if j == x.len() {
        assert(words_from(x, j) =~= Seq::<Seq<char>>::empty());
        assert(words_from(x, j) + words_from(s, x.len() as int) =~= words_from(s, x.len() as int));
    } else {
        assert(s[j] == x[j]);
        if is_white(x[j]) {
            lemma_words_from_prefix(x, s, j + 1);
        } else {
            lemma_word_end_prefix(x, s, j);
            lemma_word_end_run(x, j);
            lemma_word_end_run(x, j + 1);
            let e = word_end(x, j);
            assert(e == word_end(x, j + 1));
            lemma_words_from_prefix(x, s, e);
            assert(s.subrange(j, e) =~= x.subrange(j, e));
            assert(words_from(s, j) =~= words_from(x, j) + words_from(s, x.len() as int));
        }
    }
}

/// A word that runs to the end of the text is one word.
proof fn lemma_words_from_last(s: Seq<char>, a: int)
    requires
        0 <= a < s.len(),
        forall|k: int| a <= k < s.len() ==> !is_white(#[trigger] s[k]),
    ensures
        words_from(s, a) == seq![s.subrange(a, s.len() as int)],
{
    assert forall|j: int| a <= j <= s.len() implies word_end(s, j) == s.len() by {
        lemma_word_end_to_end(s, a, j);
    }
    assert(words_from(s, s.len() as int) =~= Seq::<Seq<char>>::empty());
    assert(words_from(s, a) =~= seq![s.subrange(a, s.len() as int)]);
}

/// Where nothing from `a` on is white, every word from `j` on runs to the end.
proof fn lemma_word_end_to_end(s: Seq<char>, a: int, j: int)
    requires
        0 <= a <= j <= s.len(),
        forall|k: int| a <= k < s.len() ==> !is_white(#[trigger] s[k]),
    ensures
        word_end(s, j) == s.len(),
    decreases s.len() - j,
{
    if j < s.len() {
        lemma_word_end_to_end(s, a, j + 1);
    }
}

/// Splitting words joined by spaces gives the words back.
pub proof fn lemma_words_of_joined(ws: Seq<Seq<char>>)
    requires
        all_words(ws),
    ensures
        words(joined(ws)) == ws,
    decreases ws.len(),
{
    if ws.len() == 0 {
        assert(words(joined(ws)) =~= ws);
    } else if ws.len() == 1 {
        let w = ws[0];
        assert(is_word(w));
        lemma_words_from_last(w, 0);
        assert(w.subrange(0, w.len() as int) =~= w);
        assert(words(joined(ws)) =~= ws);
    } else {
        let init = ws.drop_last();
        let w = ws.last();
        assert(is_word(ws[ws.len() - 1]));
        assert forall|i: int| 0 <= i < init.len() implies is_word(#[trigger] init[i]) by {
            assert(init[i] == ws[i]);
        }
        lemma_words_of_joined(init);
        reveal_strlit(" ");
        let x = joined(init);
        let s = joined(ws);
        assert(s == x + " "@ + w);
        assert(s.subrange(0, x.len() as int) =~= x);
        assert(s[x.len() as int] == ' ');
        lemma_words_from_prefix(x, s, 0);
        assert forall|k: int| x.len() + 1 <= k < s.len() implies !is_white(#[trigger] s[k]) by {
            assert(s[k] == w[k - x.len() - 1]);
        }
        lemma_words_from_last(s, x.len() + 1int);
        assert(s.subrange(x.len() + 1int, s.len() as int) =~= w);
        assert(words_from(s, x.len() as int) == words_from(s, x.len() + 1int));
        assert(words(s) =~= ws);
    }
}

/// After adding a class (a word: non-empty, without white space) the class
/// list holds it.
pub proof fn law_added_class_is_present(attr: Option<&str>, c: Seq<char>)
    requires
        is_word(c),
    ensures
        match added_class(attr, c) {
            None => has_class_ci(attr_text(attr), c),
            Some(v) => has_class_ci(v, c),
        },
{
    if let Some(v) = added_class(attr, c) {
        let ws = words(attr_text(attr)).push(c);
        lemma_words_from_are_words(attr_text(attr), 0);
        assert forall|i: int| 0 <= i < ws.len() implies is_word(#[trigger] ws[i]) by {
            if i < ws.len() - 1 {
                assert(ws[i] == words(attr_text(attr))[i]);
            }
        }
        lemma_words_of_joined(ws);
        assert(words(v)[ws.len() - 1] == c);
        assert(eq_ci(c, c));
    }
}

/// The words left after removing `c` are words of `ws` that differ from `c`.
proof fn lemma_without_ci(ws: Seq<Seq<char>>, c: Seq<char>)
    ensures
        forall|i: int| 0 <= i < without_ci(ws, c).len() ==> !eq_ci(#[trigger] without_ci(ws, c)[i], c)
            && exists|j: int| 0 <= j < ws.len() && ws[j] == without_ci(ws, c)[i],
    decreases ws.len(),
{
    if ws.len() > 0 {
        lemma_without_ci(ws.drop_last(), c);
        let r = without_ci(ws, c);
        let p = without_ci(ws.drop_last(), c);
        assert forall|i: int| 0 <= i < r.len() implies !eq_ci(#[trigger] r[i], c) && exists|j: int|
            0 <= j < ws.len() && ws[j] == r[i] by {
            if i < p.len() {
                assert(r[i] == p[i]);
                let j = choose|j: int| 0 <= j < ws.drop_last().len() && ws.drop_last()[j] == p[i];
                assert(ws[j] == p[i]);
            } else {
                assert(r[i] == ws.last());
                assert(ws[ws.len() - 1] == r[i]);
            }
        }
    }
}

/// Keeping runs of equal neighbours once keeps only entries of `ws`.
proof fn lemma_dedup_runs(ws: Seq<Seq<char>>)
    ensures
        forall|i: int| 0 <= i < dedup_runs(ws).len() ==> ws.contains(#[trigger] dedup_runs(ws)[i]),
    decreases ws.len(),
{
    let r = dedup_runs(ws);
    if ws.len() > 1 {
        lemma_dedup_runs(ws.drop_last());
        let p = dedup_runs(ws.drop_last());
        if ws.last() == ws[ws.len() - 2] {
            assert(r == p);
        } else {
            assert(r == p.push(ws.last()));
        }
        assert forall|i: int| 0 <= i < r.len() implies ws.contains(#[trigger] r[i]) by {
            if i < p.len() {
                assert(r[i] == p[i]);
                assert(ws.drop_last().contains(p[i]));
                let j = choose|j: int| 0 <= j < ws.drop_last().len() && ws.drop_last()[j] == p[i];
                assert(ws[j] == r[i]);
            } else {
                assert(ws[ws.len() - 1] == r[i]);
            }
        }
    } else {
        assert(r == ws);
        assert forall|i: int| 0 <= i < r.len() implies ws.contains(#[trigger] r[i]) by {
            assert(ws[i] == r[i]);
        }
    }
}

/// After removing a class the class list no longer holds it (where no word
/// is left, the attribute goes).
pub proof fn law_removed_class_is_absent(attr: Option<&str>, c: Seq<char>)
    ensures
        removed_class(attr, c) matches Some(v) ==> !has_class_ci(v, c),
{
    let all = words(attr_text(attr));
    let kept = without_ci(all, c);
    if kept.len() > 0 {
        let d = dedup_runs(kept);
        lemma_words_from_are_words(attr_text(attr), 0);
        lemma_without_ci(all, c);
        lemma_dedup_runs(kept);
        assert forall|i: int| 0 <= i < d.len() implies is_word(#[trigger] d[i]) && !eq_ci(d[i], c) by {
            assert(kept.contains(d[i]));
            let j = choose|j: int| 0 <= j < kept.len() && kept[j] == d[i];
            assert(!eq_ci(kept[j], c));
            let k = choose|k: int| 0 <= k < all.len() && all[k] == kept[j];
            assert(is_word(all[k]));
        }
        lemma_words_of_joined(d);
    }
}

} // verus!
