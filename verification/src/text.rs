//! Character-sequence utilities shared by the rest of the crate.

use vstd::prelude::*;

verus! {

/// Appends one character to a `String` (`String::push`).
#[verifier::external_body]
fn push_char(s: &mut String, c: char)
    ensures
        final(s)@ == old(s)@.push(c),
{
    s.push(c);
}

/// What `str::to_lowercase` gives for a string with the characters `s` (Unicode lower
/// case mapping).
pub uninterp spec fn lowercase_chars(s: Seq<char>) -> Seq<char>;

/// The lower-case form of `s`, by `str::to_lowercase`. The contract names the result:
/// Unicode's case tables are not restated here.
#[verifier::external_body]
pub(crate) fn to_lower(s: &str) -> (res: String)
    ensures
        res@ == lowercase_chars(s@),
{
    s.to_lowercase()
}

/// The characters of `s`, in order.
pub fn chars_of(s: &str) -> (res: Vec<char>)
    ensures
        res@ == s@,
{
    let mut res: Vec<char> = Vec::new();
    for c in it: s.chars()
        invariant
            res@ == it.seq().take(it.index() as int),
    {
        res.push(c);
    }
    res
}

/// A `String` holding exactly the characters of `v`.
pub fn string_of(v: &[char]) -> (res: String)
    ensures
        res@ == v@,
{
    let mut res = String::new();
    let mut i: usize = 0;
    while i < v.len()
        invariant
            i <= v@.len(),
            res@ == v@.take(i as int),
        decreases v@.len() - i,
    {
        push_char(&mut res, v[i]);
        assert(v@.take(i + 1) == v@.take(i as int).push(v@[i as int]));
        i = i + 1;
    }
    assert(v@.take(v@.len() as int) == v@);
    res
}


/// `pat` occurs in `s` starting at index `i`.
pub open spec fn occurs_at(s: Seq<char>, pat: Seq<char>, i: int) -> bool {
    &&& 0 <= i
    &&& i + pat.len() <= s.len()
    &&& s.subrange(i, i + pat.len()) == pat
}

/// The first index `i >= start` at which `pat` occurs in `s`, if any.
pub open spec fn find_from(s: Seq<char>, pat: Seq<char>, start: int) -> Option<int>
    decreases s.len() + 1 - start,
{
    if start < 0 || start + pat.len() > s.len() {
        None
    } else if s.subrange(start, start + pat.len()) == pat {
        Some(start)
    } else {
        find_from(s, pat, start + 1)
    }
}

/// The first index at which `pat` occurs in `s` (what `str::find` gives, counted in
/// characters).
pub open spec fn find_first(s: Seq<char>, pat: Seq<char>) -> Option<int> {
    find_from(s, pat, 0)
}

/// `pat` is a contiguous part of `s` (`str::contains`).
pub open spec fn contains_chars(s: Seq<char>, pat: Seq<char>) -> bool {
    find_first(s, pat) is Some
}

/// `find_from` gives the least occurrence at or after `start`, and `None` only when there
/// is none.
pub proof fn lemma_find_from(s: Seq<char>, pat: Seq<char>, start: int)
    requires
        0 <= start,
    ensures
        find_from(s, pat, start) matches Some(i) ==> {
            &&& start <= i
            &&& occurs_at(s, pat, i)
            &&& forall|j: int| start <= j < i ==> !occurs_at(s, pat, j)
        },
        find_from(s, pat, start) is None ==> forall|j: int| start <= j ==> !occurs_at(s, pat, j),
    decreases s.len() + 1 - start,
{
    if start + pat.len() > s.len() {
    } else if s.subrange(start, start + pat.len()) == pat {
    } else {
        lemma_find_from(s, pat, start + 1);
    }
}

/// `find_first` is the least index at which `pat` occurs.
pub proof fn lemma_find_first(s: Seq<char>, pat: Seq<char>)
    ensures
        find_first(s, pat) matches Some(i) ==> {
            &&& occurs_at(s, pat, i)
            &&& forall|j: int| 0 <= j < i ==> !occurs_at(s, pat, j)
        },
        find_first(s, pat) is None ==> forall|j: int| !occurs_at(s, pat, j),
{
    lemma_find_from(s, pat, 0);
}

/// Strict lexicographic order on character sequences, by code point. On Rust strings this
/// is the order of `<`, since UTF-8 byte order agrees with code point order.
pub open spec fn lex_less(a: Seq<char>, b: Seq<char>) -> bool
    decreases a.len(),
{
    if a.len() == 0 {
        b.len() > 0
    } else if b.len() == 0 {
        false
    } else if a[0] != b[0] {
        (a[0] as u32) < (b[0] as u32)
    } else {
        lex_less(a.drop_first(), b.drop_first())
    }
}

/// No sequence is below itself.
pub proof fn lemma_lex_irreflexive(a: Seq<char>)
    ensures
        !lex_less(a, a),
    decreases a.len(),
{
    if a.len() > 0 {
        lemma_lex_irreflexive(a.drop_first());
    }
}

/// The lexicographic order is transitive.
pub proof fn lemma_lex_transitive(a: Seq<char>, b: Seq<char>, c: Seq<char>)
    requires
        lex_less(a, b),
        lex_less(b, c),
    ensures
        lex_less(a, c),
    decreases a.len(),
{
    if a.len() > 0 && b.len() > 0 && c.len() > 0 && a[0] == b[0] && b[0] == c[0] {
        lemma_lex_transitive(a.drop_first(), b.drop_first(), c.drop_first());
    }
}

/// Different characters have different code points.
proof fn lemma_char_code_injective(x: char, y: char)
    requires
        x != y,
    ensures
        (x as u32) != (y as u32),
{
}

/// Two different sequences are ordered one way or the other.
pub proof fn lemma_lex_total(a: Seq<char>, b: Seq<char>)
    ensures
        a == b || lex_less(a, b) || lex_less(b, a),
    decreases a.len(),
{
    if a.len() > 0 && b.len() > 0 {
        if a[0] == b[0] {
            lemma_lex_total(a.drop_first(), b.drop_first());
            if a.drop_first() == b.drop_first() {
                assert(a =~= seq![a[0]] + a.drop_first());
                assert(b =~= seq![b[0]] + b.drop_first());
            }
        } else {
            lemma_char_code_injective(a[0], b[0]);
        }
    } else if a.len() == 0 && b.len() == 0 {
        assert(a =~= b);
    }
}

/// The order is lexicographic: a proper prefix comes first, and otherwise the first
/// position where two sequences differ decides, by code point.
pub proof fn lemma_lex_first_difference(a: Seq<char>, b: Seq<char>, i: int)
    requires
        0 <= i <= a.len(),
        i <= b.len(),
        a.take(i) == b.take(i),
    ensures
        (i == a.len() && i < b.len()) ==> lex_less(a, b),
        (i < a.len() && i < b.len() && (a[i] as u32) < (b[i] as u32)) ==> lex_less(a, b),
        (i < a.len() && i < b.len() && (b[i] as u32) < (a[i] as u32)) ==> !lex_less(a, b),
        (i == b.len() && i <= a.len()) ==> !lex_less(a, b),
    decreases i,
{
    if i > 0 {
        assert(a[0] == a.take(i)[0]);
        assert(b[0] == b.take(i)[0]);
        assert(a.drop_first().take(i - 1) =~= a.take(i).drop_first());
        assert(b.drop_first().take(i - 1) =~= b.take(i).drop_first());
        lemma_lex_first_difference(a.drop_first(), b.drop_first(), i - 1);
    } else {
        if i < a.len() && i < b.len() && a[0] != b[0] {
            lemma_char_code_injective(a[0], b[0]);
        }
    }
}

/// `pat` occurs in `s` at index `i` (checked character by character).
fn matches_at(s: &Vec<char>, pat: &Vec<char>, i: usize) -> (res: bool)
    requires
        i + pat@.len() <= s@.len(),
    ensures
        res == (s@.subrange(i as int, i + pat@.len()) == pat@),
{
    let n: usize = s.len();
    let mut k: usize = 0;
    while k < pat.len()
        invariant
            n == s@.len(),
            k <= pat@.len(),
            i + pat@.len() <= s@.len(),
            forall|j: int| 0 <= j < k ==> s@[i + j] == pat@[j],
        decreases pat@.len() - k,
    {
        if s[i + k] != pat[k] {
            assert(s@.subrange(i as int, i + pat@.len())[k as int] != pat@[k as int]);
            return false;
        }
        k = k + 1;
    }
    assert(s@.subrange(i as int, i + pat@.len()) =~= pat@);
    true
}

/// The first index at which `pat` occurs in `s`.
pub fn find_chars(s: &Vec<char>, pat: &Vec<char>) -> (res: Option<usize>)
    ensures
        match res {
            Some(i) => find_first(s@, pat@) == Some(i as int),
            None => find_first(s@, pat@) is None,
        },
{
    if pat.len() > s.len() {
        return None;
    }
    let last: usize = s.len() - pat.len();
    let mut i: usize = 0;
    loop
        invariant
            last == s@.len() - pat@.len(),
            i <= last,
            find_first(s@, pat@) == find_from(s@, pat@, i as int),
        decreases last - i,
    {
        if matches_at(s, pat, i) {
            return Some(i);
        }
        if i == last {
            assert(find_from(s@, pat@, i + 1) is None);
            return None;
        }
        i = i + 1;
    }
}

/// `pat` is a contiguous part of `hay`.
pub fn str_contains(hay: &str, pat: &str) -> (res: bool)
    ensures
        res == contains_chars(hay@, pat@),
{
    let h = chars_of(hay);
    let p = chars_of(pat);
    find_chars(&h, &p).is_some()
}

/// `a` comes strictly before `b` in lexicographic order.
pub fn chars_less(a: &Vec<char>, b: &Vec<char>) -> (res: bool)
    ensures
        res == lex_less(a@, b@),
{
    let mut i: usize = 0;
    assert(a@.skip(0) =~= a@);
    assert(b@.skip(0) =~= b@);
    while i < a.len() && i < b.len()
        invariant
            i <= a@.len(),
            i <= b@.len(),
            lex_less(a@, b@) == lex_less(a@.skip(i as int), b@.skip(i as int)),
        decreases a@.len() - i,
    {
        if a[i] != b[i] {
            return (a[i] as u32) < (b[i] as u32);
        }
        assert(a@.skip(i as int).drop_first() =~= a@.skip(i + 1));
        assert(b@.skip(i as int).drop_first() =~= b@.skip(i + 1));
        i = i + 1;
    }
    i < b.len()
}

/// `a` comes strictly before `b` in lexicographic order (`a < b` on strings).
pub fn str_less(a: &str, b: &str) -> (res: bool)
    ensures
        res == lex_less(a@, b@),
{
    let x = chars_of(a);
    let y = chars_of(b);
    chars_less(&x, &y)
}

} // verus!
