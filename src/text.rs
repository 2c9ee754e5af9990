//! Character-level helpers shared by the cloze engine, the payload extractor
//! and the note builders. Strings are modelled by their views, sequences of
//! Unicode scalar values.
use vstd::prelude::*;

verus! {

/// Whether `c` has the Unicode `White_Space` property: U+0009 to U+000D,
/// the space, U+0085, U+00A0, U+1680, U+2000 to U+200A, U+2028, U+2029,
/// U+202F, U+205F and U+3000.
pub open spec fn white_space(c: char) -> bool {
    let u = c as u32;
    ||| 0x9 <= u <= 0xD
    ||| u == 0x20
    ||| u == 0x85
    ||| u == 0xA0
    ||| u == 0x1680
    ||| 0x2000 <= u <= 0x200A
    ||| u == 0x2028
    ||| u == 0x2029
    ||| u == 0x202F
    ||| u == 0x205F
    ||| u == 0x3000
}

/// Whether `c` has the Unicode `White_Space` property, as `char::is_whitespace`
/// tells it.
pub fn is_white(c: char) -> (r: bool)
    ensures
        r == white_space(c),
{
    let u = c as u32;
    (0x9 <= u && u <= 0xD) || u == 0x20 || u == 0x85 || u == 0xA0 || u == 0x1680 || (0x2000 <= u
        && u <= 0x200A) || u == 0x2028 || u == 0x2029 || u == 0x202F || u == 0x205F || u == 0x3000
}

/// Relies on `String: FromIterator<&char>`: the string holds the given
/// characters, in order.
#[verifier::external_body]
pub(crate) fn string_from_chars(v: &[char]) -> (r: String)
    ensures
        r@ == v@,
{
    v.iter().collect()
}

/// The characters of `s`, in order.
pub fn chars_of(s: &str) -> (r: Vec<char>)
    ensures
        r@ == s@,
{
    let mut out: Vec<char> = Vec::new();
    for c in it: s.chars()
        invariant
            out@ == it.seq().take(it.index() as int),
            it.seq() == s@,
    {
        out.push(c);
    }
    out
}

/// `s` without its leading and trailing white space.
pub open spec fn trimmed(s: Seq<char>) -> Seq<char>
    decreases s.len(),
{
    if s.len() > 0 && white_space(s[0]) {
        trimmed(s.drop_first())
    } else if s.len() > 0 && white_space(s.last()) {
        trimmed(s.drop_last())
    } else {
        s
    }
}

/// `w` is `trimmed` already: it neither starts nor ends with white space.
pub open spec fn is_trimmed(w: Seq<char>) -> bool {
    w.len() > 0 ==> !white_space(w[0]) && !white_space(w.last())
}

/// Bounds `a..b` with `trimmed(s) == s.subrange(a, b)`.
pub proof fn lemma_trimmed_bounds(s: Seq<char>) -> (ab: (int, int))
    ensures
        0 <= ab.0 <= ab.1 <= s.len(),
        trimmed(s) == s.subrange(ab.0, ab.1),
        forall|k: int| 0 <= k < ab.0 ==> white_space(#[trigger] s[k]),
        forall|k: int| ab.1 <= k < s.len() ==> white_space(#[trigger] s[k]),
        is_trimmed(trimmed(s)),
    decreases s.len(),
{
    if s.len() > 0 && white_space(s[0]) {
        let (a, b) = lemma_trimmed_bounds(s.drop_first());
        assert(s.drop_first().subrange(a, b) =~= s.subrange(a + 1, b + 1));
        assert forall|k: int| 0 <= k < a + 1 implies white_space(#[trigger] s[k]) by {
            if k > 0 {
                assert(s[k] == s.drop_first()[k - 1]);
            }
        }
        assert forall|k: int| b + 1 <= k < s.len() implies white_space(#[trigger] s[k]) by {
            assert(s[k] == s.drop_first()[k - 1]);
        }
        (a + 1, b + 1)
    } else if s.len() > 0 && white_space(s.last()) {
        let (a, b) = lemma_trimmed_bounds(s.drop_last());
        assert(s.drop_last().subrange(a, b) =~= s.subrange(a, b));
        assert forall|k: int| 0 <= k < a implies white_space(#[trigger] s[k]) by {
            assert(s[k] == s.drop_last()[k]);
        }
        assert forall|k: int| b <= k < s.len() implies white_space(#[trigger] s[k]) by {
            if k < s.len() - 1 {
                assert(s[k] == s.drop_last()[k]);
            }
        }
        (a, b)
    } else {
        assert(s.subrange(0, s.len() as int) =~= s);
        (0, s.len() as int)
    }
}

/// A sequence that is trimmed already stays as it is.
pub proof fn lemma_trimmed_fixed(s: Seq<char>)
    requires
        is_trimmed(s),
    ensures
        trimmed(s) == s,
{
}

/// Trimming twice is trimming once.
pub proof fn lemma_trimmed_idempotent(s: Seq<char>)
    ensures
        trimmed(trimmed(s)) == trimmed(s),
{
    lemma_trimmed_bounds(s);
    lemma_trimmed_fixed(trimmed(s));
}

/// `v` without its leading and trailing white space.
pub fn trim_chars(v: &[char]) -> (r: Vec<char>)
    ensures
        r@ == trimmed(v@),
{
    let n = v.len();
    let mut i: usize = 0;
    assert(v@.subrange(0, n as int) =~= v@);
    while i < n && is_white(v[i])
        invariant
            i <= n == v@.len(),
            trimmed(v@) == trimmed(v@.subrange(i as int, n as int)),
        decreases n - i,
    {
        assert(v@.subrange(i as int, n as int).drop_first() =~= v@.subrange(i + 1, n as int));
        i = i + 1;
    }
    let mut j: usize = n;
    while j > i && is_white(v[j - 1])
        invariant
            i <= j <= n == v@.len(),
            trimmed(v@) == trimmed(v@.subrange(i as int, j as int)),
            i < j ==> !white_space(v@[i as int]),
        decreases j - i,
    {
        let ghost sub = v@.subrange(i as int, j as int);
        assert(sub.drop_last() =~= v@.subrange(i as int, j - 1));
        assert(sub[0] == v@[i as int]);
        j = j - 1;
    }
    let mut out: Vec<char> = Vec::new();
    let mut k: usize = i;
    while k < j
        invariant
            i <= k <= j <= n == v@.len(),
            out@ == v@.subrange(i as int, k as int),
        decreases j - k,
    {
        out.push(v[k]);
        k = k + 1;
        assert(out@ =~= v@.subrange(i as int, k as int));
    }
    proof {
        let sub = v@.subrange(i as int, j as int);
        if sub.len() > 0 {
            assert(sub[0] == v@[i as int]);
            assert(sub.last() == v@[j - 1]);
        }
    }
    out
}

/// `s` without its leading and trailing white space.
pub fn trim_str(s: &str) -> (r: String)
    ensures
        r@ == trimmed(s@),
{
    let v = chars_of(s);
    let t = trim_chars(v.as_slice());
    string_from_chars(t.as_slice())
}

/// `w` stands in `s` at position `p`.
pub open spec fn occurs_at<A>(s: Seq<A>, w: Seq<A>, p: int) -> bool {
    0 <= p && p + w.len() <= s.len() && s.subrange(p, p + w.len()) == w
}

/// The first position at or after `i` where `w` stands in `s`.
pub open spec fn find_from<A>(s: Seq<A>, w: Seq<A>, i: int) -> Option<int>
    decreases s.len() + 1 - i,
{
    if i < 0 || i + w.len() > s.len() {
        None
    } else if occurs_at(s, w, i) {
        Some(i)
    } else {
        find_from(s, w, i + 1)
    }
}

/// `w` stands somewhere in `s`.
pub open spec fn contains<A>(s: Seq<A>, w: Seq<A>) -> bool {
    find_from(s, w, 0) is Some
}

/// What `find_from` returns: the least position of an occurrence at or after `i`.
pub proof fn lemma_find_from<A>(s: Seq<A>, w: Seq<A>, i: int)
    requires
        0 <= i,
    ensures
        match find_from(s, w, i) {
            Some(p) => i <= p && occurs_at(s, w, p) && forall|q: int|
                i <= q < p ==> !occurs_at(s, w, q),
            None => forall|q: int| i <= q ==> !occurs_at(s, w, q),
        },
    decreases s.len() + 1 - i,
{
    if i + w.len() > s.len() {
    } else if occurs_at(s, w, i) {
    } else {
        lemma_find_from(s, w, i + 1);
    }
}

/// The search finds the least occurrence at or after `i`.
pub proof fn lemma_find_from_least<A>(s: Seq<A>, w: Seq<A>, i: int, p: int)
    requires
        0 <= i <= p,
        occurs_at(s, w, p),
        forall|q: int| i <= q < p ==> !occurs_at(s, w, q),
    ensures
        find_from(s, w, i) == Some(p),
    decreases p - i,
{
    if i < p {
        lemma_find_from_least(s, w, i + 1, p);
    }
}

/// Whether `w` stands in `s` at position `p`.
pub fn chars_match_at(s: &[char], w: &[char], p: usize) -> (r: bool)
    ensures
        r == occurs_at(s@, w@, p as int),
{
    if p > s.len() || w.len() > s.len() - p {
        return false;
    }
    let mut k: usize = 0;
    while k < w.len()
        invariant
            s.len() == s@.len(),
            w.len() == w@.len(),
            p + w@.len() <= s@.len(),
            k <= w@.len(),
            s@.subrange(p as int, p + k) == w@.take(k as int),
        decreases w.len() - k,
    {
        if s[p + k] != w[k] {
            assert(s@.subrange(p as int, p + w@.len())[k as int] == s@[p + k]);
            return false;
        }
        k = k + 1;
        assert(s@.subrange(p as int, p + k) =~= w@.take(k as int));
    }
    assert(w@.take(k as int) =~= w@);
    true
}

/// The first position at or after `from` where `w` stands in `s`.
pub fn find_chars(s: &[char], w: &[char], from: usize) -> (r: Option<usize>)
    ensures
        r matches Some(p) ==> find_from(s@, w@, from as int) == Some(p as int),
        r is None ==> find_from(s@, w@, from as int) is None,
{
    let mut i: usize = from;
    while i <= s.len() && w.len() <= s.len() - i
        invariant
            from <= i,
            find_from(s@, w@, from as int) == find_from(s@, w@, i as int),
        decreases s.len() + 1 - i,
    {
        if chars_match_at(s, w, i) {
            return Some(i);
        }
        proof {
            if w@.len() == 0 {
                assert(s@.subrange(i as int, i as int) =~= w@);
            }
        }
        i = i + 1;
    }
    None
}

/// Whether `w` stands somewhere in `s`.
pub fn contains_chars(s: &[char], w: &[char]) -> (r: bool)
    ensures
        r == contains(s@, w@),
{
    find_chars(s, w, 0).is_some()
}

/// The code of `c`, with ASCII upper-case letters mapped to lower case.
pub open spec fn ascii_fold(c: char) -> u32 {
    if 'A' <= c <= 'Z' {
        (c as u32 + 32) as u32
    } else {
        c as u32
    }
}

/// `a` and `b` are equal when ASCII letters are compared without case.
pub open spec fn eq_ignore_ascii_case(a: Seq<char>, b: Seq<char>) -> bool {
    a.len() == b.len() && forall|k: int| 0 <= k < a.len() ==> ascii_fold(a[k]) == ascii_fold(b[k])
}

/// Whether `a` and `b` are equal when ASCII letters are compared without case.
pub fn chars_eq_ignore_ascii_case(a: &[char], b: &[char]) -> (r: bool)
    ensures
        r == eq_ignore_ascii_case(a@, b@),
{
    if a.len() != b.len() {
        return false;
    }
    let mut k: usize = 0;
    while k < a.len()
        invariant
            a@.len() == b@.len(),
            k <= a@.len(),
            forall|m: int| 0 <= m < k ==> ascii_fold(a@[m]) == ascii_fold(b@[m]),
        decreases a.len() - k,
    {
        let x = a[k];
        let y = b[k];
        let fx: u32 = if 'A' <= x && x <= 'Z' { x as u32 + 32 } else { x as u32 };
        let fy: u32 = if 'A' <= y && y <= 'Z' { y as u32 + 32 } else { y as u32 };
        if fx != fy {
            return false;
        }
        k = k + 1;
    }
    true
}

/// Whether `a` and `b` hold the same characters.
pub fn same_chars(a: &[char], b: &[char]) -> (r: bool)
    ensures
        r == (a@ == b@),
{
    if a.len() != b.len() {
        return false;
    }
    let r = chars_match_at(a, b, 0);
    assert(a@.subrange(0, a@.len() as int) =~= a@);
    r
}

/// Appends `src[from..to]` to `out`.
pub fn extend_range(out: &mut Vec<char>, src: &[char], from: usize, to: usize)
    requires
        from <= to <= src@.len(),
    ensures
        final(out)@ == old(out)@ + src@.subrange(from as int, to as int),
{
    let ghost before = old(out)@;
    let mut k: usize = from;
    while k < to
        invariant
            from <= k <= to <= src@.len(),
            out@ == before + src@.subrange(from as int, k as int),
        decreases to - k,
    {
        out.push(src[k]);
        k = k + 1;
        assert(out@ =~= before + src@.subrange(from as int, k as int));
    }
}

/// Appends all of `src` to `out`.
pub fn extend_all(out: &mut Vec<char>, src: &[char])
    ensures
        final(out)@ == old(out)@ + src@,
{
    extend_range(out, src, 0, src.len());
    assert(src@.subrange(0, src@.len() as int) =~= src@);
}

} // verus!
