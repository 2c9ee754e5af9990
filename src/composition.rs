//! What composing a cloze sentence guarantees, stated over the composer's
//! spec functions and proved.
use vstd::prelude::*;

use crate::cloze::{
    brace_run_end, cloze_close, cloze_open, compose, digit_run_end, folded, has_cloze_opening,
    hint_separator, lemma_strip_without_opening, normalized_base, opens_cloze, prepend_strip,
    span_close, strip_from, with_hint, wrap_at, wrap_spec,
};
use crate::text::{
    contains, find_from, is_trimmed, lemma_find_from, lemma_find_from_least, lemma_trimmed_bounds,
    lemma_trimmed_fixed, lemma_trimmed_idempotent, occurs_at, trimmed,
};

verus! {

/// Wherever `{{c1::` stands, cloze markup opens.
proof fn lemma_marker_opens(t: Seq<char>, q: int)
    requires
        occurs_at(t, cloze_open(), q),
    ensures
        opens_cloze(t, q),
{
    let m = t.subrange(q, q + 6);
    assert(m[0] == t[q] && m[1] == t[q + 1] && m[2] == t[q + 2]);
    assert(m[3] == t[q + 3] && m[4] == t[q + 4] && m[5] == t[q + 5]);
    assert(brace_run_end(t, q + 2) == q + 2);
    assert(brace_run_end(t, q + 1) == q + 2);
    assert(brace_run_end(t, q) == q + 2);
    assert(digit_run_end(t, q + 4) == q + 4);
    assert(digit_run_end(t, q + 3) == q + 4);
}

/// Text without markup and without `{{c1::`.
proof fn lemma_no_marker(t: Seq<char>)
    requires
        !has_cloze_opening(t),
    ensures
        !contains(t, cloze_open()),
        forall|q: int| !occurs_at(t, cloze_open(), q),
{
    lemma_find_from(t, cloze_open(), 0);
    assert forall|q: int| !occurs_at(t, cloze_open(), q) by {
        if occurs_at(t, cloze_open(), q) {
            lemma_marker_opens(t, q);
        }
    }
}

/// The characters of `wrap_at(t, p, n)`, region by region.
proof fn lemma_wrap_at_index(t: Seq<char>, p: int, n: int, k: int)
    requires
        0 <= p,
        0 <= n,
        p + n <= t.len(),
        0 <= k < t.len() + 8,
    ensures
        wrap_at(t, p, n).len() == t.len() + 8,
        k < p ==> wrap_at(t, p, n)[k] == t[k],
        p <= k < p + 6 ==> wrap_at(t, p, n)[k] == cloze_open()[k - p],
        p + 6 <= k < p + 6 + n ==> wrap_at(t, p, n)[k] == t[k - 6],
        p + 6 + n <= k < p + 8 + n ==> wrap_at(t, p, n)[k] == '}',
        p + 8 + n <= k ==> wrap_at(t, p, n)[k] == t[k - 8],
{
}

/// In text without `{{c1::`, wrapping a stretch without `{` at `p` puts
/// `{{c1::` at `p` and nowhere else.
#[verifier::rlimit(60)]
proof fn lemma_marker_only_at(t: Seq<char>, p: int, n: int, q: int)
    requires
        0 <= p,
        0 <= n,
        p + n <= t.len(),
        forall|i: int| !occurs_at(t, cloze_open(), i),
        forall|k: int| p <= k < p + n ==> t[k] != '{',
        occurs_at(wrap_at(t, p, n), cloze_open(), q),
    ensures
        q == p,
{
    let r = wrap_at(t, p, n);
    let m = r.subrange(q, q + 6);
    assert(m[0] == r[q] && m[1] == r[q + 1]);
    lemma_wrap_at_index(t, p, n, q);
    lemma_wrap_at_index(t, p, n, q + 1);
    if q + 6 <= p {
        assert forall|j: int| 0 <= j < 6 implies #[trigger] t.subrange(q, q + 6)[j]
            == cloze_open()[j] by {
            lemma_wrap_at_index(t, p, n, q + j);
            assert(m[j] == r[q + j]);
        }
        assert(t.subrange(q, q + 6) =~= cloze_open());
        assert(occurs_at(t, cloze_open(), q));
    } else if q < p {
        lemma_wrap_at_index(t, p, n, p);
        lemma_wrap_at_index(t, p, n, p + 1);
        assert(m[p - q] == r[p]);
        if p - q < 5 {
            assert(m[p - q + 1] == r[p + 1]);
        }
    } else if q >= p + 8 + n {
        assert forall|j: int| 0 <= j < 6 implies #[trigger] t.subrange(q - 8, q - 2)[j]
            == cloze_open()[j] by {
            lemma_wrap_at_index(t, p, n, q + j);
            assert(m[j] == r[q + j]);
        }
        assert(t.subrange(q - 8, q - 2) =~= cloze_open());
        assert(occurs_at(t, cloze_open(), q - 8));
    }
}

/// Composing plain text without a hint wraps the first occurrence of the
/// word in the trimmed text.
proof fn lemma_compose_plain(s: Seq<char>, w: Seq<char>) -> (p: int)
    requires
        !has_cloze_opening(trimmed(s)),
        contains(trimmed(s), w),
    ensures
        find_from(trimmed(s), w, 0) == Some(p),
        occurs_at(trimmed(s), w, p),
        normalized_base(trimmed(s), w) == trimmed(s),
        wrap_spec(trimmed(s), w) == Some(wrap_at(trimmed(s), p, w.len() as int)),
        compose(s, w, None) == wrap_at(trimmed(s), p, w.len() as int),
{
    let t = trimmed(s);
    lemma_strip_without_opening(t, w, 0);
    if t.len() == 0 {
        assert(t =~= Seq::<char>::empty());
    } else {
        assert(t.subrange(0, t.len() as int) =~= t);
    }
    lemma_no_marker(t);
    lemma_find_from(t, w, 0);
    find_from(t, w, 0)->0
}

/// A sentence whose trimmed text holds no opening of cloze markup (so no
/// `{{c1::` either) and holds the word, composed without a hint, carries
/// exactly one `{{c1::`, at the returned position, and the text between it
/// and the next `}}` is the word, when the word holds no brace.
pub proof fn lemma_single_span(s: Seq<char>, w: Seq<char>) -> (p: int)
    requires
        !has_cloze_opening(trimmed(s)),
        contains(trimmed(s), w),
        forall|k: int| 0 <= k < w.len() ==> w[k] != '{' && w[k] != '}',
    ensures
        forall|q: int| occurs_at(compose(s, w, None), cloze_open(), q) <==> q == p,
        compose(s, w, None).subrange(p + 6, p + 6 + w.len()) == w,
        find_from(compose(s, w, None), cloze_close(), p + 6) == Some(p + 6 + w.len()),
{
    let t = trimmed(s);
    let n = w.len() as int;
    let p = lemma_compose_plain(s, w);
    let r = compose(s, w, None);
    assert(r == wrap_at(t, p, n));
    lemma_no_marker(t);
    assert(t.subrange(p, p + n) == w);
    assert forall|k: int| p <= k < p + n implies t[k] != '{' by {
        assert(t.subrange(p, p + n)[k - p] == t[k]);
    }
    assert forall|q: int| occurs_at(r, cloze_open(), q) implies q == p by {
        lemma_marker_only_at(t, p, n, q);
    }
    assert forall|q: int| q == p implies occurs_at(r, cloze_open(), q) by {
        assert forall|j: int| 0 <= j < 6 implies #[trigger] r.subrange(p, p + 6)[j]
            == cloze_open()[j] by {
            lemma_wrap_at_index(t, p, n, p + j);
        }
        assert(r.subrange(p, p + 6) =~= cloze_open());
    }
    assert forall|j: int| 0 <= j < n implies #[trigger] r.subrange(p + 6, p + 6 + n)[j] == w[j] by {
        lemma_wrap_at_index(t, p, n, p + 6 + j);
        assert(t.subrange(p, p + n)[j] == t[p + j]);
    }
    assert(r.subrange(p + 6, p + 6 + n) =~= w);
    assert forall|q: int| p + 6 <= q < p + 6 + n implies !occurs_at(r, cloze_close(), q) by {
        lemma_wrap_at_index(t, p, n, q);
        assert(t.subrange(p, p + n)[q - p - 6] == t[q - 6]);
        if occurs_at(r, cloze_close(), q) {
            assert(r.subrange(q, q + 2)[0] == r[q]);
        }
    }
    lemma_wrap_at_index(t, p, n, p + 6 + n);
    lemma_wrap_at_index(t, p, n, p + 7 + n);
    assert(r.subrange(p + 6 + n, p + 8 + n) =~= cloze_close());
    lemma_find_from_least(r, cloze_close(), p + 6, p + 6 + n);
    p
}

/// Normalization passes over a stretch without `{` unchanged.
proof fn lemma_strip_no_brace(r: Seq<char>, w: Seq<char>, i: int, j: int)
    requires
        0 <= i <= j <= r.len(),
        forall|k: int| i <= k < j ==> r[k] != '{',
    ensures
        strip_from(r, w, i) == prepend_strip(r.subrange(i, j), false, strip_from(r, w, j)),
    decreases j - i,
{
    if i == j {
        match strip_from(r, w, j) {
            Some(x) => {
                assert(r.subrange(i, j) + x.0 =~= x.0);
            },
            None => {},
        }
    } else {
        assert(!opens_cloze(r, i));
        lemma_strip_no_brace(r, w, i + 1, j);
        match strip_from(r, w, j) {
            Some(x) => {
                assert(seq![r[i]] + (r.subrange(i + 1, j) + x.0) =~= r.subrange(i, j) + x.0);
            },
            None => {},
        }
    }
}

/// The scan for a span's close passes over a stretch without braces.
proof fn lemma_span_close_no_brace(r: Seq<char>, i: int, j: int, depth: nat)
    requires
        0 <= i <= j <= r.len(),
        forall|k: int| i <= k < j ==> r[k] != '{' && r[k] != '}',
    ensures
        span_close(r, i, depth) == span_close(r, j, depth),
    decreases j - i,
{
    if i < j {
        lemma_span_close_no_brace(r, i + 1, j, depth);
    }
}

/// A wrapped brace-free text comes back whole from normalization, and
/// composing it again without a hint gives it back.
proof fn lemma_wrapped_is_fixed(t: Seq<char>, w: Seq<char>, p: int)
    requires
        0 <= p,
        p + w.len() <= t.len(),
        is_trimmed(t),
        t.len() > 0,
        forall|k: int| 0 <= k < t.len() ==> t[k] != '{' && t[k] != '}',
    ensures
        compose(wrap_at(t, p, w.len() as int), w, None) == wrap_at(t, p, w.len() as int),
{
    let n = w.len() as int;
    let r = wrap_at(t, p, n);
    // The wrapped text is trimmed already.
    lemma_wrap_at_index(t, p, n, 0);
    lemma_wrap_at_index(t, p, n, r.len() - 1);
    if p > 0 {
        assert(r[0] == t[0]);
    }
    if p + n < t.len() {
        assert(r.last() == t[t.len() - 1]);
    }
    assert(is_trimmed(r));
    lemma_trimmed_fixed(r);
    // Normalization keeps the well-formed span and everything around it.
    assert forall|k: int| 0 <= k < p implies r[k] != '{' by {
        lemma_wrap_at_index(t, p, n, k);
    }
    lemma_strip_no_brace(r, w, 0, p);
    assert forall|q: int| p + 2 <= q < p + 6 + n implies r[q] != '{' && r[q] != '}' by {
        lemma_wrap_at_index(t, p, n, q);
    }
    lemma_wrap_at_index(t, p, n, p);
    lemma_wrap_at_index(t, p, n, p + 1);
    lemma_wrap_at_index(t, p, n, p + 6 + n);
    lemma_wrap_at_index(t, p, n, p + 7 + n);
    assert forall|j: int| 0 <= j < 6 implies #[trigger] r.subrange(p, p + 6)[j] == cloze_open()[j] by {
        lemma_wrap_at_index(t, p, n, p + j);
    }
    assert(r.subrange(p, p + 6) =~= cloze_open());
    assert(occurs_at(r, cloze_open(), p));
    lemma_marker_opens(r, p);
    lemma_span_close_no_brace(r, p + 2, p + 6 + n, 2);
    assert(span_close(r, p + 1, 1) == span_close(r, p + 2, 2));
    assert(span_close(r, p + 6 + n, 2) == span_close(r, p + 7 + n, 1));
    assert(span_close(r, p + 1, 1) == Some(p + 8 + n));
    assert forall|k: int| p + 8 + n <= k < r.len() implies r[k] != '{' by {
        lemma_wrap_at_index(t, p, n, k);
    }
    lemma_strip_no_brace(r, w, p + 8 + n, r.len() as int);
    assert(strip_from(r, w, r.len() as int) == Some((Seq::<char>::empty(), false)));
    let tail = r.subrange(p + 8 + n, r.len() as int);
    assert(tail + Seq::<char>::empty() =~= tail);
    let span = r.subrange(p, p + 8 + n);
    assert(strip_from(r, w, p) == Some((span + tail, false)));
    assert(r.subrange(0, p) + (span + tail) =~= r);
    assert(strip_from(r, w, 0) == Some((r, false)));
    assert(normalized_base(trimmed(r), w) == r);
    assert forall|q: int| 0 <= q < p implies !occurs_at(r, cloze_open(), q) by {
        if occurs_at(r, cloze_open(), q) {
            assert(r.subrange(q, q + 6)[0] == r[q]);
            lemma_wrap_at_index(t, p, n, q);
        }
    }
    lemma_find_from_least(r, cloze_open(), 0, p);
    assert(contains(r, cloze_open()));
}

/// Composing without a hint a second time changes nothing, for a sentence
/// and a word without braces: whether the word was found exactly, found only
/// under lower-casing, or not found.
pub proof fn lemma_compose_idempotent(s: Seq<char>, w: Seq<char>)
    requires
        forall|k: int| 0 <= k < s.len() ==> s[k] != '{' && s[k] != '}',
        forall|k: int| 0 <= k < w.len() ==> w[k] != '{' && w[k] != '}',
    ensures
        compose(compose(s, w, None), w, None) == compose(s, w, None),
{
    let t = trimmed(s);
    let n = w.len() as int;
    let (a, b) = lemma_trimmed_bounds(s);
    lemma_trimmed_idempotent(s);
    assert forall|k: int| 0 <= k < t.len() implies t[k] != '{' && t[k] != '}' by {
        assert(t[k] == s[a + k]);
    }
    assert(!has_cloze_opening(t)) by {
        if has_cloze_opening(t) {
            let i = choose|i: int| opens_cloze(t, i);
            assert(t[i] == '{');
        }
    }
    lemma_strip_without_opening(t, w, 0);
    if t.len() == 0 {
        assert(t =~= Seq::<char>::empty());
    } else {
        assert(t.subrange(0, t.len() as int) =~= t);
    }
    assert(normalized_base(t, w) == t);
    lemma_no_marker(t);
    lemma_find_from(t, w, 0);
    lemma_find_from(folded(t), folded(w), 0);
    match wrap_spec(t, w) {
        None => {
            assert(compose(s, w, None) == t);
        },
        Some(r) => {
            let p = match find_from(t, w, 0) {
                Some(q) => q,
                None => find_from(folded(t), folded(w), 0)->0,
            };
            assert(r == wrap_at(t, p, n));
            assert(p + n <= t.len());
            if t.len() == 0 {
                assert(w.len() == 0);
                assert(r =~= cloze_open() + cloze_close());
                assert(r.subrange(0, 6) =~= cloze_open());
                lemma_marker_opens(r, 0);
                assert(span_close(r, 1, 1) == span_close(r, 2, 2));
                assert(r[2] == 'c' && r[3] == '1' && r[4] == ':' && r[5] == ':');
                assert(r[6] == '}' && r[7] == '}');
                assert(span_close(r, 7, 1) == Some(8int));
                assert(span_close(r, 6, 2) == Some(8int));
                assert(span_close(r, 5, 2) == Some(8int));
                assert(span_close(r, 4, 2) == Some(8int));
                assert(span_close(r, 3, 2) == Some(8int));
                assert(span_close(r, 2, 2) == Some(8int));
                assert(strip_from(r, w, 8int) == Some((Seq::<char>::empty(), false)));
                assert(r.subrange(0, 8) + Seq::<char>::empty() =~= r);
                assert(strip_from(r, w, 0) == Some((r, false)));
                assert(is_trimmed(r));
                lemma_trimmed_fixed(r);
                lemma_find_from_least(r, cloze_open(), 0, 0);
            } else {
                lemma_wrapped_is_fixed(t, w, p);
            }
        },
    }
}

/// A span that carries a hint already keeps it: merging another hint
/// changes nothing.
pub proof fn lemma_hint_kept(s: Seq<char>, h: Seq<char>, st: int, e: int)
    requires
        find_from(s, cloze_open(), 0) == Some(st),
        find_from(s, cloze_close(), st + 6) == Some(e),
        contains(s.subrange(st + 6, e), hint_separator()),
    ensures
        with_hint(s, h) == s,
{
}

/// When the word is found only under lower-casing, the span holds the
/// sentence's own characters, exactly as many as the word has, and the text
/// around it is kept.
pub proof fn lemma_folded_span(s: Seq<char>, w: Seq<char>) -> (p: int)
    requires
        !contains(s, cloze_open()),
        !contains(s, w),
        contains(folded(s), folded(w)),
    ensures
        wrap_spec(s, w) == Some(wrap_at(s, p, w.len() as int)),
        0 <= p && p + w.len() <= s.len(),
        wrap_at(s, p, w.len() as int).subrange(p + 6, p + 6 + w.len()) == s.subrange(
            p,
            p + w.len(),
        ),
        folded(s.subrange(p, p + w.len())) == folded(w),
        wrap_at(s, p, w.len() as int).take(p) == s.take(p),
        wrap_at(s, p, w.len() as int).skip(p + 8 + w.len()) == s.skip(p + w.len()),
{
    lemma_find_from(folded(s), folded(w), 0);
    let p = find_from(folded(s), folded(w), 0)->0;
    let n = w.len() as int;
    assert(folded(s).subrange(p, p + n) =~= folded(s.subrange(p, p + n)));
    let r = wrap_at(s, p, n);
    assert(r.subrange(p + 6, p + 6 + n) =~= s.subrange(p, p + n));
    assert(r.take(p) =~= s.take(p));
    assert(r.skip(p + 8 + n) =~= s.skip(p + n));
    p
}

} // verus!
