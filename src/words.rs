//! Word lists: cleaning, splitting typed input and word files, and keeping
//! one word per lower-case spelling.
use vstd::prelude::*;

use crate::notes::strings_view;
use crate::payload::{lines_of, split_lines};
use crate::text::{chars_of, string_from_chars, trim_chars, trimmed};

verus! {

/// The words trimmed, blank ones dropped, order kept.
pub open spec fn normalized_words(ws: Seq<Seq<char>>) -> Seq<Seq<char>>
    decreases ws.len(),
{
    if ws.len() == 0 {
        Seq::empty()
    } else {
        let rest = normalized_words(ws.drop_last());
        let t = trimmed(ws.last());
        if t.len() == 0 {
            rest
        } else {
            rest.push(t)
        }
    }
}

/// The pieces of `s` between the separator characters `seps`: one more than
/// `s` has separators.
pub open spec fn split_at_any(s: Seq<char>, seps: Seq<char>) -> Seq<Seq<char>>
    decreases s.len(),
{
    if s.len() == 0 {
        seq![Seq::empty()]
    } else {
        let parts = split_at_any(s.drop_last(), seps);
        if seps.contains(s.last()) {
            parts.push(Seq::empty())
        } else {
            parts.update(parts.len() - 1, parts.last().push(s.last()))
        }
    }
}

/// The separators of typed input: `,`, `;`, line feed and carriage return.
pub open spec fn input_separators() -> Seq<char> {
    seq![',', ';', '\n', '\r']
}

/// The separators within a line of a word file: `,` and `;`.
pub open spec fn line_separators() -> Seq<char> {
    seq![',', ';']
}

/// The words of a word file's lines: each line trimmed; blank lines and
/// lines that start with `#` skipped; the others split at `,` and `;`, each
/// piece trimmed and blank pieces dropped.
pub open spec fn words_of_lines(ls: Seq<Seq<char>>) -> Seq<Seq<char>>
    decreases ls.len(),
{
    if ls.len() == 0 {
        Seq::empty()
    } else {
        let rest = words_of_lines(ls.drop_last());
        let t = trimmed(ls.last());
        if t.len() == 0 || t[0] == '#' {
            rest
        } else {
            rest + normalized_words(split_at_any(t, line_separators()))
        }
    }
}

/// The lower-case mapping of a string.
pub uninterp spec fn lowercase(s: Seq<char>) -> Seq<char>;

/// Relies on `str::to_lowercase`: the lower-case mapping of `s`, which
/// depends on the characters of `s` alone.
#[verifier::external_body]
fn lowercase_str(s: &str) -> (r: String)
    ensures
        r@ == lowercase(s@),
{
    s.to_lowercase()
}

/// Each word whose key (the key at the same position of `ks`) no earlier
/// word has, in order.
pub open spec fn first_of_each_key(ws: Seq<Seq<char>>, ks: Seq<Seq<char>>) -> Seq<Seq<char>>
    decreases ws.len(),
{
    if ws.len() == 0 {
        Seq::empty()
    } else {
        let rest = first_of_each_key(ws.drop_last(), ks);
        if exists|j: int| 0 <= j < ws.len() - 1 && #[trigger] ks[j] == ks[ws.len() - 1] {
            rest
        } else {
            rest.push(ws.last())
        }
    }
}

/// Each word whose lower-case spelling no earlier word shares, in order.
pub open spec fn first_of_each_spelling(ws: Seq<Seq<char>>) -> Seq<Seq<char>> {
    first_of_each_key(ws, ws.map_values(|w: Seq<char>| lowercase(w)))
}

/// The words trimmed, with blank ones dropped, in order.
pub fn normalize_words(words: Vec<String>) -> (r: Vec<String>)
    ensures
        strings_view(r@) == normalized_words(strings_view(words@)),
{
    let mut out: Vec<String> = Vec::new();
    let mut k: usize = 0;
    assert(strings_view(words@).take(0) =~= Seq::<Seq<char>>::empty());
    assert(strings_view(out@) =~= Seq::<Seq<char>>::empty());
    while k < words.len()
        invariant
            k <= words@.len(),
            strings_view(out@) == normalized_words(strings_view(words@).take(k as int)),
        decreases words.len() - k,
    {
        let chars = chars_of(words[k].as_str());
        let t = trim_chars(chars.as_slice());
        let ghost before = out@;
        let ghost prefix = strings_view(words@).take(k + 1);
        assert(prefix.drop_last() =~= strings_view(words@).take(k as int));
        assert(prefix.last() == words@[k as int]@);
        if t.len() > 0 {
            out.push(string_from_chars(t.as_slice()));
            assert(strings_view(out@) =~= strings_view(before).push(t@));
        }
        k = k + 1;
    }
    assert(strings_view(words@).take(k as int) =~= strings_view(words@));
    out
}

/// The pieces of `s` between the characters of `seps`.
fn split_chars_at_any(s: &[char], seps: &[char]) -> (r: Vec<String>)
    ensures
        strings_view(r@) == split_at_any(s@, seps@),
{
    let mut parts: Vec<String> = Vec::new();
    let mut current: Vec<char> = Vec::new();
    let mut i: usize = 0;
    assert(s@.take(0) =~= Seq::<char>::empty());
    assert(strings_view(parts@) =~= Seq::<Seq<char>>::empty());
    while i < s.len()
        invariant
            i <= s@.len(),
            split_at_any(s@.take(i as int), seps@).len() >= 1,
            strings_view(parts@) == split_at_any(s@.take(i as int), seps@).drop_last(),
            current@ == split_at_any(s@.take(i as int), seps@).last(),
        decreases s.len() - i,
    {
        let c = s[i];
        let ghost ps = split_at_any(s@.take(i as int), seps@);
        assert(s@.take(i + 1).drop_last() =~= s@.take(i as int));
        assert(s@.take(i + 1).last() == c);
        let mut is_sep = false;
        let mut m: usize = 0;
        while m < seps.len()
            invariant
                m <= seps@.len(),
                is_sep == exists|j: int| 0 <= j < m && #[trigger] seps@[j] == c,
            decreases seps.len() - m,
        {
            if seps[m] == c {
                is_sep = true;
            }
            m = m + 1;
        }
        if is_sep {
            let ghost before = strings_view(parts@);
            parts.push(string_from_chars(current.as_slice()));
            current = Vec::new();
            proof {
                let nps = ps.push(Seq::<char>::empty());
                assert(split_at_any(s@.take(i + 1), seps@) == nps);
                assert(strings_view(parts@) =~= before.push(ps.last()));
                assert(ps =~= ps.drop_last().push(ps.last()));
                assert(nps.drop_last() =~= ps);
                assert(current@ =~= nps.last());
            }
        } else {
            current.push(c);
            proof {
                let nps = ps.update(ps.len() - 1, ps.last().push(c));
                assert(split_at_any(s@.take(i + 1), seps@) == nps);
                assert(nps.drop_last() =~= ps.drop_last());
            }
        }
        i = i + 1;
    }
    assert(s@.take(s@.len() as int) =~= s@);
    let ghost before = strings_view(parts@);
    parts.push(string_from_chars(current.as_slice()));
    proof {
        let ps = split_at_any(s@, seps@);
        assert(strings_view(parts@) =~= before.push(current@));
        assert(ps =~= ps.drop_last().push(ps.last()));
    }
    parts
}

fn input_separator_chars() -> (r: Vec<char>)
    ensures
        r@ == input_separators(),
{
    let mut v: Vec<char> = Vec::new();
    v.push(',');
    v.push(';');
    v.push('\n');
    v.push('\r');
    assert(v@ =~= input_separators());
    v
}

fn line_separator_chars() -> (r: Vec<char>)
    ensures
        r@ == line_separators(),
{
    let mut v: Vec<char> = Vec::new();
    v.push(',');
    v.push(';');
    assert(v@ =~= line_separators());
    v
}

/// The words of typed input: split at `,`, `;`, line feeds and carriage
/// returns, trimmed, blank ones dropped.
pub fn split_input(input: &str) -> (r: Vec<String>)
    ensures
        strings_view(r@) == normalized_words(split_at_any(input@, input_separators())),
{
    let chars = chars_of(input);
    let seps = input_separator_chars();
    let parts = split_chars_at_any(chars.as_slice(), seps.as_slice());
    normalize_words(parts)
}

/// The words of a word file's text: blank lines and lines starting with `#`
/// (after trimming) skipped, the others split at `,` and `;`, each piece
/// trimmed and blank pieces dropped.
pub fn words_from_text(raw: &str) -> (r: Vec<String>)
    ensures
        strings_view(r@) == words_of_lines(lines_of(raw@)),
{
    let chars = chars_of(raw);
    let lines = split_lines(chars.as_slice());
    let seps = line_separator_chars();
    let mut out: Vec<String> = Vec::new();
    let mut k: usize = 0;
    assert(lines.deep_view().take(0) =~= Seq::<Seq<char>>::empty());
    assert(strings_view(out@) =~= Seq::<Seq<char>>::empty());
    while k < lines.len()
        invariant
            k <= lines@.len(),
            seps@ == line_separators(),
            strings_view(out@) == words_of_lines(lines.deep_view().take(k as int)),
        decreases lines.len() - k,
    {
        let ghost prefix = lines.deep_view().take(k + 1);
        assert(prefix.drop_last() =~= lines.deep_view().take(k as int));
        assert(prefix.last() == lines@[k as int].deep_view());
        assert(lines@[k as int].deep_view() =~= lines@[k as int]@);
        let t = trim_chars(lines[k].as_slice());
        if t.len() > 0 && t[0] != '#' {
            let pieces = split_chars_at_any(t.as_slice(), seps.as_slice());
            let mut words = normalize_words(pieces);
            let ghost before = out@;
            let ghost added = words@;
            out.append(&mut words);
            assert(strings_view(out@) =~= strings_view(before) + strings_view(added));
        }
        k = k + 1;
    }
    assert(lines.deep_view().take(k as int) =~= lines.deep_view());
    out
}

/// The words whose key (the key at the same position) no earlier word has,
/// in order.
pub fn keep_first_of_each_key(words: Vec<String>, keys: Vec<String>) -> (r: Vec<String>)
    requires
        keys@.len() == words@.len(),
    ensures
        strings_view(r@) == first_of_each_key(strings_view(words@), strings_view(keys@)),
{
    let ghost ws = strings_view(words@);
    let ghost ks = strings_view(keys@);
    let mut out: Vec<String> = Vec::new();
    let mut k: usize = 0;
    assert(ws.take(0) =~= Seq::<Seq<char>>::empty());
    assert(strings_view(out@) =~= Seq::<Seq<char>>::empty());
    while k < words.len()
        invariant
            k <= words@.len() == keys@.len(),
            ws == strings_view(words@),
            ks == strings_view(keys@),
            strings_view(out@) == first_of_each_key(ws.take(k as int), ks),
        decreases words.len() - k,
    {
        let mut dup = false;
        let mut m: usize = 0;
        while m < k
            invariant
                m <= k < keys@.len(),
                ks == strings_view(keys@),
                dup == exists|j: int| 0 <= j < m && #[trigger] ks[j] == ks[k as int],
            decreases k - m,
        {
            assert(ks[m as int] == keys@[m as int]@);
            assert(ks[k as int] == keys@[k as int]@);
            if keys[m] == keys[k] {
                dup = true;
            }
            m = m + 1;
        }
        let ghost prefix = ws.take(k + 1);
        assert(prefix.drop_last() =~= ws.take(k as int));
        assert(prefix.last() == ws[k as int]);
        if !dup {
            let ghost before = strings_view(out@);
            out.push(words[k].clone());
            assert(strings_view(out@) =~= before.push(ws[k as int]));
        }
        k = k + 1;
    }
    assert(ws.take(k as int) =~= ws);
    out
}

/// The words trimmed, blank ones dropped, and of the words that share a
/// lower-case spelling only the first kept, in order.
pub fn distinct_words(words: Vec<String>) -> (r: Vec<String>)
    ensures
        strings_view(r@) == first_of_each_spelling(normalized_words(strings_view(words@))),
{
    let normalized = normalize_words(words);
    let ghost ws = strings_view(normalized@);
    let mut keys: Vec<String> = Vec::new();
    let mut k: usize = 0;
    while k < normalized.len()
        invariant
            k <= normalized@.len(),
            ws == strings_view(normalized@),
            keys@.len() == k,
            forall|m: int| 0 <= m < k ==> (#[trigger] keys@[m])@ == lowercase(ws[m]),
        decreases normalized.len() - k,
    {
        keys.push(lowercase_str(normalized[k].as_str()));
        k = k + 1;
    }
    assert(strings_view(keys@) =~= ws.map_values(|w: Seq<char>| lowercase(w)));
    keep_first_of_each_key(normalized, keys)
}

} // verus!
