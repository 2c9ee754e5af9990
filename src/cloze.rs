//! The cloze composer: normalizes markup that a generated sentence already
//! carries, wraps the target word in `{{c1::...}}`, and merges a hint into the
//! span.
use vstd::prelude::*;

use crate::text::{
    chars_of, contains, contains_chars, extend_all, extend_range, find_chars, find_from,
    chars_match_at, lemma_find_from, occurs_at, same_chars, string_from_chars, trim_chars, trimmed,
};

verus! {

/// The opening of a first-deletion span, `{{c1::`.
pub open spec fn cloze_open() -> Seq<char> {
    seq!['{', '{', 'c', '1', ':', ':']
}

/// The closing of a span, `}}`.
pub open spec fn cloze_close() -> Seq<char> {
    seq!['}', '}']
}

/// The separator between answer and hint, `::`.
pub open spec fn hint_separator() -> Seq<char> {
    seq![':', ':']
}

/// `c` is one of the ASCII digits `0` to `9`.
pub open spec fn is_ascii_digit(c: char) -> bool {
    '0' <= c <= '9'
}

/// The first index at or after `i` that does not hold `{`.
pub open spec fn brace_run_end(s: Seq<char>, i: int) -> int
    decreases s.len() - i,
{
    if 0 <= i < s.len() && s[i] == '{' {
        brace_run_end(s, i + 1)
    } else {
        i
    }
}

/// The first index at or after `i` that does not hold an ASCII digit.
pub open spec fn digit_run_end(s: Seq<char>, i: int) -> int
    decreases s.len() - i,
{
    if 0 <= i < s.len() && is_ascii_digit(s[i]) {
        digit_run_end(s, i + 1)
    } else {
        i
    }
}

/// A span of cloze markup opens at `i`: a run of `{`, then `c` or `C`, then
/// ASCII digits, then `::`.
pub open spec fn opens_cloze(s: Seq<char>, i: int) -> bool {
    let j = brace_run_end(s, i);
    let k = digit_run_end(s, j + 1);
    &&& 0 <= i < s.len()
    &&& s[i] == '{'
    &&& j < s.len()
    &&& (s[j] == 'c' || s[j] == 'C')
    &&& k + 1 < s.len()
    &&& s[k] == ':'
    &&& s[k + 1] == ':'
}

/// `s` holds an opening of cloze markup somewhere.
pub open spec fn has_cloze_opening(s: Seq<char>) -> bool {
    exists|i: int| opens_cloze(s, i)
}

/// Scanning from `i` with `depth` braces open, the index just past the `}`
/// that closes the outermost one; `None` when the text ends first.
pub open spec fn span_close(s: Seq<char>, i: int, depth: nat) -> Option<int>
    decreases s.len() - i,
{
    if i < 0 || i >= s.len() {
        None
    } else if s[i] == '{' {
        span_close(s, i + 1, depth + 1)
    } else if s[i] == '}' {
        if depth <= 1 {
            Some(i + 1)
        } else {
            span_close(s, i + 1, (depth - 1) as nat)
        }
    } else {
        span_close(s, i + 1, depth)
    }
}

/// A span closes, if at all, after the index the scan starts from.
pub proof fn lemma_span_close_after(s: Seq<char>, i: int, depth: nat)
    ensures
        span_close(s, i, depth) matches Some(e) ==> i < e <= s.len(),
    decreases s.len() - i,
{
    if i < 0 || i >= s.len() {
    } else if s[i] == '{' {
        lemma_span_close_after(s, i + 1, depth + 1);
    } else if s[i] == '}' {
        if depth > 1 {
            lemma_span_close_after(s, i + 1, (depth - 1) as nat);
        }
    } else {
        lemma_span_close_after(s, i + 1, depth);
    }
}

/// Normalization of `s` from index `i` on: each closed span of markup that
/// opens otherwise than with exactly `{{c1::` is replaced by `w`, and a span
/// that opens with exactly `{{c1::` is kept as it stands, through its close;
/// the rewritten text and whether a span was replaced, or `None` when a span
/// opens and never closes.
pub open spec fn strip_from(s: Seq<char>, w: Seq<char>, i: int) -> Option<(Seq<char>, bool)>
    decreases s.len() - i via strip_from_decreases
{
    if i < 0 || i >= s.len() {
        Some((Seq::empty(), false))
    } else if opens_cloze(s, i) {
        match span_close(s, i + 1, 1) {
            None => None,
            Some(e) => match strip_from(s, w, e) {
                None => None,
                Some(rest) => if occurs_at(s, cloze_open(), i) {
                    Some((s.subrange(i, e) + rest.0, rest.1))
                } else {
                    Some((w + rest.0, true))
                },
            },
        }
    } else {
        match strip_from(s, w, i + 1) {
            None => None,
            Some(rest) => Some((seq![s[i]] + rest.0, rest.1)),
        }
    }
}

#[via_fn]
proof fn strip_from_decreases(s: Seq<char>, w: Seq<char>, i: int) {
    if 0 <= i < s.len() && opens_cloze(s, i) {
        lemma_span_close_after(s, i + 1, 1);
    }
}

/// `pre` put in front of a partial normalization result.
pub open spec fn prepend_strip(pre: Seq<char>, replaced: bool, r: Option<(Seq<char>, bool)>) -> Option<
    (Seq<char>, bool),
> {
    match r {
        None => None,
        Some(x) => Some((pre + x.0, replaced || x.1)),
    }
}

/// The text that wrapping starts from: `s` with its closed spans replaced by
/// `w`, or `s` itself when it holds none or a span never closes.
pub open spec fn normalized_base(s: Seq<char>, w: Seq<char>) -> Seq<char> {
    match strip_from(s, w, 0) {
        Some(x) => x.0,
        None => s,
    }
}

/// Without an opening of markup, normalization replaces nothing.
pub proof fn lemma_strip_without_opening(s: Seq<char>, w: Seq<char>, i: int)
    requires
        0 <= i,
        !has_cloze_opening(s),
    ensures
        i < s.len() ==> strip_from(s, w, i) == Some((s.subrange(i, s.len() as int), false)),
        i >= s.len() ==> strip_from(s, w, i) == Some((Seq::<char>::empty(), false)),
    decreases s.len() - i,
{
    if i < s.len() {
        assert(!opens_cloze(s, i));
        lemma_strip_without_opening(s, w, i + 1);
        assert(seq![s[i]] + s.subrange(i + 1, s.len() as int) =~= s.subrange(i, s.len() as int));
        if i + 1 >= s.len() {
            assert(seq![s[i]] + Seq::<char>::empty() =~= s.subrange(i, s.len() as int));
        }
    }
}

/// What normalizing existing cloze markup found.
#[derive(Debug, Clone, PartialEq, Eq)]
pub enum MarkupScan {
    /// The text holds no cloze markup to replace.
    NoMarkup,
    /// Every span closed and at least one was replaced; the rewritten text.
    Replaced(String),
    /// A span opens and never closes; nothing is rewritten.
    Unclosed,
}

/// Index past the run of `{` that starts at `i`.
fn brace_run_end_at(s: &[char], i: usize) -> (r: usize)
    requires
        i <= s@.len(),
    ensures
        r as int == brace_run_end(s@, i as int),
        i <= r <= s@.len(),
{
    let mut j: usize = i;
    while j < s.len() && s[j] == '{'
        invariant
            i <= j <= s@.len(),
            brace_run_end(s@, i as int) == brace_run_end(s@, j as int),
        decreases s.len() - j,
    {
        j = j + 1;
    }
    j
}

/// Index past the run of ASCII digits that starts at `i`.
fn digit_run_end_at(s: &[char], i: usize) -> (r: usize)
    requires
        i <= s@.len(),
    ensures
        r as int == digit_run_end(s@, i as int),
        i <= r <= s@.len(),
{
    let mut j: usize = i;
    while j < s.len() && '0' <= s[j] && s[j] <= '9'
        invariant
            i <= j <= s@.len(),
            digit_run_end(s@, i as int) == digit_run_end(s@, j as int),
        decreases s.len() - j,
    {
        j = j + 1;
    }
    j
}

/// Whether a span of cloze markup opens at `i`.
fn opens_cloze_at(s: &[char], i: usize) -> (r: bool)
    requires
        i < s@.len(),
    ensures
        r == opens_cloze(s@, i as int),
{
    if s[i] != '{' {
        return false;
    }
    let j = brace_run_end_at(s, i);
    if j >= s.len() || (s[j] != 'c' && s[j] != 'C') {
        return false;
    }
    let k = digit_run_end_at(s, j + 1);
    k < s.len() && s.len() - k > 1 && s[k] == ':' && s[k + 1] == ':'
}

/// The index just past the `}` that closes the span opened by the `{` at `i`.
fn span_close_at(s: &[char], i: usize) -> (r: Option<usize>)
    requires
        i < s.len(),
        s@[i as int] == '{',
    ensures
        r matches Some(e) ==> span_close(s@, i + 1, 1) == Some(e as int),
        r is None ==> span_close(s@, i + 1, 1) is None,
{
    let mut cursor: usize = i + 1;
    let mut depth: usize = 1;
    while cursor < s.len()
        invariant
            i < cursor <= s@.len(),
            1 <= depth <= cursor - i,
            span_close(s@, i + 1, 1) == span_close(s@, cursor as int, depth as nat),
        decreases s.len() - cursor,
    {
        let c = s[cursor];
        if c == '{' {
            depth = depth + 1;
        } else if c == '}' {
            if depth == 1 {
                return Some(cursor + 1);
            }
            depth = depth - 1;
        }
        cursor = cursor + 1;
    }
    None
}

/// Normalizes cloze markup that `sentence` already carries: each span opened
/// by a run of `{`, `c` or `C`, digits and `::`, and closed where the brace
/// depth returns to zero, is replaced by `replacement`, unless it opens with
/// exactly `{{c1::`: such a span is well formed and is kept with its hint. A
/// span that never closes leaves the sentence as it is.
pub fn strip_existing_cloze_markup(sentence: &str, replacement: &str) -> (r: MarkupScan)
    ensures
        match r {
            MarkupScan::NoMarkup => strip_from(sentence@, replacement@, 0) == Some(
                (sentence@, false),
            ),
            MarkupScan::Replaced(t) => strip_from(sentence@, replacement@, 0) == Some((t@, true)),
            MarkupScan::Unclosed => strip_from(sentence@, replacement@, 0) is None,
        },
{
    let chars = chars_of(sentence);
    let word = chars_of(replacement);
    let s = chars.as_slice();
    let mut result: Vec<char> = Vec::new();
    let mut index: usize = 0;
    let mut replaced = false;
    while index < s.len()
        invariant
            s@ == sentence@,
            word@ == replacement@,
            index <= s@.len(),
            strip_from(s@, word@, 0) == prepend_strip(
                result@,
                replaced,
                strip_from(s@, word@, index as int),
            ),
            !replaced ==> result@ == s@.take(index as int),
        decreases s.len() - index,
    {
        if opens_cloze_at(s, index) {
            match span_close_at(s, index) {
                Some(end) => {
                    let open = cloze_open_chars();
                    if chars_match_at(s, open.as_slice(), index) {
                        proof {
                            lemma_span_close_after(s@, index + 1, 1);
                            match strip_from(s@, word@, end as int) {
                                Some(x) => {
                                    assert(result@ + (s@.subrange(index as int, end as int) + x.0)
                                        =~= (result@ + s@.subrange(index as int, end as int)) + x.0);
                                },
                                None => {},
                            }
                        }
                        extend_range(&mut result, s, index, end);
                        assert(!replaced ==> result@ =~= s@.take(end as int));
                        index = end;
                        continue;
                    }
                    proof {
                        lemma_span_close_after(s@, index + 1, 1);
                        match strip_from(s@, word@, end as int) {
                            Some(x) => {
                                assert(result@ + (word@ + x.0) =~= (result@ + word@) + x.0);
                            },
                            None => {},
                        }
                    }
                    let mut k: usize = 0;
                    let ghost before = result@;
                    while k < word.len()
                        invariant
                            k <= word@.len(),
                            result@ == before + word@.take(k as int),
                        decreases word.len() - k,
                    {
                        result.push(word[k]);
                        k = k + 1;
                        assert(result@ =~= before + word@.take(k as int));
                    }
                    assert(word@.take(k as int) =~= word@);
                    index = end;
                    replaced = true;
                },
                None => {
                    return MarkupScan::Unclosed;
                },
            }
        } else {
            proof {
                match strip_from(s@, word@, index + 1) {
                    Some(x) => {
                        assert(result@ + (seq![s@[index as int]] + x.0) =~= result@.push(
                            s@[index as int],
                        ) + x.0);
                    },
                    None => {},
                }
            }
            result.push(s[index]);
            index = index + 1;
            assert(!replaced ==> result@ =~= s@.take(index as int));
        }
    }
    assert(result@ + Seq::<char>::empty() =~= result@);
    if replaced {
        MarkupScan::Replaced(string_from_chars(result.as_slice()))
    } else {
        assert(s@.take(s@.len() as int) =~= s@);
        MarkupScan::NoMarkup
    }
}

/// The lower-case mapping of one character (one or more characters).
pub uninterp spec fn lower_char(c: char) -> Seq<char>;

/// Relies on `char::to_lowercase`: the characters of the lower-case mapping of
/// `c`, which depends on `c` alone.
#[verifier::external_body]
fn lowercase_char(c: char) -> (r: Vec<char>)
    ensures
        r@ == lower_char(c),
{
    c.to_lowercase().collect()
}

/// `s` with each character replaced by its lower-case mapping; positions
/// stay those of `s`.
pub open spec fn folded(s: Seq<char>) -> Seq<Seq<char>> {
    s.map_values(|c: char| lower_char(c))
}

/// `s` with `{{c1::` spliced in before position `p` and `}}` after the `n`
/// characters that follow it.
pub open spec fn wrap_at(s: Seq<char>, p: int, n: int) -> Seq<char> {
    s.take(p) + cloze_open() + s.subrange(p, p + n) + cloze_close() + s.skip(p + n)
}

/// Wrapping `w` in `s`: `s` itself when it holds `{{c1::` already; else the
/// first exact occurrence of `w` wrapped; else the first occurrence that
/// agrees with `w` character by character under lower-casing, wrapped with
/// the characters of `s`; else `None`.
pub open spec fn wrap_spec(s: Seq<char>, w: Seq<char>) -> Option<Seq<char>> {
    wrap_with_folds(s, w, folded(s), folded(w))
}

/// Wrapping `w` in `s`, given the lower-cased characters `fs` of `s` and
/// `fw` of `w`: `s` itself when it holds `{{c1::` already; else the first
/// exact occurrence of `w` wrapped; else the first position where `fw`
/// stands in `fs`, with the `w.len()` characters of `s` there wrapped; else
/// `None`.
pub open spec fn wrap_with_folds(
    s: Seq<char>,
    w: Seq<char>,
    fs: Seq<Seq<char>>,
    fw: Seq<Seq<char>>,
) -> Option<Seq<char>> {
    if contains(s, cloze_open()) {
        Some(s)
    } else {
        match find_from(s, w, 0) {
            Some(p) => Some(wrap_at(s, p, w.len() as int)),
            None => match find_from(fs, fw, 0) {
                Some(p) => Some(wrap_at(s, p, w.len() as int)),
                None => None,
            },
        }
    }
}

/// `s` with the hint `h` merged into its first span: the trimmed hint goes
/// before the first `}}` after `{{c1::`, unless the span holds `::` already,
/// the hint is blank, or there is no such span.
pub open spec fn with_hint(s: Seq<char>, h: Seq<char>) -> Seq<char> {
    let h = trimmed(h);
    if h.len() == 0 {
        s
    } else {
        match find_from(s, cloze_open(), 0) {
            None => s,
            Some(st) => match find_from(s, cloze_close(), st + 6) {
                None => s,
                Some(e) => if contains(s.subrange(st + 6, e), hint_separator()) {
                    s
                } else {
                    s.take(e) + hint_separator() + h + s.skip(e)
                },
            },
        }
    }
}

/// The sentence composed from `raw`, `w` and `hint`: trimmed, normalized,
/// wrapped (or left as normalized when `w` is not found), then given the hint.
pub open spec fn compose(raw: Seq<char>, w: Seq<char>, hint: Option<Seq<char>>) -> Seq<char> {
    let base = normalized_base(trimmed(raw), w);
    let body = match wrap_spec(base, w) {
        Some(t) => t,
        None => base,
    };
    match hint {
        Some(h) => with_hint(body, h),
        None => body,
    }
}

fn cloze_open_chars() -> (r: Vec<char>)
    ensures
        r@ == cloze_open(),
{
    let mut v: Vec<char> = Vec::new();
    v.push('{');
    v.push('{');
    v.push('c');
    v.push('1');
    v.push(':');
    v.push(':');
    assert(v@ =~= cloze_open());
    v
}

fn cloze_close_chars() -> (r: Vec<char>)
    ensures
        r@ == cloze_close(),
{
    let mut v: Vec<char> = Vec::new();
    v.push('}');
    v.push('}');
    assert(v@ =~= cloze_close());
    v
}

fn hint_separator_chars() -> (r: Vec<char>)
    ensures
        r@ == hint_separator(),
{
    let mut v: Vec<char> = Vec::new();
    v.push(':');
    v.push(':');
    assert(v@ =~= hint_separator());
    v
}

/// The position `char_count` characters after `start`, or the end of `text`
/// when fewer characters remain.
pub fn advance_by_chars(text: &[char], start: usize, char_count: usize) -> (r: usize)
    requires
        start <= text@.len(),
    ensures
        r == if char_count <= text@.len() - start {
            start + char_count
        } else {
            text@.len() as int
        },
{
    if char_count <= text.len() - start {
        start + char_count
    } else {
        text.len()
    }
}

/// Each character of `s` replaced by its lower-case mapping.
fn fold_chars(s: &[char]) -> (r: Vec<Vec<char>>)
    ensures
        r.deep_view() == folded(s@),
        r@.len() == s@.len(),
{
    let mut out: Vec<Vec<char>> = Vec::new();
    let mut k: usize = 0;
    while k < s.len()
        invariant
            k <= s@.len(),
            out@.len() == k,
            forall|m: int| 0 <= m < k ==> (#[trigger] out@[m]).deep_view() == lower_char(s@[m]),
        decreases s.len() - k,
    {
        let v = lowercase_char(s[k]);
        proof {
            lemma_chars_deep_view(v);
        }
        out.push(v);
        k = k + 1;
    }
    assert(out.deep_view() =~= folded(s@));
    out
}

proof fn lemma_chars_deep_view(v: Vec<char>)
    ensures
        v.deep_view() == v@,
{
    assert(v.deep_view() =~= v@);
}

/// Whether the folded `w` stands in the folded `s` at position `p`.
fn folded_match_at(s: &Vec<Vec<char>>, w: &Vec<Vec<char>>, p: usize) -> (r: bool)
    ensures
        r == occurs_at(s.deep_view(), w.deep_view(), p as int),
{
    if p > s.len() || w.len() > s.len() - p {
        return false;
    }
    let mut k: usize = 0;
    while k < w.len()
        invariant
            s.len() == s@.len(),
            p + w@.len() <= s@.len(),
            k <= w@.len(),
            s.deep_view().subrange(p as int, p + k) == w.deep_view().take(k as int),
        decreases w.len() - k,
    {
        proof {
            lemma_chars_deep_view(s@[p + k]);
            lemma_chars_deep_view(w@[k as int]);
        }
        if !same_chars(s[p + k].as_slice(), w[k].as_slice()) {
            assert(s.deep_view().subrange(p as int, p + w@.len())[k as int] == s.deep_view()[p
                + k]);
            return false;
        }
        k = k + 1;
        assert(s.deep_view().subrange(p as int, p + k) =~= w.deep_view().take(k as int));
    }
    assert(w.deep_view().take(k as int) =~= w.deep_view());
    true
}

/// The first position where the folded `w` stands in the folded `s`.
fn find_folded(s: &Vec<Vec<char>>, w: &Vec<Vec<char>>) -> (r: Option<usize>)
    ensures
        r matches Some(p) ==> find_from(s.deep_view(), w.deep_view(), 0) == Some(p as int),
        r is None ==> find_from(s.deep_view(), w.deep_view(), 0) is None,
{
    let mut i: usize = 0;
    while i <= s.len() && w.len() <= s.len() - i
        invariant
            find_from(s.deep_view(), w.deep_view(), 0) == find_from(
                s.deep_view(),
                w.deep_view(),
                i as int,
            ),
        decreases s.len() + 1 - i,
    {
        if folded_match_at(s, w, i) {
            return Some(i);
        }
        proof {
            if w@.len() == 0 {
                assert(s.deep_view().subrange(i as int, i as int) =~= w.deep_view());
            }
        }
        i = i + 1;
    }
    None
}

/// `s` with `{{c1::` before position `p` and `}}` after `end`.
fn splice_span(s: &[char], p: usize, end: usize) -> (r: Vec<char>)
    requires
        p <= end <= s@.len(),
    ensures
        r@ == wrap_at(s@, p as int, end - p),
{
    let mut out: Vec<char> = Vec::new();
    extend_range(&mut out, s, 0, p);
    let open = cloze_open_chars();
    extend_all(&mut out, open.as_slice());
    extend_range(&mut out, s, p, end);
    let close = cloze_close_chars();
    extend_all(&mut out, close.as_slice());
    extend_range(&mut out, s, end, s.len());
    assert(out@ =~= wrap_at(s@, p as int, end - p));
    out
}

/// Wraps `word` in `sentence`, given the lower-case mapping of each
/// character of the sentence and of the word: unchanged when the sentence
/// holds `{{c1::` already; else the first exact occurrence; else the first
/// position where the word's mappings stand among the sentence's, with as
/// many characters of the sentence as the word has; `None` when neither is
/// found.
pub fn wrap_with_folded(
    sentence: &[char],
    word: &[char],
    folded_sentence: &Vec<Vec<char>>,
    folded_word: &Vec<Vec<char>>,
) -> (r: Option<Vec<char>>)
    requires
        folded_sentence@.len() == sentence@.len(),
        folded_word@.len() == word@.len(),
    ensures
        r matches Some(t) ==> wrap_with_folds(
            sentence@,
            word@,
            folded_sentence.deep_view(),
            folded_word.deep_view(),
        ) == Some(t@),
        r is None ==> wrap_with_folds(
            sentence@,
            word@,
            folded_sentence.deep_view(),
            folded_word.deep_view(),
        ) is None,
{
    let s = sentence;
    let w = word;
    let open = cloze_open_chars();
    if contains_chars(s, open.as_slice()) {
        let mut t: Vec<char> = Vec::new();
        extend_all(&mut t, s);
        assert(t@ =~= s@);
        return Some(t);
    }
    match find_chars(s, w, 0) {
        Some(p) => {
            proof {
                lemma_find_from(s@, w@, 0);
                assert(p + w@.len() <= s@.len());
                assert(s@.len() == s.len());
            }
            let end = p + w.len();
            return Some(splice_span(s, p, end));
        },
        None => {},
    }
    match find_folded(folded_sentence, folded_word) {
        Some(p) => {
            proof {
                lemma_find_from(folded_sentence.deep_view(), folded_word.deep_view(), 0);
            }
            let end = advance_by_chars(s, p, w.len());
            Some(splice_span(s, p, end))
        },
        None => None,
    }
}

fn wrap_chars(s: &[char], w: &[char]) -> (r: Option<Vec<char>>)
    ensures
        r matches Some(t) ==> wrap_spec(s@, w@) == Some(t@),
        r is None ==> wrap_spec(s@, w@) is None,
{
    let fs = fold_chars(s);
    let fw = fold_chars(w);
    wrap_with_folded(s, w, &fs, &fw)
}

/// Wraps `word` in `sentence` with `{{c1::` and `}}`: unchanged when the
/// sentence holds `{{c1::` already; else the first exact occurrence; else the
/// first occurrence under lower-casing, wrapped with the sentence's own
/// characters, exactly as many as `word` has; `None` when neither is found.
pub fn wrap_with_cloze(sentence: &str, word: &str) -> (r: Option<String>)
    ensures
        r matches Some(t) ==> wrap_spec(sentence@, word@) == Some(t@),
        r is None ==> wrap_spec(sentence@, word@) is None,
{
    let s = chars_of(sentence);
    let w = chars_of(word);
    match wrap_chars(s.as_slice(), w.as_slice()) {
        Some(t) => Some(string_from_chars(t.as_slice())),
        None => None,
    }
}

fn hint_chars(s: &[char], hint: &[char]) -> (r: Vec<char>)
    ensures
        r@ == with_hint(s@, hint@),
{
    let h = trim_chars(hint);
    let mut unchanged: Vec<char> = Vec::new();
    extend_all(&mut unchanged, s);
    assert(unchanged@ =~= s@);
    if h.len() == 0 {
        return unchanged;
    }
    let open = cloze_open_chars();
    let start = match find_chars(s, open.as_slice(), 0) {
        Some(st) => st,
        None => {
            return unchanged;
        },
    };
    proof {
        lemma_find_from(s@, cloze_open(), 0);
        assert(start + 6 <= s@.len());
        assert(s@.len() == s.len());
    }
    let close = cloze_close_chars();
    let end = match find_chars(s, close.as_slice(), start + 6) {
        Some(e) => e,
        None => {
            return unchanged;
        },
    };
    proof {
        lemma_find_from(s@, cloze_close(), start + 6);
    }
    let mut inside: Vec<char> = Vec::new();
    extend_range(&mut inside, s, start + 6, end);
    let sep = hint_separator_chars();
    if contains_chars(inside.as_slice(), sep.as_slice()) {
        return unchanged;
    }
    let mut out: Vec<char> = Vec::new();
    extend_range(&mut out, s, 0, end);
    extend_all(&mut out, sep.as_slice());
    extend_all(&mut out, h.as_slice());
    extend_range(&mut out, s, end, s.len());
    assert(out@ =~= s@.take(end as int) + hint_separator() + h@ + s@.skip(end as int));
    out
}

/// Merges `hint` into the first `{{c1::...}}` span of `cloze_sentence`: the
/// trimmed hint goes after `::` before the span's first `}}`. A span that
/// holds `::` already keeps its hint; a blank hint, or a sentence without a
/// closed span, leaves the sentence unchanged.
pub fn inject_anki_hint(cloze_sentence: &str, hint: &str) -> (r: String)
    ensures
        r@ == with_hint(cloze_sentence@, hint@),
{
    let s = chars_of(cloze_sentence);
    let h = chars_of(hint);
    let out = hint_chars(s.as_slice(), h.as_slice());
    string_from_chars(out.as_slice())
}

/// The view of an optional hint.
pub open spec fn hint_view(hint: Option<&str>) -> Option<Seq<char>> {
    match hint {
        Some(h) => Some(h@),
        None => None,
    }
}

/// What composing a cloze sentence had to recover from.
#[derive(Debug, Clone, Copy, PartialEq, Eq)]
pub struct ClozeWarnings {
    /// A span of existing markup opened and never closed, so it was not
    /// normalized.
    pub unclosed_markup: bool,
    /// The word was not found, so the sentence carries no new span.
    pub word_missing: bool,
}

/// Composes the final cloze sentence from a generated sentence, the target
/// word and an optional hint, and reports what had to be recovered from.
pub fn build_cloze_sentence(raw_sentence: &str, word: &str, hint: Option<&str>) -> (r: (
    String,
    ClozeWarnings,
))
    ensures
        r.0@ == compose(raw_sentence@, word@, hint_view(hint)),
        r.1.unclosed_markup == strip_from(trimmed(raw_sentence@), word@, 0) is None,
        r.1.word_missing == wrap_spec(normalized_base(trimmed(raw_sentence@), word@), word@) is None,
{
    let raw = chars_of(raw_sentence);
    let t = trim_chars(raw.as_slice());
    let trimmed_text = string_from_chars(t.as_slice());
    let (base, unclosed): (Vec<char>, bool) = match strip_existing_cloze_markup(
        trimmed_text.as_str(),
        word,
    ) {
        MarkupScan::Replaced(b) => (chars_of(b.as_str()), false),
        MarkupScan::NoMarkup => (t, false),
        MarkupScan::Unclosed => (t, true),
    };
    let w = chars_of(word);
    let (body, missing) = match wrap_chars(base.as_slice(), w.as_slice()) {
        Some(b) => (b, false),
        None => (base, true),
    };
    let out = match hint {
        Some(h) => {
            let hc = chars_of(h);
            hint_chars(body.as_slice(), hc.as_slice())
        },
        None => body,
    };
    (string_from_chars(out.as_slice()), ClozeWarnings { unclosed_markup: unclosed, word_missing: missing })
}

} // verus!
