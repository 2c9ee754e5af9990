//! Unwrapping the JSON payload of a model response that may sit in a fenced
//! block (a line of three backticks, optionally with a language tag).
use vstd::prelude::*;

use crate::text::{chars_of, string_from_chars, trim_chars, trimmed};

verus! {

/// The fence delimiter, three backticks.
pub open spec fn fence() -> Seq<char> {
    seq!['`', '`', '`']
}

/// `s` begins with `p`.
pub open spec fn starts_with(s: Seq<char>, p: Seq<char>) -> bool {
    p.len() <= s.len() && s.take(p.len() as int) == p
}

/// The pieces of `s` between line feeds: one more than `s` has line feeds.
pub open spec fn line_segments(s: Seq<char>) -> Seq<Seq<char>>
    decreases s.len(),
{
    if s.len() == 0 {
        seq![Seq::empty()]
    } else {
        let segs = line_segments(s.drop_last());
        if s.last() == '\n' {
            segs.push(Seq::empty())
        } else {
            segs.update(segs.len() - 1, segs.last().push(s.last()))
        }
    }
}

/// A line that ended in a line feed loses a carriage return before it.
pub open spec fn strip_cr(l: Seq<char>) -> Seq<char> {
    if l.len() > 0 && l.last() == '\r' {
        l.drop_last()
    } else {
        l
    }
}

/// The lines of `s`, as `str::lines` yields them: split at `\n`, a `\r`
/// before the `\n` dropped, and no empty line after a final `\n`.
pub open spec fn lines_of(s: Seq<char>) -> Seq<Seq<char>> {
    let segs = line_segments(s);
    let done = segs.drop_last().map_values(|l: Seq<char>| strip_cr(l));
    if segs.last().len() == 0 {
        done
    } else {
        done.push(segs.last())
    }
}

/// The lines joined with `\n` between them.
pub open spec fn join_lines(ls: Seq<Seq<char>>) -> Seq<char>
    decreases ls.len(),
{
    if ls.len() == 0 {
        Seq::empty()
    } else if ls.len() == 1 {
        ls[0]
    } else {
        join_lines(ls.drop_last()) + seq!['\n'] + ls.last()
    }
}

/// The content of a fenced block: `None` unless the first line opens a fence
/// and at least one line follows it; else the following lines, without a
/// last line that is (after trimming) a fence, joined with `\n`.
pub open spec fn json_block(raw: Seq<char>) -> Option<Seq<char>> {
    let lines = lines_of(raw);
    if lines.len() == 0 || !starts_with(lines[0], fence()) {
        None
    } else {
        let content = lines.drop_first();
        if content.len() == 0 {
            None
        } else if starts_with(trimmed(content.last()), fence()) {
            Some(join_lines(content.drop_last()))
        } else {
            Some(join_lines(content))
        }
    }
}

/// Why no JSON payload could be taken from a response.
#[derive(Debug, Clone, Copy, PartialEq, Eq)]
pub enum PayloadError {
    /// The response opens a fenced block and nothing follows the fence.
    MissingPayload,
}

/// The JSON text of a response: trimmed, and when it opens a fence, the
/// content of the fenced block.
pub open spec fn json_payload(raw: Seq<char>) -> Option<Seq<char>> {
    let t = trimmed(raw);
    if starts_with(t, fence()) {
        json_block(t)
    } else {
        Some(t)
    }
}

fn starts_with_fence(s: &[char]) -> (r: bool)
    ensures
        r == starts_with(s@, fence()),
{
    let r = s.len() >= 3 && s[0] == '`' && s[1] == '`' && s[2] == '`';
    proof {
        if s@.len() >= 3 {
            assert(r ==> s@.take(3) =~= fence());
            assert(s@.take(3) == fence() ==> s@.take(3)[0] == '`' && s@.take(3)[1] == '`'
                && s@.take(3)[2] == '`');
        }
    }
    r
}

/// The lines of `s`, as `str::lines` yields them.
pub fn split_lines(s: &[char]) -> (r: Vec<Vec<char>>)
    ensures
        r.deep_view() == lines_of(s@),
{
    let mut lines: Vec<Vec<char>> = Vec::new();
    let mut current: Vec<char> = Vec::new();
    let mut i: usize = 0;
    assert(s@.take(0) =~= Seq::<char>::empty());
    while i < s.len()
        invariant
            i <= s@.len(),
            line_segments(s@.take(i as int)).len() >= 1,
            lines.deep_view() == line_segments(s@.take(i as int)).drop_last().map_values(
                |l: Seq<char>| strip_cr(l),
            ),
            current@ == line_segments(s@.take(i as int)).last(),
        decreases s.len() - i,
    {
        let c = s[i];
        let ghost segs = line_segments(s@.take(i as int));
        assert(s@.take(i + 1).drop_last() =~= s@.take(i as int));
        assert(s@.take(i + 1).last() == c);
        if c == '\n' {
            let mut done: Vec<char> = Vec::new();
            let n = current.len();
            if n > 0 && current[n - 1] == '\r' {
                let mut k: usize = 0;
                while k < n - 1
                    invariant
                        n == current@.len(),
                        0 < n,
                        k <= n - 1,
                        done@ == current@.take(k as int),
                    decreases n - 1 - k,
                {
                    done.push(current[k]);
                    k = k + 1;
                    assert(done@ =~= current@.take(k as int));
                }
                assert(done@ =~= current@.drop_last());
            } else {
                done = current;
            }
            proof {
                assert(done@ == strip_cr(segs.last()));
                assert(done.deep_view() =~= done@);
            }
            let ghost old_dv = lines.deep_view();
            lines.push(done);
            current = Vec::new();
            proof {
                let nsegs = segs.push(Seq::<char>::empty());
                assert(line_segments(s@.take(i + 1)) == nsegs);
                assert(nsegs.drop_last() =~= segs);
                assert(segs =~= segs.drop_last().push(segs.last()));
                assert(lines.deep_view() =~= old_dv.push(done@));
                assert(segs.map_values(|l: Seq<char>| strip_cr(l)) =~= segs.drop_last().map_values(
                    |l: Seq<char>| strip_cr(l),
                ).push(strip_cr(segs.last())));
                assert(lines.deep_view() =~= nsegs.drop_last().map_values(
                    |l: Seq<char>| strip_cr(l),
                ));
                assert(current@ =~= nsegs.last());
            }
        } else {
            current.push(c);
            proof {
                let nsegs = segs.update(segs.len() - 1, segs.last().push(c));
                assert(line_segments(s@.take(i + 1)) == nsegs);
                assert(nsegs.drop_last() =~= segs.drop_last());
            }
        }
        i = i + 1;
    }
    assert(s@.take(s@.len() as int) =~= s@);
    if current.len() > 0 {
        proof {
            assert(current.deep_view() =~= current@);
        }
        lines.push(current);
        assert(lines.deep_view() =~= lines_of(s@));
    } else {
        assert(current@ =~= Seq::<char>::empty());
    }
    lines
}

/// The lines `ls[from..to]` joined with `\n` between them.
fn join_with_newlines(ls: &Vec<Vec<char>>, from: usize, to: usize) -> (r: Vec<char>)
    requires
        from <= to <= ls@.len(),
    ensures
        r@ == join_lines(ls.deep_view().subrange(from as int, to as int)),
{
    let mut out: Vec<char> = Vec::new();
    let mut k: usize = from;
    assert(ls.deep_view().subrange(from as int, from as int) =~= Seq::<Seq<char>>::empty());
    while k < to
        invariant
            from <= k <= to <= ls@.len(),
            out@ == join_lines(ls.deep_view().subrange(from as int, k as int)),
        decreases to - k,
    {
        let ghost prev = ls.deep_view().subrange(from as int, k as int);
        let ghost next = ls.deep_view().subrange(from as int, k + 1);
        assert(next.drop_last() =~= prev);
        assert(next.last() == ls@[k as int].deep_view());
        proof {
            lemma_chars_deep_view(ls@[k as int]);
        }
        if k > from {
            out.push('\n');
        } else {
            assert(out@ =~= Seq::<char>::empty());
        }
        let line = &ls[k];
        let mut m: usize = 0;
        let ghost before = out@;
        while m < line.len()
            invariant
                m <= line@.len(),
                out@ == before + line@.take(m as int),
            decreases line.len() - m,
        {
            out.push(line[m]);
            m = m + 1;
            assert(out@ =~= before + line@.take(m as int));
        }
        assert(line@.take(m as int) =~= line@);
        k = k + 1;
        proof {
            if k == from + 1 {
                assert(out@ =~= next[0]);
            }
        }
    }
    out
}

proof fn lemma_chars_deep_view(v: Vec<char>)
    ensures
        v.deep_view() == v@,
{
    assert(v.deep_view() =~= v@);
}

/// The content of the fenced block that `raw` opens with; `None` when its
/// first line is no fence or no line follows it.
pub fn extract_json_block(raw: &str) -> (r: Option<String>)
    ensures
        r matches Some(t) ==> json_block(raw@) == Some(t@),
        r is None ==> json_block(raw@) is None,
{
    let chars = chars_of(raw);
    let lines = split_lines(chars.as_slice());
    if lines.len() == 0 {
        return None;
    }
    proof {
        lemma_chars_deep_view(lines@[0]);
    }
    if !starts_with_fence(lines[0].as_slice()) {
        return None;
    }
    let ghost content = lines.deep_view().drop_first();
    if lines.len() == 1 {
        return None;
    }
    let last = lines.len() - 1;
    proof {
        lemma_chars_deep_view(lines@[last as int]);
        assert(content.last() == lines.deep_view()[last as int]);
    }
    let trimmed_last = trim_chars(lines[last].as_slice());
    assert(content =~= lines.deep_view().subrange(1, lines@.len() as int));
    let end = if starts_with_fence(trimmed_last.as_slice()) {
        assert(content.drop_last() =~= lines.deep_view().subrange(1, last as int));
        last
    } else {
        lines.len()
    };
    let joined = join_with_newlines(&lines, 1, end);
    Some(string_from_chars(joined.as_slice()))
}

/// The JSON text of a model response: the trimmed response, or, when it opens
/// a fenced block, that block's content; an error when nothing follows the
/// opening fence.
pub fn extract_json(raw: &str) -> (r: Result<String, PayloadError>)
    ensures
        r matches Ok(t) ==> json_payload(raw@) == Some(t@),
        r is Err ==> json_payload(raw@) is None,
{
    let chars = chars_of(raw);
    let t = trim_chars(chars.as_slice());
    let text = string_from_chars(t.as_slice());
    if starts_with_fence(t.as_slice()) {
        match extract_json_block(text.as_str()) {
            Some(j) => Ok(j),
            None => Err(PayloadError::MissingPayload),
        }
    } else {
        Ok(text)
    }
}

} // verus!
