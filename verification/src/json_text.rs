//! Taking the JSON out of a language model's reply, which may wrap it in a
//! fenced code block.
use vstd::prelude::*;

use crate::text::{chars_to_string, str_to_chars, trim, trim_chars};

verus! {

/// A code fence, three backquotes, starts at `i`.
pub open spec fn fence_at(s: Seq<char>, i: int) -> bool {
    0 <= i && i + 3 <= s.len() && s[i] == '`' && s[i + 1] == '`' && s[i + 2] == '`'
}

/// Where the first fence at or after `i` starts; the length where there is none.
pub open spec fn next_fence(s: Seq<char>, i: int) -> int
    decreases s.len() - i,
{
    if i < 0 || i + 3 > s.len() {
        s.len() as int
    } else if fence_at(s, i) {
        i
    } else {
        next_fence(s, i + 1)
    }
}

/// The text without a leading `json`.
pub open spec fn strip_json_tag(c: Seq<char>) -> Seq<char> {
    if c.len() >= 4 && c[0] == 'j' && c[1] == 's' && c[2] == 'o' && c[3] == 'n' {
        c.skip(4)
    } else {
        c
    }
}

/// The reply trimmed where it has no fence; else the text between its first
/// fence and the next (or the end), without a leading `json` tag, trimmed.
pub open spec fn extract_json_spec(s: Seq<char>) -> Seq<char> {
    let a = next_fence(s, 0);
    if a >= s.len() {
        trim(s)
    } else {
        let rest = s.skip(a + 3);
        trim(strip_json_tag(rest.take(next_fence(rest, 0))))
    }
}

proof fn lemma_next_fence_bounds(s: Seq<char>, i: int)
    requires
        0 <= i,
    ensures
        next_fence(s, i) == s.len() || (i <= next_fence(s, i) && fence_at(s, next_fence(s, i))),
    decreases s.len() - i,
{
    if i + 3 <= s.len() && !fence_at(s, i) {
        lemma_next_fence_bounds(s, i + 1);
    }
}

/// Where the first fence at or after `from` starts; the length where there is none.
fn find_fence(s: &Vec<char>, from: usize) -> (r: usize)
    requires
        from <= s@.len(),
    ensures
        r == next_fence(s@, from as int),
{
    let n = s.len();
    let mut i = from;
    while n - i >= 3
        invariant
            from <= i <= n,
            n == s@.len(),
            next_fence(s@, from as int) == next_fence(s@, i as int),
        decreases n - i,
    {
        if s[i] == '`' && s[i + 1] == '`' && s[i + 2] == '`' {
            return i;
        }
        i = i + 1;
    }
    n
}

/// The part of `v` from `start` up to `end`.
fn slice_chars(v: &Vec<char>, start: usize, end: usize) -> (r: Vec<char>)
    requires
        start <= end <= v@.len(),
    ensures
        r@ == v@.subrange(start as int, end as int),
{
    let mut out: Vec<char> = Vec::new();
    let mut i = start;
    while i < end
        invariant
            start <= i <= end <= v@.len(),
            out@ == v@.subrange(start as int, i as int),
        decreases end - i,
    {
        out.push(v[i]);
        i = i + 1;
        assert(out@ =~= v@.subrange(start as int, i as int));
    }
    out
}

/// See `extract_json_spec`.
pub fn extract_json_from_text(text: &str) -> (r: String)
    ensures
        r@ == extract_json_spec(text@),
{
    let s = str_to_chars(text);
    let a = find_fence(&s, 0);
    if a >= s.len() {
        return chars_to_string(&trim_chars(&s));
    }
    proof {
        lemma_next_fence_bounds(s@, 0);
    }
    let rest = slice_chars(&s, a + 3, s.len());
    assert(rest@ =~= s@.skip(a + 3));
    let b = find_fence(&rest, 0);
    proof {
        lemma_next_fence_bounds(rest@, 0);
    }
    let cand = slice_chars(&rest, 0, b);
    assert(cand@ =~= rest@.take(b as int));
    let tagged = cand.len() >= 4 && cand[0] == 'j' && cand[1] == 's' && cand[2] == 'o' && cand[3]
        == 'n';
    let body = if tagged {
        slice_chars(&cand, 4, cand.len())
    } else {
        cand
    };
    assert(body@ =~= strip_json_tag(rest@.take(b as int)));
    chars_to_string(&trim_chars(&body))
}

} // verus!
