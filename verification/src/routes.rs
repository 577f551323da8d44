//! The list of routes a survey holds: each route once, in the order of `str`.
use vstd::prelude::*;

use crate::text::{chars_eq, chars_to_string, str_to_chars, strs, views};

verus! {

/// `a` comes before `b` in the order of `str`: the first differing character
/// is smaller, or `a` is a proper prefix of `b`. (UTF-8 keeps the order of
/// code points, so this is the order of the bytes too.)
pub open spec fn lex_lt(a: Seq<char>, b: Seq<char>) -> bool
    decreases a.len(),
{
    if a.len() == 0 {
        b.len() > 0
    } else if b.len() == 0 {
        false
    } else if a[0] != b[0] {
        a[0] < b[0]
    } else {
        lex_lt(a.drop_first(), b.drop_first())
    }
}

proof fn lemma_lex_irreflexive(a: Seq<char>)
    ensures
        !lex_lt(a, a),
    decreases a.len(),
{
    if a.len() > 0 {
        lemma_lex_irreflexive(a.drop_first());
    }
}

proof fn lemma_lex_transitive(a: Seq<char>, b: Seq<char>, c: Seq<char>)
    requires
        lex_lt(a, b),
        lex_lt(b, c),
    ensures
        lex_lt(a, c),
    decreases a.len(),
{
    if a.len() > 0 && b.len() > 0 && c.len() > 0 && a[0] == b[0] && b[0] == c[0] {
        lemma_lex_transitive(a.drop_first(), b.drop_first(), c.drop_first());
    }
}

proof fn lemma_lex_total(a: Seq<char>, b: Seq<char>)
    ensures
        a == b || lex_lt(a, b) || lex_lt(b, a),
    decreases a.len(),
{
    if a.len() > 0 && b.len() > 0 && a[0] == b[0] {
        lemma_lex_total(a.drop_first(), b.drop_first());
        if a.drop_first() == b.drop_first() {
            assert(a =~= seq![a[0]] + a.drop_first());
            assert(b =~= seq![b[0]] + b.drop_first());
        }
    } else if a.len() == 0 && b.len() == 0 {
        assert(a =~= b);
    }
}

/// Each text comes before the next.
pub open spec fn strictly_sorted(s: Seq<Seq<char>>) -> bool {
    forall|i: int, j: int| 0 <= i < j < s.len() ==> lex_lt(#[trigger] s[i], #[trigger] s[j])
}

/// Whether `a` comes before `b`.
fn lex_less(a: &Vec<char>, b: &Vec<char>) -> (r: bool)
    ensures
        r == lex_lt(a@, b@),
{
    let mut i: usize = 0;
    assert(a@.skip(0) =~= a@ && b@.skip(0) =~= b@);
    while i < a.len() && i < b.len() && a[i] == b[i]
        invariant
            i <= a@.len(),
            i <= b@.len(),
            lex_lt(a@, b@) == lex_lt(a@.skip(i as int), b@.skip(i as int)),
        decreases a@.len() - i,
    {
        assert(a@.skip(i as int).drop_first() =~= a@.skip(i + 1));
        assert(b@.skip(i as int).drop_first() =~= b@.skip(i + 1));
        i = i + 1;
    }
    if i == a.len() {
        i < b.len()
    } else if i == b.len() {
        false
    } else {
        a[i] < b[i]
    }
}

/// Adds `x` to a strictly sorted list unless it is there already.
fn insert_sorted(list: &mut Vec<Vec<char>>, x: Vec<char>)
    requires
        strictly_sorted(views(old(list)@)),
    ensures
        strictly_sorted(views(final(list)@)),
        forall|y: Seq<char>|
            views(final(list)@).contains(y) <==> (y == x@ || views(
                old(list)@,
            ).contains(y)),
{
    let ghost s = views(list@);
    let n = list.len();
    let mut p: usize = 0;
    while p < n && lex_less(&list[p], &x)
        invariant
            p <= n,
            n == list@.len(),
            s == views(list@),
            forall|k: int| 0 <= k < p ==> lex_lt(#[trigger] s[k], x@),
        decreases n - p,
    {
        p = p + 1;
    }
    if p < n && chars_eq(&list[p], &x) {
        assert(s[p as int] == list@[p as int]@);
        assert(s.contains(x@));
        assert forall|y: Seq<char>| s.contains(y) <==> (y == x@ || s.contains(y)) by {}
        return;
    }
    proof {
        if p < n {
            lemma_lex_total(s[p as int], x@);
            assert(lex_lt(x@, s[p as int]));
            assert forall|k: int| p <= k < n implies lex_lt(x@, #[trigger] s[k]) by {
                if k > p {
                    lemma_lex_transitive(x@, s[p as int], s[k]);
                }
            }
        }
    }
    let ghost xv = x@;
    list.insert(p, x);
    let ghost t = views(list@);
    assert(t =~= s.subrange(0, p as int).push(xv) + s.subrange(p as int, n as int));
    assert forall|i: int, j: int| 0 <= i < j < t.len() implies lex_lt(#[trigger] t[i], #[trigger] t[j]) by {
        if j < p {
            assert(t[i] == s[i] && t[j] == s[j]);
        } else if j == p {
            assert(t[i] == s[i] && t[j] == xv);
        } else if i < p {
            assert(t[i] == s[i] && t[j] == s[j - 1]);
            assert(lex_lt(xv, s[j - 1]));
            lemma_lex_transitive(s[i], xv, s[j - 1]);
        } else if i == p {
            assert(t[i] == xv && t[j] == s[j - 1]);
        } else {
            assert(t[i] == s[i - 1] && t[j] == s[j - 1]);
        }
    }
    assert forall|y: Seq<char>| t.contains(y) <==> (y == xv || s.contains(y)) by {
        if t.contains(y) {
            let k = choose|k: int| 0 <= k < t.len() && t[k] == y;
            if k < p {
                assert(s[k] == y);
            } else if k > p {
                assert(s[k - 1] == y);
            }
        }
        if s.contains(y) {
            let k = choose|k: int| 0 <= k < s.len() && s[k] == y;
            if k < p {
                assert(t[k] == y);
            } else {
                assert(t[k + 1] == y);
            }
        }
        if y == xv {
            assert(t[p as int] == y);
        }
    }
}

/// The routes of the sections, each once, in the order of `str`.
pub fn route_list(route_ids: &Vec<String>) -> (r: Vec<String>)
    ensures
        strictly_sorted(strs(r@)),
        forall|y: Seq<char>|
            strs(r@).contains(y) <==> strs(
                route_ids@,
            ).contains(y),
{
    let ghost ids = strs(route_ids@);
    let mut list: Vec<Vec<char>> = Vec::new();
    let mut i: usize = 0;
    assert(views(list@) =~= Seq::<Seq<char>>::empty());
    while i < route_ids.len()
        invariant
            i <= route_ids@.len(),
            ids == strs(route_ids@),
            strictly_sorted(views(list@)),
            forall|y: Seq<char>|
                views(list@).contains(y) <==> ids.take(i as int).contains(y),
        decreases route_ids@.len() - i,
    {
        let x = str_to_chars(route_ids[i].as_str());
        assert(x@ == ids[i as int]);
        let ghost before = views(list@);
        assert(forall|y: Seq<char>| before.contains(y) <==> ids.take(i as int).contains(y));
        insert_sorted(&mut list, x);
        proof {
            assert(ids[i as int] == route_ids@[i as int]@);
            assert forall|y: Seq<char>|
                views(list@).contains(y) <==> ids.take(i + 1).contains(y) by {
                let t0 = ids.take(i as int);
                let t1 = ids.take(i + 1);
                assert(before.contains(y) <==> t0.contains(y));
                assert(views(list@).contains(y) <==> (y == x@ || before.contains(y)));
                assert(t1[i as int] == ids[i as int]);
                assert(t1 =~= t0.push(ids[i as int]));
                if t0.contains(y) {
                    let k = choose|k: int| 0 <= k < t0.len() && t0[k] == y;
                    assert(t1[k] == y);
                }
                if t1.contains(y) {
                    let k = choose|k: int| 0 <= k < t1.len() && t1[k] == y;
                    if k < i {
                        assert(t0[k] == y);
                    }
                }
            }
        }
        i = i + 1;
    }
    assert(ids.take(route_ids@.len() as int) =~= ids);
    let mut out: Vec<String> = Vec::new();
    let mut k: usize = 0;
    while k < list.len()
        invariant
            k <= list@.len(),
            strs(out@) == views(list@).take(k as int),
        decreases list@.len() - k,
    {
        let ghost before = out@;
        assert(views(list@)[k as int] == list@[k as int]@);
        out.push(chars_to_string(&list[k]));
        assert(strs(out@) =~= strs(before).push(
            list@[k as int]@,
        ));
        assert(strs(out@) =~= views(list@).take(k + 1));
        k = k + 1;
    }
    assert(views(list@).take(list@.len() as int) =~= views(list@));
    out
}

} // verus!
