//! Choosing, flagging and paging the cross sections of a survey: which
//! sections belong to the selected route, which are integer or odd stations,
//! where each route starts and ends, and how sections are split into pages.
use vstd::prelude::*;

use crate::text::{
    all_digits, chars_to_string, is_ascii_digit, lemma_digits_value_nonneg, parse_i32, parse_i32_spec,
    str_to_chars,
};

verus! {

/// What the choices below read of a cross section: its station name and route,
/// and whether it starts or ends its route.
#[derive(Debug, Clone)]
pub struct SectionMeta {
    pub survey_point_name: String,
    pub route_id: String,
    pub is_route_start: bool,
    pub is_route_end: bool,
}

/// The two sections are on the same route.
pub open spec fn same_route(a: SectionMeta, b: SectionMeta) -> bool {
    a.route_id@ == b.route_id@
}

/// No earlier section has the same route.
pub open spec fn first_of_route(s: Seq<SectionMeta>, i: int) -> bool {
    forall|j: int| 0 <= j < i ==> !same_route(#[trigger] s[j], s[i])
}

/// No later section has the same route.
pub open spec fn last_of_route(s: Seq<SectionMeta>, i: int) -> bool {
    forall|j: int| i < j < s.len() ==> !same_route(#[trigger] s[j], s[i])
}

/// Some section at or before `i` on its route is the route's first.
pub open spec fn route_start_at_or_before(s: Seq<SectionMeta>, i: int) -> bool {
    exists|k: int| 0 <= k <= i && same_route(s[k], s[i]) && first_of_route(s, k)
}

/// Some section at or after `i` on its route is the route's last.
pub open spec fn route_end_at_or_after(s: Seq<SectionMeta>, i: int) -> bool {
    exists|k: int| i <= k < s.len() && same_route(s[k], s[i]) && last_of_route(s, k)
}

proof fn lemma_first_exists(s: Seq<SectionMeta>, i: int)
    requires
        0 <= i < s.len(),
    ensures
        exists|k: int| 0 <= k <= i && same_route(s[k], s[i]) && first_of_route(s, k),
    decreases i,
{
    if !first_of_route(s, i) {
        let j = choose|j: int| 0 <= j < i && same_route(#[trigger] s[j], s[i]);
        lemma_first_exists(s, j);
        let k = choose|k: int| 0 <= k <= j && same_route(s[k], s[j]) && first_of_route(s, k);
        assert(0 <= k <= i && same_route(s[k], s[i]) && first_of_route(s, k));
    }
}

proof fn lemma_last_exists(s: Seq<SectionMeta>, i: int)
    requires
        0 <= i < s.len(),
    ensures
        exists|k: int| i <= k < s.len() && same_route(s[k], s[i]) && last_of_route(s, k),
    decreases s.len() - i,
{
    if !last_of_route(s, i) {
        let j = choose|j: int| i < j < s.len() && same_route(#[trigger] s[j], s[i]);
        lemma_last_exists(s, j);
        let k = choose|k: int|
            j <= k < s.len() && same_route(s[k], s[j]) && last_of_route(s, k);
        assert(i <= k < s.len() && same_route(s[k], s[i]) && last_of_route(s, k));
    }
}

/// Each route that occurs has exactly one first section and exactly one last
/// section, so the flags mark one start and one end per route.
pub proof fn law_route_ends_unique(s: Seq<SectionMeta>)
    ensures
        forall|i: int, j: int|
            0 <= i < s.len() && 0 <= j < s.len() && same_route(s[i], s[j])
                && #[trigger] first_of_route(s, i) && #[trigger] first_of_route(s, j) ==> i == j,
        forall|i: int, j: int|
            0 <= i < s.len() && 0 <= j < s.len() && same_route(s[i], s[j])
                && #[trigger] last_of_route(s, i) && #[trigger] last_of_route(s, j) ==> i == j,
        forall|i: int| 0 <= i < s.len() ==> #[trigger] route_start_at_or_before(s, i),
        forall|i: int| 0 <= i < s.len() ==> #[trigger] route_end_at_or_after(s, i),
{
    assert forall|i: int, j: int|
        0 <= i < s.len() && 0 <= j < s.len() && same_route(s[i], s[j])
            && #[trigger] first_of_route(s, i) && #[trigger] first_of_route(s, j) implies i == j by {
        if i < j {
            assert(s[i].route_id@ != s[j].route_id@);
        } else if j < i {
            assert(s[j].route_id@ != s[i].route_id@);
        }
    }
    assert forall|i: int, j: int|
        0 <= i < s.len() && 0 <= j < s.len() && same_route(s[i], s[j])
            && #[trigger] last_of_route(s, i) && #[trigger] last_of_route(s, j) implies i == j by {
        if i < j {
            assert(s[j].route_id@ != s[i].route_id@);
        } else if j < i {
            assert(s[i].route_id@ != s[j].route_id@);
        }
    }
    assert forall|i: int| 0 <= i < s.len() implies #[trigger] route_start_at_or_before(s, i) by {
        lemma_first_exists(s, i);
        let k = choose|k: int| 0 <= k <= i && same_route(s[k], s[i]) && first_of_route(s, k);
        assert(0 <= k <= i && same_route(s[k], s[i]) && first_of_route(s, k));
    }
    assert forall|i: int| 0 <= i < s.len() implies #[trigger] route_end_at_or_after(s, i) by {
        lemma_last_exists(s, i);
        let k = choose|k: int|
            i <= k < s.len() && same_route(s[k], s[i]) && last_of_route(s, k);
        assert(i <= k < s.len() && same_route(s[k], s[i]) && last_of_route(s, k));
    }
}

/// Marks, for each route, its first section as the route's start and its last
/// section as the route's end; no flag is cleared.
pub fn set_route_start_end_flags(sections: &mut Vec<SectionMeta>)
    ensures
        final(sections)@.len() == old(sections)@.len(),
        forall|i: int|
            #![trigger final(sections)@[i]]
            0 <= i < old(sections)@.len() ==> {
                &&& final(sections)@[i].survey_point_name == old(sections)@[i].survey_point_name
                &&& final(sections)@[i].route_id == old(sections)@[i].route_id
                &&& final(sections)@[i].is_route_start == (old(sections)@[i].is_route_start
                    || first_of_route(old(sections)@, i))
                &&& final(sections)@[i].is_route_end == (old(sections)@[i].is_route_end
                    || last_of_route(old(sections)@, i))
            },
{
    let ghost s0 = sections@;
    let n = sections.len();
    let mut i: usize = 0;
    while i < n
        invariant
            n == s0.len(),
            sections@.len() == n,
            i <= n,
            forall|k: int|
                #![trigger sections@[k]]
                0 <= k < n ==> sections@[k].survey_point_name == s0[k].survey_point_name
                    && sections@[k].route_id == s0[k].route_id,
            forall|k: int|
                #![trigger sections@[k]]
                0 <= k < i ==> sections@[k].is_route_start == (s0[k].is_route_start
                    || first_of_route(s0, k)) && sections@[k].is_route_end == (s0[k].is_route_end
                    || last_of_route(s0, k)),
            forall|k: int|
                #![trigger sections@[k]]
                i <= k < n ==> sections@[k].is_route_start == s0[k].is_route_start
                    && sections@[k].is_route_end == s0[k].is_route_end,
        decreases n - i,
    {
        let mut first = true;
        let mut j: usize = 0;
        while j < i
            invariant
                i < n,
                j <= i,
                sections@.len() == n,
                forall|k: int|
                    #![trigger sections@[k]]
                    0 <= k < n ==> sections@[k].route_id == s0[k].route_id,
                first == (forall|m: int| 0 <= m < j ==> s0[m].route_id@ != s0[i as int].route_id@),
            decreases i - j,
        {
            if sections[j].route_id == sections[i].route_id {
                first = false;
            }
            j = j + 1;
        }
        let mut last = true;
        let mut j: usize = i + 1;
        while j < n
            invariant
                i < n,
                i < j <= n,
                sections@.len() == n,
                forall|k: int|
                    #![trigger sections@[k]]
                    0 <= k < n ==> sections@[k].route_id == s0[k].route_id,
                last == (forall|m: int| i < m < j ==> s0[m].route_id@ != s0[i as int].route_id@),
            decreases n - j,
        {
            if sections[j].route_id == sections[i].route_id {
                last = false;
            }
            j = j + 1;
        }
        assert(first == first_of_route(s0, i as int));
        assert(last == last_of_route(s0, i as int));
        if first {
            sections[i].is_route_start = true;
        }
        if last {
            sections[i].is_route_end = true;
        }
        i = i + 1;
    }
}

/// The indices below `n` whose flag is set, in increasing order.
pub open spec fn selection(keep: Seq<bool>, n: int) -> Seq<usize>
    decreases n,
{
    if n <= 0 {
        seq![]
    } else if keep[n - 1] {
        selection(keep, n - 1).push((n - 1) as usize)
    } else {
        selection(keep, n - 1)
    }
}

/// A selection lists, in increasing order, exactly the flagged indices: the
/// filters keep exactly the sections that pass, in their order.
pub proof fn law_selection_exact(keep: Seq<bool>, n: int)
    requires
        0 <= n <= keep.len(),
        n <= usize::MAX + 1,
    ensures
        forall|k: int|
            0 <= k < selection(keep, n).len() ==> #[trigger] selection(keep, n)[k] < n && keep[selection(
                keep,
                n,
            )[k] as int],
        forall|k: int, l: int|
            0 <= k < l < selection(keep, n).len() ==> #[trigger] selection(keep, n)[k]
                < #[trigger] selection(keep, n)[l],
        forall|i: int| 0 <= i < n && #[trigger] keep[i] ==> selection(keep, n).contains(i as usize),
    decreases n,
{
    if n > 0 {
        law_selection_exact(keep, n - 1);
        let s = selection(keep, n - 1);
        if keep[n - 1] {
            let t = s.push((n - 1) as usize);
            assert(t[s.len() as int] == (n - 1) as usize);
            assert forall|i: int| 0 <= i < n && #[trigger] keep[i] implies t.contains(i as usize) by {
                if i < n - 1 {
                    let k = choose|k: int| 0 <= k < s.len() && s[k] == i as usize;
                    assert(t[k] == i as usize);
                }
            }
        }
    }
}

/// For each section, whether it is on the route.
pub open spec fn route_keep(s: Seq<SectionMeta>, route: Seq<char>) -> Seq<bool> {
    Seq::new(s.len(), |i: int| s[i].route_id@ == route)
}

/// The positions of the sections on the selected route, in order.
pub fn filtered_sections(sections: &Vec<SectionMeta>, selected_route: &str) -> (r: Vec<usize>)
    ensures
        r@ == selection(route_keep(sections@, selected_route@), sections@.len() as int),
{
    let route = selected_route.to_owned();
    let ghost keep = route_keep(sections@, selected_route@);
    let mut out: Vec<usize> = Vec::new();
    let mut i: usize = 0;
    while i < sections.len()
        invariant
            i <= sections@.len(),
            route@ == selected_route@,
            keep == route_keep(sections@, selected_route@),
            out@ == selection(keep, i as int),
        decreases sections@.len() - i,
    {
        if sections[i].route_id == route {
            out.push(i);
        }
        i = i + 1;
    }
    out
}

/// Whether the station name has no `+`: an integer station, not a plus stake.
pub fn is_integer_station(name: &str) -> (r: bool)
    ensures
        r == !name@.contains('+'),
{
    !is_plus_stake(name)
}

/// Whether the station name holds a `+`, as a plus stake such as `No.1+5` does.
pub fn is_plus_stake(name: &str) -> (r: bool)
    ensures
        r == name@.contains('+'),
{
    let cs = str_to_chars(name);
    let mut i: usize = 0;
    while i < cs.len()
        invariant
            i <= cs@.len(),
            cs@ == name@,
            forall|j: int| 0 <= j < i ==> cs@[j] != '+',
        decreases cs@.len() - i,
    {
        if cs[i] == '+' {
            assert(cs@[i as int] == '+');
            return true;
        }
        i = i + 1;
    }
    false
}

/// The ASCII digits of a text, in order.
pub open spec fn ascii_digits(s: Seq<char>) -> Seq<char>
    decreases s.len(),
{
    if s.len() == 0 {
        seq![]
    } else if is_ascii_digit(s.last()) {
        ascii_digits(s.drop_last()).push(s.last())
    } else {
        ascii_digits(s.drop_last())
    }
}

/// Whether a station passes the odd-station filter: the digits of its name, read
/// together as an `i32`, give an odd number; a name whose digits do not read
/// (none, or too many) passes too.
pub open spec fn odd_station(name: Seq<char>) -> bool {
    match parse_i32_spec(ascii_digits(name)) {
        Some(n) => 0 <= n && n % 2 == 1,
        None => true,
    }
}

/// See `odd_station`.
pub fn is_odd_station(name: &str) -> (r: bool)
    ensures
        r == odd_station(name@),
{
    let cs = str_to_chars(name);
    let mut digits: Vec<char> = Vec::new();
    let mut i: usize = 0;
    while i < cs.len()
        invariant
            i <= cs@.len(),
            cs@ == name@,
            digits@ == ascii_digits(cs@.take(i as int)),
        decreases cs@.len() - i,
    {
        let ghost t = cs@.take(i + 1);
        assert(t.drop_last() =~= cs@.take(i as int));
        let c = cs[i];
        if '0' <= c && c <= '9' {
            digits.push(c);
        }
        i = i + 1;
    }
    assert(cs@.take(cs@.len() as int) =~= cs@);
    match parse_i32(&digits) {
        Some(n) => n % 2 == 1,
        None => true,
    }
}

/// For each section, whether it goes on the as-built sheets: on the route, an
/// integer station, and odd where only odd stations are wanted.
pub open spec fn dekigata_keep(s: Seq<SectionMeta>, route: Seq<char>, odd_only: bool) -> Seq<bool> {
    Seq::new(
        s.len(),
        |i: int|
            s[i].route_id@ == route && !s[i].survey_point_name@.contains('+') && (!odd_only
                || odd_station(s[i].survey_point_name@)),
    )
}

/// The positions of the sections that get an as-built sheet, in order.
pub fn dekigata_filtered_sections(
    sections: &Vec<SectionMeta>,
    selected_route: &str,
    odd_points_only: bool,
) -> (r: Vec<usize>)
    ensures
        r@ == selection(
            dekigata_keep(sections@, selected_route@, odd_points_only),
            sections@.len() as int,
        ),
{
    let route = selected_route.to_owned();
    let ghost keep = dekigata_keep(sections@, selected_route@, odd_points_only);
    let mut out: Vec<usize> = Vec::new();
    let mut i: usize = 0;
    while i < sections.len()
        invariant
            i <= sections@.len(),
            route@ == selected_route@,
            keep == dekigata_keep(sections@, selected_route@, odd_points_only),
            out@ == selection(keep, i as int),
        decreases sections@.len() - i,
    {
        let s = &sections[i];
        if s.route_id == route && is_integer_station(s.survey_point_name.as_str()) && (
        !odd_points_only || is_odd_station(s.survey_point_name.as_str())) {
            out.push(i);
        }
        i = i + 1;
    }
    out
}


/// The as-built sheets go to sections on the selected route whose names hold no
/// `+` (no plus stakes), and only to odd stations where those are asked for;
/// each of them is also among the sections of the route filter.
pub proof fn law_dekigata_sections(s: Seq<SectionMeta>, route: Seq<char>, odd_only: bool)
    requires
        s.len() <= usize::MAX,
    ensures
        forall|k: int|
            0 <= k < selection(dekigata_keep(s, route, odd_only), s.len() as int).len() ==> {
                let i = #[trigger] selection(dekigata_keep(s, route, odd_only), s.len() as int)[k] as int;
                &&& s[i].route_id@ == route
                &&& !s[i].survey_point_name@.contains('+')
                &&& (odd_only ==> odd_station(s[i].survey_point_name@))
                &&& selection(route_keep(s, route), s.len() as int).contains(i as usize)
            },
{
    let d = dekigata_keep(s, route, odd_only);
    let r = route_keep(s, route);
    law_selection_exact(d, s.len() as int);
    law_selection_exact(r, s.len() as int);
    assert forall|k: int| 0 <= k < selection(d, s.len() as int).len() implies {
        let i = #[trigger] selection(d, s.len() as int)[k] as int;
        &&& s[i].route_id@ == route
        &&& !s[i].survey_point_name@.contains('+')
        &&& (odd_only ==> odd_station(s[i].survey_point_name@))
        &&& selection(r, s.len() as int).contains(i as usize)
    } by {
        let i = selection(d, s.len() as int)[k] as int;
        assert(d[i]);
        assert(r[i]);
    }
}


proof fn lemma_ascii_digits_are_digits(s: Seq<char>)
    ensures
        all_digits(ascii_digits(s)),
    decreases s.len(),
{
    if s.len() > 0 {
        lemma_ascii_digits_are_digits(s.drop_last());
        let d = ascii_digits(s.drop_last());
        if is_ascii_digit(s.last()) {
            assert forall|i: int| 0 <= i < d.push(s.last()).len() implies is_ascii_digit(
                #[trigger] d.push(s.last())[i],
            ) by {
                if i < d.len() {
                    assert(d.push(s.last())[i] == d[i]);
                }
            }
        }
    }
}

/// The odd-station filter on a name whose digits read as the integer `n`
/// passes it exactly when `n` is odd: every even number, 0 included, is
/// rejected. (The digits never carry a sign, so `n` is never negative.)
pub proof fn law_odd_station_parity(name: Seq<char>, n: i32)
    requires
        parse_i32_spec(ascii_digits(name)) == Some(n),
    ensures
        n >= 0,
        odd_station(name) <==> n % 2 == 1,
        n % 2 == 0 ==> !odd_station(name),
{
    let d = ascii_digits(name);
    lemma_ascii_digits_are_digits(name);
    assert(d.len() > 0);
    assert(is_ascii_digit(d[0]));
    lemma_digits_value_nonneg(d);
}

} // verus!
