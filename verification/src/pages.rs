//! Splitting sections into pages and cells, and numbering the drawings.
use vstd::prelude::*;

use crate::text::{all_digits, append_chars, chars_to_string, digits_value, str_to_chars};

verus! {

/// The number of pages that `n` sections take at `spp` sections a page.
pub open spec fn page_total(n: int, spp: int) -> int {
    (n + spp - 1) / spp
}

/// The first section of page `p`.
pub open spec fn page_start(p: int, spp: int) -> int {
    p * spp
}

/// One past the last section of page `p`.
pub open spec fn page_end(p: int, spp: int, n: int) -> int {
    if p * spp + spp < n {
        p * spp + spp
    } else {
        n
    }
}

/// `ceil(n / spp)`, without overflow.
pub fn page_count(n: usize, sections_per_page: usize) -> (r: usize)
    requires
        sections_per_page > 0,
    ensures
        r == page_total(n as int, sections_per_page as int),
{
    let q = n / sections_per_page;
    let m = n % sections_per_page;
    proof {
        let s = sections_per_page as int;
        assert(n as int == q * s + m) by (nonlinear_arith)
            requires
                q == n as int / s,
                m == n as int % s,
                s > 0,
        ;
        if m == 0 {
            assert((q * s + s - 1) / s == q) by (nonlinear_arith)
                requires
                    s > 0,
                    q >= 0,
            ;
        } else {
            assert(q < usize::MAX) by (nonlinear_arith)
                requires
                    n as int == q * s + m,
                    0 < m < s,
                    q >= 0,
                    n <= usize::MAX,
            ;
            assert((q * s + m + s - 1) / s == q + 1) by (nonlinear_arith)
                requires
                    s > 0,
                    q >= 0,
                    0 < m < s,
            ;
        }
    }
    if m == 0 {
        q
    } else {
        q + 1
    }
}

/// The section ranges `[start, end)` of the pages, in page order.
pub fn page_ranges(n: usize, sections_per_page: usize) -> (r: Vec<(usize, usize)>)
    requires
        sections_per_page > 0,
    ensures
        r@.len() == page_total(n as int, sections_per_page as int),
        forall|p: int|
            0 <= p < r@.len() ==> #[trigger] r@[p] == (
                page_start(p, sections_per_page as int) as usize,
                page_end(p, sections_per_page as int, n as int) as usize,
            ),
{
    let total = page_count(n, sections_per_page);
    let s = sections_per_page;
    let mut out: Vec<(usize, usize)> = Vec::new();
    let mut p: usize = 0;
    while p < total
        invariant
            s > 0,
            total == page_total(n as int, s as int),
            p <= total,
            out@.len() == p,
            forall|k: int|
                0 <= k < p ==> #[trigger] out@[k] == (
                    page_start(k, s as int) as usize,
                    page_end(k, s as int, n as int) as usize,
                ),
        decreases total - p,
    {
        proof {
            lemma_page_start_in_range(p as int, s as int, n as int);
        }
        let start = p * s;
        let end = if s < n - start {
            start + s
        } else {
            n
        };
        out.push((start, end));
        p = p + 1;
    }
    out
}

proof fn lemma_page_start_in_range(p: int, s: int, n: int)
    requires
        s > 0,
        n >= 0,
        0 <= p < page_total(n, s),
    ensures
        0 <= p * s < n,
{
    assert(0 <= p * s) by (nonlinear_arith)
        requires
            p >= 0,
            s > 0,
    ;
    assert(p * s < n) by (nonlinear_arith)
        requires
            s > 0,
            n >= 0,
            0 <= p < (n + s - 1) / s,
    ;
}

/// Pages tile the sections: each section lies on exactly one page, the page
/// its position divided by the page size names; every page holds at least one
/// section; each page starts where the one before it ends, the first at 0 and
/// the last ending at the number of sections.
pub proof fn law_pages_tile(n: int, spp: int)
    requires
        spp > 0,
        n > 0,
    ensures
        page_start(0, spp) == 0,
        page_end(page_total(n, spp) - 1, spp, n) == n,
        forall|p: int|
            0 <= p < page_total(n, spp) ==> page_start(p, spp) < #[trigger] page_end(p, spp, n),
        forall|p: int|
            0 <= p < page_total(n, spp) - 1 ==> #[trigger] page_end(p, spp, n) == page_start(
                p + 1,
                spp,
            ),
        forall|i: int|
            0 <= i < n ==> {
                let p = #[trigger] (i / spp);
                &&& 0 <= p < page_total(n, spp)
                &&& page_start(p, spp) <= i < page_end(p, spp, n)
            },
        forall|i: int, p: int|
            #![trigger (i / spp), page_end(p, spp, n)]
            0 <= i < n && 0 <= p < page_total(n, spp) && page_start(p, spp) <= i < page_end(
                p,
                spp,
                n,
            ) ==> (i / spp) == p,
{
    let t = page_total(n, spp);
    assert(t >= 1 && (t - 1) * spp < n && n <= t * spp) by (nonlinear_arith)
        requires
            spp > 0,
            n > 0,
            t == (n + spp - 1) / spp,
    ;
    assert((t - 1) * spp + spp == t * spp) by (nonlinear_arith);
    assert forall|p: int| 0 <= p < t implies page_start(p, spp) < #[trigger] page_end(p, spp, n) by {
        lemma_page_start_in_range(p, spp, n);
    }
    assert forall|p: int| 0 <= p < t - 1 implies #[trigger] page_end(p, spp, n) == page_start(
        p + 1,
        spp,
    ) by {
        assert(p * spp + spp == (p + 1) * spp) by (nonlinear_arith);
        lemma_page_start_in_range(p + 1, spp, n);
    }
    assert forall|i: int| 0 <= i < n implies {
        let p = #[trigger] (i / spp);
        &&& 0 <= p < t
        &&& page_start(p, spp) <= i < page_end(p, spp, n)
    } by {
        let p = i / spp;
        assert(0 <= p && p * spp <= i && i < p * spp + spp) by (nonlinear_arith)
            requires
                spp > 0,
                0 <= i,
                p == i / spp,
        ;
        assert(p < t) by (nonlinear_arith)
            requires
                spp > 0,
                p * spp <= i,
                i < n,
                n <= t * spp,
        ;
    }
    assert forall|i: int, p: int|
        #![trigger (i / spp), page_end(p, spp, n)]
        0 <= i < n && 0 <= p < t && page_start(p, spp) <= i < page_end(p, spp, n) implies (i / spp)
            == p by {
        assert(i / spp == p) by (nonlinear_arith)
            requires
                spp > 0,
                p * spp <= i,
                i < p * spp + spp,
        ;
    }
}

/// The sections shown on the current page: all of them when there is one page
/// or no page size, else the current page's range.
pub open spec fn current_page_spec(
    filtered: Seq<usize>,
    total_pages: int,
    spp: int,
    current_page: int,
) -> Seq<usize> {
    if total_pages <= 1 || spp == 0 {
        filtered
    } else {
        filtered.subrange(
            page_start(current_page, spp),
            page_end(current_page, spp, filtered.len() as int),
        )
    }
}

/// The sections of the current page (see `current_page_spec`). The page must
/// start within the list, as slicing demands.
pub fn current_page_sections(
    filtered: &Vec<usize>,
    total_pages: usize,
    sections_per_page: usize,
    current_page: usize,
) -> (r: Vec<usize>)
    requires
        total_pages <= 1 || sections_per_page == 0 || current_page * sections_per_page
            <= filtered@.len(),
    ensures
        r@ == current_page_spec(
            filtered@,
            total_pages as int,
            sections_per_page as int,
            current_page as int,
        ),
{
    if total_pages <= 1 || sections_per_page == 0 {
        return filtered.clone();
    }
    let n = filtered.len();
    let start = current_page * sections_per_page;
    let end = if sections_per_page < n - start {
        start + sections_per_page
    } else {
        n
    };
    let mut out: Vec<usize> = Vec::new();
    let mut i: usize = start;
    while i < end
        invariant
            start <= i <= end <= n,
            n == filtered@.len(),
            out@ == filtered@.subrange(start as int, i as int),
        decreases end - i,
    {
        out.push(filtered[i]);
        i = i + 1;
        assert(out@ =~= filtered@.subrange(start as int, i as int));
    }
    out
}

/// Page size, page count and current page after the sections change.
#[derive(Debug, Clone, Copy)]
pub struct PageState {
    pub sections_per_page: usize,
    pub total_pages: usize,
    pub current_page: usize,
}

/// With no sections: no page size, one page, the first. With a page size
/// worked out for a plotting scale: as many pages as it takes (one where the
/// size is 0), the current page kept where it still exists and moved to the
/// last page otherwise. Without a plotting scale: everything on one page.
pub open spec fn recalc_pages_spec(n: int, scaled_per_page: Option<usize>, current_page: int) -> (
    int,
    int,
    int,
) {
    if n == 0 {
        (0, 1, 0)
    } else {
        match scaled_per_page {
            Some(spp) => {
                let total = if spp > 0 {
                    page_total(n, spp as int)
                } else {
                    1
                };
                (spp as int, total, if current_page >= total {
                    total - 1
                } else {
                    current_page
                })
            },
            None => (n, 1, 0),
        }
    }
}

/// Recomputes the paging for `filtered_len` sections (see `recalc_pages_spec`).
pub fn recalc_pages(filtered_len: usize, scaled_per_page: Option<usize>, current_page: usize) -> (r:
    PageState)
    ensures
        (r.sections_per_page as int, r.total_pages as int, r.current_page as int)
            == recalc_pages_spec(filtered_len as int, scaled_per_page, current_page as int),
        r.total_pages >= 1,
        r.current_page < r.total_pages,
{
    if filtered_len == 0 {
        return PageState { sections_per_page: 0, total_pages: 1, current_page: 0 };
    }
    match scaled_per_page {
        Some(spp) => {
            let total = if spp > 0 {
                page_count(filtered_len, spp)
            } else {
                1
            };
            proof {
                if spp > 0 {
                    assert(total >= 1) by (nonlinear_arith)
                        requires
                            spp > 0,
                            filtered_len > 0,
                            total == (filtered_len + spp - 1) / spp as int,
                    ;
                }
            }
            let cur = if current_page >= total {
                total - 1
            } else {
                current_page
            };
            PageState { sections_per_page: spp, total_pages: total, current_page: cur }
        },
        None => PageState { sections_per_page: filtered_len, total_pages: 1, current_page: 0 },
    }
}

/// The character of a decimal digit.
pub open spec fn digit_char(d: int) -> char {
    if d == 0 {
        '0'
    } else if d == 1 {
        '1'
    } else if d == 2 {
        '2'
    } else if d == 3 {
        '3'
    } else if d == 4 {
        '4'
    } else if d == 5 {
        '5'
    } else if d == 6 {
        '6'
    } else if d == 7 {
        '7'
    } else if d == 8 {
        '8'
    } else {
        '9'
    }
}

/// The decimal digits of a number, as `Display` writes them.
pub open spec fn decimal(n: nat) -> Seq<char>
    decreases n,
{
    if n < 10 {
        seq![digit_char(n as int)]
    } else {
        decimal(n / 10).push(digit_char((n % 10) as int))
    }
}

fn digit(d: usize) -> (c: char)
    requires
        d < 10,
    ensures
        c == digit_char(d as int),
{
    if d == 0 {
        '0'
    } else if d == 1 {
        '1'
    } else if d == 2 {
        '2'
    } else if d == 3 {
        '3'
    } else if d == 4 {
        '4'
    } else if d == 5 {
        '5'
    } else if d == 6 {
        '6'
    } else if d == 7 {
        '7'
    } else if d == 8 {
        '8'
    } else {
        '9'
    }
}

/// The decimal digits of `n`.
pub fn decimal_chars(n: usize) -> (r: Vec<char>)
    ensures
        r@ == decimal(n as nat),
    decreases n,
{
    if n < 10 {
        let mut v: Vec<char> = Vec::new();
        v.push(digit(n));
        assert(v@ =~= seq![digit_char(n as int)]);
        v
    } else {
        let mut v = decimal_chars(n / 10);
        v.push(digit(n % 10));
        v
    }
}

/// The drawing number of a page of cross sections: the base number, followed by
/// `-` and the page's number counted from 1 where there is more than one page.
pub open spec fn page_number_spec(base: Seq<char>, page: nat, total_pages: nat) -> Seq<char> {
    if total_pages > 1 {
        base + seq!['-'] + decimal(page + 1)
    } else {
        base
    }
}

/// See `page_number_spec`.
pub fn page_drawing_number(base: &str, page: usize, total_pages: usize) -> (r: String)
    requires
        page < total_pages,
    ensures
        r@ == page_number_spec(base@, page as nat, total_pages as nat),
{
    let mut out = str_to_chars(base);
    if total_pages > 1 {
        out.push('-');
        append_chars(&mut out, &decimal_chars(page + 1));
    }
    chars_to_string(&out)
}

/// The drawing number of an as-built sheet: `page/total` counted from 1, after
/// the base number and `-` where there is a base number.
pub open spec fn dekigata_number_spec(base: Seq<char>, page: nat, total_pages: nat) -> Seq<char> {
    let tail = decimal(page + 1) + seq!['/'] + decimal(total_pages);
    if base.len() == 0 {
        tail
    } else {
        base + seq!['-'] + tail
    }
}

/// See `dekigata_number_spec`.
pub fn dekigata_drawing_number(base: &str, page_idx: usize, total_pages: usize) -> (r: String)
    requires
        page_idx < total_pages,
    ensures
        r@ == dekigata_number_spec(base@, page_idx as nat, total_pages as nat),
{
    let b = str_to_chars(base);
    let mut out: Vec<char> = Vec::new();
    if b.len() > 0 {
        append_chars(&mut out, &b);
        out.push('-');
    }
    append_chars(&mut out, &decimal_chars(page_idx + 1));
    out.push('/');
    append_chars(&mut out, &decimal_chars(total_pages));
    chars_to_string(&out)
}

/// The rows each column of a grid holds: `ceil(count / columns)`.
pub fn rows_per_column(count: usize, columns: usize) -> (r: usize)
    requires
        columns > 0,
    ensures
        r == page_total(count as int, columns as int),
{
    page_count(count, columns)
}

/// The cell of the section at `idx`: sections fill a column from the top, then
/// the next column.
pub fn grid_cell(idx: usize, rows_per_column: usize) -> (r: (usize, usize))
    requires
        rows_per_column > 0,
    ensures
        r == (idx / rows_per_column, idx % rows_per_column),
{
    (idx / rows_per_column, idx % rows_per_column)
}

/// In a grid of `columns` columns holding `n` sections, each section gets a
/// cell of its own: its column is below `columns`, its row below the rows per
/// column, and two sections never share a cell.
pub proof fn law_grid_cells(n: int, columns: int)
    requires
        n > 0,
        columns > 0,
    ensures
        forall|i: int|
            0 <= i < n ==> #[trigger] (i / page_total(n, columns)) < columns && i % page_total(
                n,
                columns,
            ) < page_total(n, columns),
        forall|i: int, j: int|
            0 <= i < n && 0 <= j < n && i != j ==> #[trigger] (i / page_total(n, columns)) != #[trigger] (j
                / page_total(n, columns)) || i % page_total(n, columns) != j % page_total(n, columns),
{
    let rpc = page_total(n, columns);
    assert(rpc >= 1 && n <= rpc * columns) by (nonlinear_arith)
        requires
            columns > 0,
            n > 0,
            rpc == (n + columns - 1) / columns,
    ;
    assert forall|i: int| 0 <= i < n implies #[trigger] (i / rpc) < columns && i % rpc < rpc by {
        assert(i / rpc < columns) by (nonlinear_arith)
            requires
                rpc >= 1,
                0 <= i < n,
                n <= rpc * columns,
        ;
    }
    assert forall|i: int, j: int|
        0 <= i < n && 0 <= j < n && i != j implies #[trigger] (i / rpc) != #[trigger] (j / rpc) || i
        % rpc != j % rpc by {
        assert(i == (i / rpc) * rpc + i % rpc && j == (j / rpc) * rpc + j % rpc) by (nonlinear_arith)
            requires
                rpc >= 1,
        ;
    }
}


/// Where the first check that failed stands; the length where none failed.
pub open spec fn first_failure(checks: Seq<Option<bool>>, i: int) -> int
    decreases checks.len() - i,
{
    if i < 0 || i >= checks.len() {
        checks.len() as int
    } else if checks[i] == Some(false) {
        i
    } else {
        first_failure(checks, i + 1)
    }
}

proof fn lemma_first_failure(checks: Seq<Option<bool>>, i: int)
    requires
        0 <= i <= checks.len(),
    ensures
        i <= first_failure(checks, i) <= checks.len(),
        forall|k: int| i <= k < first_failure(checks, i) ==> #[trigger] checks[k] != Some(false),
        first_failure(checks, i) < checks.len() ==> checks[first_failure(checks, i)] == Some(false),
    decreases checks.len() - i,
{
    if i < checks.len() && checks[i] != Some(false) {
        lemma_first_failure(checks, i + 1);
    }
}

/// The largest count that fits, trying counts 1, 2, ... in turn: `checks[n - 1]`
/// tells whether `n` fits (`None` where it could not be told). The search stops
/// at the first count that does not fit; 1 where no count was seen to fit.
pub fn max_fitting(checks: &Vec<Option<bool>>) -> (r: usize)
    ensures
        r >= 1,
        r > 1 ==> r - 1 < first_failure(checks@, 0) && checks@[r - 1] == Some(true),
        forall|i: int|
            0 <= i < first_failure(checks@, 0) && #[trigger] checks@[i] == Some(true) ==> i + 1 <= r,
{
    proof {
        lemma_first_failure(checks@, 0);
    }
    let mut best: usize = 1;
    let mut i: usize = 0;
    while i < checks.len()
        invariant
            i <= checks@.len(),
            best >= 1,
            best > 1 ==> best - 1 < first_failure(checks@, 0) && checks@[best - 1] == Some(true),
            forall|k: int| 0 <= k < i && #[trigger] checks@[k] == Some(true) ==> k + 1 <= best,
            i <= first_failure(checks@, 0) <= checks@.len(),
            forall|k: int| 0 <= k < first_failure(checks@, 0) ==> #[trigger] checks@[k] != Some(false),
            first_failure(checks@, 0) < checks@.len() ==> checks@[first_failure(checks@, 0)] == Some(
                false,
            ),
        ensures
            best >= 1,
            best > 1 ==> best - 1 < first_failure(checks@, 0) && checks@[best - 1] == Some(true),
            forall|k: int|
                0 <= k < first_failure(checks@, 0) && #[trigger] checks@[k] == Some(true) ==> k + 1
                    <= best,
        decreases checks@.len() - i,
    {
        match checks[i] {
            Some(true) => {
                best = i + 1;
            },
            Some(false) => {
                break;
            },
            None => {},
        }
        i = i + 1;
    }
    best
}


proof fn lemma_digit_char_value(k: int)
    requires
        0 <= k < 10,
    ensures
        crate::text::is_ascii_digit(digit_char(k)),
        crate::text::digit_value(digit_char(k)) == k,
{
    if k == 0 {
    } else if k == 1 {
    } else if k == 2 {
    } else if k == 3 {
    } else if k == 4 {
    } else if k == 5 {
    } else if k == 6 {
    } else if k == 7 {
    } else if k == 8 {
    } else {
    }
}

/// The decimal text of `n` is digits that read back as `n`.
pub proof fn lemma_decimal_reads_back(n: nat)
    ensures
        decimal(n).len() >= 1,
        all_digits(decimal(n)),
        digits_value(decimal(n)) == n,
    decreases n,
{
    lemma_digit_char_value((n % 10) as int);
    if n >= 10 {
        lemma_decimal_reads_back(n / 10);
        assert(n == (n / 10) * 10 + n % 10);
        let d = decimal(n / 10);
        let e = decimal(n);
        assert(e == d.push(digit_char((n % 10) as int)));
        assert(e.drop_last() =~= d);
        assert(e.last() == digit_char((n % 10) as int));
        assert(digits_value(e) == digits_value(d) * 10 + crate::text::digit_value(e.last()));
        assert forall|i: int| 0 <= i < e.len() implies crate::text::is_ascii_digit(#[trigger] e[i]) by {
            if i < d.len() {
                assert(e[i] == d[i]);
            }
        }
    } else {
        assert(n % 10 == n);
        let e = decimal(n);
        assert(e.drop_last() =~= Seq::<char>::empty());
        assert(digits_value(e.drop_last()) == 0);
        assert(e.last() == digit_char(n as int));
        assert(digits_value(e) == digits_value(e.drop_last()) * 10 + crate::text::digit_value(e.last()));
    }
}

/// With more than one page, a page's drawing number is the base number, `-`,
/// and digits that read as the page's number counted from 1; so two different
/// pages of one set never share a drawing number. With one page it is the base.
pub proof fn law_page_numbers(base: Seq<char>, p: nat, q: nat, total: nat)
    requires
        p < total,
        q < total,
    ensures
        total <= 1 ==> page_number_spec(base, p, total) == base,
        total > 1 ==> {
            let r = page_number_spec(base, p, total);
            let d = r.skip(base.len() as int + 1);
            &&& r.take(base.len() as int) == base
            &&& r[base.len() as int] == '-'
            &&& d.len() >= 1
            &&& all_digits(d)
            &&& digits_value(d) == p + 1
        },
        total > 1 && p != q ==> page_number_spec(base, p, total) != page_number_spec(base, q, total),
{
    lemma_decimal_reads_back(p + 1);
    lemma_decimal_reads_back(q + 1);
    if total > 1 {
        let r = page_number_spec(base, p, total);
        let rq = page_number_spec(base, q, total);
        assert(r.take(base.len() as int) =~= base);
        assert(r.skip(base.len() as int + 1) =~= decimal(p + 1));
        assert(rq.skip(base.len() as int + 1) =~= decimal(q + 1));
        if p != q && r == rq {
            assert(decimal(p + 1) == decimal(q + 1));
        }
    }
}

} // verus!
