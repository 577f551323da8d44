use vstd::prelude::*;

verus! {

/// Unicode `White_Space` property, as `char::is_whitespace` defines it.
pub open spec fn is_white_space(c: char) -> bool {
    ||| ('\t' <= c && c <= '\r')
    ||| c == ' '
    ||| c == '\u{85}'
    ||| c == '\u{a0}'
    ||| c == '\u{1680}'
    ||| ('\u{2000}' <= c && c <= '\u{200a}')
    ||| c == '\u{2028}'
    ||| c == '\u{2029}'
    ||| c == '\u{202f}'
    ||| c == '\u{205f}'
    ||| c == '\u{3000}'
}

pub fn char_is_white_space(c: char) -> (r: bool)
    ensures
        r == is_white_space(c),
{
    ('\t' <= c && c <= '\r') || c == ' ' || c == '\u{85}' || c == '\u{a0}' || c == '\u{1680}'
        || ('\u{2000}' <= c && c <= '\u{200a}') || c == '\u{2028}' || c == '\u{2029}'
        || c == '\u{202f}' || c == '\u{205f}' || c == '\u{3000}'
}

/// The characters of a string slice, in order.
pub fn str_to_chars(s: &str) -> (r: Vec<char>)
    ensures
        r@ == s@,
{
    let mut out: Vec<char> = Vec::new();
    for c in it: s.chars()
        invariant
            out@ == it.seq().take(it.index() as int),
    {
        out.push(c);
    }
    out
}


/// Leading white space removed (`str::trim_start`).
pub open spec fn trim_start(s: Seq<char>) -> Seq<char>
    decreases s.len(),
{
    if s.len() > 0 && is_white_space(s[0]) {
        trim_start(s.drop_first())
    } else {
        s
    }
}

/// Trailing white space removed (`str::trim_end`).
pub open spec fn trim_end(s: Seq<char>) -> Seq<char>
    decreases s.len(),
{
    if s.len() > 0 && is_white_space(s.last()) {
        trim_end(s.drop_last())
    } else {
        s
    }
}

/// Leading and trailing white space removed (`str::trim`).
pub open spec fn trim(s: Seq<char>) -> Seq<char> {
    trim_end(trim_start(s))
}

proof fn lemma_trim_start_skip(s: Seq<char>, k: int)
    requires
        0 <= k <= s.len(),
        forall|j: int| 0 <= j < k ==> is_white_space(#[trigger] s[j]),
    ensures
        trim_start(s) == trim_start(s.subrange(k, s.len() as int)),
    decreases k,
{
    if k > 0 {
        assert(s.drop_first() =~= s.subrange(1, s.len() as int));
        let t = s.drop_first();
        assert forall|j: int| 0 <= j < k - 1 implies is_white_space(#[trigger] t[j]) by {
            assert(t[j] == s[j + 1]);
        }
        lemma_trim_start_skip(t, k - 1);
        assert(t.subrange(k - 1, t.len() as int) =~= s.subrange(k, s.len() as int));
    } else {
        assert(s.subrange(0, s.len() as int) =~= s);
    }
}

proof fn lemma_trim_end_take(s: Seq<char>, k: int)
    requires
        0 <= k <= s.len(),
        forall|j: int| k <= j < s.len() ==> is_white_space(#[trigger] s[j]),
    ensures
        trim_end(s) == trim_end(s.subrange(0, k)),
    decreases s.len() - k,
{
    if k < s.len() {
        let t = s.drop_last();
        assert forall|j: int| k <= j < t.len() implies is_white_space(#[trigger] t[j]) by {
            assert(t[j] == s[j]);
        }
        lemma_trim_end_take(t, k);
        assert(t.subrange(0, k) =~= s.subrange(0, k));
    } else {
        assert(s.subrange(0, k) =~= s);
    }
}

/// `str::trim` on a character sequence.
pub fn trim_chars(s: &Vec<char>) -> (r: Vec<char>)
    ensures
        r@ == trim(s@),
{
    let n = s.len();
    let mut i: usize = 0;
    while i < n && char_is_white_space(s[i])
        invariant
            i <= n,
            n == s@.len(),
            forall|j: int| 0 <= j < i ==> is_white_space(#[trigger] s@[j]),
        decreases n - i,
    {
        i = i + 1;
    }
    proof {
        lemma_trim_start_skip(s@, i as int);
    }
    let ghost t = s@.subrange(i as int, n as int);
    let mut j: usize = n;
    while j > i && char_is_white_space(s[j - 1])
        invariant
            i <= j <= n,
            n == s@.len(),
            t == s@.subrange(i as int, n as int),
            forall|m: int| j <= m < n ==> is_white_space(#[trigger] s@[m]),
        decreases j,
    {
        j = j - 1;
    }
    proof {
        assert forall|m: int| (j - i) <= m < t.len() implies is_white_space(#[trigger] t[m]) by {
            assert(t[m] == s@[m + i]);
        }
        lemma_trim_end_take(t, (j - i) as int);
        assert(t.subrange(0, (j - i) as int) =~= s@.subrange(i as int, j as int));
        if i < j {
            assert(!is_white_space(s@[i as int]));
            assert(t.subrange(0, (j - i) as int)[0] == s@[i as int]);
        }
        // the trimmed-start prefix is non-white-space at its head, so trim_start stops there
        assert(trim_start(t) == t || t.len() == 0);
    }
    let mut out: Vec<char> = Vec::new();
    let mut k: usize = i;
    while k < j
        invariant
            i <= k <= j <= n,
            n == s@.len(),
            out@ == s@.subrange(i as int, k as int),
        decreases j - k,
    {
        out.push(s[k]);
        k = k + 1;
        assert(out@ =~= s@.subrange(i as int, k as int));
    }
    out
}


/// A line without its carriage return, as `str::lines` strips it before a line feed.
pub open spec fn strip_cr(l: Seq<char>) -> Seq<char> {
    if l.len() > 0 && l.last() == '\r' {
        l.drop_last()
    } else {
        l
    }
}

/// The lines that `str::lines` yields for `s`, when `cur` has already been read
/// as the start of the current line.
pub open spec fn lines_from(s: Seq<char>, cur: Seq<char>) -> Seq<Seq<char>>
    decreases s.len(),
{
    if s.len() == 0 {
        if cur.len() == 0 {
            seq![]
        } else {
            seq![cur]
        }
    } else if s[0] == '\n' {
        seq![strip_cr(cur)] + lines_from(s.drop_first(), seq![])
    } else {
        lines_from(s.drop_first(), cur.push(s[0]))
    }
}

/// `str::lines`: the text split at each line feed, a carriage return before a
/// line feed dropped, and no empty line after a final line feed.
pub open spec fn lines(s: Seq<char>) -> Seq<Seq<char>> {
    lines_from(s, seq![])
}

/// The texts of a sequence of strings.
pub open spec fn strs(v: Seq<String>) -> Seq<Seq<char>> {
    v.map_values(|s: String| s@)
}

/// The character sequences that a vector of lines holds.
pub open spec fn views(v: Seq<Vec<char>>) -> Seq<Seq<char>> {
    v.map_values(|l: Vec<char>| l@)
}

proof fn lemma_views_push(v: Seq<Vec<char>>, x: Vec<char>)
    ensures
        views(v.push(x)) == views(v).push(x@),
{
    assert(views(v.push(x)) =~= views(v).push(x@));
}

/// `str::lines` on a character sequence.
pub fn split_lines(s: &Vec<char>) -> (r: Vec<Vec<char>>)
    ensures
        views(r@) == lines(s@),
{
    let mut out: Vec<Vec<char>> = Vec::new();
    let mut cur: Vec<char> = Vec::new();
    let n = s.len();
    let mut i: usize = 0;
    assert(s@.skip(0) =~= s@);
    assert(views(out@) =~= Seq::<Seq<char>>::empty());
    assert(cur@ =~= Seq::<char>::empty());
    while i < n
        invariant
            i <= n,
            n == s@.len(),
            lines(s@) == views(out@) + lines_from(s@.skip(i as int), cur@),
        decreases n - i,
    {
        let ghost rest = s@.skip(i as int);
        assert(rest.drop_first() =~= s@.skip(i + 1));
        let c = s[i];
        if c == '\n' {
            let mut line = cur;
            let len = line.len();
            if len > 0 && line[len - 1] == '\r' {
                line.pop();
            }
            proof {
                assert(line@ == strip_cr(cur@));
            }
            let ghost before = out@;
            proof {
                lemma_views_push(before, line);
            }
            out.push(line);
            assert(views(before).push(strip_cr(cur@)) =~= views(before) + seq![strip_cr(cur@)]);
            cur = Vec::new();
            assert(cur@ =~= Seq::<char>::empty());
        } else {
            cur.push(c);
        }
        i = i + 1;
    }
    assert(s@.skip(n as int) =~= Seq::<char>::empty());
    if cur.len() > 0 {
        let ghost before = out@;
        let ghost last = cur@;
        proof {
            lemma_views_push(before, cur);
        }
        out.push(cur);
        assert(views(before).push(last) =~= views(before) + seq![last]);
    } else {
        assert(views(out@) =~= views(out@) + Seq::<Seq<char>>::empty());
    }
    out
}

/// Character-wise equality of two sequences.
pub fn chars_eq(a: &Vec<char>, b: &Vec<char>) -> (r: bool)
    ensures
        r == (a@ == b@),
{
    if a.len() != b.len() {
        return false;
    }
    let mut i: usize = 0;
    while i < a.len()
        invariant
            i <= a@.len(),
            a@.len() == b@.len(),
            forall|j: int| 0 <= j < i ==> a@[j] == b@[j],
        decreases a@.len() - i,
    {
        if a[i] != b[i] {
            return false;
        }
        i = i + 1;
    }
    assert(a@ =~= b@);
    true
}

/// Whether `a` equals the text of `b`.
pub fn chars_eq_str(a: &Vec<char>, b: &str) -> (r: bool)
    ensures
        r == (a@ == b@),
{
    let bc = str_to_chars(b);
    chars_eq(a, &bc)
}

/// Appends the characters of `s` to `out`.
pub fn append_chars(out: &mut Vec<char>, s: &Vec<char>)
    ensures
        final(out)@ == old(out)@ + s@,
{
    let ghost o = out@;
    let mut i: usize = 0;
    while i < s.len()
        invariant
            i <= s@.len(),
            out@ == o + s@.take(i as int),
        decreases s@.len() - i,
    {
        out.push(s[i]);
        i = i + 1;
        assert(out@ =~= o + s@.take(i as int));
    }
    assert(s@.take(s@.len() as int) =~= s@);
}

/// `String::push`: the character is appended.
#[verifier::external_body]
fn string_push(s: &mut String, c: char)
    ensures
        final(s)@ == old(s)@.push(c),
{
    s.push(c);
}

/// A `String` holding the given characters.
pub fn chars_to_string(v: &Vec<char>) -> (r: String)
    ensures
        r@ == v@,
{
    let mut s = String::new();
    let mut i: usize = 0;
    while i < v.len()
        invariant
            i <= v@.len(),
            s@ == v@.take(i as int),
        decreases v@.len() - i,
    {
        string_push(&mut s, v[i]);
        i = i + 1;
        assert(s@ =~= v@.take(i as int));
    }
    assert(v@.take(v@.len() as int) =~= v@);
    s
}


pub open spec fn is_ascii_digit(c: char) -> bool {
    '0' <= c && c <= '9'
}

pub open spec fn digit_value(c: char) -> int {
    (c as int) - ('0' as int)
}

pub open spec fn all_digits(s: Seq<char>) -> bool {
    forall|i: int| 0 <= i < s.len() ==> is_ascii_digit(#[trigger] s[i])
}

/// The number that a string of decimal digits writes.
pub open spec fn digits_value(s: Seq<char>) -> int
    decreases s.len(),
{
    if s.len() == 0 {
        0
    } else {
        digits_value(s.drop_last()) * 10 + digit_value(s.last())
    }
}

/// The integer that `FromStr` reads for an integer type: an optional `+`
/// (or `-` where `signed`), then one or more ASCII digits and nothing else.
/// The range of the type is checked by the callers.
pub open spec fn integer_text_value(s: Seq<char>, signed: bool) -> Option<int> {
    if s.len() == 0 {
        None
    } else {
        let neg = signed && s[0] == '-';
        let body = if s[0] == '+' || neg {
            s.drop_first()
        } else {
            s
        };
        if body.len() == 0 || !all_digits(body) {
            None
        } else if neg {
            Some(-digits_value(body))
        } else {
            Some(digits_value(body))
        }
    }
}

/// `str::parse::<i32>`.
pub open spec fn parse_i32_spec(s: Seq<char>) -> Option<i32> {
    match integer_text_value(s, true) {
        Some(v) => if i32::MIN <= v <= i32::MAX {
            Some(v as i32)
        } else {
            None
        },
        None => None,
    }
}

/// `str::parse::<usize>`.
pub open spec fn parse_usize_spec(s: Seq<char>) -> Option<usize> {
    match integer_text_value(s, false) {
        Some(v) => if 0 <= v <= usize::MAX {
            Some(v as usize)
        } else {
            None
        },
        None => None,
    }
}

pub proof fn lemma_digits_value_nonneg(s: Seq<char>)
    requires
        all_digits(s),
    ensures
        digits_value(s) >= 0,
    decreases s.len(),
{
    if s.len() > 0 {
        assert(all_digits(s.drop_last())) by {
            assert forall|i: int| 0 <= i < s.drop_last().len() implies is_ascii_digit(
                #[trigger] s.drop_last()[i],
            ) by {
                assert(s.drop_last()[i] == s[i]);
            }
        }
        lemma_digits_value_nonneg(s.drop_last());
        assert(is_ascii_digit(s[s.len() - 1]));
    }
}

proof fn lemma_digits_value_mono(s: Seq<char>, k: int)
    requires
        all_digits(s),
        0 <= k <= s.len(),
    ensures
        digits_value(s.take(k)) <= digits_value(s),
    decreases s.len() - k,
{
    if k < s.len() {
        let t = s.take(k + 1);
        assert(all_digits(t)) by {
            assert forall|i: int| 0 <= i < t.len() implies is_ascii_digit(#[trigger] t[i]) by {
                assert(t[i] == s[i]);
            }
        }
        assert(t.drop_last() =~= s.take(k));
        lemma_digits_value_nonneg(t.drop_last());
        assert(is_ascii_digit(t[k]));
        lemma_digits_value_mono(s, k + 1);
    } else {
        assert(s.take(k) =~= s);
    }
}

/// Reads the decimal digits of `s` from `start` on, up to `bound`.
/// `None` when there are none, when one is not a digit, or when the value is above `bound`.
fn parse_digits_bounded(s: &Vec<char>, start: usize, bound: u64) -> (r: Option<u64>)
    requires
        start <= s@.len(),
    ensures
        ({
            let body = s@.skip(start as int);
            match r {
                Some(v) => body.len() > 0 && all_digits(body) && v == digits_value(body) && v <= bound,
                None => body.len() == 0 || !all_digits(body) || digits_value(body) > bound,
            }
        }),
{
    let ghost body = s@.skip(start as int);
    let n = s.len();
    if start >= n {
        return None;
    }
    let mut acc: u64 = 0;
    let mut k: usize = start;
    assert(body.take(0) =~= Seq::<char>::empty());
    while k < n
        invariant
            start <= k <= n,
            n == s@.len(),
            body == s@.skip(start as int),
            all_digits(body.take(k - start)),
            acc == digits_value(body.take(k - start)),
            acc <= bound,
        decreases n - k,
    {
        let c = s[k];
        if !('0' <= c && c <= '9') {
            assert(body[k - start] == c);
            return None;
        }
        let d = (c as u32 - '0' as u32) as u64;
        let ghost pre = body.take(k - start);
        let ghost next = body.take(k - start + 1);
        assert(next.drop_last() =~= pre);
        assert(next.last() == c);
        assert(all_digits(next)) by {
            assert forall|i: int| 0 <= i < next.len() implies is_ascii_digit(#[trigger] next[i]) by {
                if i < next.len() - 1 {
                    assert(next[i] == pre[i]);
                }
            }
        }
        let too_big = if acc > bound / 10 {
            true
        } else {
            let m = acc * 10;
            m > bound || bound - m < d
        };
        if too_big {
            proof {
                assert(digits_value(next) == acc * 10 + d);
                assert(digits_value(next) > bound) by (nonlinear_arith)
                    requires
                        acc > bound / 10 || acc * 10 > bound || bound - acc * 10 < d,
                        digits_value(next) == acc * 10 + d,
                        0 <= d <= 9,
                        bound >= 0,
                ;
                if all_digits(body) {
                    lemma_digits_value_mono(body, k - start + 1);
                }
            }
            return None;
        }
        acc = acc * 10 + d;
        k = k + 1;
    }
    assert(body.take(k - start) =~= body);
    Some(acc)
}

/// `str::parse::<i32>` on a character sequence.
pub fn parse_i32(s: &Vec<char>) -> (r: Option<i32>)
    ensures
        r == parse_i32_spec(s@),
{
    if s.len() == 0 {
        return None;
    }
    let neg = s[0] == '-';
    let start: usize = if s[0] == '+' || neg { 1 } else { 0 };
    let ghost body = if s@[0] == '+' || neg { s@.drop_first() } else { s@ };
    assert(body =~= s@.skip(start as int));
    let bound: u64 = if neg { 2147483648 } else { 2147483647 };
    match parse_digits_bounded(s, start, bound) {
        Some(v) => {
            if neg {
                if v == 2147483648 {
                    Some(i32::MIN)
                } else {
                    Some(-(v as i32))
                }
            } else {
                Some(v as i32)
            }
        },
        None => None,
    }
}

/// `str::parse::<usize>` on a character sequence.
pub fn parse_usize(s: &Vec<char>) -> (r: Option<usize>)
    ensures
        r == parse_usize_spec(s@),
{
    if s.len() == 0 {
        return None;
    }
    let start: usize = if s[0] == '+' { 1 } else { 0 };
    let ghost body = if s@[0] == '+' { s@.drop_first() } else { s@ };
    assert(body =~= s@.skip(start as int));
    match parse_digits_bounded(s, start, usize::MAX as u64) {
        Some(v) => Some(v as usize),
        None => None,
    }
}


/// The code point of the ASCII lower case of a character (`char::to_ascii_lowercase`).
pub open spec fn ascii_lower(c: char) -> u32 {
    if 'A' <= c && c <= 'Z' {
        ((c as u32) + 32) as u32
    } else {
        c as u32
    }
}

/// Whether the text, ASCII lower-cased, is `w`.
pub open spec fn eq_ignore_ascii_case(s: Seq<char>, w: Seq<char>) -> bool {
    s.len() == w.len() && forall|i: int| 0 <= i < s.len() ==> ascii_lower(#[trigger] s[i]) == w[i] as u32
}

/// The digits of a real number before its exponent: digits and at most one `.`,
/// with at least one digit.
pub open spec fn is_mantissa(m: Seq<char>) -> bool {
    &&& forall|i: int| 0 <= i < m.len() ==> (is_ascii_digit(#[trigger] m[i]) || m[i] == '.')
    &&& forall|i: int, j: int| 0 <= i < j < m.len() && #[trigger] m[i] == '.' ==> #[trigger] m[j] != '.'
    &&& exists|i: int| 0 <= i < m.len() && is_ascii_digit(#[trigger] m[i])
}

/// An exponent after `e`: an optional sign and one or more digits.
pub open spec fn is_exponent(x: Seq<char>) -> bool {
    let d = if x.len() > 0 && (x[0] == '+' || x[0] == '-') {
        x.drop_first()
    } else {
        x
    };
    d.len() > 0 && all_digits(d)
}

pub open spec fn is_exp_marker(c: char) -> bool {
    c == 'e' || c == 'E'
}

/// `Number ::= Mantissa ('e' Sign? Digit+)?`, the marker in either case.
pub open spec fn is_number_text(b: Seq<char>) -> bool {
    ||| is_mantissa(b)
    ||| exists|k: int|
        0 <= k < b.len() && is_exp_marker(#[trigger] b[k]) && is_mantissa(b.take(k))
            && is_exponent(b.skip(k + 1))
}

/// The texts that `str::parse::<f64>` accepts, after its documented grammar:
/// `Sign? ('inf' | 'infinity' | 'nan' | Number)`, letters in either case, no
/// white space.
pub open spec fn float_text(s: Seq<char>) -> bool {
    let b = if s.len() > 0 && (s[0] == '+' || s[0] == '-') {
        s.drop_first()
    } else {
        s
    };
    ||| eq_ignore_ascii_case(b, "inf"@)
    ||| eq_ignore_ascii_case(b, "infinity"@)
    ||| eq_ignore_ascii_case(b, "nan"@)
    ||| is_number_text(b)
}

fn lower_char(c: char) -> (r: u32)
    ensures
        r == ascii_lower(c),
{
    if 'A' <= c && c <= 'Z' {
        c as u32 + 32
    } else {
        c as u32
    }
}

fn eq_ignore_case_from(s: &Vec<char>, start: usize, w: &str) -> (r: bool)
    requires
        start <= s@.len(),
    ensures
        r == eq_ignore_ascii_case(s@.skip(start as int), w@),
{
    let wc = str_to_chars(w);
    let n = s.len();
    if n - start != wc.len() {
        return false;
    }
    let ghost b = s@.skip(start as int);
    let mut i: usize = 0;
    while i < wc.len()
        invariant
            i <= wc@.len(),
            wc@.len() == n - start,
            n == s@.len(),
            b == s@.skip(start as int),
            wc@ == w@,
            forall|j: int| 0 <= j < i ==> ascii_lower(#[trigger] b[j]) == wc@[j] as u32,
        decreases wc@.len() - i,
    {
        let c = lower_char(s[start + i]);
        assert(b[i as int] == s@[start + i]);
        if c != wc[i] as u32 {
            return false;
        }
        i = i + 1;
    }
    true
}

/// Whether `m[from..to]` is a mantissa.
fn scan_mantissa(s: &Vec<char>, from: usize, to: usize) -> (r: bool)
    requires
        from <= to <= s@.len(),
    ensures
        r == is_mantissa(s@.subrange(from as int, to as int)),
{
    let ghost m = s@.subrange(from as int, to as int);
    let mut i: usize = from;
    let mut seen_dot = false;
    let mut seen_digit = false;
    let ghost mut dot_at: int = -1;
    let ghost mut digit_at: int = -1;
    while i < to
        invariant
            from <= i <= to <= s@.len(),
            m == s@.subrange(from as int, to as int),
            forall|j: int| 0 <= j < i - from ==> (is_ascii_digit(#[trigger] m[j]) || m[j] == '.'),
            seen_dot <==> exists|j: int| 0 <= j < i - from && #[trigger] m[j] == '.',
            seen_dot ==> 0 <= dot_at < i - from && m[dot_at] == '.',
            forall|j: int| 0 <= j < i - from && m[j] == '.' ==> j == dot_at,
            seen_digit <==> exists|j: int| 0 <= j < i - from && is_ascii_digit(#[trigger] m[j]),
        decreases to - i,
    {
        let c = s[i];
        assert(m[i - from] == c);
        if c == '.' {
            if seen_dot {
                assert(m[dot_at] == '.' && dot_at < i - from);
                return false;
            }
            seen_dot = true;
            proof {
                dot_at = i - from;
            }
        } else if '0' <= c && c <= '9' {
            seen_digit = true;
            assert(is_ascii_digit(m[i - from]));
        } else {
            return false;
        }
        i = i + 1;
    }
    if !seen_digit {
        return false;
    }
    assert forall|a: int, b: int| 0 <= a < b < m.len() && #[trigger] m[a] == '.' implies #[trigger] m[b] != '.' by {
        if m[b] == '.' {
            assert(a == dot_at && b == dot_at);
        }
    }
    true
}

/// Whether `s[from..]` is an exponent.
fn scan_exponent(s: &Vec<char>, from: usize) -> (r: bool)
    requires
        from <= s@.len(),
    ensures
        r == is_exponent(s@.skip(from as int)),
{
    let ghost x = s@.skip(from as int);
    let n = s.len();
    let start: usize = if from < n && (s[from] == '+' || s[from] == '-') { from + 1 } else { from };
    let ghost d = if x.len() > 0 && (x[0] == '+' || x[0] == '-') { x.drop_first() } else { x };
    assert(d =~= s@.skip(start as int));
    if start >= n {
        return false;
    }
    let mut i: usize = start;
    while i < n
        invariant
            start <= i <= n,
            n == s@.len(),
            d == s@.skip(start as int),
            is_exponent(s@.skip(from as int)) == (d.len() > 0 && all_digits(d)),
            forall|j: int| 0 <= j < i - start ==> is_ascii_digit(#[trigger] d[j]),
        decreases n - i,
    {
        let c = s[i];
        assert(d[i - start] == c);
        if !('0' <= c && c <= '9') {
            return false;
        }
        i = i + 1;
    }
    true
}

/// Whether `str::parse::<f64>` accepts the text.
pub fn is_float_text(s: &Vec<char>) -> (r: bool)
    ensures
        r == float_text(s@),
{
    let n = s.len();
    let start: usize = if n > 0 && (s[0] == '+' || s[0] == '-') { 1 } else { 0 };
    let ghost b = if s@.len() > 0 && (s@[0] == '+' || s@[0] == '-') { s@.drop_first() } else { s@ };
    assert(b =~= s@.skip(start as int));
    if eq_ignore_case_from(s, start, "inf") || eq_ignore_case_from(s, start, "infinity")
        || eq_ignore_case_from(s, start, "nan") {
        return true;
    }
    // the first exponent marker, if any
    let mut k: usize = start;
    while k < n && !(s[k] == 'e' || s[k] == 'E')
        invariant
            start <= k <= n,
            n == s@.len(),
            forall|j: int| start <= j < k ==> !is_exp_marker(#[trigger] s@[j]),
        decreases n - k,
    {
        k = k + 1;
    }
    assert(b.take((k - start) as int) =~= s@.subrange(start as int, k as int));
    if k == n {
        assert(s@.subrange(start as int, n as int) =~= b);
        let r = scan_mantissa(s, start, n);
        proof {
            if !r && is_number_text(b) {
                let q = choose|q: int|
                    0 <= q < b.len() && is_exp_marker(#[trigger] b[q]) && is_mantissa(b.take(q))
                        && is_exponent(b.skip(q + 1));
                assert(b[q] == s@[start + q]);
            }
        }
        r
    } else {
        let mok = scan_mantissa(s, start, k);
        let eok = scan_exponent(s, k + 1);
        let ghost kk = (k - start) as int;
        assert(b[kk] == s@[k as int]);
        assert(b.skip(kk + 1) =~= s@.skip(k + 1));
        proof {
            // a mantissa holds no marker, so the whole text is not one
            if is_mantissa(b) {
                assert(is_ascii_digit(b[kk]) || b[kk] == '.');
            }
            if !(mok && eok) && is_number_text(b) {
                let q = choose|q: int|
                    0 <= q < b.len() && is_exp_marker(#[trigger] b[q]) && is_mantissa(b.take(q))
                        && is_exponent(b.skip(q + 1));
                assert(b[q] == s@[start + q]);
                if q < kk {
                    assert(!is_exp_marker(s@[start + q]));
                } else if q > kk {
                    assert(b.take(q)[kk] == b[kk]);
                }
            }
        }
        mok && eok
    }
}


/// `0.0`, `1.0` and `360.0` read as real numbers.
pub proof fn lemma_float_text_defaults()
    ensures
        float_text("0.0"@),
        float_text("1.0"@),
        float_text("360.0"@),
{
    reveal_strlit("0.0");
    reveal_strlit("1.0");
    reveal_strlit("360.0");
    let a = "0.0"@;
    let b = "1.0"@;
    let c = "360.0"@;
    assert(a.len() == 3 && a[0] == '0' && a[1] == '.' && a[2] == '0');
    assert(is_ascii_digit(a[0]) && is_mantissa(a));
    assert(b.len() == 3 && b[0] == '1' && b[1] == '.' && b[2] == '0');
    assert(is_ascii_digit(b[0]) && is_mantissa(b));
    assert(c.len() == 5 && c[0] == '3' && c[1] == '6' && c[2] == '0' && c[3] == '.' && c[4] == '0');
    assert(is_ascii_digit(c[0]) && is_mantissa(c));
}

} // verus!
