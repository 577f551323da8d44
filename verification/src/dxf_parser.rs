//! Reader for the text form of DXF: group-code/value pairs, sections and the
//! LINE, CIRCLE, ARC, LWPOLYLINE and TEXT entities of the ENTITIES section.
//!
//! Coordinates and other real numbers are kept as the text that the file
//! holds for them; a value is taken only where `str::parse::<f64>` accepts it.
use vstd::prelude::*;

use crate::pages::{decimal, decimal_chars};
use crate::text::{
    append_chars, chars_eq, chars_eq_str, chars_to_string, float_text, is_ascii_digit, is_float_text,
    lemma_float_text_defaults, lines,
    parse_i32, parse_i32_spec, split_lines, str_to_chars, trim, trim_chars, views,
};

verus! {

/// Entity types whose data is skipped before parsing (they hold large binary data).
pub open spec fn is_skip_type(s: Seq<char>) -> bool {
    s == "OLE2FRAME"@ || s == "IMAGE"@ || s == "WIPEOUT"@
}

pub open spec fn is_ascii_upper(c: char) -> bool {
    'A' <= c && c <= 'Z'
}

/// An entity type name: an ASCII capital first, then capitals, digits or `_`.
pub open spec fn is_entity_type_spec(s: Seq<char>) -> bool {
    &&& s.len() > 0
    &&& is_ascii_upper(s[0])
    &&& forall|i: int|
        0 <= i < s.len() ==> (is_ascii_upper(#[trigger] s[i]) || is_ascii_digit(s[i]) || s[i] == '_')
}

/// The text that remains of `ls[i..]` when skipping starts in mode `skip`: a line
/// `0` followed by a skipped entity type starts skipping (both lines are dropped),
/// and a line `0` followed by any other entity type ends it.
pub open spec fn heavy_filtered_from(ls: Seq<Seq<char>>, i: int, skip: bool) -> Seq<char>
    decreases ls.len() - i,
{
    if i < 0 || i >= ls.len() {
        seq![]
    } else {
        let t = trim(ls[i]);
        let has_next = i + 1 < ls.len();
        if t == "0"@ && has_next && is_skip_type(trim(ls[i + 1])) {
            heavy_filtered_from(ls, i + 2, true)
        } else {
            let skip2 = if t == "0"@ && has_next && skip && is_entity_type_spec(trim(ls[i + 1])) {
                false
            } else {
                skip
            };
            if skip2 {
                heavy_filtered_from(ls, i + 1, skip2)
            } else {
                ls[i] + seq!['\n'] + heavy_filtered_from(ls, i + 1, skip2)
            }
        }
    }
}

/// The text with its heavy entities removed, each kept line ended by a line feed.
pub open spec fn heavy_filtered(text: Seq<char>) -> Seq<char> {
    heavy_filtered_from(lines(text), 0, false)
}

/// The pair of lines at `p`: the group code (the first line, trimmed, read as an
/// `i32`) and the value (the second line, trimmed), and the position after them.
/// Lines are consumed even where no pair comes out.
pub open spec fn read_pair(ls: Seq<Seq<char>>, p: int) -> (Option<(i32, Seq<char>)>, int) {
    if p >= ls.len() {
        (None, p)
    } else if p + 1 >= ls.len() {
        (None, p + 1)
    } else {
        match parse_i32_spec(trim(ls[p])) {
            Some(c) => (Some((c, trim(ls[p + 1]))), p + 2),
            None => (None, p + 2),
        }
    }
}

/// Where skipping an entity from `p` ends: pairs of lines are dropped until a
/// line that trims to `0`, or the end.
pub open spec fn skip_end(ls: Seq<Seq<char>>, p: int) -> int
    decreases ls.len() - p,
{
    if p < 0 || p >= ls.len() || trim(ls[p]) == "0"@ {
        p
    } else if p + 2 <= ls.len() {
        skip_end(ls, p + 2)
    } else {
        ls.len() as int
    }
}

/// The pairs that an entity reader takes from `p` on, and where it stops: before
/// a line that trims to `0`, or at the end.
pub open spec fn body_pairs(ls: Seq<Seq<char>>, p: int) -> (Seq<(i32, Seq<char>)>, int)
    decreases ls.len() - p,
{
    if p < 0 || p >= ls.len() || trim(ls[p]) == "0"@ {
        (seq![], p)
    } else {
        let (pr, q) = read_pair(ls, p);
        let (rest, e) = body_pairs(ls, q);
        match pr {
            Some(x) => (seq![x] + rest, e),
            None => (rest, e),
        }
    }
}

/// A cursor over lines.
pub struct PeekableLines<'a> {
    pub lines: &'a Vec<Vec<char>>,
    pub pos: usize,
}

impl<'a> PeekableLines<'a> {
    pub open spec fn lines_view(&self) -> Seq<Seq<char>> {
        views(self.lines@)
    }

    pub fn new(lines: &'a Vec<Vec<char>>) -> (r: Self)
        ensures
            r.lines == lines,
            r.pos == 0,
    {
        Self { lines, pos: 0 }
    }

    /// The line at the cursor, if any.
    pub fn peek(&self) -> (r: Option<&'a Vec<char>>)
        ensures
            self.pos < self.lines@.len() ==> r == Some(&self.lines@[self.pos as int]),
            self.pos >= self.lines@.len() ==> r is None,
    {
        if self.pos < self.lines.len() {
            Some(&self.lines[self.pos])
        } else {
            None
        }
    }

    /// The line at the cursor, if any, moving past it.
    pub fn next(&mut self) -> (r: Option<&'a Vec<char>>)
        ensures
            final(self).lines == old(self).lines,
            old(self).pos < old(self).lines@.len() ==> r == Some(&old(self).lines@[old(self).pos as int])
                && final(self).pos == old(self).pos + 1,
            old(self).pos >= old(self).lines@.len() ==> r is None && final(self).pos == old(self).pos,
    {
        if self.pos < self.lines.len() {
            let item = &self.lines[self.pos];
            self.pos = self.pos + 1;
            Some(item)
        } else {
            None
        }
    }
}


/// The view of a pair read from lines.
pub open spec fn pair_view(r: Option<(i32, Vec<char>)>) -> Option<(i32, Seq<char>)> {
    match r {
        Some((c, v)) => Some((c, v@)),
        None => None,
    }
}

/// The name a `SECTION` marker gives, read at `p`: the value of a pair with group code 2.
pub open spec fn section_name_at(ls: Seq<Seq<char>>, p: int) -> (Option<Seq<char>>, int) {
    let (pr, q) = read_pair(ls, p);
    match pr {
        Some((c, v)) => if c == 2 {
            (Some(v), q)
        } else {
            (None, q)
        },
        None => (None, q),
    }
}

/// Reader of DXF text.
#[derive(Debug, Clone, Copy)]
pub struct DxfParser;

impl DxfParser {
    pub fn new() -> (r: Self) {
        DxfParser
    }

    /// Reads a group code line and a value line, both trimmed. Both lines are
    /// consumed when there are two; the pair is given only where the code is an `i32`.
    pub fn read_group_code_pair(&self, iter: &mut PeekableLines) -> (r: Option<(i32, String)>)
        requires
            old(iter).pos <= old(iter).lines@.len(),
        ensures
            final(iter).lines == old(iter).lines,
            (match r {
                Some((c, v)) => Some((c, v@)),
                None => None,
            }) == read_pair(old(iter).lines_view(), old(iter).pos as int).0,
            final(iter).pos == read_pair(old(iter).lines_view(), old(iter).pos as int).1,
    {
        match self.read_pair_chars(iter) {
            Some((c, v)) => Some((c, chars_to_string(&v))),
            None => None,
        }
    }

    /// `read_group_code_pair`, giving the value as characters.
    fn read_pair_chars(&self, iter: &mut PeekableLines) -> (r: Option<(i32, Vec<char>)>)
        requires
            old(iter).pos <= old(iter).lines@.len(),
        ensures
            final(iter).lines == old(iter).lines,
            pair_view(r) == read_pair(old(iter).lines_view(), old(iter).pos as int).0,
            final(iter).pos == read_pair(old(iter).lines_view(), old(iter).pos as int).1,
    {
        let code_line = match iter.next() {
            Some(l) => l,
            None => return None,
        };
        let code_str = trim_chars(code_line);
        let value_line = match iter.next() {
            Some(l) => l,
            None => return None,
        };
        let value = trim_chars(value_line);
        match parse_i32(&code_str) {
            Some(c) => Some((c, value)),
            None => None,
        }
    }

    /// Reads the name after a `SECTION` marker.
    pub fn read_section_name(&self, iter: &mut PeekableLines) -> (r: Option<String>)
        requires
            old(iter).pos <= old(iter).lines@.len(),
        ensures
            final(iter).lines == old(iter).lines,
            opt_view(r) == section_name_at(old(iter).lines_view(), old(iter).pos as int).0,
            final(iter).pos == section_name_at(old(iter).lines_view(), old(iter).pos as int).1,
    {
        match self.read_section_chars(iter) {
            Some(v) => Some(chars_to_string(&v)),
            None => None,
        }
    }

    /// `read_section_name`, giving the name as characters.
    fn read_section_chars(&self, iter: &mut PeekableLines) -> (r: Option<Vec<char>>)
        requires
            old(iter).pos <= old(iter).lines@.len(),
        ensures
            final(iter).lines == old(iter).lines,
            (match r {
                Some(v) => Some(v@),
                None => None::<Seq<char>>,
            }) == section_name_at(old(iter).lines_view(), old(iter).pos as int).0,
            final(iter).pos == section_name_at(old(iter).lines_view(), old(iter).pos as int).1,
    {
        match self.read_pair_chars(iter) {
            Some((code, value)) => if code == 2 {
                Some(value)
            } else {
                None
            },
            None => None,
        }
    }

    /// Skips the pairs of an entity up to the next line that trims to `0`.
    pub fn skip_entity(&self, iter: &mut PeekableLines)
        requires
            old(iter).pos <= old(iter).lines@.len(),
        ensures
            final(iter).lines == old(iter).lines,
            final(iter).pos == skip_end(old(iter).lines_view(), old(iter).pos as int),
    {
        let ghost ls = iter.lines_view();
        let ghost p0 = iter.pos as int;
        loop
            invariant
                iter.lines == old(iter).lines,
                ls == iter.lines_view(),
                iter.pos <= iter.lines@.len(),
                skip_end(ls, p0) == skip_end(ls, iter.pos as int),
            ensures
                iter.lines == old(iter).lines,
                skip_end(ls, p0) == iter.pos as int,
            decreases iter.lines@.len() - iter.pos,
        {
            let next = match iter.peek() {
                Some(l) => l,
                None => break,
            };
            let t = trim_chars(next);
            if t.len() == 1 && t[0] == '0' {
                assert(t@ =~= "0"@) by {
                    reveal_strlit("0");
                }
                break;
            }
            proof {
                assert(trim(ls[iter.pos as int]) != "0"@) by {
                    reveal_strlit("0");
                    if trim(ls[iter.pos as int]) == "0"@ {
                        assert(t@.len() == 1 && t@[0] == '0');
                    }
                }
            }
            iter.next();
            iter.next();
        }
    }

    /// Whether the text is an entity type name.
    pub fn is_entity_type(s: &str) -> (r: bool)
        ensures
            r == is_entity_type_spec(s@),
    {
        Self::is_entity_type_chars(&str_to_chars(s))
    }

    /// `is_entity_type` on the characters of the text.
    fn is_entity_type_chars(s: &Vec<char>) -> (r: bool)
        ensures
            r == is_entity_type_spec(s@),
    {
        if s.len() == 0 {
            return false;
        }
        if !('A' <= s[0] && s[0] <= 'Z') {
            return false;
        }
        let mut i: usize = 0;
        while i < s.len()
            invariant
                i <= s@.len(),
                s@.len() > 0,
                is_ascii_upper(s@[0]),
                forall|j: int|
                    0 <= j < i ==> (is_ascii_upper(#[trigger] s@[j]) || is_ascii_digit(s@[j]) || s@[j]
                        == '_'),
            decreases s@.len() - i,
        {
            let c = s[i];
            if !(('A' <= c && c <= 'Z') || ('0' <= c && c <= '9') || c == '_') {
                return false;
            }
            i = i + 1;
        }
        true
    }

    /// Whether the text is one of the skipped entity types.
    fn is_skip_entity_type(s: &Vec<char>) -> (r: bool)
        ensures
            r == is_skip_type(s@),
    {
        chars_eq_str(s, "OLE2FRAME") || chars_eq_str(s, "IMAGE") || chars_eq_str(s, "WIPEOUT")
    }

    /// The text without its OLE2FRAME, IMAGE and WIPEOUT entities; every kept line
    /// is ended by a line feed.
    pub fn remove_heavy_entities(&self, dxf_text: &str) -> (r: String)
        ensures
            r@ == heavy_filtered(dxf_text@),
    {
        let chars = str_to_chars(dxf_text);
        let filtered = self.remove_heavy_chars(&chars);
        chars_to_string(&filtered)
    }

    /// `remove_heavy_entities` on the characters of the text.
    fn remove_heavy_chars(&self, dxf_text: &Vec<char>) -> (r: Vec<char>)
        ensures
            r@ == heavy_filtered(dxf_text@),
    {
        let lines_v = split_lines(dxf_text);
        let ghost ls = views(lines_v@);
        let mut result: Vec<char> = Vec::new();
        let mut skip_mode = false;
        let mut i: usize = 0;
        let n = lines_v.len();
        assert(result@ + heavy_filtered_from(ls, 0, false) =~= heavy_filtered_from(ls, 0, false));
        while i < n
            invariant
                n == lines_v@.len(),
                ls == views(lines_v@),
                ls == lines(dxf_text@),
                i <= n + 1,
                heavy_filtered(dxf_text@) == result@ + heavy_filtered_from(ls, i as int, skip_mode),
            decreases n + 1 - i,
        {
            let line = trim_chars(&lines_v[i]);
            let is_zero = line.len() == 1 && line[0] == '0';
            proof {
                reveal_strlit("0");
                assert(is_zero == (trim(ls[i as int]) == "0"@)) by {
                    if trim(ls[i as int]) == "0"@ {
                        assert(line@.len() == 1 && line@[0] == '0');
                    }
                    if is_zero {
                        assert(line@ =~= "0"@);
                    }
                }
            }
            if is_zero && i + 1 < n {
                let next_line = trim_chars(&lines_v[i + 1]);
                if Self::is_skip_entity_type(&next_line) {
                    skip_mode = true;
                    i = i + 2;
                    continue;
                } else if skip_mode && Self::is_entity_type_chars(&next_line) {
                    skip_mode = false;
                }
            }
            if !skip_mode {
                let ghost before = result@;
                let mut k: usize = 0;
                let cur = &lines_v[i];
                while k < cur.len()
                    invariant
                        k <= cur@.len(),
                        result@ == before + cur@.take(k as int),
                    decreases cur@.len() - k,
                {
                    result.push(cur[k]);
                    k = k + 1;
                    assert(result@ =~= before + cur@.take(k as int));
                }
                result.push('\n');
                assert(cur@.take(cur@.len() as int) =~= cur@);
                assert(result@ + heavy_filtered_from(ls, i + 1, skip_mode) =~= before + (ls[i as int]
                    + seq!['\n'] + heavy_filtered_from(ls, i + 1, skip_mode)));
            }
            i = i + 1;
        }
        assert(result@ + heavy_filtered_from(ls, i as int, skip_mode) =~= result@);
        result
    }
}


/// The value of the last pair with the given group code.
pub open spec fn last_value(pairs: Seq<(i32, Seq<char>)>, code: i32) -> Option<Seq<char>>
    decreases pairs.len(),
{
    if pairs.len() == 0 {
        None
    } else if pairs.last().0 == code {
        Some(pairs.last().1)
    } else {
        last_value(pairs.drop_last(), code)
    }
}

/// A real-valued field: the last value of the code, where it reads as a real number.
pub open spec fn real_field(pairs: Seq<(i32, Seq<char>)>, code: i32) -> Option<Seq<char>> {
    match last_value(pairs, code) {
        Some(v) => if float_text(v) {
            Some(v)
        } else {
            None
        },
        None => None,
    }
}

/// A real-valued field with a default, used where the code is missing or its
/// last value does not read as a real number.
pub open spec fn real_field_or(pairs: Seq<(i32, Seq<char>)>, code: i32, d: Seq<char>) -> Seq<char> {
    match real_field(pairs, code) {
        Some(v) => v,
        None => d,
    }
}

/// An integer field with a default, used where the code is missing or its last
/// value does not read as an `i32`.
pub open spec fn int_field_or(pairs: Seq<(i32, Seq<char>)>, code: i32, d: i32) -> i32 {
    match last_value(pairs, code) {
        Some(v) => match parse_i32_spec(v) {
            Some(x) => x,
            None => d,
        },
        None => d,
    }
}

/// The layer (code 8), `0` by default.
pub open spec fn layer_field(pairs: Seq<(i32, Seq<char>)>) -> Seq<char> {
    match last_value(pairs, 8) {
        Some(v) => v,
        None => "0"@,
    }
}

/// The color (code 62), 7 by default.
pub open spec fn color_field(pairs: Seq<(i32, Seq<char>)>) -> i32 {
    int_field_or(pairs, 62, 7)
}

/// The view of the pairs an entity reader collected.
pub open spec fn pairs_view(v: Seq<(i32, Vec<char>)>) -> Seq<(i32, Seq<char>)> {
    v.map_values(|p: (i32, Vec<char>)| (p.0, p.1@))
}

/// A LINE entity; coordinates are kept as the text of the file.
#[derive(Debug)]
pub struct DxfLine {
    pub x1: String,
    pub y1: String,
    pub x2: String,
    pub y2: String,
    pub color: i32,
    pub layer: String,
}

pub struct LineView {
    pub x1: Seq<char>,
    pub y1: Seq<char>,
    pub x2: Seq<char>,
    pub y2: Seq<char>,
    pub color: i32,
    pub layer: Seq<char>,
}

impl View for DxfLine {
    type V = LineView;

    open spec fn view(&self) -> LineView {
        LineView {
            x1: self.x1@,
            y1: self.y1@,
            x2: self.x2@,
            y2: self.y2@,
            color: self.color,
            layer: self.layer@,
        }
    }
}

/// A LINE from its pairs: both end points (codes 10, 20, 11, 21) are needed.
pub open spec fn line_from_pairs(pairs: Seq<(i32, Seq<char>)>) -> Option<LineView> {
    match (real_field(pairs, 10), real_field(pairs, 20), real_field(pairs, 11), real_field(pairs, 21)) {
        (Some(x1), Some(y1), Some(x2), Some(y2)) => Some(
            LineView { x1, y1, x2, y2, color: color_field(pairs), layer: layer_field(pairs) },
        ),
        _ => None,
    }
}

/// A CIRCLE entity.
#[derive(Debug)]
pub struct DxfCircle {
    pub center_x: String,
    pub center_y: String,
    pub radius: String,
    pub color: i32,
    pub layer: String,
}

pub struct CircleView {
    pub center_x: Seq<char>,
    pub center_y: Seq<char>,
    pub radius: Seq<char>,
    pub color: i32,
    pub layer: Seq<char>,
}

impl View for DxfCircle {
    type V = CircleView;

    open spec fn view(&self) -> CircleView {
        CircleView {
            center_x: self.center_x@,
            center_y: self.center_y@,
            radius: self.radius@,
            color: self.color,
            layer: self.layer@,
        }
    }
}

/// A CIRCLE from its pairs: center (10, 20) and radius (40) are needed.
pub open spec fn circle_from_pairs(pairs: Seq<(i32, Seq<char>)>) -> Option<CircleView> {
    match (real_field(pairs, 10), real_field(pairs, 20), real_field(pairs, 40)) {
        (Some(cx), Some(cy), Some(r)) => Some(
            CircleView {
                center_x: cx,
                center_y: cy,
                radius: r,
                color: color_field(pairs),
                layer: layer_field(pairs),
            },
        ),
        _ => None,
    }
}

/// An ARC entity.
#[derive(Debug)]
pub struct DxfArc {
    pub center_x: String,
    pub center_y: String,
    pub radius: String,
    pub start_angle: String,
    pub end_angle: String,
    pub color: i32,
    pub layer: String,
}

pub struct ArcView {
    pub center_x: Seq<char>,
    pub center_y: Seq<char>,
    pub radius: Seq<char>,
    pub start_angle: Seq<char>,
    pub end_angle: Seq<char>,
    pub color: i32,
    pub layer: Seq<char>,
}

impl View for DxfArc {
    type V = ArcView;

    open spec fn view(&self) -> ArcView {
        ArcView {
            center_x: self.center_x@,
            center_y: self.center_y@,
            radius: self.radius@,
            start_angle: self.start_angle@,
            end_angle: self.end_angle@,
            color: self.color,
            layer: self.layer@,
        }
    }
}

/// An ARC from its pairs: center and radius are needed; the angles (50, 51)
/// default to 0 and 360.
pub open spec fn arc_from_pairs(pairs: Seq<(i32, Seq<char>)>) -> Option<ArcView> {
    match (real_field(pairs, 10), real_field(pairs, 20), real_field(pairs, 40)) {
        (Some(cx), Some(cy), Some(r)) => Some(
            ArcView {
                center_x: cx,
                center_y: cy,
                radius: r,
                start_angle: real_field_or(pairs, 50, "0.0"@),
                end_angle: real_field_or(pairs, 51, "360.0"@),
                color: color_field(pairs),
                layer: layer_field(pairs),
            },
        ),
        _ => None,
    }
}

/// An LWPOLYLINE entity.
#[derive(Debug)]
pub struct DxfPolyline {
    pub vertices: Vec<(String, String)>,
    pub is_closed: bool,
    pub color: i32,
    pub layer: String,
}

pub struct PolylineView {
    pub vertices: Seq<(Seq<char>, Seq<char>)>,
    pub is_closed: bool,
    pub color: i32,
    pub layer: Seq<char>,
}

pub open spec fn vertices_view(v: Seq<(String, String)>) -> Seq<(Seq<char>, Seq<char>)> {
    v.map_values(|p: (String, String)| (p.0@, p.1@))
}

impl View for DxfPolyline {
    type V = PolylineView;

    open spec fn view(&self) -> PolylineView {
        PolylineView {
            vertices: vertices_view(self.vertices@),
            is_closed: self.is_closed,
            color: self.color,
            layer: self.layer@,
        }
    }
}

/// The vertices read so far and the pending x: a readable x (10) is held until a
/// readable y (20) completes the vertex; an unreadable x clears it.
pub open spec fn poly_state(pairs: Seq<(i32, Seq<char>)>) -> (
    Seq<(Seq<char>, Seq<char>)>,
    Option<Seq<char>>,
)
    decreases pairs.len(),
{
    if pairs.len() == 0 {
        (seq![], None)
    } else {
        let (vs, cx) = poly_state(pairs.drop_last());
        let (c, v) = pairs.last();
        if c == 10 {
            (vs, if float_text(v) {
                Some(v)
            } else {
                None
            })
        } else if c == 20 {
            match cx {
                Some(x) => if float_text(v) {
                    (vs.push((x, v)), None)
                } else {
                    (vs, cx)
                },
                None => (vs, cx),
            }
        } else {
            (vs, cx)
        }
    }
}

/// An LWPOLYLINE from its pairs: at least one vertex is needed; closed when the
/// flags (70) are odd.
pub open spec fn polyline_from_pairs(pairs: Seq<(i32, Seq<char>)>) -> Option<PolylineView> {
    let vs = poly_state(pairs).0;
    if vs.len() == 0 {
        None
    } else {
        Some(
            PolylineView {
                vertices: vs,
                is_closed: int_field_or(pairs, 70, 0) % 2 != 0,
                color: color_field(pairs),
                layer: layer_field(pairs),
            },
        )
    }
}

/// A TEXT entity.
#[derive(Debug)]
pub struct DxfText {
    pub x: String,
    pub y: String,
    pub text: String,
    pub height: String,
    pub rotation: String,
    pub color: i32,
    pub align_h: i32,
    pub align_v: i32,
    pub layer: String,
}

pub struct TextView {
    pub x: Seq<char>,
    pub y: Seq<char>,
    pub text: Seq<char>,
    pub height: Seq<char>,
    pub rotation: Seq<char>,
    pub color: i32,
    pub align_h: i32,
    pub align_v: i32,
    pub layer: Seq<char>,
}

impl View for DxfText {
    type V = TextView;

    open spec fn view(&self) -> TextView {
        TextView {
            x: self.x@,
            y: self.y@,
            text: self.text@,
            height: self.height@,
            rotation: self.rotation@,
            color: self.color,
            align_h: self.align_h,
            align_v: self.align_v,
            layer: self.layer@,
        }
    }
}

/// A TEXT from its pairs: the second insertion point (11, 21) is used when an
/// alignment (72, 73) is set and both its coordinates read; otherwise the first
/// (10, 20). The point and the string (1) are needed.
pub open spec fn text_from_pairs(pairs: Seq<(i32, Seq<char>)>) -> Option<TextView> {
    let align_h = int_field_or(pairs, 72, 0);
    let align_v = int_field_or(pairs, 73, 0);
    let x2 = real_field(pairs, 11);
    let y2 = real_field(pairs, 21);
    let use_second = (align_h != 0 || align_v != 0) && x2 is Some && y2 is Some;
    let fx = if use_second { x2 } else { real_field(pairs, 10) };
    let fy = if use_second { y2 } else { real_field(pairs, 20) };
    match (fx, fy, last_value(pairs, 1)) {
        (Some(x), Some(y), Some(t)) => Some(
            TextView {
                x,
                y,
                text: t,
                height: real_field_or(pairs, 40, "1.0"@),
                rotation: real_field_or(pairs, 50, "0.0"@),
                color: color_field(pairs),
                align_h,
                align_v,
                layer: layer_field(pairs),
            },
        ),
        _ => None,
    }
}

/// Where the last pair with the code stands.
fn last_index(pairs: &Vec<(i32, Vec<char>)>, code: i32) -> (r: Option<usize>)
    ensures
        match r {
            Some(i) => i < pairs@.len() && last_value(pairs_view(pairs@), code) == Some(
                pairs@[i as int].1@,
            ),
            None => last_value(pairs_view(pairs@), code) is None,
        },
{
    let ghost pv = pairs_view(pairs@);
    let mut i: usize = pairs.len();
    assert(pv.take(i as int) =~= pv);
    while i > 0
        invariant
            i <= pairs@.len(),
            pv == pairs_view(pairs@),
            last_value(pv, code) == last_value(pv.take(i as int), code),
        decreases i,
    {
        let ghost t = pv.take(i as int);
        assert(t.drop_last() =~= pv.take(i - 1));
        assert(t.last() == pv[i - 1]);
        if pairs[i - 1].0 == code {
            return Some(i - 1);
        }
        i = i - 1;
    }
    None
}

/// The last readable real value of the code, as a string.
fn real_value(pairs: &Vec<(i32, Vec<char>)>, code: i32) -> (r: Option<String>)
    ensures
        match r {
            Some(s) => real_field(pairs_view(pairs@), code) == Some(s@),
            None => real_field(pairs_view(pairs@), code) is None,
        },
{
    match last_index(pairs, code) {
        Some(i) => if is_float_text(&pairs[i].1) {
            Some(chars_to_string(&pairs[i].1))
        } else {
            None
        },
        None => None,
    }
}

/// The last readable real value of the code, or the default.
fn real_value_or(pairs: &Vec<(i32, Vec<char>)>, code: i32, d: &str) -> (r: String)
    ensures
        r@ == real_field_or(pairs_view(pairs@), code, d@),
{
    match real_value(pairs, code) {
        Some(s) => s,
        None => String::from_str(d),
    }
}

/// The last integer value of the code, or the default.
fn int_value_or(pairs: &Vec<(i32, Vec<char>)>, code: i32, d: i32) -> (r: i32)
    ensures
        r == int_field_or(pairs_view(pairs@), code, d),
{
    match last_index(pairs, code) {
        Some(i) => match parse_i32(&pairs[i].1) {
            Some(x) => x,
            None => d,
        },
        None => d,
    }
}

/// The layer of the entity.
fn layer_value(pairs: &Vec<(i32, Vec<char>)>) -> (r: String)
    ensures
        r@ == layer_field(pairs_view(pairs@)),
{
    match last_index(pairs, 8) {
        Some(i) => chars_to_string(&pairs[i].1),
        None => String::from_str("0"),
    }
}


/// The view of an optional value.
pub open spec fn opt_view<T: View>(o: Option<T>) -> Option<T::V> {
    match o {
        Some(x) => Some(x@),
        None => None,
    }
}

/// A sequence with the value appended where there is one.
pub open spec fn opt_push<T>(s: Seq<T>, o: Option<T>) -> Seq<T> {
    match o {
        Some(x) => s.push(x),
        None => s,
    }
}

pub proof fn lemma_read_pair_bounds(ls: Seq<Seq<char>>, p: int)
    requires
        0 <= p < ls.len(),
    ensures
        p < read_pair(ls, p).1 <= ls.len(),
        read_pair(ls, p).0 is Some ==> read_pair(ls, p).1 == p + 2,
{
}

proof fn lemma_body_pairs_bounds(ls: Seq<Seq<char>>, p: int)
    requires
        0 <= p <= ls.len(),
    ensures
        p <= body_pairs(ls, p).1 <= ls.len(),
    decreases ls.len() - p,
{
    if p < ls.len() && trim(ls[p]) != "0"@ {
        lemma_read_pair_bounds(ls, p);
        lemma_body_pairs_bounds(ls, read_pair(ls, p).1);
    }
}

proof fn lemma_skip_end_bounds(ls: Seq<Seq<char>>, p: int)
    requires
        0 <= p <= ls.len(),
    ensures
        p <= skip_end(ls, p) <= ls.len(),
    decreases ls.len() - p,
{
    if p < ls.len() && trim(ls[p]) != "0"@ && p + 2 <= ls.len() {
        lemma_skip_end_bounds(ls, p + 2);
    }
}

/// Reads the entity's pairs up to the next line that trims to `0`.
fn read_entity_pairs(parser: &DxfParser, iter: &mut PeekableLines) -> (r: Vec<(i32, Vec<char>)>)
    requires
        old(iter).pos <= old(iter).lines@.len(),
    ensures
        final(iter).lines == old(iter).lines,
        pairs_view(r@) == body_pairs(old(iter).lines_view(), old(iter).pos as int).0,
        final(iter).pos == body_pairs(old(iter).lines_view(), old(iter).pos as int).1,
{
    let ghost ls = iter.lines_view();
    let ghost p0 = iter.pos as int;
    let mut pairs: Vec<(i32, Vec<char>)> = Vec::new();
    assert(pairs_view(pairs@) + body_pairs(ls, p0).0 =~= body_pairs(ls, p0).0);
    loop
        invariant
            iter.lines == old(iter).lines,
            ls == iter.lines_view(),
            iter.pos <= iter.lines@.len(),
            body_pairs(ls, p0).0 == pairs_view(pairs@) + body_pairs(ls, iter.pos as int).0,
            body_pairs(ls, p0).1 == body_pairs(ls, iter.pos as int).1,
        ensures
            iter.lines == old(iter).lines,
            body_pairs(ls, p0).0 == pairs_view(pairs@),
            body_pairs(ls, p0).1 == iter.pos as int,
        decreases iter.lines@.len() - iter.pos,
    {
        let next = match iter.peek() {
            Some(l) => l,
            None => {
                assert(pairs_view(pairs@) + body_pairs(ls, iter.pos as int).0 =~= pairs_view(
                    pairs@,
                ));
                break;
            },
        };
        let t = trim_chars(next);
        if t.len() == 1 && t[0] == '0' {
            assert(t@ =~= "0"@) by {
                reveal_strlit("0");
            }
            assert(pairs_view(pairs@) + body_pairs(ls, iter.pos as int).0 =~= pairs_view(pairs@));
            break;
        }
        proof {
            assert(trim(ls[iter.pos as int]) != "0"@) by {
                reveal_strlit("0");
                if trim(ls[iter.pos as int]) == "0"@ {
                    assert(t@.len() == 1 && t@[0] == '0');
                }
            }
        }
        let ghost before = pairs@;
        match parser.read_pair_chars(iter) {
            Some(pr) => {
                pairs.push(pr);
                assert(pairs_view(pairs@) =~= pairs_view(before).push((pr.0, pr.1@)));
                assert(pairs_view(pairs@) + body_pairs(ls, iter.pos as int).0 =~= pairs_view(
                    before,
                ) + (seq![(pr.0, pr.1@)] + body_pairs(ls, iter.pos as int).0));
            },
            None => {},
        }
    }
    pairs
}


impl DxfParser {
    /// Reads a LINE entity; `None` where an end point is missing or unreadable.
    fn parse_line_entity(&self, iter: &mut PeekableLines) -> (r: Option<DxfLine>)
        requires
            old(iter).pos <= old(iter).lines@.len(),
        ensures
            final(iter).lines == old(iter).lines,
            opt_view(r) == line_from_pairs(body_pairs(old(iter).lines_view(), old(iter).pos as int).0),
            final(iter).pos == body_pairs(old(iter).lines_view(), old(iter).pos as int).1,
    {
        let pairs = read_entity_pairs(self, iter);
        let x1 = real_value(&pairs, 10);
        let y1 = real_value(&pairs, 20);
        let x2 = real_value(&pairs, 11);
        let y2 = real_value(&pairs, 21);
        let color = int_value_or(&pairs, 62, 7);
        let layer = layer_value(&pairs);
        match (x1, y1, x2, y2) {
            (Some(x1), Some(y1), Some(x2), Some(y2)) => Some(DxfLine { x1, y1, x2, y2, color, layer }),
            _ => None,
        }
    }

    /// Reads a CIRCLE entity; `None` where the center or radius is missing or unreadable.
    fn parse_circle_entity(&self, iter: &mut PeekableLines) -> (r: Option<DxfCircle>)
        requires
            old(iter).pos <= old(iter).lines@.len(),
        ensures
            final(iter).lines == old(iter).lines,
            opt_view(r) == circle_from_pairs(
                body_pairs(old(iter).lines_view(), old(iter).pos as int).0,
            ),
            final(iter).pos == body_pairs(old(iter).lines_view(), old(iter).pos as int).1,
    {
        let pairs = read_entity_pairs(self, iter);
        let cx = real_value(&pairs, 10);
        let cy = real_value(&pairs, 20);
        let r = real_value(&pairs, 40);
        let color = int_value_or(&pairs, 62, 7);
        let layer = layer_value(&pairs);
        match (cx, cy, r) {
            (Some(center_x), Some(center_y), Some(radius)) => Some(
                DxfCircle { center_x, center_y, radius, color, layer },
            ),
            _ => None,
        }
    }

    /// Reads an ARC entity; `None` where the center or radius is missing or unreadable.
    fn parse_arc_entity(&self, iter: &mut PeekableLines) -> (r: Option<DxfArc>)
        requires
            old(iter).pos <= old(iter).lines@.len(),
        ensures
            final(iter).lines == old(iter).lines,
            opt_view(r) == arc_from_pairs(body_pairs(old(iter).lines_view(), old(iter).pos as int).0),
            final(iter).pos == body_pairs(old(iter).lines_view(), old(iter).pos as int).1,
    {
        let pairs = read_entity_pairs(self, iter);
        let cx = real_value(&pairs, 10);
        let cy = real_value(&pairs, 20);
        let r = real_value(&pairs, 40);
        let start_angle = real_value_or(&pairs, 50, "0.0");
        let end_angle = real_value_or(&pairs, 51, "360.0");
        let color = int_value_or(&pairs, 62, 7);
        let layer = layer_value(&pairs);
        match (cx, cy, r) {
            (Some(center_x), Some(center_y), Some(radius)) => Some(
                DxfArc { center_x, center_y, radius, start_angle, end_angle, color, layer },
            ),
            _ => None,
        }
    }

    /// Reads an LWPOLYLINE entity; `None` where it has no complete vertex.
    fn parse_polyline_entity(&self, iter: &mut PeekableLines) -> (r: Option<DxfPolyline>)
        requires
            old(iter).pos <= old(iter).lines@.len(),
        ensures
            final(iter).lines == old(iter).lines,
            opt_view(r) == polyline_from_pairs(
                body_pairs(old(iter).lines_view(), old(iter).pos as int).0,
            ),
            final(iter).pos == body_pairs(old(iter).lines_view(), old(iter).pos as int).1,
    {
        let pairs = read_entity_pairs(self, iter);
        let ghost pv = pairs_view(pairs@);
        let mut vertices: Vec<(String, String)> = Vec::new();
        let mut current_x: Option<String> = None;
        let mut k: usize = 0;
        assert(pv.take(0) =~= Seq::<(i32, Seq<char>)>::empty());
        assert(vertices_view(vertices@) =~= Seq::<(Seq<char>, Seq<char>)>::empty());
        while k < pairs.len()
            invariant
                k <= pairs@.len(),
                pv == pairs_view(pairs@),
                vertices_view(vertices@) == poly_state(pv.take(k as int)).0,
                opt_view(current_x) == poly_state(pv.take(k as int)).1,
            decreases pairs@.len() - k,
        {
            let ghost t = pv.take(k + 1);
            assert(t.drop_last() =~= pv.take(k as int));
            assert(t.last() == pv[k as int]);
            let code = pairs[k].0;
            let v = &pairs[k].1;
            if code == 10 {
                if is_float_text(v) {
                    current_x = Some(chars_to_string(v));
                } else {
                    current_x = None;
                }
            } else if code == 20 {
                if current_x.is_some() && is_float_text(v) {
                    let x = current_x.unwrap();
                    let ghost before = vertices@;
                    let y = chars_to_string(v);
                    vertices.push((x, y));
                    assert(vertices_view(vertices@) =~= vertices_view(before).push((x@, y@)));
                    current_x = None;
                }
            }
            k = k + 1;
        }
        assert(pv.take(pairs@.len() as int) =~= pv);
        let is_closed = int_value_or(&pairs, 70, 0) % 2 != 0;
        let color = int_value_or(&pairs, 62, 7);
        let layer = layer_value(&pairs);
        if vertices.len() == 0 {
            None
        } else {
            Some(DxfPolyline { vertices, is_closed, color, layer })
        }
    }

    /// Reads a TEXT entity; `None` where the insertion point or the string is missing.
    fn parse_text_entity(&self, iter: &mut PeekableLines) -> (r: Option<DxfText>)
        requires
            old(iter).pos <= old(iter).lines@.len(),
        ensures
            final(iter).lines == old(iter).lines,
            opt_view(r) == text_from_pairs(body_pairs(old(iter).lines_view(), old(iter).pos as int).0),
            final(iter).pos == body_pairs(old(iter).lines_view(), old(iter).pos as int).1,
    {
        let pairs = read_entity_pairs(self, iter);
        let align_h = int_value_or(&pairs, 72, 0);
        let align_v = int_value_or(&pairs, 73, 0);
        let x2 = real_value(&pairs, 11);
        let y2 = real_value(&pairs, 21);
        let use_second = (align_h != 0 || align_v != 0) && x2.is_some() && y2.is_some();
        let fx = if use_second { x2 } else { real_value(&pairs, 10) };
        let fy = if use_second { y2 } else { real_value(&pairs, 20) };
        let text = match last_index(&pairs, 1) {
            Some(i) => Some(chars_to_string(&pairs[i].1)),
            None => None,
        };
        let height = real_value_or(&pairs, 40, "1.0");
        let rotation = real_value_or(&pairs, 50, "0.0");
        let color = int_value_or(&pairs, 62, 7);
        let layer = layer_value(&pairs);
        match (fx, fy, text) {
            (Some(x), Some(y), Some(text)) => Some(
                DxfText { x, y, text, height, rotation, color, align_h, align_v, layer },
            ),
            _ => None,
        }
    }
}


/// Drawing settings from the HEADER section; real numbers kept as their text.
#[derive(Debug)]
pub struct DxfHeader {
    pub acad_ver: String,
    pub ins_units: i32,
    pub ext_min: (String, String, String),
    pub ext_max: (String, String, String),
    pub dim_scale: String,
}

pub struct HeaderView {
    pub acad_ver: Seq<char>,
    pub ins_units: i32,
    pub ext_min: (Seq<char>, Seq<char>, Seq<char>),
    pub ext_max: (Seq<char>, Seq<char>, Seq<char>),
    pub dim_scale: Seq<char>,
}

impl View for DxfHeader {
    type V = HeaderView;

    open spec fn view(&self) -> HeaderView {
        HeaderView {
            acad_ver: self.acad_ver@,
            ins_units: self.ins_units,
            ext_min: (self.ext_min.0@, self.ext_min.1@, self.ext_min.2@),
            ext_max: (self.ext_max.0@, self.ext_max.1@, self.ext_max.2@),
            dim_scale: self.dim_scale@,
        }
    }
}

/// The header before any variable is read: empty version, units 0, zero extents and scale.
pub open spec fn default_header() -> HeaderView {
    HeaderView {
        acad_ver: seq![],
        ins_units: 0,
        ext_min: ("0.0"@, "0.0"@, "0.0"@),
        ext_max: ("0.0"@, "0.0"@, "0.0"@),
        dim_scale: "0.0"@,
    }
}

impl Default for DxfHeader {
    fn default() -> (r: Self)
        ensures
            r@ == default_header(),
    {
        DxfHeader {
            acad_ver: String::new(),
            ins_units: 0,
            ext_min: (String::from_str("0.0"), String::from_str("0.0"), String::from_str("0.0")),
            ext_max: (String::from_str("0.0"), String::from_str("0.0"), String::from_str("0.0")),
            dim_scale: String::from_str("0.0"),
        }
    }
}

/// A coordinate of an extent read at `p`: the value where it reads as a real number, else `0.0`.
pub open spec fn real_or_zero_at(ls: Seq<Seq<char>>, p: int) -> (Seq<char>, int) {
    let (pr, q) = read_pair(ls, p);
    match pr {
        Some((_c, v)) => (if float_text(v) {
            v
        } else {
            "0.0"@
        }, q),
        None => ("0.0"@, q),
    }
}

/// A header variable `name` whose value pairs start at `p`: the header after it and
/// where reading stops. Unknown variables skip one pair.
pub open spec fn header_var(ls: Seq<Seq<char>>, p: int, h: HeaderView, name: Seq<char>) -> (
    HeaderView,
    int,
) {
    let (pr, q) = read_pair(ls, p);
    if name == "$ACADVER"@ {
        match pr {
            Some((_c, v)) => (HeaderView { acad_ver: v, ..h }, q),
            None => (h, q),
        }
    } else if name == "$INSUNITS"@ {
        match pr {
            Some((_c, v)) => (HeaderView {
                ins_units: match parse_i32_spec(v) {
                    Some(x) => x,
                    None => 6,
                },
                ..h
            }, q),
            None => (h, q),
        }
    } else if name == "$DIMSCALE"@ {
        match pr {
            Some((_c, v)) => (HeaderView {
                dim_scale: if float_text(v) {
                    v
                } else {
                    "1.0"@
                },
                ..h
            }, q),
            None => (h, q),
        }
    } else if name == "$EXTMIN"@ || name == "$EXTMAX"@ {
        let (x, p1) = real_or_zero_at(ls, p);
        let (y, p2) = real_or_zero_at(ls, p1);
        let (z, p3) = real_or_zero_at(ls, p2);
        if name == "$EXTMIN"@ {
            (HeaderView { ext_min: (x, y, z), ..h }, p3)
        } else {
            (HeaderView { ext_max: (x, y, z), ..h }, p3)
        }
    } else {
        (h, q)
    }
}

proof fn lemma_header_var_bounds(ls: Seq<Seq<char>>, p: int, h: HeaderView, name: Seq<char>)
    requires
        0 <= p <= ls.len(),
    ensures
        p <= header_var(ls, p, h, name).1 <= ls.len(),
{
    if p < ls.len() {
        lemma_read_pair_bounds(ls, p);
        let p1 = real_or_zero_at(ls, p).1;
        if p1 < ls.len() {
            lemma_read_pair_bounds(ls, p1);
            let p2 = real_or_zero_at(ls, p1).1;
            if p2 < ls.len() {
                lemma_read_pair_bounds(ls, p2);
            }
        }
    }
}

impl DxfParser {
    /// Reads a real number for an extent coordinate, `0.0` where it is missing or unreadable.
    fn read_real_or_zero(&self, iter: &mut PeekableLines) -> (r: String)
        requires
            old(iter).pos <= old(iter).lines@.len(),
        ensures
            final(iter).lines == old(iter).lines,
            final(iter).pos <= final(iter).lines@.len(),
            r@ == real_or_zero_at(old(iter).lines_view(), old(iter).pos as int).0,
            final(iter).pos == real_or_zero_at(old(iter).lines_view(), old(iter).pos as int).1,
    {
        proof {
            if old(iter).pos < old(iter).lines@.len() {
                lemma_read_pair_bounds(old(iter).lines_view(), old(iter).pos as int);
            }
        }
        match self.read_pair_chars(iter) {
            Some((_c, v)) => if is_float_text(&v) {
                chars_to_string(&v)
            } else {
                String::from_str("0.0")
            },
            None => String::from_str("0.0"),
        }
    }

    /// Reads the value of the header variable `var_name` into `header`.
    fn parse_header_variable(
        &self,
        iter: &mut PeekableLines,
        header: &mut DxfHeader,
        var_name: &Vec<char>,
    )
        requires
            old(iter).pos <= old(iter).lines@.len(),
        ensures
            final(iter).lines == old(iter).lines,
            final(header)@ == header_var(
                old(iter).lines_view(),
                old(iter).pos as int,
                old(header)@,
                var_name@,
            ).0,
            final(iter).pos == header_var(
                old(iter).lines_view(),
                old(iter).pos as int,
                old(header)@,
                var_name@,
            ).1,
    {
        let ghost ls = iter.lines_view();
        let ghost p = iter.pos as int;
        proof {
            if p < ls.len() {
                lemma_read_pair_bounds(ls, p);
            }
        }
        if chars_eq_str(var_name, "$ACADVER") {
            if let Some((_c, v)) = self.read_pair_chars(iter) {
                header.acad_ver = chars_to_string(&v);
            }
        } else if chars_eq_str(var_name, "$INSUNITS") {
            if let Some((_c, v)) = self.read_pair_chars(iter) {
                header.ins_units = match parse_i32(&v) {
                    Some(x) => x,
                    None => 6,
                };
            }
        } else if chars_eq_str(var_name, "$DIMSCALE") {
            if let Some((_c, v)) = self.read_pair_chars(iter) {
                header.dim_scale = if is_float_text(&v) {
                    chars_to_string(&v)
                } else {
                    String::from_str("1.0")
                };
            }
        } else if chars_eq_str(var_name, "$EXTMIN") {
            let x = self.read_real_or_zero(iter);
            let y = self.read_real_or_zero(iter);
            let z = self.read_real_or_zero(iter);
            header.ext_min = (x, y, z);
        } else if chars_eq_str(var_name, "$EXTMAX") {
            let x = self.read_real_or_zero(iter);
            let y = self.read_real_or_zero(iter);
            let z = self.read_real_or_zero(iter);
            header.ext_max = (x, y, z);
        } else {
            let _ = self.read_pair_chars(iter);
        }
    }
}


/// The entities and header read from a DXF text.
#[derive(Debug)]
pub struct DxfParseResult {
    pub lines: Vec<DxfLine>,
    pub circles: Vec<DxfCircle>,
    pub arcs: Vec<DxfArc>,
    pub polylines: Vec<DxfPolyline>,
    pub texts: Vec<DxfText>,
    pub header: Option<DxfHeader>,
}

pub struct ParseView {
    pub lines: Seq<LineView>,
    pub circles: Seq<CircleView>,
    pub arcs: Seq<ArcView>,
    pub polylines: Seq<PolylineView>,
    pub texts: Seq<TextView>,
    pub header: Option<HeaderView>,
}

impl View for DxfParseResult {
    type V = ParseView;

    open spec fn view(&self) -> ParseView {
        ParseView {
            lines: self.lines@.map_values(|e: DxfLine| e@),
            circles: self.circles@.map_values(|e: DxfCircle| e@),
            arcs: self.arcs@.map_values(|e: DxfArc| e@),
            polylines: self.polylines@.map_values(|e: DxfPolyline| e@),
            texts: self.texts@.map_values(|e: DxfText| e@),
            header: opt_view(self.header),
        }
    }
}

/// Nothing read yet.
pub open spec fn empty_parse() -> ParseView {
    ParseView {
        lines: seq![],
        circles: seq![],
        arcs: seq![],
        polylines: seq![],
        texts: seq![],
        header: None,
    }
}

impl Default for DxfParseResult {
    fn default() -> (r: Self)
        ensures
            r@ == empty_parse(),
    {
        let r = DxfParseResult {
            lines: Vec::new(),
            circles: Vec::new(),
            arcs: Vec::new(),
            polylines: Vec::new(),
            texts: Vec::new(),
            header: None,
        };
        assert(r@.lines =~= seq![]);
        assert(r@.circles =~= seq![]);
        assert(r@.arcs =~= seq![]);
        assert(r@.polylines =~= seq![]);
        assert(r@.texts =~= seq![]);
        r
    }
}

/// One group-code pair `(code, value)` read before `q`, handled in section `sec`:
/// the section after it, the result so far, and where reading goes on.
/// A marker `0` opens (`SECTION`, whose name follows) or closes (`ENDSEC`) a
/// section; inside ENTITIES it starts an entity, which is read when it is a
/// LINE, CIRCLE, ARC, LWPOLYLINE or TEXT, and skipped otherwise. A code 9 whose
/// value starts with `$` names a header variable inside HEADER.
pub open spec fn content_step(
    ls: Seq<Seq<char>>,
    q: int,
    sec: Option<Seq<char>>,
    acc: ParseView,
    code: i32,
    value: Seq<char>,
) -> (Option<Seq<char>>, ParseView, int) {
    let in_entities = sec == Some("ENTITIES"@);
    let body = body_pairs(ls, q);
    if code == 0 {
        if value == "SECTION"@ {
            let (n, r) = section_name_at(ls, q);
            (n, acc, r)
        } else if value == "ENDSEC"@ {
            (None, acc, q)
        } else if !in_entities {
            (sec, acc, q)
        } else if value == "LINE"@ {
            (sec, ParseView { lines: opt_push(acc.lines, line_from_pairs(body.0)), ..acc }, body.1)
        } else if value == "CIRCLE"@ {
            (
                sec,
                ParseView { circles: opt_push(acc.circles, circle_from_pairs(body.0)), ..acc },
                body.1,
            )
        } else if value == "ARC"@ {
            (sec, ParseView { arcs: opt_push(acc.arcs, arc_from_pairs(body.0)), ..acc }, body.1)
        } else if value == "LWPOLYLINE"@ {
            (
                sec,
                ParseView { polylines: opt_push(acc.polylines, polyline_from_pairs(body.0)), ..acc },
                body.1,
            )
        } else if value == "TEXT"@ {
            (sec, ParseView { texts: opt_push(acc.texts, text_from_pairs(body.0)), ..acc }, body.1)
        } else {
            (sec, acc, skip_end(ls, q))
        }
    } else if code == 9 && sec == Some("HEADER"@) && value.len() > 0 && value[0] == '$' {
        let h = match acc.header {
            Some(h) => h,
            None => default_header(),
        };
        let (h2, r) = header_var(ls, q, h, value);
        (sec, ParseView { header: Some(h2), ..acc }, r)
    } else {
        (sec, acc, q)
    }
}

pub proof fn lemma_content_step_bounds(
    ls: Seq<Seq<char>>,
    q: int,
    sec: Option<Seq<char>>,
    acc: ParseView,
    code: i32,
    value: Seq<char>,
)
    requires
        0 <= q <= ls.len(),
    ensures
        q <= content_step(ls, q, sec, acc, code, value).2 <= ls.len(),
{
    lemma_body_pairs_bounds(ls, q);
    lemma_skip_end_bounds(ls, q);
    if q < ls.len() {
        lemma_read_pair_bounds(ls, q);
    }
    let h = match acc.header {
        Some(h) => h,
        None => default_header(),
    };
    lemma_header_var_bounds(ls, q, h, value);
}

/// What reading the lines from `p` on adds to `acc`, in section `sec`: pairs are
/// handled one after another until the lines end or a group code does not read
/// as an integer.
pub open spec fn content(ls: Seq<Seq<char>>, p: int, sec: Option<Seq<char>>, acc: ParseView) -> ParseView
    decreases ls.len() - p,
{
    if p < 0 || p >= ls.len() {
        acc
    } else {
        match read_pair(ls, p).0 {
            None => acc,
            Some((code, value)) => {
                let step = content_step(ls, p + 2, sec, acc, code, value);
                proof {
                    lemma_read_pair_bounds(ls, p);
                    lemma_content_step_bounds(ls, p + 2, sec, acc, code, value);
                }
                content(ls, step.2, step.0, step.1)
            },
        }
    }
}

/// What the parser gives for a DXF text.
pub open spec fn parse_spec(text: Seq<char>) -> ParseView {
    content(lines(heavy_filtered(text)), 0, None, empty_parse())
}


impl DxfParser {
    /// Handles one group-code pair in section `sec`; gives the section after it.
    fn handle_pair(
        &self,
        iter: &mut PeekableLines,
        sec: Option<Vec<char>>,
        result: &mut DxfParseResult,
        code: i32,
        value: &Vec<char>,
    ) -> (r: Option<Vec<char>>)
        requires
            old(iter).pos <= old(iter).lines@.len(),
        ensures
            final(iter).lines == old(iter).lines,
            old(iter).pos <= final(iter).pos <= final(iter).lines@.len(),
            (opt_view(r), final(result)@, final(iter).pos as int) == content_step(
                old(iter).lines_view(),
                old(iter).pos as int,
                opt_view(sec),
                old(result)@,
                code,
                value@,
            ),
    {
        let ghost ls = iter.lines_view();
        let ghost q = iter.pos as int;
        let ghost acc = result@;
        proof {
            lemma_content_step_bounds(ls, q, opt_view(sec), acc, code, value@);
        }
        let in_entities = match &sec {
            Some(s) => chars_eq_str(s, "ENTITIES"),
            None => false,
        };
        let in_header = match &sec {
            Some(s) => chars_eq_str(s, "HEADER"),
            None => false,
        };
        if code == 0 {
            if chars_eq_str(value, "SECTION") {
                return self.read_section_chars(iter);
            } else if chars_eq_str(value, "ENDSEC") {
                return None;
            } else if !in_entities {
                return sec;
            } else if chars_eq_str(value, "LINE") {
                if let Some(e) = self.parse_line_entity(iter) {
                    result.lines.push(e);
                    assert(result@.lines =~= acc.lines.push(e@));
                }
            } else if chars_eq_str(value, "CIRCLE") {
                if let Some(e) = self.parse_circle_entity(iter) {
                    result.circles.push(e);
                    assert(result@.circles =~= acc.circles.push(e@));
                }
            } else if chars_eq_str(value, "ARC") {
                if let Some(e) = self.parse_arc_entity(iter) {
                    result.arcs.push(e);
                    assert(result@.arcs =~= acc.arcs.push(e@));
                }
            } else if chars_eq_str(value, "LWPOLYLINE") {
                if let Some(e) = self.parse_polyline_entity(iter) {
                    result.polylines.push(e);
                    assert(result@.polylines =~= acc.polylines.push(e@));
                }
            } else if chars_eq_str(value, "TEXT") {
                if let Some(e) = self.parse_text_entity(iter) {
                    result.texts.push(e);
                    assert(result@.texts =~= acc.texts.push(e@));
                }
            } else {
                self.skip_entity(iter);
            }
            sec
        } else if code == 9 && in_header && value.len() > 0 && value[0] == '$' {
            let mut h = match result.header.take() {
                Some(h) => h,
                None => DxfHeader::default(),
            };
            self.parse_header_variable(iter, &mut h, value);
            result.header = Some(h);
            sec
        } else {
            sec
        }
    }

    /// Reads pairs until the lines end or a group code does not read as an integer.
    fn parse_content(&self, iter: &mut PeekableLines) -> (r: DxfParseResult)
        requires
            old(iter).pos <= old(iter).lines@.len(),
        ensures
            r@ == content(old(iter).lines_view(), old(iter).pos as int, None, empty_parse()),
    {
        let ghost ls = iter.lines_view();
        let ghost p0 = iter.pos as int;
        let mut result = DxfParseResult::default();
        let mut current_section: Option<Vec<char>> = None;
        loop
            invariant_except_break
                content(ls, p0, None, empty_parse()) == content(
                    ls,
                    iter.pos as int,
                    opt_view(current_section),
                    result@,
                ),
            invariant
                iter.lines == old(iter).lines,
                ls == iter.lines_view(),
                iter.pos <= iter.lines@.len(),
            ensures
                content(ls, p0, None, empty_parse()) == result@,
            decreases iter.lines@.len() - iter.pos,
        {
            let ghost p = iter.pos as int;
            proof {
                if p < ls.len() {
                    lemma_read_pair_bounds(ls, p);
                }
            }
            match self.read_pair_chars(iter) {
                None => {
                    break;
                },
                Some((code, value)) => {
                    current_section = self.handle_pair(
                        iter,
                        current_section,
                        &mut result,
                        code,
                        &value,
                    );
                },
            }
        }
        result
    }

    /// Reads the LINE, CIRCLE, ARC, LWPOLYLINE and TEXT entities of the ENTITIES
    /// section and the known variables of the HEADER section of a DXF text.
    pub fn parse(&self, dxf_text: &str) -> (r: DxfParseResult)
        ensures
            r@ == parse_spec(dxf_text@),
    {
        let chars = str_to_chars(dxf_text);
        let filtered = self.remove_heavy_chars(&chars);
        let lines_v = split_lines(&filtered);
        let mut iter = PeekableLines::new(&lines_v);
        self.parse_content(&mut iter)
    }
}


/// Every coordinate of the entity reads as a real number.
pub open spec fn line_ok(l: LineView) -> bool {
    float_text(l.x1) && float_text(l.y1) && float_text(l.x2) && float_text(l.y2)
}

pub open spec fn circle_ok(c: CircleView) -> bool {
    float_text(c.center_x) && float_text(c.center_y) && float_text(c.radius)
}

pub open spec fn arc_ok(a: ArcView) -> bool {
    &&& float_text(a.center_x)
    &&& float_text(a.center_y)
    &&& float_text(a.radius)
    &&& float_text(a.start_angle)
    &&& float_text(a.end_angle)
}

pub open spec fn vertices_ok(vs: Seq<(Seq<char>, Seq<char>)>) -> bool {
    forall|i: int| 0 <= i < vs.len() ==> float_text(#[trigger] vs[i].0) && float_text(vs[i].1)
}

pub open spec fn text_ok(t: TextView) -> bool {
    float_text(t.x) && float_text(t.y) && float_text(t.height) && float_text(t.rotation)
}

pub open spec fn header_ok(h: HeaderView) -> bool {
    &&& float_text(h.ext_min.0)
    &&& float_text(h.ext_min.1)
    &&& float_text(h.ext_min.2)
    &&& float_text(h.ext_max.0)
    &&& float_text(h.ext_max.1)
    &&& float_text(h.ext_max.2)
    &&& float_text(h.dim_scale)
}

/// Every real number the parse result holds reads as one.
pub open spec fn parse_ok(v: ParseView) -> bool {
    &&& forall|i: int| 0 <= i < v.lines.len() ==> line_ok(#[trigger] v.lines[i])
    &&& forall|i: int| 0 <= i < v.circles.len() ==> circle_ok(#[trigger] v.circles[i])
    &&& forall|i: int| 0 <= i < v.arcs.len() ==> arc_ok(#[trigger] v.arcs[i])
    &&& forall|i: int| 0 <= i < v.polylines.len() ==> vertices_ok(#[trigger] v.polylines[i].vertices)
    &&& forall|i: int| 0 <= i < v.texts.len() ==> text_ok(#[trigger] v.texts[i])
    &&& (v.header matches Some(h) ==> header_ok(h))
}

proof fn lemma_poly_state_ok(pairs: Seq<(i32, Seq<char>)>)
    ensures
        vertices_ok(poly_state(pairs).0),
        poly_state(pairs).1 matches Some(x) ==> float_text(x),
    decreases pairs.len(),
{
    if pairs.len() > 0 {
        lemma_poly_state_ok(pairs.drop_last());
        let (vs, cx) = poly_state(pairs.drop_last());
        let (c, v) = pairs.last();
        if c == 20 {
            if let Some(x) = cx {
                if float_text(v) {
                    let ws = vs.push((x, v));
                    assert forall|i: int| 0 <= i < ws.len() implies float_text(#[trigger] ws[i].0)
                        && float_text(ws[i].1) by {
                        if i < vs.len() {
                            assert(ws[i] == vs[i]);
                        }
                    }
                }
            }
        }
    }
}

proof fn lemma_push_ok<T>(s: Seq<T>, o: Option<T>, ok: spec_fn(T) -> bool)
    requires
        forall|i: int| 0 <= i < s.len() ==> ok(#[trigger] s[i]),
        o matches Some(x) ==> ok(x),
    ensures
        forall|i: int| 0 <= i < opt_push(s, o).len() ==> ok(#[trigger] opt_push(s, o)[i]),
{
    if let Some(x) = o {
        assert forall|i: int| 0 <= i < s.push(x).len() implies ok(#[trigger] s.push(x)[i]) by {
            if i < s.len() {
                assert(s.push(x)[i] == s[i]);
            }
        }
    }
}

proof fn lemma_header_var_ok(ls: Seq<Seq<char>>, p: int, h: HeaderView, name: Seq<char>)
    requires
        header_ok(h),
    ensures
        header_ok(header_var(ls, p, h, name).0),
{
    lemma_float_text_defaults();
}

proof fn lemma_content_step_ok(
    ls: Seq<Seq<char>>,
    q: int,
    sec: Option<Seq<char>>,
    acc: ParseView,
    code: i32,
    value: Seq<char>,
)
    requires
        parse_ok(acc),
    ensures
        parse_ok(content_step(ls, q, sec, acc, code, value).1),
{
    lemma_float_text_defaults();
    let body = body_pairs(ls, q).0;
    lemma_push_ok(acc.lines, line_from_pairs(body), |l: LineView| line_ok(l));
    lemma_push_ok(acc.circles, circle_from_pairs(body), |c: CircleView| circle_ok(c));
    lemma_push_ok(acc.arcs, arc_from_pairs(body), |a: ArcView| arc_ok(a));
    lemma_poly_state_ok(body);
    lemma_push_ok(
        acc.polylines,
        polyline_from_pairs(body),
        |p: PolylineView| vertices_ok(p.vertices),
    );
    lemma_push_ok(acc.texts, text_from_pairs(body), |t: TextView| text_ok(t));
    let h = match acc.header {
        Some(h) => h,
        None => default_header(),
    };
    lemma_header_var_ok(ls, q, h, value);
}

proof fn lemma_content_ok(ls: Seq<Seq<char>>, p: int, sec: Option<Seq<char>>, acc: ParseView)
    requires
        parse_ok(acc),
    ensures
        parse_ok(content(ls, p, sec, acc)),
    decreases ls.len() - p,
{
    if 0 <= p < ls.len() {
        if let Some((code, value)) = read_pair(ls, p).0 {
            lemma_read_pair_bounds(ls, p);
            lemma_content_step_bounds(ls, p + 2, sec, acc, code, value);
            lemma_content_step_ok(ls, p + 2, sec, acc, code, value);
            let step = content_step(ls, p + 2, sec, acc, code, value);
            lemma_content_ok(ls, step.2, step.0, step.1);
        }
    }
}

/// Every real number in what the parser gives (coordinates, radii, angles,
/// text heights and rotations, extents and the dimension scale) reads as a
/// real number, so each converts to an `f64`.
pub proof fn law_parsed_numbers_read(text: Seq<char>)
    ensures
        parse_ok(parse_spec(text)),
{
    lemma_content_ok(lines(heavy_filtered(text)), 0, None, empty_parse());
}


/// The line reporting what was read: the number of entities of each kind.
pub open spec fn summary_spec(v: ParseView) -> Seq<char> {
    "Loaded: "@ + decimal(v.lines.len()) + " lines, "@ + decimal(v.circles.len()) + " circles, "@
        + decimal(v.arcs.len()) + " arcs, "@ + decimal(v.polylines.len()) + " polylines, "@
        + decimal(v.texts.len()) + " texts"@
}

/// See `summary_spec`.
pub fn load_summary(result: &DxfParseResult) -> (r: String)
    ensures
        r@ == summary_spec(result@),
{
    let mut out = str_to_chars("Loaded: ");
    append_chars(&mut out, &decimal_chars(result.lines.len()));
    append_chars(&mut out, &str_to_chars(" lines, "));
    append_chars(&mut out, &decimal_chars(result.circles.len()));
    append_chars(&mut out, &str_to_chars(" circles, "));
    append_chars(&mut out, &decimal_chars(result.arcs.len()));
    append_chars(&mut out, &str_to_chars(" arcs, "));
    append_chars(&mut out, &decimal_chars(result.polylines.len()));
    append_chars(&mut out, &str_to_chars(" polylines, "));
    append_chars(&mut out, &decimal_chars(result.texts.len()));
    append_chars(&mut out, &str_to_chars(" texts"));
    chars_to_string(&out)
}


/// A line `0` followed by an OLE2FRAME, IMAGE or WIPEOUT type line starts a heavy
/// entity: neither line reaches the output, and what follows is skipped; in
/// skip mode a line that does not start an entity reaches no output either; a
/// line `0` followed by another entity type ends the skipping and is kept.
pub proof fn law_heavy_entities_dropped(ls: Seq<Seq<char>>, i: int, skip: bool)
    requires
        0 <= i,
        i + 1 < ls.len(),
    ensures
        trim(ls[i]) == "0"@ && (trim(ls[i + 1]) == "OLE2FRAME"@ || trim(ls[i + 1]) == "IMAGE"@
            || trim(ls[i + 1]) == "WIPEOUT"@) ==> heavy_filtered_from(ls, i, skip)
            == heavy_filtered_from(ls, i + 2, true),
        !(trim(ls[i]) == "0"@ && is_entity_type_spec(trim(ls[i + 1]))) ==> heavy_filtered_from(
            ls,
            i,
            true,
        ) == heavy_filtered_from(ls, i + 1, true),
        trim(ls[i]) == "0"@ && is_entity_type_spec(trim(ls[i + 1])) && trim(ls[i + 1])
            != "OLE2FRAME"@ && trim(ls[i + 1]) != "IMAGE"@ && trim(ls[i + 1]) != "WIPEOUT"@
            ==> heavy_filtered_from(ls, i, skip) == ls[i] + seq!['\n'] + heavy_filtered_from(
            ls,
            i + 1,
            false,
        ),
{
    reveal_strlit("0");
    reveal_strlit("OLE2FRAME");
    reveal_strlit("IMAGE");
    reveal_strlit("WIPEOUT");
    if trim(ls[i]) == "0"@ && is_skip_type(trim(ls[i + 1])) {
        let t = trim(ls[i + 1]);
        assert(is_entity_type_spec(t)) by {
            assert(is_ascii_upper(t[0]));
            assert forall|k: int| 0 <= k < t.len() implies (is_ascii_upper(#[trigger] t[k])
                || is_ascii_digit(t[k]) || t[k] == '_') by {}
        }
    }
}


proof fn lemma_last_value_at(pairs: Seq<(i32, Seq<char>)>, code: i32, j: int)
    requires
        0 <= j < pairs.len(),
        pairs[j].0 == code,
        forall|k: int| j < k < pairs.len() ==> #[trigger] pairs[k].0 != code,
    ensures
        last_value(pairs, code) == Some(pairs[j].1),
    decreases pairs.len(),
{
    if j < pairs.len() - 1 {
        let p = pairs.drop_last();
        assert(pairs[pairs.len() - 1].0 != code);
        assert forall|k: int| j < k < p.len() implies #[trigger] p[k].0 != code by {
            assert(p[k] == pairs[k]);
        }
        lemma_last_value_at(p, code, j);
    }
}

proof fn lemma_last_value_none(pairs: Seq<(i32, Seq<char>)>, code: i32)
    requires
        forall|k: int| 0 <= k < pairs.len() ==> #[trigger] pairs[k].0 != code,
    ensures
        last_value(pairs, code) is None,
    decreases pairs.len(),
{
    if pairs.len() > 0 {
        let p = pairs.drop_last();
        assert(pairs[pairs.len() - 1].0 != code);
        assert forall|k: int| 0 <= k < p.len() implies #[trigger] p[k].0 != code by {
            assert(p[k] == pairs[k]);
        }
        lemma_last_value_none(p, code);
    }
}

/// An ARC's angles come from its pairs: the end angle is the value of the last
/// pair with group code 51 where it reads as a real number, and `360.0` where
/// there is no code 51 at all or its last value does not read; the start angle
/// likewise from code 50, with `0.0` as the default. Center (10, 20) and radius
/// (40) are the last values of their codes.
pub proof fn law_arc_angles(pairs: Seq<(i32, Seq<char>)>, j: int)
    requires
        arc_from_pairs(pairs) is Some,
    ensures
        0 <= j < pairs.len() && pairs[j].0 == 51 && (forall|k: int|
            j < k < pairs.len() ==> #[trigger] pairs[k].0 != 51) ==> arc_from_pairs(pairs)->0.end_angle
            == if float_text(pairs[j].1) {
            pairs[j].1
        } else {
            "360.0"@
        },
        (forall|k: int| 0 <= k < pairs.len() ==> #[trigger] pairs[k].0 != 51) ==> arc_from_pairs(
            pairs,
        )->0.end_angle == "360.0"@,
        0 <= j < pairs.len() && pairs[j].0 == 50 && (forall|k: int|
            j < k < pairs.len() ==> #[trigger] pairs[k].0 != 50) ==> arc_from_pairs(
            pairs,
        )->0.start_angle == if float_text(pairs[j].1) {
            pairs[j].1
        } else {
            "0.0"@
        },
        (forall|k: int| 0 <= k < pairs.len() ==> #[trigger] pairs[k].0 != 50) ==> arc_from_pairs(
            pairs,
        )->0.start_angle == "0.0"@,
        0 <= j < pairs.len() && pairs[j].0 == 40 && (forall|k: int|
            j < k < pairs.len() ==> #[trigger] pairs[k].0 != 40) ==> arc_from_pairs(pairs)->0.radius
            == pairs[j].1,
{
    if 0 <= j < pairs.len() && pairs[j].0 == 51 && (forall|k: int|
        j < k < pairs.len() ==> #[trigger] pairs[k].0 != 51) {
        lemma_last_value_at(pairs, 51, j);
    }
    if forall|k: int| 0 <= k < pairs.len() ==> #[trigger] pairs[k].0 != 51 {
        lemma_last_value_none(pairs, 51);
    }
    if 0 <= j < pairs.len() && pairs[j].0 == 50 && (forall|k: int|
        j < k < pairs.len() ==> #[trigger] pairs[k].0 != 50) {
        lemma_last_value_at(pairs, 50, j);
    }
    if forall|k: int| 0 <= k < pairs.len() ==> #[trigger] pairs[k].0 != 50 {
        lemma_last_value_none(pairs, 50);
    }
    if 0 <= j < pairs.len() && pairs[j].0 == 40 && (forall|k: int|
        j < k < pairs.len() ==> #[trigger] pairs[k].0 != 40) {
        lemma_last_value_at(pairs, 40, j);
    }
}

} // verus!
