//! Grouping the rows of a survey CSV into sections.
//!
//! The table has a header row naming its columns, in English or Japanese.
//! Consecutive rows with the same `section` value (or, without that column,
//! the rows from the first one with a name on) form one section. Numeric cells
//! are kept as their trimmed text, checked to read as real numbers.
use vstd::prelude::*;

use crate::text::{
    append_chars, chars_eq, chars_eq_str, chars_to_string, float_text, is_float_text, parse_usize,
    parse_usize_spec, str_to_chars, strs, trim, trim_chars,
};

verus! {

/// The rows of one section of the CSV.
#[derive(Debug, Clone)]
pub struct CsvSection {
    pub name: String,
    pub unit_distances: Vec<String>,
    pub elevations: Vec<String>,
    pub planned_heights: Vec<String>,
    /// The cutting depth of each row; the section's depth is the greatest.
    pub cutting_depths: Vec<String>,
    pub cl_index: Option<usize>,
}

pub struct SectionView {
    pub name: Seq<char>,
    pub unit_distances: Seq<Seq<char>>,
    pub elevations: Seq<Seq<char>>,
    pub planned_heights: Seq<Seq<char>>,
    pub cutting_depths: Seq<Seq<char>>,
    pub cl_index: Option<usize>,
}

impl View for CsvSection {
    type V = SectionView;

    open spec fn view(&self) -> SectionView {
        SectionView {
            name: self.name@,
            unit_distances: strs(self.unit_distances@),
            elevations: strs(self.elevations@),
            planned_heights: strs(self.planned_heights@),
            cutting_depths: strs(self.cutting_depths@),
            cl_index: self.cl_index,
        }
    }
}

/// Where the columns stand in a record.
#[derive(Debug, Clone, Copy)]
pub struct Columns {
    pub name: usize,
    pub unit: usize,
    pub elev: usize,
    pub plan: usize,
    pub cut: usize,
    pub section: Option<usize>,
    pub cl_flag: Option<usize>,
    pub cl_index: Option<usize>,
}

/// The first column from `i` on whose trimmed header is `name`.
pub open spec fn find_from(h: Seq<Seq<char>>, name: Seq<char>, i: int) -> Option<usize>
    decreases h.len() - i,
{
    if i < 0 || i >= h.len() {
        None
    } else if trim(h[i]) == name {
        Some(i as usize)
    } else {
        find_from(h, name, i + 1)
    }
}

pub open spec fn either(a: Option<usize>, b: Option<usize>) -> Option<usize> {
    if a is Some {
        a
    } else {
        b
    }
}

/// The column named by either of two headers, the first name first.
pub open spec fn column(h: Seq<Seq<char>>, a: Seq<char>, b: Seq<char>) -> Option<usize> {
    either(find_from(h, a, 0), find_from(h, b, 0))
}

/// The columns of a header row, or the message for the first required one missing.
pub open spec fn columns_spec(h: Seq<Seq<char>>) -> Result<Columns, Seq<char>> {
    let name = column(h, "name"@, "測点名"@);
    let unit = column(h, "unit_distance"@, "単延長"@);
    let elev = column(h, "elevation"@, "現地盤"@);
    let plan = column(h, "planned_height"@, "計画高"@);
    let cut = column(h, "cutting_depth"@, "切削厚"@);
    if name is None {
        Err("missing column: name/測点名"@)
    } else if unit is None {
        Err("missing column: unit_distance/単延長"@)
    } else if elev is None {
        Err("missing column: elevation/現地盤"@)
    } else if plan is None {
        Err("missing column: planned_height/計画高"@)
    } else if cut is None {
        Err("missing column: cutting_depth/切削厚"@)
    } else {
        Ok(
            Columns {
                name: name->0,
                unit: unit->0,
                elev: elev->0,
                plan: plan->0,
                cut: cut->0,
                section: column(h, "section"@, "区間"@),
                cl_flag: either(column(h, "cl"@, "CL"@), column(h, "center"@, "中央"@)),
                cl_index: column(h, "cl_index"@, "CL_index"@),
            },
        )
    }
}

/// The field at a column, where the record has one.
pub open spec fn field(rec: Seq<Seq<char>>, i: usize) -> Option<Seq<char>> {
    if i < rec.len() {
        Some(rec[i as int])
    } else {
        None
    }
}

/// A numeric cell: its trimmed text where it reads as a real number, else the
/// message for an empty cell or for the text that does not read.
pub open spec fn cell_spec(v: Option<Seq<char>>) -> Result<Seq<char>, Seq<char>> {
    let raw = match v {
        Some(s) => trim(s),
        None => seq![],
    };
    if raw.len() == 0 {
        Err("empty numeric cell"@)
    } else if float_text(raw) {
        Ok(raw)
    } else {
        Err("invalid number: "@ + raw)
    }
}

/// Every field of the record is blank.
pub open spec fn blank_record(rec: Seq<Seq<char>>) -> bool {
    forall|i: int| 0 <= i < rec.len() ==> #[trigger] trim(rec[i]).len() == 0
}

/// A value that marks the center line row.
pub open spec fn is_cl_flag(f: Seq<char>) -> bool {
    ||| f == "1"@
    ||| f == "true"@
    ||| f == "TRUE"@
    ||| f == "yes"@
    ||| f == "YES"@
    ||| f == "y"@
    ||| f == "Y"@
    ||| f == "中央"@
}

/// The center line index a row gives, when none is known yet and the section
/// holds `n` rows with it: a nonblank `cl_index` field read as a `usize`; where
/// the record has no `cl_index` field, a center line flag marks this row.
pub open spec fn cl_after(cols: Columns, rec: Seq<Seq<char>>, n: int) -> Option<usize> {
    match cols.cl_index {
        Some(i) if (i as int) < rec.len() => {
            let v = trim(rec[i as int]);
            if v.len() == 0 {
                None
            } else {
                parse_usize_spec(v)
            }
        },
        _ => match cols.cl_flag {
            Some(i) if (i as int) < rec.len() => if is_cl_flag(trim(rec[i as int])) {
                Some((n - 1) as usize)
            } else {
                None
            },
            _ => None,
        },
    }
}

/// The grouping so far: finished sections, the current section's name and rows.
pub struct GroupView {
    pub sections: Seq<SectionView>,
    pub current: Seq<char>,
    pub units: Seq<Seq<char>>,
    pub elevs: Seq<Seq<char>>,
    pub plans: Seq<Seq<char>>,
    pub cuts: Seq<Seq<char>>,
    pub cl: Option<usize>,
}

pub open spec fn empty_group() -> GroupView {
    GroupView {
        sections: seq![],
        current: seq![],
        units: seq![],
        elevs: seq![],
        plans: seq![],
        cuts: seq![],
        cl: None,
    }
}

/// The current rows, where there are any, made a finished section.
pub open spec fn flush_spec(g: GroupView) -> GroupView {
    if g.units.len() == 0 {
        g
    } else {
        GroupView {
            sections: g.sections.push(
                SectionView {
                    name: g.current,
                    unit_distances: g.units,
                    elevations: g.elevs,
                    planned_heights: g.plans,
                    cutting_depths: g.cuts,
                    cl_index: g.cl,
                },
            ),
            current: g.current,
            units: seq![],
            elevs: seq![],
            plans: seq![],
            cuts: seq![],
            cl: None,
        }
    }
}

/// The nonblank section name of a record.
pub open spec fn section_of(cols: Columns, rec: Seq<Seq<char>>) -> Option<Seq<char>> {
    match cols.section {
        Some(i) => match field(rec, i) {
            Some(v) => if trim(v).len() > 0 {
                Some(trim(v))
            } else {
                None
            },
            None => None,
        },
        None => None,
    }
}

/// The grouping after the section name of a record: a new name ends the current
/// section; the first name starts one.
pub open spec fn after_section(cols: Columns, g: GroupView, rec: Seq<Seq<char>>) -> GroupView {
    match section_of(cols, rec) {
        Some(sn) => if g.current.len() == 0 {
            GroupView { current: sn, ..g }
        } else if sn != g.current {
            GroupView { current: sn, ..flush_spec(g) }
        } else {
            g
        },
        None => g,
    }
}

/// The row's name, `未設定` where the record has no such field.
pub open spec fn name_of(cols: Columns, rec: Seq<Seq<char>>) -> Seq<char> {
    match field(rec, cols.name) {
        Some(v) => trim(v),
        None => trim("未設定"@),
    }
}

/// The grouping after one record, or the message of its first bad cell.
pub open spec fn row_step(cols: Columns, g: GroupView, rec: Seq<Seq<char>>) -> Result<GroupView, Seq<char>> {
    if blank_record(rec) {
        Ok(g)
    } else {
        let g1 = after_section(cols, g, rec);
        let g2 = if g1.current.len() == 0 {
            GroupView { current: name_of(cols, rec), ..g1 }
        } else {
            g1
        };
        match cell_spec(field(rec, cols.unit)) {
            Err(e) => Err(e),
            Ok(u) => match cell_spec(field(rec, cols.elev)) {
                Err(e) => Err(e),
                Ok(ev) => match cell_spec(field(rec, cols.plan)) {
                    Err(e) => Err(e),
                    Ok(p) => match cell_spec(field(rec, cols.cut)) {
                        Err(e) => Err(e),
                        Ok(c) => {
                            let units = g2.units.push(u);
                            Ok(
                                GroupView {
                                    units,
                                    elevs: g2.elevs.push(ev),
                                    plans: g2.plans.push(p),
                                    cuts: g2.cuts.push(c),
                                    cl: if g2.cl is None {
                                        cl_after(cols, rec, units.len() as int)
                                    } else {
                                        g2.cl
                                    },
                                    ..g2
                                },
                            )
                        },
                    },
                },
            },
        }
    }
}

/// The grouping after the records from `i` on; the first unreadable record or
/// bad cell ends it with its message.
pub open spec fn rows_from(
    cols: Columns,
    g: GroupView,
    recs: Seq<Result<Seq<Seq<char>>, Seq<char>>>,
    i: int,
) -> Result<GroupView, Seq<char>>
    decreases recs.len() - i,
{
    if i < 0 || i >= recs.len() {
        Ok(g)
    } else {
        match recs[i] {
            Err(e) => Err("CSV row error: "@ + e),
            Ok(rec) => match row_step(cols, g, rec) {
                Err(e) => Err(e),
                Ok(g2) => rows_from(cols, g2, recs, i + 1),
            },
        }
    }
}

/// The sections of a CSV given its header row and records as the reader gave
/// them; an error where the header row does not read, a required column is
/// missing, a record does not read, a numeric cell is bad, or no section has rows.
pub open spec fn group_spec(
    headers: Result<Seq<Seq<char>>, Seq<char>>,
    recs: Seq<Result<Seq<Seq<char>>, Seq<char>>>,
) -> Result<Seq<SectionView>, Seq<char>> {
    match headers {
        Err(e) => Err("CSV header error: "@ + e),
        Ok(h) => match columns_spec(h) {
            Err(m) => Err(m),
            Ok(cols) => match rows_from(cols, empty_group(), recs, 0) {
                Err(e) => Err(e),
                Ok(g) => {
                    let fin = if g.current.len() > 0 {
                        flush_spec(g)
                    } else {
                        g
                    };
                    if fin.sections.len() == 0 {
                        Err("no valid sections in CSV"@)
                    } else {
                        Ok(fin.sections)
                    }
                },
            },
        },
    }
}


/// Every value reads as a real number.
pub open spec fn all_real(v: Seq<Seq<char>>) -> bool {
    forall|i: int| 0 <= i < v.len() ==> float_text(#[trigger] v[i])
}

/// A section as the grouping makes it: at least one row, a value for each row
/// in every numeric column, and every value reading as a real number.
pub open spec fn section_ok(s: SectionView) -> bool {
    &&& s.unit_distances.len() >= 1
    &&& s.elevations.len() == s.unit_distances.len()
    &&& s.planned_heights.len() == s.unit_distances.len()
    &&& s.cutting_depths.len() == s.unit_distances.len()
    &&& all_real(s.unit_distances)
    &&& all_real(s.elevations)
    &&& all_real(s.planned_heights)
    &&& all_real(s.cutting_depths)
}

/// What grouping keeps: finished sections are well formed, and the current
/// rows have a value in every numeric column, each reading as a real number.
pub open spec fn group_ok(g: GroupView) -> bool {
    &&& forall|k: int| 0 <= k < g.sections.len() ==> section_ok(#[trigger] g.sections[k])
    &&& g.elevs.len() == g.units.len()
    &&& g.plans.len() == g.units.len()
    &&& g.cuts.len() == g.units.len()
    &&& all_real(g.units)
    &&& all_real(g.elevs)
    &&& all_real(g.plans)
    &&& all_real(g.cuts)
}

proof fn lemma_all_real_push(v: Seq<Seq<char>>, x: Seq<char>)
    requires
        all_real(v),
        float_text(x),
    ensures
        all_real(v.push(x)),
{
    assert forall|i: int| 0 <= i < v.push(x).len() implies float_text(#[trigger] v.push(x)[i]) by {
        if i < v.len() {
            assert(v.push(x)[i] == v[i]);
        }
    }
}

proof fn lemma_flush_ok(g: GroupView)
    requires
        group_ok(g),
    ensures
        group_ok(flush_spec(g)),
{
    if g.units.len() > 0 {
        let f = flush_spec(g);
        assert forall|k: int| 0 <= k < f.sections.len() implies section_ok(#[trigger] f.sections[k]) by {
            if k < g.sections.len() {
                assert(f.sections[k] == g.sections[k]);
            }
        }
    }
}

proof fn lemma_cell_real(v: Option<Seq<char>>)
    ensures
        cell_spec(v) matches Ok(x) ==> float_text(x),
{
}

proof fn lemma_row_step_ok(cols: Columns, g: GroupView, rec: Seq<Seq<char>>)
    requires
        group_ok(g),
    ensures
        row_step(cols, g, rec) matches Ok(g2) ==> group_ok(g2),
{
    if !blank_record(rec) {
        lemma_flush_ok(g);
        let g1 = after_section(cols, g, rec);
        assert(group_ok(g1));
        let g2 = if g1.current.len() == 0 {
            GroupView { current: name_of(cols, rec), ..g1 }
        } else {
            g1
        };
        assert(group_ok(g2));
        lemma_cell_real(field(rec, cols.unit));
        lemma_cell_real(field(rec, cols.elev));
        lemma_cell_real(field(rec, cols.plan));
        lemma_cell_real(field(rec, cols.cut));
        if let Ok(u) = cell_spec(field(rec, cols.unit)) {
            if let Ok(ev) = cell_spec(field(rec, cols.elev)) {
                if let Ok(p) = cell_spec(field(rec, cols.plan)) {
                    if let Ok(c) = cell_spec(field(rec, cols.cut)) {
                        lemma_all_real_push(g2.units, u);
                        lemma_all_real_push(g2.elevs, ev);
                        lemma_all_real_push(g2.plans, p);
                        lemma_all_real_push(g2.cuts, c);
                    }
                }
            }
        }
    }
}

proof fn lemma_rows_from_ok(
    cols: Columns,
    g: GroupView,
    recs: Seq<Result<Seq<Seq<char>>, Seq<char>>>,
    i: int,
)
    requires
        group_ok(g),
    ensures
        rows_from(cols, g, recs, i) matches Ok(g2) ==> group_ok(g2),
    decreases recs.len() - i,
{
    if 0 <= i < recs.len() {
        if let Ok(rec) = recs[i] {
            lemma_row_step_ok(cols, g, rec);
            if let Ok(g2) = row_step(cols, g, rec) {
                lemma_rows_from_ok(cols, g2, recs, i + 1);
            }
        }
    }
}

/// Every section that grouping gives has at least one row and a value for
/// each row in every numeric column, and each value reads as a real number.
pub proof fn law_csv_sections_well_formed(
    headers: Result<Seq<Seq<char>>, Seq<char>>,
    recs: Seq<Result<Seq<Seq<char>>, Seq<char>>>,
)
    ensures
        group_spec(headers, recs) matches Ok(secs) ==> forall|k: int|
            0 <= k < secs.len() ==> section_ok(#[trigger] secs[k]),
{
    if let Ok(h) = headers {
        if let Ok(cols) = columns_spec(h) {
            assert(group_ok(empty_group()));
            lemma_rows_from_ok(cols, empty_group(), recs, 0);
            if let Ok(g) = rows_from(cols, empty_group(), recs, 0) {
                lemma_flush_ok(g);
            }
        }
    }
}

/// Center line detection by flag: in a table with a center line column
/// (`cl`, `CL`, `center` or `中央`) and no `cl_index` field, a row of a section
/// that has no center line yet becomes its center line exactly when its trimmed
/// flag is `1`, `true`, `TRUE`, `yes`, `YES`, `y`, `Y` or `中央`; the index is
/// the row's position in its section. (A blank row is passed over.)
pub proof fn law_center_line_flag(cols: Columns, g: GroupView, rec: Seq<Seq<char>>, i: usize)
    requires
        !blank_record(rec),
        cols.cl_flag == Some(i),
        (i as int) < rec.len(),
        cols.cl_index matches Some(c) ==> (c as int) >= rec.len(),
        after_section(cols, g, rec).cl is None,
    ensures
        row_step(cols, g, rec) matches Ok(g2) ==> {
            let f = trim(rec[i as int]);
            &&& g2.units.len() >= 1
            &&& (f == "1"@ || f == "true"@ || f == "TRUE"@ || f == "yes"@ || f == "YES"@ || f
                == "y"@ || f == "Y"@ || f == "中央"@) ==> g2.cl == Some((g2.units.len() - 1) as usize)
            &&& !(f == "1"@ || f == "true"@ || f == "TRUE"@ || f == "yes"@ || f == "YES"@ || f
                == "y"@ || f == "Y"@ || f == "中央"@) ==> g2.cl is None
        },
{
    let g1 = after_section(cols, g, rec);
    let g2 = if g1.current.len() == 0 {
        GroupView { current: name_of(cols, rec), ..g1 }
    } else {
        g1
    };
    assert(g2.cl is None);
}

/// The view of a header row as the reader gave it.
pub open spec fn header_view(h: Result<Vec<String>, String>) -> Result<Seq<Seq<char>>, Seq<char>> {
    match h {
        Ok(v) => Ok(strs(v@)),
        Err(e) => Err(e@),
    }
}

/// The view of the records as the reader gave them.
pub open spec fn records_view(v: Seq<Result<Vec<String>, String>>) -> Seq<
    Result<Seq<Seq<char>>, Seq<char>>,
> {
    v.map_values(|r: Result<Vec<String>, String>| header_view(r))
}

pub open spec fn sections_view(v: Seq<CsvSection>) -> Seq<SectionView> {
    v.map_values(|s: CsvSection| s@)
}

/// The view of a grouping result.
pub open spec fn sections_result(r: Result<Vec<CsvSection>, String>) -> Result<
    Seq<SectionView>,
    Seq<char>,
> {
    match r {
        Ok(v) => Ok(sections_view(v@)),
        Err(e) => Err(e@),
    }
}

/// The text of a string, trimmed.
fn trimmed(s: &String) -> (r: Vec<char>)
    ensures
        r@ == trim(s@),
{
    trim_chars(&str_to_chars(s.as_str()))
}

/// A message: the prefix followed by the detail.
fn message(prefix: &str, detail: &Vec<char>) -> (r: String)
    ensures
        r@ == prefix@ + detail@,
{
    let mut out = str_to_chars(prefix);
    let ghost o = out@;
    let mut i: usize = 0;
    while i < detail.len()
        invariant
            i <= detail@.len(),
            out@ == o + detail@.take(i as int),
        decreases detail@.len() - i,
    {
        out.push(detail[i]);
        i = i + 1;
        assert(out@ =~= o + detail@.take(i as int));
    }
    assert(detail@.take(detail@.len() as int) =~= detail@);
    chars_to_string(&out)
}

/// The first column whose trimmed header is `name`.
fn find_column(h: &Vec<String>, name: &str) -> (r: Option<usize>)
    ensures
        r == find_from(strs(h@), name@, 0),
{
    let ghost hs = strs(h@);
    let target = str_to_chars(name);
    let mut i: usize = 0;
    while i < h.len()
        invariant
            i <= h@.len(),
            hs == strs(h@),
            target@ == name@,
            find_from(hs, name@, 0) == find_from(hs, name@, i as int),
        decreases h@.len() - i,
    {
        let t = trimmed(&h[i]);
        if chars_eq(&t, &target) {
            return Some(i);
        }
        i = i + 1;
    }
    None
}

/// The column named by either header, the first name first.
fn find_either(h: &Vec<String>, a: &str, b: &str) -> (r: Option<usize>)
    ensures
        r == column(strs(h@), a@, b@),
{
    match find_column(h, a) {
        Some(i) => Some(i),
        None => find_column(h, b),
    }
}

/// The columns of a header row, or the message for the first required one missing.
pub fn columns_of(h: &Vec<String>) -> (r: Result<Columns, String>)
    ensures
        (match r {
            Ok(c) => Ok(c),
            Err(e) => Err(e@),
        }) == columns_spec(strs(h@)),
{
    let name = find_either(h, "name", "測点名");
    let unit = find_either(h, "unit_distance", "単延長");
    let elev = find_either(h, "elevation", "現地盤");
    let plan = find_either(h, "planned_height", "計画高");
    let cut = find_either(h, "cutting_depth", "切削厚");
    let name = match name {
        Some(i) => i,
        None => return Err("missing column: name/測点名".to_owned()),
    };
    let unit = match unit {
        Some(i) => i,
        None => return Err("missing column: unit_distance/単延長".to_owned()),
    };
    let elev = match elev {
        Some(i) => i,
        None => return Err("missing column: elevation/現地盤".to_owned()),
    };
    let plan = match plan {
        Some(i) => i,
        None => return Err("missing column: planned_height/計画高".to_owned()),
    };
    let cut = match cut {
        Some(i) => i,
        None => return Err("missing column: cutting_depth/切削厚".to_owned()),
    };
    let section = find_either(h, "section", "区間");
    let cl_flag = match find_either(h, "cl", "CL") {
        Some(i) => Some(i),
        None => find_either(h, "center", "中央"),
    };
    let cl_index = find_either(h, "cl_index", "CL_index");
    Ok(Columns { name, unit, elev, plan, cut, section, cl_flag, cl_index })
}

/// A numeric cell of the record (see `cell_spec`).
fn cell(rec: &Vec<String>, i: usize) -> (r: Result<String, String>)
    ensures
        (match r {
            Ok(v) => Ok(v@),
            Err(e) => Err(e@),
        }) == cell_spec(field(strs(rec@), i)),
{
    let raw: Vec<char> = if i < rec.len() {
        trimmed(&rec[i])
    } else {
        Vec::new()
    };
    if raw.len() == 0 {
        Err("empty numeric cell".to_owned())
    } else if is_float_text(&raw) {
        Ok(chars_to_string(&raw))
    } else {
        Err(message("invalid number: ", &raw))
    }
}

/// Whether every field of the record is blank.
fn is_blank_record(rec: &Vec<String>) -> (r: bool)
    ensures
        r == blank_record(strs(rec@)),
{
    let mut i: usize = 0;
    while i < rec.len()
        invariant
            i <= rec@.len(),
            forall|j: int| 0 <= j < i ==> #[trigger] trim(strs(rec@)[j]).len() == 0,
        decreases rec@.len() - i,
    {
        assert(strs(rec@)[i as int] == rec@[i as int]@);
        if trimmed(&rec[i]).len() != 0 {
            return false;
        }
        i = i + 1;
    }
    true
}

/// Whether the value marks the center line row.
fn cl_flag_text(f: &Vec<char>) -> (r: bool)
    ensures
        r == is_cl_flag(f@),
{
    chars_eq_str(f, "1") || chars_eq_str(f, "true") || chars_eq_str(f, "TRUE") || chars_eq_str(
        f,
        "yes",
    ) || chars_eq_str(f, "YES") || chars_eq_str(f, "y") || chars_eq_str(f, "Y") || chars_eq_str(
        f,
        "中央",
    )
}

/// See `cl_after`.
fn cl_value(cols: &Columns, rec: &Vec<String>, n: usize) -> (r: Option<usize>)
    requires
        n >= 1,
    ensures
        r == cl_after(*cols, strs(rec@), n as int),
{
    if let Some(i) = cols.cl_index {
        if i < rec.len() {
            let v = trimmed(&rec[i]);
            return if v.len() == 0 {
                None
            } else {
                parse_usize(&v)
            };
        }
    }
    if let Some(i) = cols.cl_flag {
        if i < rec.len() {
            return if cl_flag_text(&trimmed(&rec[i])) {
                Some(n - 1)
            } else {
                None
            };
        }
    }
    None
}

/// The grouping state.
struct Grouping {
    sections: Vec<CsvSection>,
    current: Vec<char>,
    units: Vec<String>,
    elevs: Vec<String>,
    plans: Vec<String>,
    cuts: Vec<String>,
    cl: Option<usize>,
}

impl View for Grouping {
    type V = GroupView;

    closed spec fn view(&self) -> GroupView {
        GroupView {
            sections: sections_view(self.sections@),
            current: self.current@,
            units: strs(self.units@),
            elevs: strs(self.elevs@),
            plans: strs(self.plans@),
            cuts: strs(self.cuts@),
            cl: self.cl,
        }
    }
}

fn push_string(v: &mut Vec<String>, s: String)
    ensures
        strs(final(v)@) == strs(old(v)@).push(s@),
{
    v.push(s);
    assert(strs(v@) =~= strs(old(v)@).push(s@));
}

impl Grouping {
    fn new() -> (r: Self)
        ensures
            r@ == empty_group(),
    {
        let g = Grouping {
            sections: Vec::new(),
            current: Vec::new(),
            units: Vec::new(),
            elevs: Vec::new(),
            plans: Vec::new(),
            cuts: Vec::new(),
            cl: None,
        };
        assert(g@.sections =~= seq![]);
        assert(g@.units =~= seq![]);
        assert(g@.elevs =~= seq![]);
        assert(g@.plans =~= seq![]);
        assert(g@.cuts =~= seq![]);
        g
    }

    /// See `flush_spec`.
    fn flush(self) -> (r: Self)
        ensures
            r@ == flush_spec(self@),
    {
        if self.units.len() == 0 {
            return self;
        }
        let Grouping { sections, current, units, elevs, plans, cuts, cl } = self;
        let mut sections = sections;
        let sec = CsvSection {
            name: chars_to_string(&current),
            unit_distances: units,
            elevations: elevs,
            planned_heights: plans,
            cutting_depths: cuts,
            cl_index: cl,
        };
        let ghost before = sections@;
        let ghost sv = sec@;
        sections.push(sec);
        assert(sections_view(sections@) =~= sections_view(before).push(sv));
        let g = Grouping {
            sections,
            current,
            units: Vec::new(),
            elevs: Vec::new(),
            plans: Vec::new(),
            cuts: Vec::new(),
            cl: None,
        };
        assert(g@.units =~= seq![]);
        assert(g@.elevs =~= seq![]);
        assert(g@.plans =~= seq![]);
        assert(g@.cuts =~= seq![]);
        g
    }

    /// See `row_step`.
    fn step(self, cols: &Columns, rec: &Vec<String>) -> (r: Result<Self, String>)
        ensures
            (match r {
                Ok(g) => Ok(g@),
                Err(e) => Err(e@),
            }) == row_step(*cols, self@, strs(rec@)),
    {
        if is_blank_record(rec) {
            return Ok(self);
        }
        let ghost rv = strs(rec@);
        let mut g = self;
        let sec_name: Option<Vec<char>> = match cols.section {
            Some(i) => if i < rec.len() {
                let t = trimmed(&rec[i]);
                if t.len() > 0 {
                    Some(t)
                } else {
                    None
                }
            } else {
                None
            },
            None => None,
        };
        assert(match sec_name {
            Some(t) => Some(t@),
            None => None::<Seq<char>>,
        } == section_of(*cols, rv));
        if let Some(sn) = sec_name {
            if g.current.len() == 0 {
                g.current = sn;
            } else if !chars_eq(&sn, &g.current) {
                g = g.flush();
                g.current = sn;
            }
        }
        assert(g@ == after_section(*cols, self@, rv));
        if g.current.len() == 0 {
            g.current = if cols.name < rec.len() {
                trimmed(&rec[cols.name])
            } else {
                trim_chars(&str_to_chars("未設定"))
            };
        }
        let u = match cell(rec, cols.unit) {
            Ok(v) => v,
            Err(e) => return Err(e),
        };
        let ev = match cell(rec, cols.elev) {
            Ok(v) => v,
            Err(e) => return Err(e),
        };
        let p = match cell(rec, cols.plan) {
            Ok(v) => v,
            Err(e) => return Err(e),
        };
        let c = match cell(rec, cols.cut) {
            Ok(v) => v,
            Err(e) => return Err(e),
        };
        push_string(&mut g.units, u);
        push_string(&mut g.elevs, ev);
        push_string(&mut g.plans, p);
        push_string(&mut g.cuts, c);
        if g.cl.is_none() {
            g.cl = cl_value(cols, rec, g.units.len());
        }
        Ok(g)
    }
}

/// Groups the records of a CSV into sections (see `group_spec`), given the
/// header row and the records as the reader gave them.
pub fn group_csv_sections(
    headers: &Result<Vec<String>, String>,
    records: &Vec<Result<Vec<String>, String>>,
) -> (r: Result<Vec<CsvSection>, String>)
    ensures
        sections_result(r) == group_spec(header_view(*headers), records_view(records@)),
{
    let h = match headers {
        Err(e) => return Err(message("CSV header error: ", &str_to_chars(e.as_str()))),
        Ok(h) => h,
    };
    let cols = match columns_of(h) {
        Err(m) => return Err(m),
        Ok(c) => c,
    };
    let ghost rv = records_view(records@);
    let mut g = Grouping::new();
    let mut i: usize = 0;
    while i < records.len()
        invariant
            i <= records@.len(),
            rv == records_view(records@),
            header_view(*headers) == Ok::<Seq<Seq<char>>, Seq<char>>(strs(h@)),
            columns_spec(strs(h@)) == Ok::<Columns, Seq<char>>(cols),
            rows_from(cols, empty_group(), rv, 0) == rows_from(cols, g@, rv, i as int),
        decreases records@.len() - i,
    {
        assert(rv[i as int] == header_view(records@[i as int]));
        match &records[i] {
            Err(e) => {
                return Err(message("CSV row error: ", &str_to_chars(e.as_str())));
            },
            Ok(rec) => match g.step(&cols, rec) {
                Err(e) => return Err(e),
                Ok(g2) => {
                    g = g2;
                },
            },
        }
        i = i + 1;
    }
    let fin = if g.current.len() > 0 {
        g.flush()
    } else {
        g
    };
    if fin.sections.len() == 0 {
        Err("no valid sections in CSV".to_owned())
    } else {
        Ok(fin.sections)
    }
}


/// What the `csv` crate's reader, with its default settings (a header row,
/// commas, no trimming), reads from a text: the header row's fields or the text
/// of its error, then each record's fields or the text of its error, in order.
pub uninterp spec fn csv_read(content: Seq<char>) -> (
    Result<Seq<Seq<char>>, Seq<char>>,
    Seq<Result<Seq<Seq<char>>, Seq<char>>>,
);

/// `csv::Reader::from_reader` on the text's bytes, then `headers` and `records`.
/// Its result is named `csv_read` of the text; nothing more is claimed of it.
#[verifier::external_body]
fn read_csv(content: &str) -> (r: (Result<Vec<String>, String>, Vec<Result<Vec<String>, String>>))
    ensures
        (header_view(r.0), records_view(r.1@)) == csv_read(content@),
{
    let mut rdr = csv::Reader::from_reader(content.as_bytes());
    let headers = match rdr.headers() {
        Ok(h) => Ok(h.iter().map(String::from).collect()),
        Err(e) => Err(e.to_string()),
    };
    let records = rdr.records().map(|rec| match rec {
        Ok(rec) => Ok(rec.iter().map(String::from).collect()),
        Err(e) => Err(e.to_string()),
    }).collect();
    (headers, records)
}

/// Reads a survey CSV and groups its rows into sections (see `group_spec`).
pub fn parse_csv_sections(content: &str) -> (r: Result<Vec<CsvSection>, String>)
    ensures
        sections_result(r) == group_spec(csv_read(content@).0, csv_read(content@).1),
{
    let (headers, records) = read_csv(content);
    group_csv_sections(&headers, &records)
}


/// What turning a section into survey data first checks: it has rows, and as
/// many elevations and planned heights as unit distances. Gives the center
/// line row: the given index (0 where none is given), at most the last row.
pub open spec fn section_check_spec(s: SectionView) -> Result<usize, Seq<char>> {
    let count = s.unit_distances.len();
    if count == 0 {
        Err(s.name + ": no rows"@)
    } else if s.elevations.len() != count || s.planned_heights.len() != count {
        Err(s.name + ": column length mismatch"@)
    } else {
        let c = match s.cl_index {
            Some(i) => i as int,
            None => 0,
        };
        Ok(if c < count - 1 { c as usize } else { (count - 1) as usize })
    }
}

/// See `section_check_spec`.
pub fn check_csv_section(section: &CsvSection) -> (r: Result<usize, String>)
    ensures
        (match r {
            Ok(i) => Ok(i),
            Err(e) => Err(e@),
        }) == section_check_spec(section@),
{
    let count = section.unit_distances.len();
    let name = str_to_chars(section.name.as_str());
    if count == 0 {
        return Err(message_after(&name, ": no rows"));
    }
    if section.elevations.len() != count || section.planned_heights.len() != count {
        return Err(message_after(&name, ": column length mismatch"));
    }
    let c = match section.cl_index {
        Some(i) => i,
        None => 0,
    };
    Ok(if c < count - 1 { c } else { count - 1 })
}

/// A message: the head followed by the suffix.
fn message_after(head: &Vec<char>, suffix: &str) -> (r: String)
    ensures
        r@ == head@ + suffix@,
{
    let mut out: Vec<char> = Vec::new();
    append_chars(&mut out, head);
    append_chars(&mut out, &str_to_chars(suffix));
    assert(out@ =~= head@ + suffix@);
    chars_to_string(&out)
}

} // verus!
