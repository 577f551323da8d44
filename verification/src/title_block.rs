//! The text of a drawing's title block.
use vstd::prelude::*;

use crate::text::{chars_to_string, str_to_chars};

verus! {

/// The fields of a title block.
#[derive(Debug, Clone)]
pub struct TitleBlockInfo {
    /// Name of the construction project.
    pub project_name: String,
    /// Kind of drawing (cross section, longitudinal section, ...).
    pub drawing_type: String,
    /// Name of the route.
    pub route_name: String,
    /// Date the drawing was made.
    pub date: String,
    /// Scale, such as `1:100 (A3)`.
    pub scale: String,
    /// Drawing number, such as `1/3`.
    pub drawing_number: String,
    /// Name of the contractor.
    pub author: String,
    /// Title shown at the top of the sheet.
    pub top_title: String,
    /// Credit line.
    pub credit: String,
    /// Whether anchor marks and label names are drawn.
    pub show_debug_markers: bool,
}

pub struct TitleBlockView {
    pub project_name: Seq<char>,
    pub drawing_type: Seq<char>,
    pub route_name: Seq<char>,
    pub date: Seq<char>,
    pub scale: Seq<char>,
    pub drawing_number: Seq<char>,
    pub author: Seq<char>,
    pub top_title: Seq<char>,
    pub credit: Seq<char>,
    pub show_debug_markers: bool,
}

impl View for TitleBlockInfo {
    type V = TitleBlockView;

    open spec fn view(&self) -> TitleBlockView {
        TitleBlockView {
            project_name: self.project_name@,
            drawing_type: self.drawing_type@,
            route_name: self.route_name@,
            date: self.date@,
            scale: self.scale@,
            drawing_number: self.drawing_number@,
            author: self.author@,
            top_title: self.top_title@,
            credit: self.credit@,
            show_debug_markers: self.show_debug_markers,
        }
    }
}

/// All fields empty, debug markers off.
pub open spec fn empty_title_block() -> TitleBlockView {
    TitleBlockView {
        project_name: seq![],
        drawing_type: seq![],
        route_name: seq![],
        date: seq![],
        scale: seq![],
        drawing_number: seq![],
        author: seq![],
        top_title: seq![],
        credit: seq![],
        show_debug_markers: false,
    }
}

impl Default for TitleBlockInfo {
    fn default() -> (r: Self)
        ensures
            r@ == empty_title_block(),
    {
        TitleBlockInfo {
            project_name: String::new(),
            drawing_type: String::new(),
            route_name: String::new(),
            date: String::new(),
            scale: String::new(),
            drawing_number: String::new(),
            author: String::new(),
            top_title: String::new(),
            credit: String::new(),
            show_debug_markers: false,
        }
    }
}

impl TitleBlockInfo {
    /// A title block with every field empty.
    pub fn new() -> (r: Self)
        ensures
            r@ == empty_title_block(),
    {
        Self::default()
    }

    pub fn with_project_name(self, name: &str) -> (r: Self)
        ensures
            r@ == (TitleBlockView { project_name: name@, ..self@ }),
    {
        let mut s = self;
        s.project_name = name.to_owned();
        s
    }

    pub fn with_drawing_type(self, drawing_type: &str) -> (r: Self)
        ensures
            r@ == (TitleBlockView { drawing_type: drawing_type@, ..self@ }),
    {
        let mut s = self;
        s.drawing_type = drawing_type.to_owned();
        s
    }

    pub fn with_route_name(self, name: &str) -> (r: Self)
        ensures
            r@ == (TitleBlockView { route_name: name@, ..self@ }),
    {
        let mut s = self;
        s.route_name = name.to_owned();
        s
    }

    pub fn with_date(self, date: &str) -> (r: Self)
        ensures
            r@ == (TitleBlockView { date: date@, ..self@ }),
    {
        let mut s = self;
        s.date = date.to_owned();
        s
    }

    pub fn with_scale(self, scale: &str) -> (r: Self)
        ensures
            r@ == (TitleBlockView { scale: scale@, ..self@ }),
    {
        let mut s = self;
        s.scale = scale.to_owned();
        s
    }

    pub fn with_drawing_number(self, number: &str) -> (r: Self)
        ensures
            r@ == (TitleBlockView { drawing_number: number@, ..self@ }),
    {
        let mut s = self;
        s.drawing_number = number.to_owned();
        s
    }

    pub fn with_author(self, author: &str) -> (r: Self)
        ensures
            r@ == (TitleBlockView { author: author@, ..self@ }),
    {
        let mut s = self;
        s.author = author.to_owned();
        s
    }

    pub fn with_top_title(self, title: &str) -> (r: Self)
        ensures
            r@ == (TitleBlockView { top_title: title@, ..self@ }),
    {
        let mut s = self;
        s.top_title = title.to_owned();
        s
    }

    pub fn with_credit(self, credit: &str) -> (r: Self)
        ensures
            r@ == (TitleBlockView { credit: credit@, ..self@ }),
    {
        let mut s = self;
        s.credit = credit.to_owned();
        s
    }

    pub fn with_debug_markers(self, show: bool) -> (r: Self)
        ensures
            r@ == (TitleBlockView { show_debug_markers: show, ..self@ }),
    {
        let mut s = self;
        s.show_debug_markers = show;
        s
    }
}

/// The characters before the first space (all of them where there is none).
pub open spec fn before_space(s: Seq<char>) -> Seq<char>
    decreases s.len(),
{
    if s.len() == 0 {
        s
    } else if s[0] == ' ' {
        seq![]
    } else {
        seq![s[0]] + before_space(s.drop_first())
    }
}

/// A text shortened to fit `max_len` characters: kept whole when short enough,
/// else cut at its first space, else cut to `max_len` characters.
pub open spec fn truncate_or_split_spec(s: Seq<char>, max_len: nat) -> Seq<char> {
    if s.len() <= max_len {
        s
    } else if s.contains(' ') {
        before_space(s)
    } else {
        s.take(max_len as int)
    }
}

proof fn lemma_before_space_take(s: Seq<char>, k: int)
    requires
        0 <= k <= s.len(),
        forall|j: int| 0 <= j < k ==> s[j] != ' ',
        k == s.len() || s[k] == ' ',
    ensures
        before_space(s) == s.take(k),
    decreases s.len(),
{
    if s.len() == 0 {
        assert(s.take(k) =~= s);
    } else if k == 0 {
        assert(s.take(0) =~= seq![]);
    } else {
        let t = s.drop_first();
        assert forall|j: int| 0 <= j < k - 1 implies t[j] != ' ' by {
            assert(t[j] == s[j + 1]);
        }
        lemma_before_space_take(t, k - 1);
        assert(seq![s[0]] + t.take(k - 1) =~= s.take(k));
    }
}

/// Shortens a text for a title block cell (see `truncate_or_split_spec`).
pub fn truncate_or_split(s: &str, max_len: usize) -> (r: String)
    ensures
        r@ == truncate_or_split_spec(s@, max_len as nat),
{
    let cs = str_to_chars(s);
    if cs.len() <= max_len {
        return chars_to_string(&cs);
    }
    let mut k: usize = 0;
    while k < cs.len() && cs[k] != ' '
        invariant
            k <= cs@.len(),
            forall|j: int| 0 <= j < k ==> cs@[j] != ' ',
        decreases cs@.len() - k,
    {
        k = k + 1;
    }
    let n = if k < cs.len() { k } else { max_len };
    let mut out: Vec<char> = Vec::new();
    let mut i: usize = 0;
    while i < n
        invariant
            n <= cs@.len(),
            i <= n,
            out@ == cs@.take(i as int),
        decreases n - i,
    {
        out.push(cs[i]);
        i = i + 1;
        assert(out@ =~= cs@.take(i as int));
    }
    proof {
        if k < cs@.len() {
            assert(cs@.contains(' ')) by {
                assert(cs@[k as int] == ' ');
            }
            lemma_before_space_take(cs@, k as int);
        } else {
            assert(!cs@.contains(' ')) by {
                if cs@.contains(' ') {
                    let j = choose|j: int| 0 <= j < cs@.len() && cs@[j] == ' ';
                    assert(cs@[j] != ' ');
                }
            }
        }
    }
    chars_to_string(&out)
}

/// Title block fields as they come in a JSON document of sections.
#[derive(Debug, Clone)]
pub struct TitleBlockJson {
    pub project_name: String,
    pub drawing_type: String,
    pub route_name: String,
    pub author: String,
    pub date: String,
    pub drawing_number: String,
}

impl Default for TitleBlockJson {
    fn default() -> (r: Self)
        ensures
            r.project_name@ == Seq::<char>::empty(),
            r.drawing_type@ == Seq::<char>::empty(),
            r.route_name@ == Seq::<char>::empty(),
            r.author@ == Seq::<char>::empty(),
            r.date@ == Seq::<char>::empty(),
            r.drawing_number@ == Seq::<char>::empty(),
    {
        TitleBlockJson {
            project_name: String::new(),
            drawing_type: String::new(),
            route_name: String::new(),
            author: String::new(),
            date: String::new(),
            drawing_number: String::new(),
        }
    }
}

} // verus!
