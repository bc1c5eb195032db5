//! Page options of the command line that are decided without measuring:
//! orientation, page size, and how a margin is written (its units and
//! which side each of its values sets).
use vstd::prelude::*;
use crate::text::{ends_with, chars_of, string_of, push_str, trim, trimmed_range, words, words_exec, seq_views};

verus! {

/// `a` equals `b` when ASCII letters are compared without case.
pub open spec fn ascii_ci_equal(a: Seq<char>, b: Seq<char>) -> bool {
    a.len() == b.len() && forall|i: int| 0 <= i < a.len() ==> crate::text::ascii_lower(#[trigger] a[i]) == crate::text::ascii_lower(b[i])
}

fn ascii_ci_equal_exec(a: &Vec<char>, b: &str) -> (r: bool)
    ensures
        r == ascii_ci_equal(a@, b@),
{
    let bv = chars_of(b);
    if a.len() != bv.len() {
        return false;
    }
    let mut i: usize = 0;
    while i < a.len()
        invariant
            i <= a.len() == bv.len(),
            bv@ == b@,
            forall|j: int| 0 <= j < i ==> crate::text::ascii_lower(#[trigger] a@[j]) == crate::text::ascii_lower(bv@[j]),
        decreases a.len() - i,
    {
        if crate::text::ascii_lower_exec(a[i]) != crate::text::ascii_lower_exec(bv[i]) {
            return false;
        }
        i = i + 1;
    }
    true
}

/// Landscape when `--orientation` says `landscape` (in any ASCII case);
/// without `--orientation`, the `--landscape` flag.
pub open spec fn landscape_choice(orientation: Option<Seq<char>>, landscape: bool) -> bool {
    match orientation {
        Some(o) => ascii_ci_equal(o, "landscape"@),
        None => landscape,
    }
}

pub fn resolve_landscape(orientation: Option<&str>, landscape: bool) -> (r: bool)
    ensures
        r == landscape_choice(match orientation { Some(o) => Some(o@), None => None }, landscape),
{
    match orientation {
        Some(o) => ascii_ci_equal_exec(&chars_of(o), "landscape"),
        None => landscape,
    }
}

/// The page size: `"W H"` when both a page width and a page height are
/// given, else the named size.
pub open spec fn size_choice(size: Option<Seq<char>>, width: Option<Seq<char>>, height: Option<Seq<char>>) -> Option<Seq<char>> {
    match (width, height) {
        (Some(w), Some(h)) => Some(w + " "@ + h),
        _ => size,
    }
}

pub open spec fn opt_view(o: Option<&str>) -> Option<Seq<char>> {
    match o {
        Some(s) => Some(s@),
        None => None,
    }
}

pub fn resolve_size(size: Option<&str>, page_width: Option<&str>, page_height: Option<&str>) -> (r: Option<String>)
    ensures
        match r {
            Some(x) => size_choice(opt_view(size), opt_view(page_width), opt_view(page_height)) == Some(x@),
            None => size_choice(opt_view(size), opt_view(page_width), opt_view(page_height)) is None,
        },
{
    match (page_width, page_height) {
        (Some(w), Some(h)) => {
            let mut out: Vec<char> = chars_of(w);
            push_str(&mut out, " ");
            push_str(&mut out, h);
            Some(string_of(&out))
        },
        _ => match size {
            Some(s) => Some(string_of(&chars_of(s))),
            None => None,
        },
    }
}


/// The unit a length is written in; a bare number is in millimetres.
#[derive(PartialEq, Eq, Structural, Clone, Copy, Debug)]
pub enum LengthUnit {
    Mm,
    Cm,
    In,
    Pt,
    Px,
    Plain,
}

/// `s` without its last two characters, trimmed.
pub open spec fn number_before_unit(s: Seq<char>) -> Seq<char> {
    trim(s.subrange(0, s.len() - 2))
}

/// A length's unit and the text of its number: the trimmed length is
/// checked for the suffixes `mm`, `cm`, `in`, `pt`, `px` in that order,
/// and the number before the suffix is trimmed again.
pub open spec fn length_split(s: Seq<char>) -> (LengthUnit, Seq<char>) {
    let t = trim(s);
    if ends_with(t, "mm"@) {
        (LengthUnit::Mm, number_before_unit(t))
    } else if ends_with(t, "cm"@) {
        (LengthUnit::Cm, number_before_unit(t))
    } else if ends_with(t, "in"@) {
        (LengthUnit::In, number_before_unit(t))
    } else if ends_with(t, "pt"@) {
        (LengthUnit::Pt, number_before_unit(t))
    } else if ends_with(t, "px"@) {
        (LengthUnit::Px, number_before_unit(t))
    } else {
        (LengthUnit::Plain, t)
    }
}

fn ends_with_exec(v: &Vec<char>, suffix: &str) -> (b: bool)
    ensures
        b == ends_with(v@, suffix@),
{
    let w = chars_of(suffix);
    if v.len() < w.len() {
        return false;
    }
    let off = v.len() - w.len();
    let mut i: usize = 0;
    while i < w.len()
        invariant
            i <= w.len(),
            off + w.len() == v.len(),
            w@ == suffix@,
            forall|j: int| 0 <= j < i ==> v@[off + j] == w@[j],
        decreases w.len() - i,
    {
        if v[off + i] != w[i] {
            assert(v@.subrange(off as int, v.len() as int)[i as int] != suffix@[i as int]);
            return false;
        }
        i = i + 1;
    }
    assert(v@.subrange(off as int, v.len() as int) =~= suffix@);
    true
}

/// The unit of a length and the text of its number.
pub fn length_parts(s: &str) -> (r: (LengthUnit, String))
    ensures
        r.0 == length_split(s@).0,
        r.1@ == length_split(s@).1,
{
    let v = chars_of(s);
    let t = trimmed_range(&v, 0, v.len());
    assert(v@.subrange(0, v@.len() as int) == v@);
    let unit = if ends_with_exec(&t, "mm") {
        LengthUnit::Mm
    } else if ends_with_exec(&t, "cm") {
        LengthUnit::Cm
    } else if ends_with_exec(&t, "in") {
        LengthUnit::In
    } else if ends_with_exec(&t, "pt") {
        LengthUnit::Pt
    } else if ends_with_exec(&t, "px") {
        LengthUnit::Px
    } else {
        LengthUnit::Plain
    };
    proof {
        reveal_strlit("mm");
        reveal_strlit("cm");
        reveal_strlit("in");
        reveal_strlit("pt");
        reveal_strlit("px");
    }
    if unit == LengthUnit::Plain {
        (unit, string_of(&t))
    } else {
        let n = trimmed_range(&t, 0, t.len() - 2);
        (unit, string_of(&n))
    }
}

/// The lengths of a margin: its white-space separated words, each split
/// into unit and number.
pub fn margin_parts(s: &str) -> (r: Vec<(LengthUnit, String)>)
    ensures
        r@.len() == words(s@).len(),
        forall|k: int| 0 <= k < r@.len() ==> (#[trigger] r@[k]).0 == length_split(words(s@)[k]).0
            && r@[k].1@ == length_split(words(s@)[k]).1,
{
    let ws = words_exec(&chars_of(s));
    let mut out: Vec<(LengthUnit, String)> = Vec::new();
    let mut k: usize = 0;
    while k < ws.len()
        invariant
            k <= ws.len(),
            seq_views(ws@) == words(s@),
            out@.len() == k,
            forall|j: int| 0 <= j < k ==> (#[trigger] out@[j]).0 == length_split(words(s@)[j]).0
                && out@[j].1@ == length_split(words(s@)[j]).1,
        decreases ws.len() - k,
    {
        assert(seq_views(ws@)[k as int] == ws@[k as int]@);
        let word = string_of(&ws[k]);
        out.push(length_parts(word.as_str()));
        k = k + 1;
    }
    out
}

/// Which of a margin's values sets each side (top, right, bottom, left),
/// as in CSS: one value for all sides, two for vertical and horizontal,
/// three for top, horizontal and bottom, four for each side in turn. Any
/// other count of values sets none.
pub open spec fn margin_side_values(count: int) -> Option<(usize, usize, usize, usize)> {
    if count == 1 {
        Some((0, 0, 0, 0))
    } else if count == 2 {
        Some((0, 1, 0, 1))
    } else if count == 3 {
        Some((0, 1, 2, 1))
    } else if count == 4 {
        Some((0, 1, 2, 3))
    } else {
        None
    }
}

pub fn margin_sides(count: usize) -> (r: Option<(usize, usize, usize, usize)>)
    ensures
        r == margin_side_values(count as int),
{
    if count == 1 {
        Some((0, 0, 0, 0))
    } else if count == 2 {
        Some((0, 1, 0, 1))
    } else if count == 3 {
        Some((0, 1, 2, 1))
    } else if count == 4 {
        Some((0, 1, 2, 3))
    } else {
        None
    }
}

} // verus!
