//! Replacing delimited blocks of a text (formulas, diagrams, code blocks)
//! with their renderings.
use vstd::prelude::*;
use crate::text::{chars_of, string_of, push_all, push_range};
use crate::css_layout::rules::string_views;

verus! {

/// A delimited block found in a text: the range it covers and the text
/// between its delimiters.
pub struct Span {
    pub start: usize,
    pub end: usize,
    pub inner: String,
}

/// The ranges of a list of blocks.
pub open spec fn span_ranges(v: Seq<Span>) -> Seq<(int, int)> {
    v.map_values(|m: Span| (m.start as int, m.end as int))
}

/// Each block's inner text is its range without `d` delimiter characters
/// at either end.
pub open spec fn inners_match(s: Seq<char>, v: Seq<Span>, d: int) -> bool {
    forall|k: int| 0 <= k < v.len() ==> (#[trigger] v[k]).inner@ == s.subrange(v[k].start + d, v[k].end - d)
}

pub fn substring(v: &Vec<char>, from: usize, to: usize) -> (r: String)
    requires
        from <= to <= v.len(),
    ensures
        r@ == v@.subrange(from as int, to as int),
{
    let mut w: Vec<char> = Vec::new();
    push_range(&mut w, v, from, to);
    string_of(&w)
}

/// Ranges that lie within a text of length `len`, each ending no later
/// than the next one starts.
pub open spec fn spans_ordered(spans: Seq<(int, int)>, len: int) -> bool {
    &&& forall|k: int| 0 <= k < spans.len() ==> 0 <= (#[trigger] spans[k]).0 <= spans[k].1 <= len
    &&& forall|k: int| 0 < k < spans.len() ==> (#[trigger] spans[k - 1]).1 <= spans[k].0
}

/// `s` from `from` on, with each range replaced by its replacement.
pub open spec fn spliced(s: Seq<char>, spans: Seq<(int, int)>, reps: Seq<Seq<char>>, from: int) -> Seq<char>
    decreases spans.len(),
{
    if spans.len() == 0 || reps.len() == 0 {
        s.subrange(from, s.len() as int)
    } else {
        s.subrange(from, spans[0].0) + reps[0] + spliced(s, spans.drop_first(), reps.drop_first(), spans[0].1)
    }
}

/// Replaces each block of the text with its replacement.
pub fn splice_spans(html: &str, spans: &[Span], rendered: &[String]) -> (r: String)
    requires
        spans_ordered(span_ranges(spans@), html@.len() as int),
        rendered@.len() == spans@.len(),
    ensures
        r@ == spliced(html@, span_ranges(spans@), string_views(rendered@), 0),
{
    let v = chars_of(html);
    let mut out: Vec<char> = Vec::new();
    let mut cur: usize = 0;
    let mut k: usize = 0;
    let ghost ranges = span_ranges(spans@);
    let ghost reps = string_views(rendered@);
    assert(ranges.skip(0) == ranges);
    assert(reps.skip(0) == reps);
    while k < spans.len()
        invariant
            k <= spans.len() == rendered.len(),
            v@ == html@,
            ranges == span_ranges(spans@),
            reps == string_views(rendered@),
            spans_ordered(ranges, v@.len() as int),
            cur <= v@.len(),
            k > 0 ==> cur == ranges[k - 1].1,
            k == 0 ==> cur == 0,
            out@ + spliced(v@, ranges.skip(k as int), reps.skip(k as int), cur as int)
                == spliced(v@, ranges, reps, 0),
        decreases spans.len() - k,
    {
        let start = spans[k].start;
        let end = spans[k].end;
        assert(ranges[k as int] == (start as int, end as int));
        proof {
            if k > 0 {
                assert(ranges[k - 1].1 <= ranges[k as int].0);
            }
        }
        let ghost rest = spliced(v@, ranges.skip(k as int), reps.skip(k as int), cur as int);
        push_range(&mut out, &v, cur, start);
        let r = chars_of(rendered[k].as_str());
        push_all(&mut out, &r);
        proof {
            assert(ranges.skip(k as int).drop_first() == ranges.skip(k + 1));
            assert(reps.skip(k as int).drop_first() == reps.skip(k + 1));
            assert(reps.skip(k as int)[0] == r@);
        }
        cur = end;
        k = k + 1;
    }
    push_range(&mut out, &v, cur, v.len());
    string_of(&out)
}

} // verus!
