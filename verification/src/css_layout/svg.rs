//! Inline SVG protection: SVG elements are swapped for placeholders while
//! the layout passes run, and swapped back afterwards.
use vstd::prelude::*;
use crate::text::{
    is_ascii_white, contains_exec, seq_views, trimmed_range, is_white_space, trim, ci_find_from_exec, ci_occurs_at_exec, find_from_exec, is_white_space_exec, lemma_find_from,
    lemma_trailing_ws_bound, occurs_at_exec, push_str, trailing_ws, ws_end_exec, chars_of, ci_eq, ci_find_from, ci_occurs_at, ends_with, find_from, lemma_ws_end, trim_end,
    ws_end, contains_seq, decimal, decimal_exec, lemma_decimal_injective, lemma_decimal_no_nul,
    lemma_replace_none, lemma_replace_skip, occurs_at, replace_from, push_all, push_range, replace_all, replace_all_exec,
    string_of,
};

verus! {

// ── SVG protection ──────────────────────────────────────────────────────

/// `<svg`
pub open spec fn svg_open_tag() -> Seq<char> {
    seq!['<', 's', 'v', 'g']
}

/// `</svg>`
pub open spec fn svg_close_tag() -> Seq<char> {
    seq!['<', '/', 's', 'v', 'g', '>']
}

/// The marker text inside every placeholder.
pub open spec fn txpsvg() -> Seq<char> {
    seq!['T', 'X', 'P', 'S', 'V', 'G']
}

/// The placeholder that stands for the `k`-th protected SVG element:
/// a NUL, `TXPSVG`, the decimal index and a NUL.
pub open spec fn svg_placeholder(k: nat) -> Seq<char> {
    seq!['\0'] + txpsvg() + decimal(k) + seq!['\0']
}

/// An `<svg` starts at `i` with at least one character after it.
pub open spec fn svg_open_at(v: Seq<char>, i: int) -> bool {
    i + 4 < v.len() && occurs_at(v, i, svg_open_tag())
}

/// A `</svg>` starts at `i` with at least one character after it.
pub open spec fn svg_close_at(v: Seq<char>, i: int) -> bool {
    i + 6 < v.len() && occurs_at(v, i, svg_close_tag())
}

/// The first index at or after `i` where an SVG element opens.
pub open spec fn next_svg(v: Seq<char>, i: int) -> Option<int>
    decreases v.len() - i,
{
    if i < 0 || i >= v.len() {
        None
    } else if svg_open_at(v, i) {
        Some(i)
    } else {
        next_svg(v, i + 1)
    }
}

/// Scanning from `i` with `depth` SVG elements open, the index just past
/// the `</svg>` that closes the outermost one (or the end of the text).
pub open spec fn svg_scan_end(v: Seq<char>, i: int, depth: nat) -> int
    decreases v.len() - i,
{
    if depth == 0 || i < 0 || i >= v.len() {
        i
    } else if svg_close_at(v, i) {
        svg_scan_end(v, i + 6, (depth - 1) as nat)
    } else if svg_open_at(v, i) {
        svg_scan_end(v, i + 4, depth + 1)
    } else {
        svg_scan_end(v, i + 1, depth)
    }
}

/// The end of the SVG element that opens at `s`.
pub open spec fn svg_end(v: Seq<char>, s: int) -> int {
    svg_scan_end(v, s + 4, 1)
}

pub proof fn lemma_svg_scan_end_bounds(v: Seq<char>, i: int, depth: nat)
    requires
        0 <= i <= v.len(),
    ensures
        i <= svg_scan_end(v, i, depth) <= v.len(),
    decreases v.len() - i,
{
    if depth == 0 || i >= v.len() {
    } else if svg_close_at(v, i) {
        lemma_svg_scan_end_bounds(v, i + 6, (depth - 1) as nat);
    } else if svg_open_at(v, i) {
        lemma_svg_scan_end_bounds(v, i + 4, depth + 1);
    } else {
        lemma_svg_scan_end_bounds(v, i + 1, depth);
    }
}

pub proof fn lemma_next_svg_bounds(v: Seq<char>, i: int)
    requires
        0 <= i,
    ensures
        next_svg(v, i) matches Some(s) ==> 0 <= i <= s && svg_open_at(v, s) && s + 4 < svg_end(
            v,
            s,
        ) + 1 && svg_end(v, s) <= v.len() && forall|q: int| i <= q < s ==> !svg_open_at(v, q),
        next_svg(v, i) is None ==> forall|q: int| i <= q ==> !svg_open_at(v, q),
    decreases v.len() - i,
{
    if i < 0 || i >= v.len() {
    } else if svg_open_at(v, i) {
        lemma_svg_scan_end_bounds(v, i + 4, 1);
    } else {
        lemma_next_svg_bounds(v, i + 1);
    }
}

/// The text from `i` on with every SVG element replaced by its placeholder,
/// numbering the placeholders from `k`.
pub open spec fn protected_from(v: Seq<char>, i: int, k: nat) -> Seq<char>
    decreases v.len() - i,
{
    if i < 0 || i > v.len() {
        Seq::empty()
    } else {
        match next_svg(v, i) {
            None => v.subrange(i, v.len() as int),
            Some(s) => {
                proof {
                    lemma_next_svg_bounds(v, i);
                }
                v.subrange(i, s) + svg_placeholder(k) + protected_from(v, svg_end(v, s), k + 1)
            },
        }
    }
}

/// The (placeholder, element text) pairs of the SVG elements from `i` on,
/// numbering the placeholders from `k`.
pub open spec fn svg_blocks_from(v: Seq<char>, i: int, k: nat) -> Seq<(Seq<char>, Seq<char>)>
    decreases v.len() - i,
{
    if i < 0 || i > v.len() {
        Seq::empty()
    } else {
        match next_svg(v, i) {
            None => Seq::empty(),
            Some(s) => {
                proof {
                    lemma_next_svg_bounds(v, i);
                }
                seq![(svg_placeholder(k), v.subrange(s, svg_end(v, s)))] + svg_blocks_from(
                    v,
                    svg_end(v, s),
                    k + 1,
                )
            },
        }
    }
}

/// Applies the replacements of `blocks` to `s`, first to last.
pub open spec fn restore_list(s: Seq<char>, blocks: Seq<(Seq<char>, Seq<char>)>) -> Seq<char>
    decreases blocks.len(),
{
    if blocks.len() == 0 {
        s
    } else {
        restore_list(replace_all(s, blocks[0].0, blocks[0].1), blocks.drop_first())
    }
}

/// One protected SVG element: the placeholder that stands for it and its text.
pub struct SvgBlock {
    pub placeholder: String,
    pub content: String,
}

impl SvgBlock {
    pub open spec fn pair(&self) -> (Seq<char>, Seq<char>) {
        (self.placeholder@, self.content@)
    }
}

pub open spec fn block_pairs(blocks: Seq<SvgBlock>) -> Seq<(Seq<char>, Seq<char>)> {
    blocks.map_values(|b: SvgBlock| b.pair())
}

proof fn lemma_protected_step(v: Seq<char>, i: int, k: nat)
    requires
        0 <= i < v.len(),
        !svg_open_at(v, i),
    ensures
        protected_from(v, i, k) == seq![v[i]] + protected_from(v, i + 1, k),
        svg_blocks_from(v, i, k) == svg_blocks_from(v, i + 1, k),
{
    lemma_next_svg_bounds(v, i + 1);
    assert(next_svg(v, i) == next_svg(v, i + 1));
    match next_svg(v, i + 1) {
        None => {
            assert(v.subrange(i, v.len() as int) == seq![v[i]] + v.subrange(i + 1, v.len() as int));
        },
        Some(s) => {
            assert(v.subrange(i, s) == seq![v[i]] + v.subrange(i + 1, s));
        },
    }
}

proof fn lemma_protected_open(v: Seq<char>, i: int, k: nat)
    requires
        0 <= i < v.len(),
        svg_open_at(v, i),
    ensures
        protected_from(v, i, k) == svg_placeholder(k) + protected_from(v, svg_end(v, i), k + 1),
        svg_blocks_from(v, i, k) == seq![(svg_placeholder(k), v.subrange(i, svg_end(v, i)))]
            + svg_blocks_from(v, svg_end(v, i), k + 1),
{
    assert(v.subrange(i, i) =~= Seq::<char>::empty());
    assert(Seq::<char>::empty() + svg_placeholder(k) == svg_placeholder(k));
}

/// The placeholder text for the `k`-th element.
fn placeholder_exec(k: usize) -> (r: Vec<char>)
    ensures
        r@ == svg_placeholder(k as nat),
{
    let mut r: Vec<char> = Vec::new();
    r.push('\0');
    r.push('T');
    r.push('X');
    r.push('P');
    r.push('S');
    r.push('V');
    r.push('G');
    let d = decimal_exec(k);
    push_all(&mut r, &d);
    r.push('\0');
    assert(r@ =~= svg_placeholder(k as nat));
    r
}

fn svg_open_at_exec(v: &Vec<char>, i: usize) -> (b: bool)
    ensures
        b == svg_open_at(v@, i as int),
{
    i < v.len() && v.len() - i > 4 && v[i] == '<' && v[i + 1] == 's' && v[i + 2] == 'v' && v[i
        + 3] == 'g' && {
        assert(v@.subrange(i as int, i + 4) =~= svg_open_tag());
        true
    }
}

fn svg_close_at_exec(v: &Vec<char>, i: usize) -> (b: bool)
    ensures
        b == svg_close_at(v@, i as int),
{
    i < v.len() && v.len() - i > 6 && v[i] == '<' && v[i + 1] == '/' && v[i + 2] == 's' && v[i
        + 3] == 'v' && v[i + 4] == 'g' && v[i + 5] == '>' && {
        assert(v@.subrange(i as int, i + 6) =~= svg_close_tag());
        true
    }
}

/// Replaces every inline `<svg>…</svg>` element by a placeholder, so the
/// table conversions cannot touch it, and returns the elements removed.
pub fn protect_svg_elements(html: &str) -> (res: (String, Vec<SvgBlock>))
    ensures
        res.0@ == protected_from(html@, 0, 0),
        block_pairs(res.1@) == svg_blocks_from(html@, 0, 0),
{
    let v = chars_of(html);
    let ghost s = v@;
    let mut out: Vec<char> = Vec::new();
    let mut blocks: Vec<SvgBlock> = Vec::new();
    let mut i: usize = 0;
    while i < v.len()
        invariant
            s == v@,
            i <= v.len(),
            out@ + protected_from(s, i as int, blocks.len() as nat) == protected_from(s, 0, 0),
            block_pairs(blocks@) + svg_blocks_from(s, i as int, blocks.len() as nat)
                == svg_blocks_from(s, 0, 0),
        decreases v.len() - i,
    {
        if svg_open_at_exec(&v, i) {
            let start = i;
            let mut j = i + 4;
            let mut depth: usize = 1;
            while j < v.len() && depth > 0
                invariant
                    start + 4 <= j <= v.len(),
                    depth <= j,
                    svg_scan_end(s, j as int, depth as nat) == svg_end(s, start as int),
                    s == v@,
                decreases v.len() - j,
            {
                if svg_close_at_exec(&v, j) {
                    depth = depth - 1;
                    j = j + 6;
                } else if svg_open_at_exec(&v, j) {
                    depth = depth + 1;
                    j = j + 4;
                } else {
                    j = j + 1;
                }
            }
            assert(j == svg_end(s, start as int));
            let k = blocks.len();
            let ph = placeholder_exec(k);
            let mut content_v: Vec<char> = Vec::new();
            push_range(&mut content_v, &v, start, j);
            let placeholder = string_of(&ph);
            let content = string_of(&content_v);
            proof {
                lemma_protected_open(s, i as int, k as nat);
            }
            push_all(&mut out, &ph);
            let ghost old_pairs = block_pairs(blocks@);
            blocks.push(SvgBlock { placeholder, content });
            assert(block_pairs(blocks@) =~= old_pairs.push((svg_placeholder(k as nat), s.subrange(start as int, j as int))));
            i = j;
        } else {
            proof {
                lemma_protected_step(s, i as int, blocks.len() as nat);
            }
            out.push(v[i]);
            i = i + 1;
        }
    }
    assert(protected_from(s, i as int, blocks.len() as nat) =~= Seq::<char>::empty());
    assert(svg_blocks_from(s, i as int, blocks.len() as nat) =~= Seq::<(Seq<char>, Seq<char>)>::empty());
    assert(out@ + Seq::<char>::empty() == out@);
    assert(block_pairs(blocks@) + Seq::<(Seq<char>, Seq<char>)>::empty() == block_pairs(blocks@));
    (string_of(&out), blocks)
}

/// Puts the protected SVG elements back: every placeholder of `svg_map`, in
/// order, is replaced by the element it stands for.
pub fn restore_svg_elements(html: &str, svg_map: &[SvgBlock]) -> (r: String)
    ensures
        r@ == restore_list(html@, block_pairs(svg_map@)),
{
    let mut cur = chars_of(html);
    let ghost all = block_pairs(svg_map@);
    let mut j: usize = 0;
    assert(all.skip(0) =~= all);
    while j < svg_map.len()
        invariant
            j <= svg_map.len(),
            all == block_pairs(svg_map@),
            restore_list(cur@, all.skip(j as int)) == restore_list(html@, all),
        decreases svg_map.len() - j,
    {
        let ph = chars_of(svg_map[j].placeholder.as_str());
        let content = chars_of(svg_map[j].content.as_str());
        let next = replace_all_exec(&cur, &ph, &content);
        assert(all.skip(j as int).drop_first() =~= all.skip(j + 1));
        assert(all.skip(j as int)[0] == svg_map@[j as int].pair());
        cur = next;
        j = j + 1;
    }
    assert(all.skip(j as int) =~= Seq::<(Seq<char>, Seq<char>)>::empty());
    string_of(&cur)
}

// ── The round trip ──────────────────────────────────────────────────────

/// A NUL followed by `TXPSVG`: how every placeholder begins.
pub open spec fn nul_marker() -> Seq<char> {
    seq!['\0'] + txpsvg()
}

/// No NUL followed by `TXPSVG` occurs in `v`.
pub open spec fn free_of_marker(v: Seq<char>) -> bool {
    !contains_seq(v, nul_marker())
}

/// From `i` on, no SVG element is followed right away by `TXPSVG` (which
/// would make the placeholder's closing NUL begin another placeholder).
pub open spec fn ends_unmarked(v: Seq<char>, i: int) -> bool
    decreases v.len() - i,
{
    if i < 0 || i > v.len() {
        true
    } else {
        match next_svg(v, i) {
            None => true,
            Some(s) => {
                proof {
                    lemma_next_svg_bounds(v, i);
                }
                !occurs_at(v, svg_end(v, s), txpsvg()) && ends_unmarked(v, svg_end(v, s))
            },
        }
    }
}

/// What restoring needs of a text: no NUL-prefixed marker, and no marker
/// right after an SVG element.
pub open spec fn restorable(v: Seq<char>) -> bool {
    free_of_marker(v) && ends_unmarked(v, 0)
}

/// A placeholder-shaped pattern cannot start inside `x` when the text after
/// `x` starts with a NUL and `x` holds no marker.
proof fn lemma_no_occurrence_in_prefix(x: Seq<char>, y: Seq<char>, ph: Seq<char>)
    requires
        free_of_marker(x),
        ph.len() >= 7,
        ph[0] == '\0',
        ph.subrange(1, 7) == txpsvg(),
        y.len() > 0 ==> y[0] == '\0',
    ensures
        forall|q: int| 0 <= q < x.len() ==> !occurs_at(x + y, q, ph),
{
    assert forall|q: int| 0 <= q < x.len() implies !occurs_at(x + y, q, ph) by {
        let z = x + y;
        if occurs_at(z, q, ph) {
            assert(forall|m: int| 0 <= m < ph.len() ==> z[q + m] == ph[m]) by {
                assert forall|m: int| 0 <= m < ph.len() implies z[q + m] == ph[m] by {
                    assert(z.subrange(q, q + ph.len())[m] == z[q + m]);
                }
            }
            if q + 7 <= x.len() {
                assert(x.subrange(q, q + 7) =~= nul_marker()) by {
                    assert forall|m: int| 0 <= m < 7 implies x.subrange(q, q + 7)[m]
                        == nul_marker()[m] by {
                        assert(z[q + m] == ph[m]);
                        if m > 0 {
                            assert(ph.subrange(1, 7)[m - 1] == ph[m]);
                        }
                    }
                }
                assert(occurs_at(x, q, nul_marker()));
            } else {
                let m = x.len() - q - 1;
                assert(z[x.len() as int] == y[0]);
                assert(z[q + 1 + m] == ph[1 + m]);
                assert(ph.subrange(1, 7)[m] == ph[1 + m]);
            }
        }
    }
}

/// If the protected text from `i` begins with a NUL-free `w`, the input
/// itself has `w` at `i`.
proof fn lemma_protected_prefix(v: Seq<char>, i: int, k: nat, w: Seq<char>)
    requires
        0 <= i <= v.len(),
        forall|m: int| 0 <= m < w.len() ==> w[m] != '\0',
        w.len() <= protected_from(v, i, k).len(),
        protected_from(v, i, k).subrange(0, w.len() as int) == w,
    ensures
        i + w.len() <= v.len(),
        v.subrange(i, i + w.len()) == w,
{
    lemma_next_svg_bounds(v, i);
    let p = protected_from(v, i, k);
    match next_svg(v, i) {
        None => {
            assert(v.subrange(i, i + w.len()) =~= p.subrange(0, w.len() as int));
        },
        Some(s) => {
            if s - i >= w.len() {
                assert(v.subrange(i, i + w.len()) =~= p.subrange(0, w.len() as int));
            } else {
                assert(p[s - i] == svg_placeholder(k)[0]);
                assert(p.subrange(0, w.len() as int)[s - i] == p[s - i]);
            }
        },
    }
}

/// Two different placeholders never occur at the same place.
proof fn lemma_placeholders_differ(k: nat, k2: nat, rest: Seq<char>)
    requires
        k != k2,
    ensures
        !occurs_at(svg_placeholder(k2) + rest, 0, svg_placeholder(k)),
{
    let z = svg_placeholder(k2) + rest;
    let ph = svg_placeholder(k);
    let ph2 = svg_placeholder(k2);
    lemma_decimal_no_nul(k);
    lemma_decimal_no_nul(k2);
    let l = decimal(k).len() as int;
    let l2 = decimal(k2).len() as int;
    if occurs_at(z, 0, ph) {
        assert(forall|m: int| 0 <= m < ph.len() ==> z[m] == ph[m]) by {
            assert forall|m: int| 0 <= m < ph.len() implies z[m] == ph[m] by {
                assert(z.subrange(0, ph.len() as int)[m] == z[m]);
            }
        }
        if l == l2 {
            assert(decimal(k) =~= decimal(k2)) by {
                assert forall|m: int| 0 <= m < l implies decimal(k)[m] == decimal(k2)[m] by {
                    assert(ph[7 + m] == decimal(k)[m]);
                    assert(ph2[7 + m] == decimal(k2)[m]);
                    assert(z[7 + m] == ph2[7 + m]);
                }
            }
            lemma_decimal_injective(k, k2);
        } else if l < l2 {
            assert(ph[7 + l] == '\0');
            assert(ph2[7 + l] == decimal(k2)[l]);
            assert(z[7 + l] == ph2[7 + l]);
        } else {
            assert(ph[7 + l2] == decimal(k)[l2]);
            assert(ph2[7 + l2] == '\0');
            assert(z[7 + l2] == ph2[7 + l2]);
        }
    }
}

proof fn lemma_occurs_elementwise(p: Seq<char>, q: int, ph: Seq<char>)
    requires
        occurs_at(p, q, ph),
    ensures
        forall|m: int| 0 <= m < ph.len() ==> p[q + m] == ph[m],
{
    assert forall|m: int| 0 <= m < ph.len() implies p[q + m] == ph[m] by {
        assert(p.subrange(q, q + ph.len())[m] == p[q + m]);
    }
}

/// Inside a placeholder (past its opening NUL, before its closing NUL)
/// no NUL occurs.
proof fn lemma_placeholder_inner_chars(k2: nat, m: int)
    requires
        1 <= m < svg_placeholder(k2).len() - 1,
    ensures
        svg_placeholder(k2)[m] != '\0',
{
    lemma_decimal_no_nul(k2);
    let ph2 = svg_placeholder(k2);
    if m < 7 {
        assert(ph2[m] == txpsvg()[m - 1]);
    } else {
        assert(ph2[m] == decimal(k2)[m - 7]);
    }
}

proof fn lemma_no_occurrence_at_closing(x: Seq<char>, ph2: Seq<char>, rest: Seq<char>, k: nat)
    requires
        ph2.len() >= 1,
        !(6 <= rest.len() && rest.subrange(0, 6) == txpsvg()),
    ensures
        !occurs_at(x + (ph2 + rest), x.len() + ph2.len() - 1, svg_placeholder(k)),
{
    let ph = svg_placeholder(k);
    let p = x + (ph2 + rest);
    let q = x.len() + ph2.len() - 1;
    lemma_decimal_no_nul(k);
    assert(ph.subrange(1, 7) =~= txpsvg());
    if occurs_at(p, q, ph) {
        lemma_occurs_elementwise(p, q, ph);
        assert(rest.subrange(0, 6) =~= txpsvg()) by {
            assert forall|m: int| 0 <= m < 6 implies rest.subrange(0, 6)[m] == txpsvg()[m] by {
                assert(p[q + 1 + m] == rest[m]);
                assert(ph.subrange(1, 7)[m] == ph[1 + m]);
            }
        }
    }
}

/// Where a placeholder other than `k` is followed by text that neither holds
/// placeholder `k` nor starts with the marker, and is preceded by
/// marker-free text, placeholder `k` does not occur.
proof fn lemma_no_occurrence_around(x: Seq<char>, k: nat, k2: nat, rest: Seq<char>, q: int)
    requires
        free_of_marker(x),
        k != k2,
        forall|q2: int| !occurs_at(rest, q2, svg_placeholder(k)),
        !(6 <= rest.len() && rest.subrange(0, 6) == txpsvg()),
    ensures
        !occurs_at(x + (svg_placeholder(k2) + rest), q, svg_placeholder(k)),
{
    let ph = svg_placeholder(k);
    let ph2 = svg_placeholder(k2);
    let p = x + (ph2 + rest);
    let xl = x.len() as int;
    let pl = ph2.len() as int;
    if occurs_at(p, q, ph) {
        if q < xl {
            lemma_decimal_no_nul(k);
            assert(ph.subrange(1, 7) =~= txpsvg());
            lemma_no_occurrence_in_prefix(x, ph2 + rest, ph);
            assert(false);
        } else if q == xl {
            lemma_placeholders_differ(k, k2, rest);
            assert((ph2 + rest).subrange(0, ph.len() as int) =~= p.subrange(q, q + ph.len()));
            assert(false);
        } else if q < xl + pl - 1 {
            lemma_occurs_elementwise(p, q, ph);
            lemma_placeholder_inner_chars(k2, q - xl);
            assert(p[q] == ph2[q - xl]);
            assert(ph[0] == '\0');
            assert(false);
        } else if q == xl + pl - 1 {
            lemma_no_occurrence_at_closing(x, ph2, rest, k);
            assert(false);
        } else {
            let q2 = q - xl - pl;
            assert(rest.subrange(q2, q2 + ph.len()) =~= p.subrange(q, q + ph.len()));
            assert(occurs_at(rest, q2, ph));
        }
    }
}

proof fn lemma_subrange_free(v: Seq<char>, a: int, b: int)
    requires
        0 <= a <= b <= v.len(),
        free_of_marker(v),
    ensures
        free_of_marker(v.subrange(a, b)),
{
    let x = v.subrange(a, b);
    if contains_seq(x, nul_marker()) {
        let j = choose|j: int| occurs_at(x, j, nul_marker());
        assert(v.subrange(a + j, a + j + 7) =~= x.subrange(j, j + 7));
        assert(occurs_at(v, a + j, nul_marker()));
    }
}

/// A placeholder numbered below `k2` occurs nowhere in the protected text
/// whose numbering starts at `k2`.
proof fn lemma_no_earlier_placeholder(v: Seq<char>, i: int, k: nat, k2: nat)
    requires
        0 <= i <= v.len(),
        k < k2,
        free_of_marker(v),
        ends_unmarked(v, i),
    ensures
        forall|q: int| !occurs_at(protected_from(v, i, k2), q, svg_placeholder(k)),
    decreases v.len() - i,
{
    lemma_next_svg_bounds(v, i);
    lemma_decimal_no_nul(k);
    let ph = svg_placeholder(k);
    let p = protected_from(v, i, k2);
    assert(ph.subrange(1, 7) =~= txpsvg());
    match next_svg(v, i) {
        None => {
            let x = v.subrange(i, v.len() as int);
            lemma_subrange_free(v, i, v.len() as int);
            lemma_no_occurrence_in_prefix(x, Seq::empty(), ph);
            assert(x + Seq::<char>::empty() == p);
        },
        Some(s) => {
            let e = svg_end(v, s);
            let x = v.subrange(i, s);
            let rest = protected_from(v, e, k2 + 1);
            assert(p == x + (svg_placeholder(k2) + rest));
            lemma_subrange_free(v, i, s);
            lemma_no_earlier_placeholder(v, e, k, k2 + 1);
            if 6 <= rest.len() && rest.subrange(0, 6) == txpsvg() {
                lemma_protected_prefix(v, e, k2 + 1, txpsvg());
                assert(occurs_at(v, e, txpsvg()));
            }
            assert forall|q: int| !occurs_at(p, q, ph) by {
                lemma_no_occurrence_around(x, k, k2, rest, q);
            }
        },
    }
}

/// Restoring the first placeholder of the protected text puts its element back.
proof fn lemma_restore_one(v: Seq<char>, s: int, k: nat)
    requires
        0 <= s < v.len(),
        svg_open_at(v, s),
        free_of_marker(v),
        ends_unmarked(v, svg_end(v, s)),
    ensures
        replace_all(
            v.subrange(0, s) + (svg_placeholder(k) + protected_from(v, svg_end(v, s), k + 1)),
            svg_placeholder(k),
            v.subrange(s, svg_end(v, s)),
        ) == v.subrange(0, svg_end(v, s)) + protected_from(v, svg_end(v, s), k + 1),
{
    let e = svg_end(v, s);
    lemma_svg_scan_end_bounds(v, s + 4, 1);
    let ph = svg_placeholder(k);
    let c = v.subrange(s, e);
    let x = v.subrange(0, s);
    let rest = protected_from(v, e, k + 1);
    let q_all = x + (ph + rest);
    lemma_decimal_no_nul(k);
    assert(ph.subrange(1, 7) =~= txpsvg());
    lemma_subrange_free(v, 0, s);
    lemma_no_occurrence_in_prefix(x, ph + rest, ph);
    lemma_replace_skip(q_all, ph, c, 0, s);
    assert(q_all.subrange(s, s + ph.len()) =~= ph);
    let after = s + ph.len();
    lemma_no_earlier_placeholder(v, e, k, k + 1);
    assert forall|q: int| after <= q implies !occurs_at(q_all, q, ph) by {
        if occurs_at(q_all, q, ph) {
            assert(rest.subrange(q - after, q - after + ph.len()) =~= q_all.subrange(
                q,
                q + ph.len(),
            ));
            assert(occurs_at(rest, q - after, ph));
        }
    }
    lemma_replace_none(q_all, ph, c, after);
    assert(q_all.subrange(0, s) =~= x);
    assert(q_all.subrange(after, q_all.len() as int) =~= rest);
    assert(x + c =~= v.subrange(0, e));
}

/// Restoring every block of the protected text from `i` on gives back the input.
proof fn lemma_restore_from(v: Seq<char>, i: int, k: nat)
    requires
        0 <= i <= v.len(),
        free_of_marker(v),
        ends_unmarked(v, i),
    ensures
        restore_list(v.subrange(0, i) + protected_from(v, i, k), svg_blocks_from(v, i, k)) == v,
    decreases v.len() - i,
{
    lemma_next_svg_bounds(v, i);
    match next_svg(v, i) {
        None => {
            assert(v.subrange(0, i) + v.subrange(i, v.len() as int) =~= v);
        },
        Some(s) => {
            let e = svg_end(v, s);
            let blocks = svg_blocks_from(v, i, k);
            assert(v.subrange(0, i) + protected_from(v, i, k) =~= v.subrange(0, s) + (
            svg_placeholder(k) + protected_from(v, e, k + 1)));
            lemma_restore_one(v, s, k);
            assert(blocks.drop_first() =~= svg_blocks_from(v, e, k + 1));
            lemma_restore_from(v, e, k + 1);
        },
    }
}

/// Protecting the SVG elements of a text and restoring them gives the text
/// back, for every text in which no NUL is followed by `TXPSVG` and no SVG
/// element is followed right away by `TXPSVG`.
pub proof fn lemma_protect_restore_roundtrip(v: Seq<char>)
    requires
        restorable(v),
    ensures
        restore_list(protected_from(v, 0, 0), svg_blocks_from(v, 0, 0)) == v,
{
    lemma_restore_from(v, 0, 0);
    assert(v.subrange(0, 0) + protected_from(v, 0, 0) =~= protected_from(v, 0, 0));
}

} // verus!
