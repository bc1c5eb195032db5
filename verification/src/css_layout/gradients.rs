//! Gradient degradation: gradient functions become their first colour.
use vstd::prelude::*;
use crate::text::{
    is_ascii_white, contains_exec, seq_views, trimmed_range, is_white_space, trim, ci_find_from_exec, ci_occurs_at_exec, find_from_exec, is_white_space_exec, lemma_find_from,
    lemma_trailing_ws_bound, occurs_at_exec, push_str, trailing_ws, ws_end_exec, chars_of, ci_eq, ci_find_from, ci_occurs_at, ends_with, find_from, lemma_ws_end, trim_end,
    ws_end, contains_seq, decimal, decimal_exec, lemma_decimal_injective, lemma_decimal_no_nul,
    lemma_replace_none, lemma_replace_skip, occurs_at, replace_from, push_all, push_range, replace_all, replace_all_exec,
    string_of,
};

verus! {

// ── Gradient degradation ────────────────────────────────────────────────

pub open spec fn linear_gradient_name() -> Seq<char> {
    seq!['l', 'i', 'n', 'e', 'a', 'r', '-', 'g', 'r', 'a', 'd', 'i', 'e', 'n', 't', '(']
}

pub open spec fn radial_gradient_name() -> Seq<char> {
    seq!['r', 'a', 'd', 'i', 'a', 'l', '-', 'g', 'r', 'a', 'd', 'i', 'e', 'n', 't', '(']
}

pub open spec fn conic_gradient_name() -> Seq<char> {
    seq!['c', 'o', 'n', 'i', 'c', '-', 'g', 'r', 'a', 'd', 'i', 'e', 'n', 't', '(']
}

/// The earlier of two found functions (position, name length); the first
/// on a tie.
pub open spec fn earlier(a: Option<(int, int)>, b: Option<(int, int)>) -> Option<(int, int)> {
    match a {
        Some(x) => match b {
            Some(y) => if y.0 < x.0 { b } else { a },
            None => a,
        },
        None => b,
    }
}

/// A found name's position together with the name's length.
pub open spec fn found_with(p: Option<int>, n: int) -> Option<(int, int)> {
    match p {
        Some(x) => Some((x, n)),
        None => None,
    }
}

/// Where the next gradient function starts at or after `i`, and the length
/// of its name including `(`: the earliest `linear-gradient(`,
/// `radial-gradient(` or `conic-gradient(` (letters compared without regard
/// to case).
pub open spec fn next_gradient(v: Seq<char>, i: int) -> Option<(int, int)> {
    earlier(
        found_with(ci_find_from(v, linear_gradient_name(), i), 16),
        earlier(
            found_with(ci_find_from(v, radial_gradient_name(), i), 16),
            found_with(ci_find_from(v, conic_gradient_name(), i), 15),
        ),
    )
}

/// Scanning from `i` with parenthesis depth `depth`, the index of the `)`
/// that brings the depth back to zero.
pub open spec fn paren_close_from(v: Seq<char>, i: int, depth: int) -> Option<int>
    decreases v.len() - i,
{
    if i < 0 || i >= v.len() {
        None
    } else if v[i] == '(' {
        paren_close_from(v, i + 1, depth + 1)
    } else if v[i] == ')' {
        if depth - 1 == 0 {
            Some(i)
        } else {
            paren_close_from(v, i + 1, depth - 1)
        }
    } else {
        paren_close_from(v, i + 1, depth)
    }
}

pub open spec fn is_hex_digit(c: char) -> bool {
    ('0' <= c <= '9') || ('a' <= c <= 'f') || ('A' <= c <= 'F')
}

/// Length of the run of hexadecimal digits starting at `i`.
pub open spec fn hex_run(s: Seq<char>, i: int) -> nat
    decreases s.len() - i,
{
    if 0 <= i < s.len() && is_hex_digit(s[i]) {
        1 + hex_run(s, i + 1)
    } else {
        0
    }
}

/// End of the `rgb`/`hsl` colour function (`rgba?\s*\([^)]+\)` and its
/// `hsl` twin) whose three-letter name ends at `k`.
pub open spec fn color_function_end(s: Seq<char>, k: int) -> Option<int> {
    let k2 = if 0 <= k < s.len() && s[k] == 'a' { k + 1 } else { k };
    let w = ws_end(s, k2);
    if 0 <= w < s.len() && s[w] == '(' {
        match find_from(s, seq![')'], w + 1) {
            Some(r) => if r > w + 1 { Some(r + 1) } else { None },
            None => None,
        }
    } else {
        None
    }
}

/// End of the colour that the pattern
/// `#[0-9a-fA-F]{3,8}|rgba?\s*\([^)]+\)|hsla?\s*\([^)]+\)` matches at `j`.
pub open spec fn color_match_at(s: Seq<char>, j: int) -> Option<int> {
    if 0 <= j < s.len() && s[j] == '#' {
        let h = hex_run(s, j + 1);
        if h >= 3 {
            Some(j + 1 + if h > 8 { 8 } else { h as int })
        } else {
            None
        }
    } else if occurs_at(s, j, seq!['r', 'g', 'b']) || occurs_at(s, j, seq!['h', 's', 'l']) {
        color_function_end(s, j + 3)
    } else {
        None
    }
}

/// The leftmost colour at or after `i`: its start and end.
pub open spec fn find_color(s: Seq<char>, i: int) -> Option<(int, int)>
    decreases s.len() + 1 - i,
{
    if i < 0 || i > s.len() {
        None
    } else {
        match color_match_at(s, i) {
            Some(e) => Some((i, e)),
            None => find_color(s, i + 1),
        }
    }
}

/// The first colour named in the gradient arguments, or `inherit`.
pub open spec fn first_color(args: Seq<char>) -> Seq<char> {
    match find_color(args, 0) {
        Some((a, b)) => args.subrange(a, b),
        None => seq!['i', 'n', 'h', 'e', 'r', 'i', 't'],
    }
}

pub open spec fn background_clip_text() -> Seq<char> {
    seq![
        'b', 'a', 'c', 'k', 'g', 'r', 'o', 'u', 'n', 'd', '-', 'c', 'l', 'i', 'p', ':', ' ', 't',
        'e', 'x', 't',
    ]
}

/// `: ` followed by the colour and the marker comment.
pub open spec fn solid_suffix(color: Seq<char>) -> Seq<char> {
    seq![':', ' '] + color + seq![
        ' ', '/', '*', ' ', 'g', 'r', 'a', 'd', 'i', 'e', 'n', 't', '\u{2192}', 's', 'o', 'l',
        'i', 'd', ' ', '*', '/',
    ]
}

/// What replaces a gradient that starts at `f` and whose arguments lie
/// between `paren` and `close`: the property is `color` when the text
/// before it (white space trimmed) ends with `background-clip: text`,
/// `background` otherwise.
pub open spec fn gradient_replacement(v: Seq<char>, f: int, paren: int, close: int) -> Seq<char> {
    let prop = if ends_with(trim_end(v.subrange(0, f)), background_clip_text()) {
        seq!['c', 'o', 'l', 'o', 'r']
    } else {
        seq!['b', 'a', 'c', 'k', 'g', 'r', 'o', 'u', 'n', 'd']
    };
    prop + solid_suffix(first_color(v.subrange(paren + 1, close)))
}

/// The gradient pass from `i` on, or `None` where the pass would stop on
/// an unclosed `conic-gradient(` with nothing, or a multi-byte
/// character, right after its `(`.
pub open spec fn degrade_from(v: Seq<char>, i: int) -> Option<Seq<char>>
    decreases v.len() - i,
{
    if i < 0 || i >= v.len() {
        Some(Seq::empty())
    } else {
        match next_gradient(v, i) {
            None => Some(v.subrange(i, v.len() as int)),
            Some((f, n)) => {
                proof {
                    lemma_next_gradient(v, i);
                }
                let paren = f + n - 1;
                match paren_close_from(v, paren, 0) {
                    Some(close) => {
                        proof {
                            lemma_paren_close(v, paren, 0);
                        }
                        match degrade_from(v, close + 1) {
                            Some(rest) => Some(
                                v.subrange(i, f) + gradient_replacement(v, f, paren, close) + rest,
                            ),
                            None => None,
                        }
                    },
                    None => {
                        if f + 16 <= v.len() && (n == 16 || (v[f + 15] as u32) < 0x80) {
                            match degrade_from(v, paren + 1) {
                                Some(rest) => Some(v.subrange(i, f + 16) + rest),
                                None => None,
                            }
                        } else {
                            None
                        }
                    },
                }
            },
        }
    }
}

/// The property tail of `background-clip\s*:\s*text\s*;?` at `k`.
pub open spec fn clip_tail_end(s: Seq<char>, k: int) -> Option<int> {
    if ci_occurs_at(s, k, seq!['b', 'a', 'c', 'k', 'g', 'r', 'o', 'u', 'n', 'd', '-', 'c', 'l', 'i', 'p']) {
        let a = ws_end(s, k + 15);
        if 0 <= a < s.len() && s[a] == ':' {
            let b = ws_end(s, a + 1);
            if ci_occurs_at(s, b, seq!['t', 'e', 'x', 't']) {
                let c = ws_end(s, b + 4);
                if 0 <= c < s.len() && s[c] == ';' {
                    Some(c + 1)
                } else {
                    Some(c)
                }
            } else {
                None
            }
        } else {
            None
        }
    } else {
        None
    }
}

/// End of the match of `(?i)(?:-webkit-)?background-clip\s*:\s*text\s*;?` at `j`.
pub open spec fn clip_match_at(s: Seq<char>, j: int) -> Option<int> {
    if ci_occurs_at(s, j, seq!['-', 'w', 'e', 'b', 'k', 'i', 't', '-']) && clip_tail_end(
        s,
        j + 8,
    ) is Some {
        clip_tail_end(s, j + 8)
    } else {
        clip_tail_end(s, j)
    }
}

/// `s` from `i` on with every `background-clip: text` declaration removed.
pub open spec fn strip_clip_from(s: Seq<char>, i: int) -> Seq<char>
    decreases s.len() - i,
{
    if i < 0 || i >= s.len() {
        Seq::empty()
    } else {
        match clip_match_at(s, i) {
            Some(e) => {
                proof {
                    lemma_clip_match_bounds(s, i);
                }
                strip_clip_from(s, e)
            },
            None => seq![s[i]] + strip_clip_from(s, i + 1),
        }
    }
}

/// The gradient pass of the layout preprocessor: every gradient function
/// becomes its first colour, then `background-clip: text` declarations go.
pub open spec fn degrade_gradients_spec(v: Seq<char>) -> Option<Seq<char>> {
    match degrade_from(v, 0) {
        Some(d) => Some(strip_clip_from(d, 0)),
        None => None,
    }
}

pub proof fn lemma_ci_find_from(s: Seq<char>, p: Seq<char>, i: int)
    requires
        0 <= i,
    ensures
        ci_find_from(s, p, i) matches Some(j) ==> i <= j && ci_occurs_at(s, j, p),
    decreases s.len() + 1 - i,
{
    if i + p.len() > s.len() {
    } else if ci_occurs_at(s, i, p) {
    } else {
        lemma_ci_find_from(s, p, i + 1);
    }
}

pub proof fn lemma_next_gradient(v: Seq<char>, i: int)
    requires
        0 <= i,
    ensures
        next_gradient(v, i) matches Some((f, n)) ==> i <= f && f + n <= v.len() && (n == 16
            || n == 15) && v[f + n - 1] == '(' && (n == 15 ==> f + 15 <= v.len()),
{
    lemma_ci_find_from(v, linear_gradient_name(), i);
    lemma_ci_find_from(v, radial_gradient_name(), i);
    lemma_ci_find_from(v, conic_gradient_name(), i);
    let l = found_with(ci_find_from(v, linear_gradient_name(), i), 16);
    let r = found_with(ci_find_from(v, radial_gradient_name(), i), 16);
    let c = found_with(ci_find_from(v, conic_gradient_name(), i), 15);
    if let Some((f, n)) = l {
        assert(ci_eq(v[f + 15], linear_gradient_name()[15]));
    }
    if let Some((f, n)) = r {
        assert(ci_eq(v[f + 15], radial_gradient_name()[15]));
    }
    if let Some((f, n)) = c {
        assert(ci_eq(v[f + 14], conic_gradient_name()[14]));
    }
    let rc = earlier(r, c);
    assert(rc == r || rc == c);
    assert(next_gradient(v, i) == l || next_gradient(v, i) == rc);
}

pub proof fn lemma_paren_close(v: Seq<char>, i: int, depth: int)
    ensures
        paren_close_from(v, i, depth) matches Some(c) ==> i <= c < v.len(),
    decreases v.len() - i,
{
    if i < 0 || i >= v.len() {
    } else if v[i] == '(' {
        lemma_paren_close(v, i + 1, depth + 1);
    } else if v[i] == ')' {
        if depth - 1 != 0 {
            lemma_paren_close(v, i + 1, depth - 1);
        }
    } else {
        lemma_paren_close(v, i + 1, depth);
    }
}

pub proof fn lemma_clip_match_bounds(s: Seq<char>, j: int)
    requires
        0 <= j < s.len(),
    ensures
        clip_match_at(s, j) matches Some(e) ==> j < e <= s.len(),
{
    assert forall|k: int| 0 <= k && #[trigger] clip_tail_end(s, k) is Some implies k < clip_tail_end(s, k)->0 <= s.len() by {
        let a = ws_end(s, k + 15);
        lemma_ws_end(s, k + 15);
        let b = ws_end(s, a + 1);
        lemma_ws_end(s, a + 1);
        lemma_ws_end(s, b + 4);
    }
}

fn next_gradient_exec(v: &Vec<char>, i: usize) -> (r: Option<(usize, usize)>)
    ensures
        r matches Some((f, n)) ==> next_gradient(v@, i as int) == Some((f as int, n as int)),
        r is None ==> next_gradient(v@, i as int) is None,
{
    let linear = chars_of("linear-gradient(");
    let radial = chars_of("radial-gradient(");
    let conic = chars_of("conic-gradient(");
    proof {
        reveal_strlit("linear-gradient(");
        reveal_strlit("radial-gradient(");
        reveal_strlit("conic-gradient(");
        assert(linear@ =~= linear_gradient_name());
        assert(radial@ =~= radial_gradient_name());
        assert(conic@ =~= conic_gradient_name());
    }
    let l = match ci_find_from_exec(v, &linear, i) {
        Some(p) => Some((p, 16usize)),
        None => None,
    };
    let r = match ci_find_from_exec(v, &radial, i) {
        Some(p) => Some((p, 16usize)),
        None => None,
    };
    let c = match ci_find_from_exec(v, &conic, i) {
        Some(p) => Some((p, 15usize)),
        None => None,
    };
    let rc = match (r, c) {
        (Some(x), Some(y)) => if y.0 < x.0 { c } else { r },
        (Some(_), None) => r,
        (None, _) => c,
    };
    match (l, rc) {
        (Some(x), Some(y)) => if y.0 < x.0 { rc } else { l },
        (Some(_), None) => l,
        (None, _) => rc,
    }
}

/// Position of the `)` that closes the `(` at `open_pos`.
pub fn find_gradient_close(v: &Vec<char>, open_pos: usize) -> (r: Option<usize>)
    requires
        open_pos < v.len(),
        v@[open_pos as int] == '(',
    ensures
        r matches Some(c) ==> paren_close_from(v@, open_pos as int, 0) == Some(c as int) && open_pos
            < c < v.len(),
        r is None ==> paren_close_from(v@, open_pos as int, 0) is None,
{
    let mut depth: usize = 1;
    let mut j = open_pos + 1;
    while j < v.len()
        invariant
            open_pos < j <= v.len(),
            1 <= depth <= j - open_pos,
            paren_close_from(v@, j as int, depth as int) == paren_close_from(
                v@,
                open_pos as int,
                0,
            ),
        decreases v.len() - j,
    {
        if v[j] == '(' {
            depth = depth + 1;
        } else if v[j] == ')' {
            if depth == 1 {
                return Some(j);
            }
            depth = depth - 1;
        }
        j = j + 1;
    }
    None
}

fn is_hex_digit_exec(c: char) -> (b: bool)
    ensures
        b == is_hex_digit(c),
{
    ('0' <= c && c <= '9') || ('a' <= c && c <= 'f') || ('A' <= c && c <= 'F')
}

fn hex_run_exec(s: &Vec<char>, i: usize) -> (r: usize)
    requires
        i <= s.len(),
    ensures
        r == hex_run(s@, i as int),
        i + r <= s.len(),
{
    let mut j = i;
    while j < s.len() && is_hex_digit_exec(s[j])
        invariant
            i <= j <= s.len(),
            hex_run(s@, i as int) == (j - i) + hex_run(s@, j as int),
        decreases s.len() - j,
    {
        j = j + 1;
    }
    j - i
}

fn color_match_at_exec(s: &Vec<char>, j: usize) -> (r: Option<usize>)
    requires
        j <= s.len(),
    ensures
        r matches Some(e) ==> color_match_at(s@, j as int) == Some(e as int),
        r is None ==> color_match_at(s@, j as int) is None,
{
    if j < s.len() && s[j] == '#' {
        let h = hex_run_exec(s, j + 1);
        if h >= 3 {
            return Some(j + 1 + if h > 8 { 8 } else { h });
        }
        return None;
    }
    let named = j < s.len() && s.len() - j >= 3 && ((s[j] == 'r' && s[j + 1] == 'g' && s[j + 2] == 'b') || (
    s[j] == 'h' && s[j + 1] == 's' && s[j + 2] == 'l'));
    proof {
        if j + 3 <= s.len() {
            assert(s@.subrange(j as int, j + 3) =~= seq![s@[j as int], s@[j + 1], s@[j + 2]]);
        }
    }
    if !named {
        return None;
    }
    let k = j + 3;
    let k2 = if k < s.len() && s[k] == 'a' { k + 1 } else { k };
    let w = ws_end_exec(s, k2);
    proof {
        lemma_ws_end(s@, k2 as int);
    }
    if w < s.len() && s[w] == '(' {
        let close = vec![')'];
        assert(close@ =~= seq![')']);
        match find_from_exec(s, &close, w + 1) {
            Some(r) => {
                proof {
                    lemma_find_from(s@, seq![')'], w + 1);
                }
                if r > w + 1 {
                    Some(r + 1)
                } else {
                    None
                }
            },
            None => None,
        }
    } else {
        None
    }
}

fn find_color_exec(s: &Vec<char>) -> (r: Option<(usize, usize)>)
    ensures
        r matches Some((a, b)) ==> find_color(s@, 0) == Some((a as int, b as int)),
        r is None ==> find_color(s@, 0) is None,
{
    let mut i: usize = 0;
    while i < s.len()
        invariant
            i <= s.len(),
            find_color(s@, 0) == find_color(s@, i as int),
        decreases s.len() - i,
    {
        match color_match_at_exec(s, i) {
            Some(e) => {
                return Some((i, e));
            },
            None => {},
        }
        i = i + 1;
    }
    match color_match_at_exec(s, i) {
        Some(e) => Some((i, e)),
        None => {
            assert(find_color(s@, i + 1) is None);
            None
        },
    }
}

pub proof fn lemma_color_match_bounds(s: Seq<char>, j: int)
    requires
        0 <= j <= s.len(),
    ensures
        color_match_at(s, j) matches Some(e) ==> j < e <= s.len(),
{
    if 0 <= j < s.len() && s[j] == '#' {
        lemma_hex_run_bound(s, j + 1);
    } else if occurs_at(s, j, seq!['r', 'g', 'b']) || occurs_at(s, j, seq!['h', 's', 'l']) {
        let k = j + 3;
        let k2 = if 0 <= k < s.len() && s[k] == 'a' { k + 1 } else { k };
        lemma_ws_end(s, k2);
        let w = ws_end(s, k2);
        if 0 <= w < s.len() && s[w] == '(' {
            lemma_find_from(s, seq![')'], w + 1);
        }
    }
}

pub proof fn lemma_hex_run_bound(s: Seq<char>, i: int)
    requires
        0 <= i <= s.len(),
    ensures
        i + hex_run(s, i) <= s.len(),
    decreases s.len() - i,
{
    if i < s.len() && is_hex_digit(s[i]) {
        lemma_hex_run_bound(s, i + 1);
    }
}

pub proof fn lemma_find_color_bounds(s: Seq<char>, i: int)
    requires
        0 <= i,
    ensures
        find_color(s, i) matches Some((a, b)) ==> i <= a < b <= s.len(),
    decreases s.len() + 1 - i,
{
    if i <= s.len() {
        lemma_color_match_bounds(s, i);
        if color_match_at(s, i) is None {
            lemma_find_color_bounds(s, i + 1);
        }
    }
}

/// `color` or `background`: the property that a gradient starting at `f`
/// is attached to.
fn gradient_property_exec(v: &Vec<char>, f: usize) -> (r: Vec<char>)
    requires
        f <= v.len(),
    ensures
        r@ == (if ends_with(trim_end(v@.subrange(0, f as int)), background_clip_text()) {
            seq!['c', 'o', 'l', 'o', 'r']
        } else {
            seq!['b', 'a', 'c', 'k', 'g', 'r', 'o', 'u', 'n', 'd']
        }),
{
    let mut t = f;
    while t > 0 && is_white_space_exec(v[t - 1])
        invariant
            t <= f <= v.len(),
            trailing_ws(v@.subrange(0, f as int)) == (f - t) + trailing_ws(v@.subrange(0, t as int)),
        decreases t,
    {
        assert(v@.subrange(0, t as int).drop_last() =~= v@.subrange(0, t - 1));
        t = t - 1;
    }
    proof {
        lemma_trailing_ws_bound(v@.subrange(0, t as int));
        assert(trim_end(v@.subrange(0, f as int)) =~= v@.subrange(0, t as int));
    }
    let clip = chars_of("background-clip: text");
    proof {
        reveal_strlit("background-clip: text");
        assert(clip@ =~= background_clip_text());
    }
    let is_clip = t >= clip.len() && occurs_at_exec(v, t - clip.len(), &clip);
    proof {
        if t >= clip.len() {
            assert(v@.subrange(0, t as int).subrange(t - 21, t as int) =~= v@.subrange(t - 21, t as int));
        }
    }
    let mut out: Vec<char> = Vec::new();
    if is_clip {
        push_str(&mut out, "color");
        proof { reveal_strlit("color"); assert(out@ =~= seq!['c', 'o', 'l', 'o', 'r']); }
    } else {
        push_str(&mut out, "background");
        proof { reveal_strlit("background"); assert(out@ =~= seq!['b', 'a', 'c', 'k', 'g', 'r', 'o', 'u', 'n', 'd']); }
    }
    out
}

/// The first colour among the gradient arguments `v[from..to]`.
fn first_color_exec(v: &Vec<char>, from: usize, to: usize) -> (r: Vec<char>)
    requires
        from <= to <= v.len(),
    ensures
        r@ == first_color(v@.subrange(from as int, to as int)),
{
    let mut args: Vec<char> = Vec::new();
    push_range(&mut args, v, from, to);
    let mut color: Vec<char> = Vec::new();
    match find_color_exec(&args) {
        Some((a, b)) => {
            proof {
                lemma_find_color_bounds(args@, 0);
            }
            push_range(&mut color, &args, a, b);
        },
        None => {
            push_str(&mut color, "inherit");
            proof { reveal_strlit("inherit"); assert(color@ =~= seq!['i', 'n', 'h', 'e', 'r', 'i', 't']); }
        },
    }
    color
}

fn gradient_replacement_exec(v: &Vec<char>, f: usize, paren: usize, close: usize) -> (r: Vec<char>)
    requires
        f <= paren < close <= v.len(),
    ensures
        r@ == gradient_replacement(v@, f as int, paren as int, close as int),
{
    let mut out = gradient_property_exec(v, f);
    let color = first_color_exec(v, paren + 1, close);
    push_str(&mut out, ": ");
    push_all(&mut out, &color);
    push_str(&mut out, " /* gradient\u{2192}solid */");
    proof {
        reveal_strlit(": ");
        reveal_strlit(" /* gradient\u{2192}solid */");
        assert(out@ =~= gradient_replacement(v@, f as int, paren as int, close as int));
    }
    out
}

fn clip_tail_end_exec(s: &Vec<char>, k: usize) -> (r: Option<usize>)
    requires
        k <= s.len(),
    ensures
        r matches Some(e) ==> clip_tail_end(s@, k as int) == Some(e as int),
        r is None ==> clip_tail_end(s@, k as int) is None,
{
    let name = chars_of("background-clip");
    let text = chars_of("text");
    proof {
        reveal_strlit("background-clip");
        reveal_strlit("text");
        assert(name@ =~= seq!['b', 'a', 'c', 'k', 'g', 'r', 'o', 'u', 'n', 'd', '-', 'c', 'l', 'i', 'p']);
        assert(text@ =~= seq!['t', 'e', 'x', 't']);
    }
    if !ci_occurs_at_exec(s, k, &name) {
        return None;
    }
    let a = ws_end_exec(s, k + 15);
    proof { lemma_ws_end(s@, k + 15); }
    if !(a < s.len() && s[a] == ':') {
        return None;
    }
    let b = ws_end_exec(s, a + 1);
    proof { lemma_ws_end(s@, a + 1); }
    if !ci_occurs_at_exec(s, b, &text) {
        return None;
    }
    let c = ws_end_exec(s, b + 4);
    proof { lemma_ws_end(s@, b + 4); }
    if c < s.len() && s[c] == ';' {
        Some(c + 1)
    } else {
        Some(c)
    }
}

fn clip_match_at_exec(s: &Vec<char>, j: usize) -> (r: Option<usize>)
    requires
        j < s.len(),
    ensures
        r matches Some(e) ==> clip_match_at(s@, j as int) == Some(e as int),
        r is None ==> clip_match_at(s@, j as int) is None,
{
    let webkit = chars_of("-webkit-");
    proof {
        reveal_strlit("-webkit-");
        assert(webkit@ =~= seq!['-', 'w', 'e', 'b', 'k', 'i', 't', '-']);
    }
    if ci_occurs_at_exec(s, j, &webkit) {
        match clip_tail_end_exec(s, j + 8) {
            Some(e) => {
                return Some(e);
            },
            None => {},
        }
    }
    clip_tail_end_exec(s, j)
}

fn strip_clip(s: &Vec<char>) -> (r: Vec<char>)
    ensures
        r@ == strip_clip_from(s@, 0),
{
    let mut out: Vec<char> = Vec::new();
    let mut i: usize = 0;
    while i < s.len()
        invariant
            i <= s.len(),
            out@ + strip_clip_from(s@, i as int) == strip_clip_from(s@, 0),
        decreases s.len() - i,
    {
        match clip_match_at_exec(s, i) {
            Some(e) => {
                proof {
                    lemma_clip_match_bounds(s@, i as int);
                }
                i = e;
            },
            None => {
                out.push(s[i]);
                assert(out@ + strip_clip_from(s@, i + 1) =~= strip_clip_from(s@, 0));
                i = i + 1;
            },
        }
    }
    assert(out@ + Seq::<char>::empty() == out@);
    out
}

/// Replaces each gradient function by its first colour and drops the
/// `background-clip: text` declarations that only made sense with it.
pub fn degrade_gradients_chars(v: &Vec<char>) -> (r: Vec<char>)
    requires
        degrade_gradients_spec(v@) is Some,
    ensures
        degrade_gradients_spec(v@) == Some(r@),
{
    let ghost total = degrade_from(v@, 0)->0;
    let mut out: Vec<char> = Vec::new();
    let mut i: usize = 0;
    while i < v.len()
        invariant
            i <= v.len(),
            degrade_from(v@, 0) == Some(total),
            degrade_from(v@, i as int) is Some,
            out@ + degrade_from(v@, i as int)->0 == total,
        decreases v.len() - i,
    {
        match next_gradient_exec(v, i) {
            None => {
                push_range(&mut out, v, i, v.len());
                assert(out@ + Seq::<char>::empty() == out@);
                i = v.len();
            },
            Some((f, n)) => {
                proof {
                    lemma_next_gradient(v@, i as int);
                }
                let paren = f + n - 1;
                match find_gradient_close(v, paren) {
                    Some(close) => {
                        proof {
                            lemma_paren_close(v@, paren as int, 0);
                        }
                        push_range(&mut out, v, i, f);
                        let rep = gradient_replacement_exec(v, f, paren, close);
                        push_all(&mut out, &rep);
                        i = close + 1;
                    },
                    None => {
                        push_range(&mut out, v, i, f + 16);
                        i = paren + 1;
                    },
                }
            },
        }
    }
    let r = strip_clip(&out);
    r
}


/// Replaces each gradient function by its first colour and drops the
/// `background-clip: text` declarations that only made sense with it.
pub fn degrade_gradients(html: &str) -> (r: String)
    requires
        degrade_gradients_spec(html@) is Some,
    ensures
        degrade_gradients_spec(html@) == Some(r@),
{
    let v = chars_of(html);
    let r = degrade_gradients_chars(&v);
    string_of(&r)
}

/// Whether the gradient pass can run on `v`: it stops only on an unclosed
/// `conic-gradient(` with nothing, or a multi-byte character, right after
/// its `(`.
pub fn gradients_supported_chars(v: &Vec<char>) -> (b: bool)
    ensures
        b == (degrade_gradients_spec(v@) is Some),
{
    let mut i: usize = 0;
    while i < v.len()
        invariant
            i <= v.len(),
            (degrade_from(v@, 0) is Some) == (degrade_from(v@, i as int) is Some),
        decreases v.len() - i,
    {
        match next_gradient_exec(v, i) {
            None => {
                return true;
            },
            Some((f, n)) => {
                proof {
                    lemma_next_gradient(v@, i as int);
                }
                let paren = f + n - 1;
                match find_gradient_close(v, paren) {
                    Some(close) => {
                        proof {
                            lemma_paren_close(v@, paren as int, 0);
                        }
                        i = close + 1;
                    },
                    None => {
                        if v.len() - f >= 16 && (n == 16 || (v[f + 15] as u32) < 0x80) {
                            i = paren + 1;
                        } else {
                            return false;
                        }
                    },
                }
            },
        }
    }
    true
}

/// Whether `degrade_gradients` can run on `html`.
pub fn gradients_supported(html: &str) -> (b: bool)
    ensures
        b == (degrade_gradients_spec(html@) is Some),
{
    gradients_supported_chars(&chars_of(html))
}

/// A colour function name: `rgb`, `rgba`, `hsl` or `hsla`.
pub open spec fn color_function_name(name: Seq<char>) -> bool {
    name == seq!['r', 'g', 'b'] || name == seq!['r', 'g', 'b', 'a'] || name == seq!['h', 's', 'l']
        || name == seq!['h', 's', 'l', 'a']
}

/// The first colour of gradient arguments that lead with text that cannot
/// start a colour (no `#`, `r` or `h`) and then a colour function (`rgb`,
/// `rgba`, `hsl` or `hsla`, white space, `(`, a non-empty argument text
/// without `)`, and `)`) is that whole function call.
#[verifier::spinoff_prover]
#[verifier::rlimit(40)]
pub proof fn lemma_first_color_function(pre: Seq<char>, name: Seq<char>, ws: Seq<char>, body: Seq<char>, post: Seq<char>)
    requires
        forall|j: int| 0 <= j < pre.len() ==> pre[j] != '#' && pre[j] != 'r' && pre[j] != 'h',
        color_function_name(name),
        forall|j: int| 0 <= j < ws.len() ==> is_white_space(#[trigger] ws[j]),
        body.len() > 0,
        forall|j: int| 0 <= j < body.len() ==> body[j] != ')',
    ensures
        first_color(pre + name + ws + seq!['('] + body + seq![')'] + post)
            == name + ws + seq!['('] + body + seq![')'],
{
    let c = name + ws + seq!['('] + body + seq![')'];
    let s = pre + c + post;
    let p = pre.len() as int;
    assert forall|i: int| 0 <= i < p implies color_match_at(s, i) is None by {
        assert(s[i] == pre[i]);
        if occurs_at(s, i, seq!['r', 'g', 'b']) {
            assert(s.subrange(i, i + 3)[0] == s[i]);
        }
        if occurs_at(s, i, seq!['h', 's', 'l']) {
            assert(s.subrange(i, i + 3)[0] == s[i]);
        }
    }
    assert forall|i: int| 0 <= i <= p implies find_color(s, i) == find_color(s, p) by {
        lemma_find_color_skip(s, i, p);
    }
    // the colour function at `p`
    let k2 = p + name.len();
    let w = k2 + ws.len();
    assert(s[p] == name[0]);
    assert(s[p] == name[0] && s[p + 1] == name[1] && s[p + 2] == name[2]);
    if name[0] == 'r' {
        assert(s.subrange(p, p + 3) =~= seq!['r', 'g', 'b']);
        assert(occurs_at(s, p, seq!['r', 'g', 'b']));
    } else {
        assert(s.subrange(p, p + 3) =~= seq!['h', 's', 'l']);
        assert(occurs_at(s, p, seq!['h', 's', 'l']));
    }
    assert(s[p] != '#');
    if name.len() == 4 {
        assert(s[p + 3] == 'a');
    } else {
        assert(s[p + 3] != 'a') by {
            if ws.len() > 0 {
                assert(s[p + 3] == ws[0]);
            } else {
                assert(s[p + 3] == '(');
            }
        }
    }
    assert forall|m: int| k2 <= m < w implies is_white_space(s[m]) by {
        assert(s[m] == ws[m - k2]);
    }
    assert(s[w] == '(');
    lemma_ws_run(s, k2, w);
    let r = w + 1 + body.len();
    assert(s[r] == ')');
    assert forall|m: int| w + 1 <= m < r implies s[m] != ')' by {
        assert(s[m] == body[m - w - 1]);
    }
    lemma_find_char_first(s, w + 1, r);
    assert(color_match_at(s, p) == Some(r + 1));
    assert(find_color(s, p) == Some((p, r + 1)));
    assert(find_color(s, 0) == find_color(s, p));
    assert(s.subrange(p, r + 1) =~= c);
    assert(s =~= pre + name + ws + seq!['('] + body + seq![')'] + post);
}

proof fn lemma_find_color_skip(s: Seq<char>, i: int, p: int)
    requires
        0 <= i <= p <= s.len(),
        forall|q: int| i <= q < p ==> color_match_at(s, q) is None,
    ensures
        find_color(s, i) == find_color(s, p),
    decreases p - i,
{
    if i < p {
        lemma_find_color_skip(s, i + 1, p);
    }
}

/// A run of white space from `a` to `b`, then a non-white-space character:
/// the white space ends at `b`.
proof fn lemma_ws_run(s: Seq<char>, a: int, b: int)
    requires
        0 <= a <= b < s.len(),
        forall|m: int| a <= m < b ==> is_white_space(s[m]),
        !is_white_space(s[b]),
    ensures
        ws_end(s, a) == b,
    decreases b - a,
{
    if a < b {
        lemma_ws_run(s, a + 1, b);
    }
}

/// The first `)` from `a` on is at `r` when none lies between.
proof fn lemma_find_char_first(s: Seq<char>, a: int, r: int)
    requires
        0 <= a <= r < s.len(),
        s[r] == ')',
        forall|m: int| a <= m < r ==> s[m] != ')',
    ensures
        find_from(s, seq![')'], a) == Some(r),
    decreases r - a,
{
    lemma_find_from(s, seq![')'], a);
    assert(occurs_at(s, r, seq![')'])) by {
        assert(s.subrange(r, r + 1) =~= seq![')']);
    }
    if a < r {
        assert(!occurs_at(s, a, seq![')'])) by {
            if occurs_at(s, a, seq![')']) {
                assert(s.subrange(a, a + 1)[0] == s[a]);
            }
        }
        lemma_find_char_first(s, a + 1, r);
    }
}

/// The first colour of gradient arguments that lead with text that cannot
/// start a colour and then `#` with three to eight hexadecimal digits (not
/// followed by another) is that hex colour.
pub proof fn lemma_first_color_hex(pre: Seq<char>, digits: Seq<char>, post: Seq<char>)
    requires
        forall|j: int| 0 <= j < pre.len() ==> pre[j] != '#' && pre[j] != 'r' && pre[j] != 'h',
        3 <= digits.len() <= 8,
        forall|j: int| 0 <= j < digits.len() ==> is_hex_digit(#[trigger] digits[j]),
        post.len() > 0 ==> !is_hex_digit(post[0]),
    ensures
        first_color(pre + seq!['#'] + digits + post) == seq!['#'] + digits,
{
    let s = pre + seq!['#'] + digits + post;
    let p = pre.len() as int;
    assert forall|i: int| 0 <= i < p implies color_match_at(s, i) is None by {
        assert(s[i] == pre[i]);
        if occurs_at(s, i, seq!['r', 'g', 'b']) {
            assert(s.subrange(i, i + 3)[0] == s[i]);
        }
        if occurs_at(s, i, seq!['h', 's', 'l']) {
            assert(s.subrange(i, i + 3)[0] == s[i]);
        }
    }
    lemma_find_color_skip(s, 0, p);
    assert(s[p] == '#');
    let e = p + 1 + digits.len();
    assert forall|m: int| p + 1 <= m < e implies is_hex_digit(s[m]) by {
        assert(s[m] == digits[m - p - 1]);
    }
    if e < s.len() {
        assert(s[e] == post[0]);
    }
    lemma_hex_run_exact(s, p + 1, e);
    assert(color_match_at(s, p) == Some(e));
    assert(find_color(s, p) == Some((p, e)));
    assert(s.subrange(p, e) =~= seq!['#'] + digits);
}

proof fn lemma_hex_run_exact(s: Seq<char>, a: int, e: int)
    requires
        0 <= a <= e <= s.len(),
        forall|m: int| a <= m < e ==> is_hex_digit(s[m]),
        e < s.len() ==> !is_hex_digit(s[e]),
    ensures
        hex_run(s, a) == e - a,
    decreases e - a,
{
    if a < e {
        lemma_hex_run_exact(s, a + 1, e);
    }
}

} // verus!
