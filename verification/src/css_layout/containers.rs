//! Container elements: opening tags, matching closing tags and direct children.
use vstd::prelude::*;
use vstd::string::StringSliceAdditionalSpecFns;
use crate::text::{
    lemma_find_char, is_ascii_white_exec,
    is_ascii_white, contains_exec, seq_views, trimmed_range, is_white_space, trim, ci_find_from_exec, ci_occurs_at_exec, find_from_exec, is_white_space_exec, lemma_find_from,
    lemma_trailing_ws_bound, occurs_at_exec, push_str, trailing_ws, ws_end_exec, chars_of, ci_eq, ci_find_from, ci_occurs_at, ends_with, find_from, lemma_ws_end, trim_end,
    ws_end, contains_seq, decimal, decimal_exec, lemma_decimal_injective, lemma_decimal_no_nul,
    lemma_replace_none, lemma_replace_skip, occurs_at, replace_from, push_all, push_range, replace_all, replace_all_exec,
    string_of,
};

verus! {

// ── Matching `<div class="…">` containers ───────────────────────────────

/// Whether `c` is a word character of regular expressions (`\w`):
/// Alphabetic, Join_Control, Decimal_Number, Mark or Connector_Punctuation.
pub uninterp spec fn regex_word_char(c: char) -> bool;

/// Calls `regex_syntax::is_word_character`, the `\w` class of the `regex`
/// crate. Claimed: the result is the named predicate `regex_word_char`,
/// which holds of the ASCII letters, digits and `_` and of no other ASCII
/// character.
#[verifier::external_body]
pub(crate) fn is_word_char(c: char) -> (b: bool)
    ensures
        b == regex_word_char(c),
        ('a' <= c <= 'z' || 'A' <= c <= 'Z' || '0' <= c <= '9' || c == '_') ==> b,
        ((c as u32) < 0x80 && !('a' <= c <= 'z' || 'A' <= c <= 'Z' || '0' <= c <= '9' || c
            == '_')) ==> !b,
{
    regex_syntax::is_word_character(c)
}

/// Whether a word character stands at `q` (outside the text counts as none).
pub open spec fn word_at(s: Seq<char>, q: int) -> bool {
    0 <= q < s.len() && regex_word_char(s[q])
}

/// A word boundary (`\b`) at position `p`.
pub open spec fn is_boundary(s: Seq<char>, p: int) -> bool {
    word_at(s, p - 1) != word_at(s, p)
}

/// A character that `[\w-]` matches.
pub open spec fn class_char(c: char) -> bool {
    regex_word_char(c) || c == '-'
}

/// End of the run of `[\w-]` characters starting at `i`.
pub open spec fn class_run_end(s: Seq<char>, i: int) -> int
    decreases s.len() - i,
{
    if 0 <= i < s.len() && class_char(s[i]) {
        class_run_end(s, i + 1)
    } else {
        i
    }
}

/// The class name that `\.([\w-]+)` captures at `j`.
pub open spec fn class_name_at(s: Seq<char>, j: int) -> Option<Seq<char>> {
    if 0 <= j && j + 1 < s.len() && s[j] == '.' && class_char(s[j + 1]) {
        Some(s.subrange(j + 1, class_run_end(s, j + 1)))
    } else {
        None
    }
}

/// The first class name of a selector (the leftmost `\.([\w-]+)`).
pub open spec fn selector_class_from(s: Seq<char>, j: int) -> Option<Seq<char>>
    decreases s.len() - j,
{
    if j < 0 || j >= s.len() {
        None
    } else {
        match class_name_at(s, j) {
            Some(c) => Some(c),
            None => selector_class_from(s, j + 1),
        }
    }
}

pub open spec fn selector_class(s: Seq<char>) -> Option<Seq<char>> {
    selector_class_from(s, 0)
}

pub proof fn lemma_class_run_end(s: Seq<char>, i: int)
    requires
        0 <= i <= s.len(),
    ensures
        i <= class_run_end(s, i) <= s.len(),
    decreases s.len() - i,
{
    if i < s.len() && class_char(s[i]) {
        lemma_class_run_end(s, i + 1);
    }
}

/// `cls` occurs as a whole word (`\bCLS\b`) somewhere in `s[q0..qe]`.
pub open spec fn class_in_value(s: Seq<char>, q0: int, qe: int, cls: Seq<char>) -> bool {
    exists|m: int|
        q0 <= m && m + cls.len() <= qe && #[trigger] occurs_at(s, m, cls) && is_boundary(s, m)
            && is_boundary(s, m + cls.len())
}

pub open spec fn class_attr_name() -> Seq<char> {
    seq!['c', 'l', 'a', 's', 's']
}

/// For a `class` attribute starting at `k` (`\bclass\s*=\s*"`) whose value
/// holds `cls` as a whole word, the index of the value's closing quote.
pub open spec fn class_attr_at(s: Seq<char>, k: int, cls: Seq<char>) -> Option<int> {
    if is_boundary(s, k) && occurs_at(s, k, class_attr_name()) {
        let a = ws_end(s, k + 5);
        if 0 <= a < s.len() && s[a] == '=' {
            let b = ws_end(s, a + 1);
            if 0 <= b < s.len() && s[b] == '"' {
                match find_from(s, seq!['"'], b + 1) {
                    Some(qe) => if class_in_value(s, b + 1, qe, cls) {
                        Some(qe)
                    } else {
                        None
                    },
                    None => None,
                }
            } else {
                None
            }
        } else {
            None
        }
    } else {
        None
    }
}

/// Trying `class` attribute positions from `k` down to `j + 4` (the
/// preference of the greedy `[^>]*`), the end of the opening tag.
pub open spec fn div_open_from(s: Seq<char>, j: int, k: int, cls: Seq<char>) -> Option<int>
    decreases k - j,
{
    if k < j + 4 {
        None
    } else {
        match class_attr_at(s, k, cls) {
            Some(qe) => match find_from(s, seq!['>'], qe + 1) {
                Some(h) => Some(h + 1),
                None => div_open_from(s, j, k - 1, cls),
            },
            None => div_open_from(s, j, k - 1, cls),
        }
    }
}

/// End of the match of
/// `<div\b[^>]*\bclass\s*=\s*"[^"]*\bCLS\b[^"]*"[^>]*>` at `j`.
pub open spec fn div_open_at(s: Seq<char>, j: int, cls: Seq<char>) -> Option<int> {
    if occurs_at(s, j, seq!['<', 'd', 'i', 'v']) && is_boundary(s, j + 4) {
        let g = match find_from(s, seq!['>'], j + 4) {
            Some(g) => g,
            None => s.len() as int,
        };
        div_open_from(s, j, g, cls)
    } else {
        None
    }
}

/// The leftmost opening tag of a `cls` container at or after `i`.
pub open spec fn find_div_open(s: Seq<char>, i: int, cls: Seq<char>) -> Option<(int, int)>
    decreases s.len() + 1 - i,
{
    if i < 0 || i > s.len() {
        None
    } else {
        match div_open_at(s, i, cls) {
            Some(e) => Some((i, e)),
            None => find_div_open(s, i + 1, cls),
        }
    }
}

pub proof fn lemma_div_open_from(s: Seq<char>, j: int, k: int, cls: Seq<char>)
    requires
        0 <= j,
    ensures
        div_open_from(s, j, k, cls) matches Some(e) ==> j + 4 < e <= s.len(),
    decreases k - j,
{
    if k >= j + 4 {
        match class_attr_at(s, k, cls) {
            Some(qe) => {
                lemma_find_from(s, seq!['>'], qe + 1);
                lemma_div_open_from(s, j, k - 1, cls);
                let a = ws_end(s, k + 5);
                lemma_ws_end(s, k + 5);
                let b = ws_end(s, a + 1);
                lemma_ws_end(s, a + 1);
                lemma_find_from(s, seq!['"'], b + 1);
            },
            None => {
                lemma_div_open_from(s, j, k - 1, cls);
            },
        }
    }
}

pub proof fn lemma_find_div_open(s: Seq<char>, i: int, cls: Seq<char>)
    requires
        0 <= i,
    ensures
        find_div_open(s, i, cls) matches Some((j, e)) ==> i <= j && j + 4 < e <= s.len(),
    decreases s.len() + 1 - i,
{
    if i <= s.len() {
        if occurs_at(s, i, seq!['<', 'd', 'i', 'v']) && is_boundary(s, i + 4) {
            let g = match find_from(s, seq!['>'], i + 4) {
                Some(g) => g,
                None => s.len() as int,
            };
            lemma_div_open_from(s, i, g, cls);
        }
        if div_open_at(s, i, cls) is None {
            lemma_find_div_open(s, i + 1, cls);
        }
    }
}

/// Scanning from `i` with `depth` `<div` elements open, the index of the
/// `</div>` that closes them.
pub open spec fn close_div_from(s: Seq<char>, i: int, depth: int) -> Option<int>
    decreases s.len() - i,
{
    if i < 0 || i >= s.len() {
        None
    } else {
        let d1 = if occurs_at(s, i, seq!['<', 'd', 'i', 'v']) && (i + 4 >= s.len()
            || is_ascii_white(s[i + 4]) || s[i + 4] == '>') {
            depth + 1
        } else {
            depth
        };
        if occurs_at(s, i, seq!['<', '/', 'd', 'i', 'v', '>']) {
            if d1 - 1 == 0 {
                Some(i)
            } else {
                close_div_from(s, i + 1, d1 - 1)
            }
        } else {
            close_div_from(s, i + 1, d1)
        }
    }
}

/// The `</div>` that matches the `<div` at `open_pos`.
pub open spec fn matching_close_div(s: Seq<char>, open_pos: int) -> Option<int> {
    close_div_from(s, open_pos, 0)
}

pub proof fn lemma_close_div_from(s: Seq<char>, i: int, depth: int)
    ensures
        close_div_from(s, i, depth) matches Some(c) ==> i <= c && c + 6 <= s.len(),
    decreases s.len() - i,
{
    if 0 <= i < s.len() {
        let d1 = if occurs_at(s, i, seq!['<', 'd', 'i', 'v']) && (i + 4 >= s.len()
            || is_ascii_white(s[i + 4]) || s[i + 4] == '>') {
            depth + 1
        } else {
            depth
        };
        lemma_close_div_from(s, i + 1, d1);
        lemma_close_div_from(s, i + 1, d1 - 1);
    }
}

// ── Direct children of a container ──────────────────────────────────────

/// End of the run of ASCII white space starting at `i`.
pub open spec fn ascii_ws_end(s: Seq<char>, i: int) -> int
    decreases s.len() - i,
{
    if 0 <= i < s.len() && is_ascii_white(s[i]) {
        ascii_ws_end(s, i + 1)
    } else {
        i
    }
}

pub proof fn lemma_ascii_ws_end(s: Seq<char>, i: int)
    requires
        0 <= i <= s.len(),
    ensures
        i <= ascii_ws_end(s, i) <= s.len(),
    decreases s.len() - i,
{
    if i < s.len() && is_ascii_white(s[i]) {
        lemma_ascii_ws_end(s, i + 1);
    }
}

/// End of a child `<div>` element: scanning from `i` with `depth` open
/// elements, just past the `</div>` that closes the outermost one, or the
/// end of the text.
pub open spec fn child_div_end(b: Seq<char>, i: int, depth: int) -> int
    decreases b.len() - i,
{
    if i < 0 || i >= b.len() {
        b.len() as int
    } else {
        let d1 = if i + 4 < b.len() && occurs_at(b, i, seq!['<', 'd', 'i', 'v']) && (
        is_ascii_white(b[i + 4]) || b[i + 4] == '>') {
            depth + 1
        } else {
            depth
        };
        if i + 6 < b.len() && occurs_at(b, i, seq!['<', '/', 'd', 'i', 'v', '>']) {
            if d1 - 1 == 0 {
                i + 6
            } else {
                child_div_end(b, i + 1, d1 - 1)
            }
        } else {
            child_div_end(b, i + 1, d1)
        }
    }
}

pub proof fn lemma_child_div_end(b: Seq<char>, i: int, depth: int)
    requires
        0 <= i <= b.len(),
    ensures
        i <= child_div_end(b, i, depth) <= b.len(),
        i < b.len() ==> i < child_div_end(b, i, depth),
    decreases b.len() - i,
{
    if i < b.len() {
        let d1 = if i + 4 < b.len() && occurs_at(b, i, seq!['<', 'd', 'i', 'v']) && (
        is_ascii_white(b[i + 4]) || b[i + 4] == '>') {
            depth + 1
        } else {
            depth
        };
        lemma_child_div_end(b, i + 1, d1);
        lemma_child_div_end(b, i + 1, d1 - 1);
    }
}

/// The direct children of a container body from `i` on: each top-level
/// `<div>…</div>` element, and each non-blank text run (trimmed); other
/// tags are skipped.
pub open spec fn children_from(b: Seq<char>, i: int) -> Seq<Seq<char>>
    decreases b.len() - i,
{
    if i < 0 || i >= b.len() {
        Seq::empty()
    } else {
        let a = ascii_ws_end(b, i);
        if a >= b.len() {
            Seq::empty()
        } else {
            proof {
                lemma_ascii_ws_end(b, i);
            }
            if a + 4 < b.len() && occurs_at(b, a, seq!['<', 'd', 'i', 'v']) {
                proof {
                    lemma_child_div_end(b, a, 0);
                }
                let e = child_div_end(b, a, 0);
                seq![b.subrange(a, e)] + children_from(b, e)
            } else if b[a] == '<' {
                proof {
                    lemma_find_from(b, seq!['>'], a);
                }
                let next = match find_from(b, seq!['>'], a) {
                    Some(g) => g + 1,
                    None => b.len() as int,
                };
                children_from(b, next)
            } else {
                proof {
                    lemma_find_from(b, seq!['<'], a);
                    if find_from(b, seq!['<'], a) == Some(a) {
                        assert(b.subrange(a, a + 1)[0] == b[a]);
                    }
                }
                let t = match find_from(b, seq!['<'], a) {
                    Some(t) => t,
                    None => b.len() as int,
                };
                let text = trim(b.subrange(a, t));
                if text.len() > 0 {
                    seq![text] + children_from(b, t)
                } else {
                    children_from(b, t)
                }
            }
        }
    }
}

pub open spec fn direct_children(b: Seq<char>) -> Seq<Seq<char>> {
    children_from(b, 0)
}


// ── Executable matchers ─────────────────────────────────────────────────

fn class_char_exec(c: char) -> (b: bool)
    ensures
        b == class_char(c),
{
    c == '-' || is_word_char(c)
}

/// The first class name of a CSS selector (`\.([\w-]+)`).
pub fn selector_class_exec(s: &Vec<char>) -> (r: Option<Vec<char>>)
    ensures
        r matches Some(c) ==> selector_class(s@) == Some(c@),
        r is None ==> selector_class(s@) is None,
{
    let mut j: usize = 0;
    while j < s.len()
        invariant
            j <= s.len(),
            selector_class(s@) == selector_class_from(s@, j as int),
        decreases s.len() - j,
    {
        if j + 1 < s.len() && s[j] == '.' && class_char_exec(s[j + 1]) {
            let mut e = j + 1;
            while e < s.len() && class_char_exec(s[e])
                invariant
                    j + 1 <= e <= s.len(),
                    class_run_end(s@, j + 1) == class_run_end(s@, e as int),
                decreases s.len() - e,
            {
                e = e + 1;
            }
            let mut c: Vec<char> = Vec::new();
            push_range(&mut c, s, j + 1, e);
            return Some(c);
        }
        j = j + 1;
    }
    None
}

fn word_at_exec(s: &Vec<char>, q: usize) -> (b: bool)
    ensures
        b == word_at(s@, q as int),
{
    q < s.len() && is_word_char(s[q])
}

fn is_boundary_exec(s: &Vec<char>, p: usize) -> (b: bool)
    ensures
        b == is_boundary(s@, p as int),
{
    let before = p > 0 && word_at_exec(s, p - 1);
    before != word_at_exec(s, p)
}

fn class_in_value_exec(s: &Vec<char>, q0: usize, qe: usize, cls: &Vec<char>) -> (b: bool)
    requires
        q0 <= qe <= s.len(),
    ensures
        b == class_in_value(s@, q0 as int, qe as int, cls@),
{
    let mut m = q0;
    while m < qe
        invariant
            q0 <= m <= qe,
            qe <= s.len(),
            forall|m2: int|
                q0 <= m2 < m ==> !(m2 + cls@.len() <= qe && #[trigger] occurs_at(s@, m2, cls@)
                    && is_boundary(s@, m2) && is_boundary(s@, m2 + cls@.len())),
        decreases qe - m,
    {
        if cls.len() <= qe - m && occurs_at_exec(s, m, cls) && is_boundary_exec(s, m)
            && is_boundary_exec(s, m + cls.len()) {
            return true;
        }
        m = m + 1;
    }
    cls.len() == 0 && occurs_at_exec(s, m, cls) && is_boundary_exec(s, m) && is_boundary_exec(s, m)
}

fn class_attr_at_exec(s: &Vec<char>, k: usize, cls: &Vec<char>) -> (r: Option<usize>)
    requires
        k <= s.len(),
    ensures
        r matches Some(qe) ==> class_attr_at(s@, k as int, cls@) == Some(qe as int),
        r is None ==> class_attr_at(s@, k as int, cls@) is None,
{
    let name = chars_of("class");
    proof {
        reveal_strlit("class");
        assert(name@ =~= class_attr_name());
    }
    if !(is_boundary_exec(s, k) && occurs_at_exec(s, k, &name)) {
        return None;
    }
    let a = ws_end_exec(s, k + 5);
    proof { lemma_ws_end(s@, k + 5); }
    if !(a < s.len() && s[a] == '=') {
        return None;
    }
    let b = ws_end_exec(s, a + 1);
    proof { lemma_ws_end(s@, a + 1); }
    if !(b < s.len() && s[b] == '"') {
        return None;
    }
    let quote = vec!['"'];
    assert(quote@ =~= seq!['"']);
    match find_from_exec(s, &quote, b + 1) {
        Some(qe) => {
            proof { lemma_find_from(s@, seq!['"'], b + 1); }
            if class_in_value_exec(s, b + 1, qe, cls) {
                Some(qe)
            } else {
                None
            }
        },
        None => None,
    }
}

fn div_open_at_exec(s: &Vec<char>, j: usize, cls: &Vec<char>) -> (r: Option<usize>)
    requires
        j <= s.len(),
    ensures
        r matches Some(e) ==> div_open_at(s@, j as int, cls@) == Some(e as int),
        r is None ==> div_open_at(s@, j as int, cls@) is None,
{
    let div = chars_of("<div");
    proof {
        reveal_strlit("<div");
        assert(div@ =~= seq!['<', 'd', 'i', 'v']);
    }
    if !occurs_at_exec(s, j, &div) {
        return None;
    }
    if !is_boundary_exec(s, j + 4) {
        return None;
    }
    let gt = vec!['>'];
    assert(gt@ =~= seq!['>']);
    let g = match find_from_exec(s, &gt, j + 4) {
        Some(g) => {
            proof { lemma_find_from(s@, seq!['>'], j + 4); }
            g
        },
        None => s.len(),
    };
    let mut k = g;
    while k >= j + 4
        invariant
            j + 4 <= s.len(),
            k <= s.len(),
            div_open_at(s@, j as int, cls@) == div_open_from(s@, j as int, k as int, cls@),
            gt@ == seq!['>'],
        decreases k,
    {
        match class_attr_at_exec(s, k, cls) {
            Some(qe) => {
                proof {
                    let a = ws_end(s@, k + 5);
                    lemma_ws_end(s@, k + 5);
                    let b = ws_end(s@, a + 1);
                    lemma_ws_end(s@, a + 1);
                    lemma_find_from(s@, seq!['"'], b + 1);
                }
                match find_from_exec(s, &gt, qe + 1) {
                    Some(h) => {
                        proof { lemma_find_from(s@, seq!['>'], qe + 1); }
                        return Some(h + 1);
                    },
                    None => {},
                }
            },
            None => {},
        }
        if k == 0 {
            return None;
        }
        k = k - 1;
    }
    None
}

/// The leftmost opening tag of a `cls` container at or after `i`.
pub fn find_div_open_exec(s: &Vec<char>, i: usize, cls: &Vec<char>) -> (r: Option<(usize, usize)>)
    requires
        i <= s.len(),
    ensures
        r matches Some((j, e)) ==> find_div_open(s@, i as int, cls@) == Some((j as int, e as int)),
        r is None ==> find_div_open(s@, i as int, cls@) is None,
{
    let mut j = i;
    while j < s.len()
        invariant
            i <= j <= s.len(),
            find_div_open(s@, i as int, cls@) == find_div_open(s@, j as int, cls@),
        decreases s.len() - j,
    {
        match div_open_at_exec(s, j, cls) {
            Some(e) => {
                return Some((j, e));
            },
            None => {},
        }
        j = j + 1;
    }
    match div_open_at_exec(s, j, cls) {
        Some(e) => Some((j, e)),
        None => {
            assert(find_div_open(s@, j + 1, cls@) is None);
            None
        },
    }
}

/// Position of the `</div>` that closes the `<div` at `open_pos`.
pub fn find_matching_close_div_chars(s: &Vec<char>, open_pos: usize) -> (r: Option<usize>)
    requires
        open_pos <= s.len(),
    ensures
        r matches Some(c) ==> matching_close_div(s@, open_pos as int) == Some(c as int),
        r is None ==> matching_close_div(s@, open_pos as int) is None,
{
    let div = chars_of("<div");
    let close = chars_of("</div>");
    proof {
        reveal_strlit("<div");
        reveal_strlit("</div>");
        assert(div@ =~= seq!['<', 'd', 'i', 'v']);
        assert(close@ =~= seq!['<', '/', 'd', 'i', 'v', '>']);
    }
    let mut opens: usize = 0;
    let mut closes: usize = 0;
    let mut i = open_pos;
    while i < s.len()
        invariant
            open_pos <= i <= s.len(),
            opens <= i - open_pos,
            closes <= i - open_pos,
            close_div_from(s@, i as int, opens - closes) == close_div_from(s@, open_pos as int, 0),
            div@ == seq!['<', 'd', 'i', 'v'],
            close@ == seq!['<', '/', 'd', 'i', 'v', '>'],
        decreases s.len() - i,
    {
        if occurs_at_exec(s, i, &div) && (s.len() - i <= 4 || is_ascii_white_exec(s[i + 4]) || s[i
            + 4] == '>') {
            opens = opens + 1;
        }
        if occurs_at_exec(s, i, &close) {
            if opens == closes + 1 {
                return Some(i);
            }
            closes = closes + 1;
        }
        i = i + 1;
    }
    None
}

/// The direct children of a container body: each top-level `<div>`
/// element, and each non-blank text run (trimmed).
pub fn extract_direct_children_divs(b: &Vec<char>) -> (r: Vec<Vec<char>>)
    ensures
        seq_views(r@) == direct_children(b@),
{
    let div = chars_of("<div");
    let close = chars_of("</div>");
    proof {
        reveal_strlit("<div");
        reveal_strlit("</div>");
        assert(div@ =~= seq!['<', 'd', 'i', 'v']);
        assert(close@ =~= seq!['<', '/', 'd', 'i', 'v', '>']);
    }
    let mut out: Vec<Vec<char>> = Vec::new();
    let mut i: usize = 0;
    while i < b.len()
        invariant
            i <= b.len(),
            div@ == seq!['<', 'd', 'i', 'v'],
            close@ == seq!['<', '/', 'd', 'i', 'v', '>'],
            seq_views(out@) + children_from(b@, i as int) == direct_children(b@),
        decreases b.len() - i,
    {
        let mut a = i;
        while a < b.len() && is_ascii_white_exec(b[a])
            invariant
                i <= a <= b.len(),
                ascii_ws_end(b@, i as int) == ascii_ws_end(b@, a as int),
            decreases b.len() - a,
        {
            a = a + 1;
        }
        if a >= b.len() {
            assert(seq_views(out@) + Seq::<Seq<char>>::empty() == seq_views(out@));
            return out;
        }
        let ghost before = seq_views(out@);
        if b.len() - a > 4 && occurs_at_exec(b, a, &div) {
            let mut opens: usize = 0;
            let mut closes: usize = 0;
            let mut j = a;
            let mut end = b.len();
            let mut done = false;
            while j < b.len() && !done
                invariant
                    a <= j <= b.len(),
                    opens <= j - a,
                    closes <= j - a,
                    !done ==> end == b.len(),
                    !done ==> child_div_end(b@, j as int, opens - closes) == child_div_end(b@, a as int, 0),
                    done ==> end == child_div_end(b@, a as int, 0),
                    div@ == seq!['<', 'd', 'i', 'v'],
                    close@ == seq!['<', '/', 'd', 'i', 'v', '>'],
                decreases b.len() - j + if done { 0int } else { 1int },
            {
                if b.len() - j > 4 && occurs_at_exec(b, j, &div) && (is_ascii_white_exec(b[j + 4])
                    || b[j + 4] == '>') {
                    opens = opens + 1;
                }
                if b.len() - j > 6 && occurs_at_exec(b, j, &close) && opens == closes + 1 {
                    end = j + 6;
                    done = true;
                } else {
                    if b.len() - j > 6 && occurs_at_exec(b, j, &close) {
                        closes = closes + 1;
                    }
                    j = j + 1;
                }
            }
            proof { lemma_child_div_end(b@, a as int, 0); }
            assert(end == child_div_end(b@, a as int, 0));
            assert(children_from(b@, i as int) == seq![b@.subrange(a as int, end as int)] + children_from(b@, end as int));
            let mut child: Vec<char> = Vec::new();
            push_range(&mut child, b, a, end);
            out.push(child);
            assert(seq_views(out@) =~= before.push(b@.subrange(a as int, end as int)));
            i = end;
        } else if b[a] == '<' {
            let mut g = a;
            while g < b.len() && b[g] != '>'
                invariant
                    a <= g <= b.len(),
                    forall|q: int| a <= q < g ==> b@[q] != '>',
                decreases b.len() - g,
            {
                g = g + 1;
            }
            proof {
                lemma_find_char(b@, '>', a as int, g as int);
            }
            let next = if g < b.len() { g + 1 } else { b.len() };
            assert(children_from(b@, i as int) == children_from(b@, next as int));
            i = next;
        } else {
            let mut t = a;
            while t < b.len() && b[t] != '<'
                invariant
                    a <= t <= b.len(),
                    forall|q: int| a <= q < t ==> b@[q] != '<',
                decreases b.len() - t,
            {
                t = t + 1;
            }
            proof {
                lemma_find_char(b@, '<', a as int, t as int);
            }
            let text = trimmed_range(b, a, t);
            assert(children_from(b@, i as int) == if text@.len() > 0 { seq![text@] + children_from(b@, t as int) } else { children_from(b@, t as int) });
            if text.len() > 0 {
                out.push(text);
                assert(seq_views(out@) =~= before.push(trim(b@.subrange(a as int, t as int))));
            }
            i = t;
        }
    }
    assert(seq_views(out@) + Seq::<Seq<char>>::empty() == seq_views(out@));
    out
}


/// `p` occurs in the byte string `s` at `i`.
pub open spec fn bytes_at(s: Seq<u8>, i: int, p: Seq<u8>) -> bool {
    0 <= i && i + p.len() <= s.len() && s.subrange(i, i + p.len()) == p
}

/// ASCII white space as a byte (`u8::is_ascii_whitespace`).
pub open spec fn is_ascii_white_byte(b: u8) -> bool {
    b == 0x20 || b == 0x09 || b == 0x0a || b == 0x0c || b == 0x0d
}

/// `close_div_from` over the UTF-8 bytes of a document.
pub open spec fn close_div_from_bytes(s: Seq<u8>, i: int, depth: int) -> Option<int>
    decreases s.len() - i,
{
    if i < 0 || i >= s.len() {
        None
    } else {
        let d1 = if bytes_at(s, i, seq![0x3cu8, 0x64u8, 0x69u8, 0x76u8]) && (i + 4 >= s.len()
            || is_ascii_white_byte(s[i + 4]) || s[i + 4] == 0x3eu8) {
            depth + 1
        } else {
            depth
        };
        if bytes_at(s, i, seq![0x3cu8, 0x2fu8, 0x64u8, 0x69u8, 0x76u8, 0x3eu8]) {
            if d1 - 1 == 0 {
                Some(i)
            } else {
                close_div_from_bytes(s, i + 1, d1 - 1)
            }
        } else {
            close_div_from_bytes(s, i + 1, d1)
        }
    }
}

fn bytes_at_exec(s: &[u8], i: usize, p: &[u8]) -> (b: bool)
    ensures
        b == bytes_at(s@, i as int, p@),
{
    if i > s.len() || p.len() > s.len() - i {
        return false;
    }
    let mut k: usize = 0;
    while k < p.len()
        invariant
            i + p.len() <= s.len(),
            k <= p.len(),
            forall|j: int| 0 <= j < k ==> s@[i + j] == p@[j],
        decreases p.len() - k,
    {
        if s[i + k] != p[k] {
            assert(s@.subrange(i as int, i + p.len())[k as int] != p@[k as int]);
            return false;
        }
        k = k + 1;
    }
    assert(s@.subrange(i as int, i + p.len()) =~= p@);
    true
}

/// Byte offset of the `</div>` that closes the `<div` at byte offset
/// `open_pos` of `html`.
pub fn find_matching_close_div(html: &str, open_pos: usize) -> (r: Option<usize>)
    ensures
        r matches Some(c) ==> close_div_from_bytes(html.spec_bytes(), open_pos as int, 0) == Some(c as int),
        r is None ==> close_div_from_bytes(html.spec_bytes(), open_pos as int, 0) is None,
{
    let s = html.as_bytes();
    let div: [u8; 4] = [0x3c, 0x64, 0x69, 0x76];
    let close: [u8; 6] = [0x3c, 0x2f, 0x64, 0x69, 0x76, 0x3e];
    assert(div@ =~= seq![0x3cu8, 0x64u8, 0x69u8, 0x76u8]);
    assert(close@ =~= seq![0x3cu8, 0x2fu8, 0x64u8, 0x69u8, 0x76u8, 0x3eu8]);
    let mut opens: usize = 0;
    let mut closes: usize = 0;
    let mut i = open_pos;
    if i >= s.len() {
        return None;
    }
    while i < s.len()
        invariant
            open_pos <= i <= s.len(),
            opens <= i - open_pos,
            closes <= i - open_pos,
            s@ == html.spec_bytes(),
            close_div_from_bytes(s@, i as int, opens - closes) == close_div_from_bytes(s@, open_pos as int, 0),
            div@ == seq![0x3cu8, 0x64u8, 0x69u8, 0x76u8],
            close@ == seq![0x3cu8, 0x2fu8, 0x64u8, 0x69u8, 0x76u8, 0x3eu8],
        decreases s.len() - i,
    {
        if bytes_at_exec(s, i, &div) && (s.len() - i <= 4 || s[i + 4] == 0x20 || s[i + 4] == 0x09
            || s[i + 4] == 0x0a || s[i + 4] == 0x0c || s[i + 4] == 0x0d || s[i + 4] == 0x3e) {
            opens = opens + 1;
        }
        if bytes_at_exec(s, i, &close) {
            if opens == closes + 1 {
                return Some(i);
            }
            closes = closes + 1;
        }
        i = i + 1;
    }
    None
}

} // verus!
