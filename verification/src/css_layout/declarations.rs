//! Removing container declarations that the table conversion made useless:
//! whole lines such as `display: grid;` or `flex-wrap: wrap;`.
use vstd::prelude::*;
use crate::text::{
    chars_of, find_from, find_from_exec, lemma_find_char, lemma_find_from, lemma_ws_end,
    occurs_at, occurs_at_exec, ws_end, ws_end_exec,
};

verus! {

/// A line starts at `j`.
pub open spec fn line_start(s: Seq<char>, j: int) -> bool {
    j == 0 || (0 < j <= s.len() && s[j - 1] == '\n')
}

/// The last newline in `s[a..b]`.
pub open spec fn last_newline(s: Seq<char>, a: int, b: int) -> Option<int>
    decreases b - a,
{
    if b <= a {
        None
    } else if 0 <= b - 1 < s.len() && s[b - 1] == '\n' {
        Some(b - 1)
    } else {
        last_newline(s, a, b - 1)
    }
}

/// Where `\s*;?\s*$` (multi-line, greedy) ends when it starts at `p`.
pub open spec fn decl_tail_end(s: Seq<char>, p: int) -> Option<int> {
    let p1 = ws_end(s, p);
    if p1 < s.len() && s[p1] == ';' {
        let p2 = ws_end(s, p1 + 1);
        if p2 == s.len() {
            Some(s.len() as int)
        } else {
            match last_newline(s, p1 + 1, p2) {
                Some(q) => Some(q),
                None => last_newline(s, p, p1),
            }
        }
    } else if p1 == s.len() {
        Some(s.len() as int)
    } else {
        last_newline(s, p, p1)
    }
}

pub open spec fn display_name() -> Seq<char> {
    seq!['d', 'i', 's', 'p', 'l', 'a', 'y']
}

/// End of the match of `(?m)^\s*display\s*:\s*VALUE\s*;?\s*$` at `j`.
pub open spec fn display_line_at(s: Seq<char>, j: int, value: Seq<char>) -> Option<int> {
    if line_start(s, j) {
        let d = ws_end(s, j);
        if occurs_at(s, d, display_name()) {
            let a = ws_end(s, d + 7);
            if 0 <= a < s.len() && s[a] == ':' {
                let b = ws_end(s, a + 1);
                if occurs_at(s, b, value) {
                    decl_tail_end(s, b + value.len())
                } else {
                    None
                }
            } else {
                None
            }
        } else {
            None
        }
    } else {
        None
    }
}

/// End of the match of `(?m)^\s*NAME\s*:[^;]*;\s*$` at `j`.
pub open spec fn name_line_at(s: Seq<char>, j: int, name: Seq<char>) -> Option<int> {
    if line_start(s, j) {
        let d = ws_end(s, j);
        if occurs_at(s, d, name) {
            let a = ws_end(s, d + name.len());
            if 0 <= a < s.len() && s[a] == ':' {
                match find_from(s, seq![';'], a + 1) {
                    Some(semi) => {
                        let p2 = ws_end(s, semi + 1);
                        if p2 == s.len() {
                            Some(s.len() as int)
                        } else {
                            last_newline(s, semi + 1, p2)
                        }
                    },
                    None => None,
                }
            } else {
                None
            }
        } else {
            None
        }
    } else {
        None
    }
}

/// Which declaration a removal pass looks for: `display: VALUE` lines
/// (`true`) or `NAME: …;` lines (`false`).
pub open spec fn decl_line_at(s: Seq<char>, j: int, display: bool, word: Seq<char>) -> Option<int> {
    if display {
        display_line_at(s, j, word)
    } else {
        name_line_at(s, j, word)
    }
}

pub proof fn lemma_last_newline(s: Seq<char>, a: int, b: int)
    ensures
        last_newline(s, a, b) matches Some(q) ==> a <= q < b,
    decreases b - a,
{
    if b > a && !(0 <= b - 1 < s.len() && s[b - 1] == '\n') {
        lemma_last_newline(s, a, b - 1);
    }
}

pub proof fn lemma_decl_line_bounds(s: Seq<char>, j: int, display: bool, word: Seq<char>)
    requires
        0 <= j <= s.len(),
        word.len() > 0,
    ensures
        decl_line_at(s, j, display, word) matches Some(e) ==> j < e <= s.len(),
{
    let d = ws_end(s, j);
    lemma_ws_end(s, j);
    if occurs_at(s, d, if display { display_name() } else { word }) {
        let n = if display { 7int } else { word.len() as int };
        let a = ws_end(s, d + n);
        lemma_ws_end(s, d + n);
        if 0 <= a < s.len() && s[a] == ':' {
            lemma_ws_end(s, a + 1);
            let b = ws_end(s, a + 1);
            if display && occurs_at(s, b, word) {
                let p = b + word.len();
                lemma_ws_end(s, p);
                let p1 = ws_end(s, p);
                lemma_last_newline(s, p, p1);
                if p1 < s.len() {
                    lemma_ws_end(s, p1 + 1);
                    lemma_last_newline(s, p1 + 1, ws_end(s, p1 + 1));
                }
            }
            if !display {
                lemma_find_from(s, seq![';'], a + 1);
                match find_from(s, seq![';'], a + 1) {
                    Some(semi) => {
                        lemma_ws_end(s, semi + 1);
                        lemma_last_newline(s, semi + 1, ws_end(s, semi + 1));
                    },
                    None => {},
                }
            }
        }
    }
}

/// `s` from `i` on with every matching declaration line removed.
pub open spec fn strip_decl_from(s: Seq<char>, i: int, display: bool, word: Seq<char>) -> Seq<char>
    decreases s.len() - i,
{
    if i < 0 || i >= s.len() || word.len() == 0 {
        if 0 <= i < s.len() { s.subrange(i, s.len() as int) } else { Seq::empty() }
    } else {
        match decl_line_at(s, i, display, word) {
            Some(e) => {
                proof {
                    lemma_decl_line_bounds(s, i, display, word);
                }
                strip_decl_from(s, e, display, word)
            },
            None => seq![s[i]] + strip_decl_from(s, i + 1, display, word),
        }
    }
}

fn last_newline_exec(s: &Vec<char>, a: usize, b: usize) -> (r: Option<usize>)
    requires
        b <= s.len(),
    ensures
        r matches Some(q) ==> last_newline(s@, a as int, b as int) == Some(q as int),
        r is None ==> last_newline(s@, a as int, b as int) is None,
{
    let mut k = b;
    while k > a
        invariant
            k <= b <= s.len(),
            last_newline(s@, a as int, b as int) == last_newline(s@, a as int, k as int),
        decreases k,
    {
        if s[k - 1] == '\n' {
            return Some(k - 1);
        }
        k = k - 1;
    }
    None
}

fn decl_tail_end_exec(s: &Vec<char>, p: usize) -> (r: Option<usize>)
    requires
        p <= s.len(),
    ensures
        r matches Some(e) ==> decl_tail_end(s@, p as int) == Some(e as int),
        r is None ==> decl_tail_end(s@, p as int) is None,
{
    let p1 = ws_end_exec(s, p);
    proof { lemma_ws_end(s@, p as int); }
    if p1 < s.len() && s[p1] == ';' {
        let p2 = ws_end_exec(s, p1 + 1);
        proof { lemma_ws_end(s@, p1 + 1); }
        if p2 == s.len() {
            Some(s.len())
        } else {
            match last_newline_exec(s, p1 + 1, p2) {
                Some(q) => Some(q),
                None => last_newline_exec(s, p, p1),
            }
        }
    } else if p1 == s.len() {
        Some(s.len())
    } else {
        last_newline_exec(s, p, p1)
    }
}

fn decl_line_at_exec(s: &Vec<char>, j: usize, display: bool, word: &Vec<char>) -> (r: Option<usize>)
    requires
        j <= s.len(),
    ensures
        r matches Some(e) ==> decl_line_at(s@, j as int, display, word@) == Some(e as int),
        r is None ==> decl_line_at(s@, j as int, display, word@) is None,
{
    if !(j == 0 || s[j - 1] == '\n') {
        return None;
    }
    let d = ws_end_exec(s, j);
    proof { lemma_ws_end(s@, j as int); }
    let disp = chars_of("display");
    proof {
        reveal_strlit("display");
        assert(disp@ =~= display_name());
    }
    let name_ok = if display { occurs_at_exec(s, d, &disp) } else { occurs_at_exec(s, d, word) };
    if !name_ok {
        return None;
    }
    let n = if display { 7 } else { word.len() };
    let a = ws_end_exec(s, d + n);
    proof { lemma_ws_end(s@, d + n); }
    if !(a < s.len() && s[a] == ':') {
        return None;
    }
    if display {
        let b = ws_end_exec(s, a + 1);
        proof { lemma_ws_end(s@, a + 1); }
        if occurs_at_exec(s, b, word) {
            decl_tail_end_exec(s, b + word.len())
        } else {
            None
        }
    } else {
        let semi = vec![';'];
        assert(semi@ =~= seq![';']);
        match find_from_exec(s, &semi, a + 1) {
            Some(sp) => {
                proof { lemma_find_from(s@, seq![';'], a + 1); }
                let p2 = ws_end_exec(s, sp + 1);
                proof { lemma_ws_end(s@, sp + 1); }
                if p2 == s.len() {
                    Some(s.len())
                } else {
                    last_newline_exec(s, sp + 1, p2)
                }
            },
            None => None,
        }
    }
}

/// Removes every declaration line that the pass looks for.
pub fn strip_decl_lines(s: &Vec<char>, display: bool, word: &Vec<char>) -> (r: Vec<char>)
    requires
        word.len() > 0,
    ensures
        r@ == strip_decl_from(s@, 0, display, word@),
{
    let mut out: Vec<char> = Vec::new();
    let mut i: usize = 0;
    while i < s.len()
        invariant
            i <= s.len(),
            word.len() > 0,
            out@ + strip_decl_from(s@, i as int, display, word@) == strip_decl_from(s@, 0, display, word@),
        decreases s.len() - i,
    {
        match decl_line_at_exec(s, i, display, word) {
            Some(e) => {
                proof {
                    lemma_decl_line_bounds(s@, i as int, display, word@);
                }
                i = e;
            },
            None => {
                out.push(s[i]);
                assert(out@ + strip_decl_from(s@, i + 1, display, word@) =~= strip_decl_from(s@, 0, display, word@));
                i = i + 1;
            },
        }
    }
    assert(out@ + Seq::<char>::empty() == out@);
    out
}

} // verus!
