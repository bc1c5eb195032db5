//! Building the table that replaces a Grid or Flexbox container, and
//! removing the container declarations once they are converted.
use vstd::prelude::*;
use crate::text::{
    chars_of, ends_with, find_from, find_from_exec, lemma_find_from, lemma_ws_end, occurs_at,
    occurs_at_exec, push_all, push_range, push_str, seq_views, ws_end, ws_end_exec,
};
use super::containers::{
    direct_children, extract_direct_children_divs, find_div_open, find_div_open_exec,
    find_matching_close_div_chars, lemma_close_div_from, lemma_find_div_open, matching_close_div,
};

verus! {

// ── Table markup ────────────────────────────────────────────────────────

/// `</tr>\n<tr>\n`: closes a table row and opens the next one.
pub open spec fn row_break() -> Seq<char> {
    seq!['<', '/', 't', 'r', '>', '\n', '<', 't', 'r', '>', '\n']
}

pub open spec fn auto_width() -> Seq<char> {
    seq!['a', 'u', 't', 'o']
}

/// A grid cell: `<td>child</td>` for an `auto` column, else
/// `<td style="width:W">child</td>`, and a newline.
pub open spec fn grid_td(width: Seq<char>, child: Seq<char>) -> Seq<char> {
    let attrs = if width == auto_width() {
        Seq::empty()
    } else {
        seq![' ', 's', 't', 'y', 'l', 'e', '=', '"', 'w', 'i', 'd', 't', 'h', ':'] + width + seq!['"']
    };
    seq!['<', 't', 'd'] + attrs + seq!['>'] + child + seq!['<', '/', 't', 'd', '>', '\n']
}

/// The cells of children `k..`, `widths.len()` to a row.
pub open spec fn grid_cells(children: Seq<Seq<char>>, widths: Seq<Seq<char>>, k: int) -> Seq<char>
    decreases children.len() - k,
{
    if k < 0 || k >= children.len() || widths.len() == 0 {
        Seq::empty()
    } else {
        let brk = if k > 0 && k % (widths.len() as int) == 0 { row_break() } else { Seq::empty() };
        brk + grid_td(widths[k % (widths.len() as int)], children[k]) + grid_cells(children, widths, k + 1)
    }
}

/// How many empty cells complete the last row of `len` cells, `n` to a row.
pub open spec fn fill_count(len: int, n: int) -> int {
    if len % n == 0 { 0 } else { n - len % n }
}

/// `s` repeated `count` times.
pub open spec fn repeat(s: Seq<char>, count: int) -> Seq<char>
    decreases count,
{
    if count <= 0 { Seq::empty() } else { repeat(s, count - 1) + s }
}

pub open spec fn empty_td() -> Seq<char> {
    seq!['<', 't', 'd', '>', '<', '/', 't', 'd', '>', '\n']
}

/// `\n<table class="CLASS" style="STYLE">\n<tr>\n`
pub open spec fn table_open(class: Seq<char>, style: Seq<char>) -> Seq<char> {
    seq!['\n', '<', 't', 'a', 'b', 'l', 'e', ' ', 'c', 'l', 'a', 's', 's', '=', '"'] + class
        + seq!['"', ' ', 's', 't', 'y', 'l', 'e', '=', '"'] + style + seq!['"', '>', '\n', '<', 't', 'r', '>', '\n']
}

/// `</tr>\n</table>\n</div>`
pub open spec fn table_close() -> Seq<char> {
    seq!['<', '/', 't', 'r', '>', '\n', '<', '/', 't', 'a', 'b', 'l', 'e', '>', '\n', '<', '/', 'd', 'i', 'v', '>']
}

pub open spec fn txp_grid() -> Seq<char> {
    seq!['t', 'x', 'p', '-', 'g', 'r', 'i', 'd']
}

pub open spec fn txp_flex() -> Seq<char> {
    seq!['t', 'x', 'p', '-', 'f', 'l', 'e', 'x']
}

/// The table that replaces a grid container's body.
pub open spec fn grid_table(children: Seq<Seq<char>>, widths: Seq<Seq<char>>, style: Seq<char>) -> Seq<char> {
    table_open(txp_grid(), style) + grid_cells(children, widths, 0) + repeat(
        empty_td(),
        fill_count(children.len() as int, widths.len() as int),
    ) + table_close()
}

/// A flex cell: `<td style="STYLE">child</td>` and a newline.
pub open spec fn flex_td(td_style: Seq<char>, child: Seq<char>) -> Seq<char> {
    seq!['<', 't', 'd', ' ', 's', 't', 'y', 'l', 'e', '=', '"'] + td_style + seq!['"', '>'] + child
        + seq!['<', '/', 't', 'd', '>', '\n']
}

pub open spec fn flex_cells(children: Seq<Seq<char>>, cols: int, td_style: Seq<char>, k: int) -> Seq<char>
    decreases children.len() - k,
{
    if k < 0 || k >= children.len() || cols <= 0 {
        Seq::empty()
    } else {
        let brk = if k > 0 && k % cols == 0 { row_break() } else { Seq::empty() };
        brk + flex_td(td_style, children[k]) + flex_cells(children, cols, td_style, k + 1)
    }
}

/// Cells per row of a flex table: six when the container wraps, else all
/// children in one row.
pub open spec fn flex_cols(n: int, wrap: bool) -> int {
    if wrap { 6 } else if n > 1 { n } else { 1 }
}

/// The table that replaces a flex container's body.
pub open spec fn flex_table(children: Seq<Seq<char>>, table_style: Seq<char>, td_style: Seq<char>, wrap: bool) -> Seq<char> {
    let cols = flex_cols(children.len() as int, wrap);
    table_open(txp_flex(), table_style) + flex_cells(children, cols, td_style, 0) + repeat(
        flex_td(td_style, Seq::empty()),
        fill_count(children.len() as int, cols),
    ) + table_close()
}

// ── Converting containers ───────────────────────────────────────────────

/// The grid conversion of `s` from `offset` on: each `cls` container keeps
/// its opening tag, its body becomes a table and its `</div>` stays; a
/// container without a closing tag is left as it is. `None`
/// where a closing tag is found before the end of the opening tag.
pub open spec fn grid_div_from(
    s: Seq<char>,
    cls: Seq<char>,
    widths: Seq<Seq<char>>,
    style: Seq<char>,
    offset: int,
) -> Option<Seq<char>>
    decreases s.len() - offset,
{
    if offset < 0 || offset >= s.len() {
        Some(Seq::empty())
    } else {
        match find_div_open(s, offset, cls) {
            None => Some(s.subrange(offset, s.len() as int)),
            Some((j, e)) => {
                proof {
                    lemma_find_div_open(s, offset, cls);
                }
                match matching_close_div(s, j) {
                    Some(be) => {
                        proof {
                            lemma_close_div_from(s, j, 0);
                        }
                        if be < e {
                            None
                        } else {
                            match grid_div_from(s, cls, widths, style, be + 6) {
                                Some(rest) => Some(
                                    s.subrange(offset, e) + grid_table(
                                        direct_children(s.subrange(e, be)),
                                        widths,
                                        style,
                                    ) + rest,
                                ),
                                None => None,
                            }
                        }
                    },
                    None => match grid_div_from(s, cls, widths, style, e) {
                        Some(rest) => Some(s.subrange(offset, e) + rest),
                        None => None,
                    },
                }
            },
        }
    }
}

/// Converting every `cls` grid container of `s` to a table.
pub open spec fn grid_div_spec(s: Seq<char>, cls: Seq<char>, widths: Seq<Seq<char>>, style: Seq<char>) -> Option<Seq<char>> {
    if widths.len() == 0 {
        Some(s)
    } else {
        grid_div_from(s, cls, widths, style, 0)
    }
}

/// The flex conversion of `s` from `offset` on; a container without a
/// closing tag is left as it is.
pub open spec fn flex_div_from(
    s: Seq<char>,
    cls: Seq<char>,
    table_style: Seq<char>,
    td_style: Seq<char>,
    wrap: bool,
    offset: int,
) -> Option<Seq<char>>
    decreases s.len() - offset,
{
    if offset < 0 || offset >= s.len() {
        Some(Seq::empty())
    } else {
        match find_div_open(s, offset, cls) {
            None => Some(s.subrange(offset, s.len() as int)),
            Some((j, e)) => {
                proof {
                    lemma_find_div_open(s, offset, cls);
                }
                match matching_close_div(s, j) {
                    Some(be) => {
                        proof {
                            lemma_close_div_from(s, j, 0);
                        }
                        if be < e {
                            None
                        } else {
                            match flex_div_from(s, cls, table_style, td_style, wrap, be + 6) {
                                Some(rest) => Some(
                                    s.subrange(offset, e) + flex_table(
                                        direct_children(s.subrange(e, be)),
                                        table_style,
                                        td_style,
                                        wrap,
                                    ) + rest,
                                ),
                                None => None,
                            }
                        }
                    },
                    None => match flex_div_from(s, cls, table_style, td_style, wrap, e) {
                        Some(rest) => Some(s.subrange(offset, e) + rest),
                        None => None,
                    },
                }
            },
        }
    }
}


proof fn lemma_grid_step(s: Seq<char>, cls: Seq<char>, w: Seq<Seq<char>>, st: Seq<char>, offset: int)
    requires
        0 <= offset < s.len(),
        grid_div_from(s, cls, w, st, offset) is Some,
    ensures
        match find_div_open(s, offset, cls) {
            None => grid_div_from(s, cls, w, st, offset) == Some(s.subrange(offset, s.len() as int)),
            Some((j, e)) => match matching_close_div(s, j) {
                Some(be) => be >= e && grid_div_from(s, cls, w, st, be + 6) is Some && grid_div_from(s, cls, w, st, offset)->0
                    == s.subrange(offset, e) + grid_table(direct_children(s.subrange(e, be)), w, st)
                    + grid_div_from(s, cls, w, st, be + 6)->0,
                None => grid_div_from(s, cls, w, st, e) is Some && grid_div_from(s, cls, w, st, offset)->0
                    == s.subrange(offset, e) + grid_div_from(s, cls, w, st, e)->0,
            },
        },
{
}

proof fn lemma_flex_step(s: Seq<char>, cls: Seq<char>, ts: Seq<char>, tds: Seq<char>, wrap: bool, offset: int)
    requires
        0 <= offset < s.len(),
        flex_div_from(s, cls, ts, tds, wrap, offset) is Some,
    ensures
        match find_div_open(s, offset, cls) {
            None => flex_div_from(s, cls, ts, tds, wrap, offset) == Some(s.subrange(offset, s.len() as int)),
            Some((j, e)) => match matching_close_div(s, j) {
                Some(be) => be >= e && flex_div_from(s, cls, ts, tds, wrap, be + 6) is Some && flex_div_from(s, cls, ts, tds, wrap, offset)->0
                    == s.subrange(offset, e) + flex_table(direct_children(s.subrange(e, be)), ts, tds, wrap)
                    + flex_div_from(s, cls, ts, tds, wrap, be + 6)->0,
                None => flex_div_from(s, cls, ts, tds, wrap, e) is Some && flex_div_from(s, cls, ts, tds, wrap, offset)->0
                    == s.subrange(offset, e) + flex_div_from(s, cls, ts, tds, wrap, e)->0,
            },
        },
{
}

// ── Executable construction ─────────────────────────────────────────────

fn push_repeat(out: &mut Vec<char>, s: &Vec<char>, count: usize)
    ensures
        final(out)@ == old(out)@ + repeat(s@, count as int),
{
    let mut k: usize = 0;
    while k < count
        invariant
            k <= count,
            out@ == old(out)@ + repeat(s@, k as int),
        decreases count - k,
    {
        push_all(out, s);
        k = k + 1;
        assert(out@ =~= old(out)@ + repeat(s@, k as int));
    }
}

fn fill_count_exec(len: usize, n: usize) -> (r: usize)
    requires
        n > 0,
    ensures
        r == fill_count(len as int, n as int),
{
    if len % n == 0 { 0 } else { n - len % n }
}

fn push_table_open(out: &mut Vec<char>, class: &str, style: &Vec<char>)
    ensures
        final(out)@ == old(out)@ + table_open(class@, style@),
{
    push_str(out, "\n<table class=\"");
    push_str(out, class);
    push_str(out, "\" style=\"");
    push_all(out, style);
    push_str(out, "\">\n<tr>\n");
    proof {
        reveal_strlit("\n<table class=\"");
        reveal_strlit("\" style=\"");
        reveal_strlit("\">\n<tr>\n");
        assert(final(out)@ =~= old(out)@ + table_open(class@, style@));
    }
}

fn push_table_close(out: &mut Vec<char>)
    ensures
        final(out)@ == old(out)@ + table_close(),
{
    push_str(out, "</tr>\n</table>\n</div>");
    proof {
        reveal_strlit("</tr>\n</table>\n</div>");
        assert(final(out)@ =~= old(out)@ + table_close());
    }
}

fn push_row_break(out: &mut Vec<char>)
    ensures
        final(out)@ == old(out)@ + row_break(),
{
    push_str(out, "</tr>\n<tr>\n");
    proof {
        reveal_strlit("</tr>\n<tr>\n");
        assert(final(out)@ =~= old(out)@ + row_break());
    }
}

fn grid_td_exec(width: &Vec<char>, child: &Vec<char>) -> (r: Vec<char>)
    ensures
        r@ == grid_td(width@, child@),
{
    let auto = chars_of("auto");
    proof {
        reveal_strlit("auto");
        assert(auto@ =~= auto_width());
    }
    let is_auto = width.len() == 4 && occurs_at_exec(width, 0, &auto);
    proof {
        if width.len() == 4 {
            assert(width@.subrange(0, 4) =~= width@);
        }
    }
    let mut r: Vec<char> = Vec::new();
    push_str(&mut r, "<td");
    if !is_auto {
        push_str(&mut r, " style=\"width:");
        push_all(&mut r, width);
        push_str(&mut r, "\"");
    }
    push_str(&mut r, ">");
    push_all(&mut r, child);
    push_str(&mut r, "</td>\n");
    proof {
        reveal_strlit("<td");
        reveal_strlit(" style=\"width:");
        reveal_strlit("\"");
        reveal_strlit(">");
        reveal_strlit("</td>\n");
        assert(r@ =~= grid_td(width@, child@));
    }
    r
}

fn flex_td_exec(td_style: &Vec<char>, child: &Vec<char>) -> (r: Vec<char>)
    ensures
        r@ == flex_td(td_style@, child@),
{
    let mut r: Vec<char> = Vec::new();
    push_str(&mut r, "<td style=\"");
    push_all(&mut r, td_style);
    push_str(&mut r, "\">");
    push_all(&mut r, child);
    push_str(&mut r, "</td>\n");
    proof {
        reveal_strlit("<td style=\"");
        reveal_strlit("\">");
        reveal_strlit("</td>\n");
        assert(r@ =~= flex_td(td_style@, child@));
    }
    r
}

/// Appends the grid table for `children`.
fn push_grid_table(out: &mut Vec<char>, children: &Vec<Vec<char>>, widths: &Vec<Vec<char>>, style: &Vec<char>)
    requires
        widths.len() > 0,
    ensures
        final(out)@ == old(out)@ + grid_table(seq_views(children@), seq_views(widths@), style@),
{
    let ghost cv = seq_views(children@);
    let ghost wv = seq_views(widths@);
    push_table_open(out, "txp-grid", style);
    proof {
        reveal_strlit("txp-grid");
        assert("txp-grid"@ =~= txp_grid());
    }
    let ghost after_open = out@;
    let n = widths.len();
    let mut k: usize = 0;
    while k < children.len()
        invariant
            k <= children.len(),
            n == widths.len(),
            n > 0,
            cv == seq_views(children@),
            wv == seq_views(widths@),
            out@ + grid_cells(cv, wv, k as int) == after_open + grid_cells(cv, wv, 0),
        decreases children.len() - k,
    {
        let ghost before = out@;
        if k > 0 && k % n == 0 {
            push_row_break(out);
        }
        let td = grid_td_exec(&widths[k % n], &children[k]);
        push_all(out, &td);
        assert(out@ + grid_cells(cv, wv, k + 1) =~= before + grid_cells(cv, wv, k as int));
        k = k + 1;
    }
    assert(out@ + Seq::<char>::empty() == out@);
    let f = fill_count_exec(children.len(), n);
    let e = chars_of("<td></td>\n");
    proof {
        reveal_strlit("<td></td>\n");
        assert(e@ =~= empty_td());
    }
    push_repeat(out, &e, f);
    push_table_close(out);
    assert(final(out)@ =~= old(out)@ + grid_table(cv, wv, style@));
}

fn flex_cols_exec(n: usize, wrap: bool) -> (r: usize)
    ensures
        r == flex_cols(n as int, wrap),
        r > 0,
{
    if wrap { 6 } else if n > 1 { n } else { 1 }
}

/// Appends the flex table for `children`.
fn push_flex_table(out: &mut Vec<char>, children: &Vec<Vec<char>>, table_style: &Vec<char>, td_style: &Vec<char>, wrap: bool)
    ensures
        final(out)@ == old(out)@ + flex_table(seq_views(children@), table_style@, td_style@, wrap),
{
    let ghost cv = seq_views(children@);
    push_table_open(out, "txp-flex", table_style);
    proof {
        reveal_strlit("txp-flex");
        assert("txp-flex"@ =~= txp_flex());
    }
    let ghost after_open = out@;
    let cols = flex_cols_exec(children.len(), wrap);
    let mut k: usize = 0;
    while k < children.len()
        invariant
            k <= children.len(),
            cols > 0,
            cols == flex_cols(children.len() as int, wrap),
            cv == seq_views(children@),
            out@ + flex_cells(cv, cols as int, td_style@, k as int) == after_open + flex_cells(cv, cols as int, td_style@, 0),
        decreases children.len() - k,
    {
        let ghost before = out@;
        if k > 0 && k % cols == 0 {
            push_row_break(out);
        }
        let td = flex_td_exec(td_style, &children[k]);
        push_all(out, &td);
        assert(out@ + flex_cells(cv, cols as int, td_style@, k + 1) =~= before + flex_cells(cv, cols as int, td_style@, k as int));
        k = k + 1;
    }
    assert(out@ + Seq::<char>::empty() == out@);
    let f = fill_count_exec(children.len(), cols);
    let empty: Vec<char> = Vec::new();
    let e = flex_td_exec(td_style, &empty);
    assert(empty@ =~= Seq::<char>::empty());
    push_repeat(out, &e, f);
    push_table_close(out);
    assert(final(out)@ =~= old(out)@ + flex_table(cv, table_style@, td_style@, wrap));
}

/// Converts every grid container with class `cls` in `s` into a table with
/// the given column widths and table style.
#[verifier::spinoff_prover]
#[verifier::rlimit(40)]
pub fn convert_grid_div_to_table(s: &Vec<char>, cls: &Vec<char>, widths: &Vec<Vec<char>>, style: &Vec<char>) -> (r: Vec<char>)
    requires
        grid_div_spec(s@, cls@, seq_views(widths@), style@) is Some,
    ensures
        grid_div_spec(s@, cls@, seq_views(widths@), style@) == Some(r@),
{
    if widths.len() == 0 {
        let mut r: Vec<char> = Vec::new();
        push_all(&mut r, s);
        return r;
    }
    let ghost wv = seq_views(widths@);
    let ghost total = grid_div_from(s@, cls@, wv, style@, 0)->0;
    let mut out: Vec<char> = Vec::new();
    let mut offset: usize = 0;
    while offset < s.len()
        invariant
            offset <= s.len(),
            widths.len() > 0,
            wv == seq_views(widths@),
            grid_div_from(s@, cls@, wv, style@, 0) == Some(total),
            grid_div_from(s@, cls@, wv, style@, offset as int) is Some,
            out@ + grid_div_from(s@, cls@, wv, style@, offset as int)->0 == total,
        decreases s.len() - offset,
    {
        proof {
            lemma_grid_step(s@, cls@, wv, style@, offset as int);
        }
        match find_div_open_exec(s, offset, cls) {
            None => {
                push_range(&mut out, s, offset, s.len());
                assert(grid_div_from(s@, cls@, wv, style@, s.len() as int) == Some(Seq::<char>::empty()));
                assert(out@ + Seq::<char>::empty() == out@);
                offset = s.len();
            },
            Some((j, e)) => {
                proof {
                    lemma_find_div_open(s@, offset as int, cls@);
                }
                match find_matching_close_div_chars(s, j) {
                    Some(be) => {
                        proof {
                            lemma_close_div_from(s@, j as int, 0);
                        }
                        let mut body: Vec<char> = Vec::new();
                        push_range(&mut body, s, e, be);
                        let children = extract_direct_children_divs(&body);
                        let ghost before = out@;
                        push_range(&mut out, s, offset, e);
                        push_grid_table(&mut out, &children, widths, style);
                        assert(before + s@.subrange(offset as int, e as int) + grid_table(direct_children(s@.subrange(e as int, be as int)), wv, style@) == out@);
                        offset = be + 6;
                    },
                    None => {
                        push_range(&mut out, s, offset, e);
                        offset = e;
                    },
                }
            },
        }
    }
    assert(out@ + Seq::<char>::empty() == out@);
    out
}

/// Converts every flex container with class `cls` in `s` into a table.
#[verifier::spinoff_prover]
#[verifier::rlimit(40)]
pub fn convert_flex_div_to_table(
    s: &Vec<char>,
    cls: &Vec<char>,
    table_style: &Vec<char>,
    td_style: &Vec<char>,
    wrap: bool,
) -> (r: Vec<char>)
    requires
        flex_div_from(s@, cls@, table_style@, td_style@, wrap, 0) is Some,
    ensures
        flex_div_from(s@, cls@, table_style@, td_style@, wrap, 0) == Some(r@),
{
    let ghost total = flex_div_from(s@, cls@, table_style@, td_style@, wrap, 0)->0;
    let mut out: Vec<char> = Vec::new();
    let mut offset: usize = 0;
    while offset < s.len()
        invariant
            offset <= s.len(),
            flex_div_from(s@, cls@, table_style@, td_style@, wrap, 0) == Some(total),
            flex_div_from(s@, cls@, table_style@, td_style@, wrap, offset as int) is Some,
            out@ + flex_div_from(s@, cls@, table_style@, td_style@, wrap, offset as int)->0 == total,
        decreases s.len() - offset,
    {
        proof {
            lemma_flex_step(s@, cls@, table_style@, td_style@, wrap, offset as int);
        }
        match find_div_open_exec(s, offset, cls) {
            None => {
                push_range(&mut out, s, offset, s.len());
                assert(out@ + Seq::<char>::empty() == out@);
                offset = s.len();
            },
            Some((j, e)) => {
                proof {
                    lemma_find_div_open(s@, offset as int, cls@);
                }
                match find_matching_close_div_chars(s, j) {
                    Some(be) => {
                        proof {
                            lemma_close_div_from(s@, j as int, 0);
                        }
                        let mut body: Vec<char> = Vec::new();
                        push_range(&mut body, s, e, be);
                        let children = extract_direct_children_divs(&body);
                        let ghost before = out@;
                        push_range(&mut out, s, offset, e);
                        push_flex_table(&mut out, &children, table_style, td_style, wrap);
                        offset = be + 6;
                    },
                    None => {
                        push_range(&mut out, s, offset, e);
                        offset = e;
                    },
                }
            },
        }
    }
    assert(out@ + Seq::<char>::empty() == out@);
    out
}

/// The cells of children `k..k + j`, in order, child `k + i` in column `i`.
pub open spec fn row_cells(children: Seq<Seq<char>>, widths: Seq<Seq<char>>, k: int, j: int) -> Seq<char>
    decreases j,
{
    if j <= 0 {
        Seq::empty()
    } else {
        row_cells(children, widths, k, j - 1) + grid_td(widths[j - 1], children[k + j - 1])
    }
}

proof fn lemma_row_prefix(children: Seq<Seq<char>>, widths: Seq<Seq<char>>, k: int, j: int)
    requires
        widths.len() > 0,
        0 <= k,
        k % (widths.len() as int) == 0,
        0 < j <= widths.len(),
        k + j <= children.len(),
    ensures
        grid_cells(children, widths, k) == (if k > 0 { row_break() } else { Seq::empty() })
            + row_cells(children, widths, k, j) + grid_cells(children, widths, k + j),
    decreases j,
{
    let n = widths.len() as int;
    if j == 1 {
        assert(row_cells(children, widths, k, 0) == Seq::<char>::empty());
        assert(row_cells(children, widths, k, 1) =~= grid_td(widths[0], children[k]));
    } else {
        lemma_row_prefix(children, widths, k, j - 1);
        let i = k + j - 1;
        assert(i % n == j - 1) by (nonlinear_arith)
            requires k % n == 0, 0 <= k, 0 < j - 1 < n, i == k + j - 1;
        assert(grid_cells(children, widths, i) == grid_td(widths[j - 1], children[i]) + grid_cells(children, widths, i + 1));
    }
}

/// A grid of `n` columns becomes a table of rows of `n` cells: from each
/// child `k` that starts a row (`k` a multiple of `n`), the cells are a row
/// break (except before the first row), then the next `n` children (or as
/// many as are left) in columns `0, 1, ...`, each with its column's width,
/// then the rows after.
pub proof fn lemma_grid_rows(children: Seq<Seq<char>>, widths: Seq<Seq<char>>, k: int)
    requires
        widths.len() > 0,
        0 <= k < children.len(),
        k % (widths.len() as int) == 0,
    ensures
        k + widths.len() <= children.len() ==> grid_cells(children, widths, k)
            == (if k > 0 { row_break() } else { Seq::empty() })
            + row_cells(children, widths, k, widths.len() as int)
            + grid_cells(children, widths, k + widths.len()),
        k + widths.len() > children.len() ==> grid_cells(children, widths, k)
            == (if k > 0 { row_break() } else { Seq::empty() })
            + row_cells(children, widths, k, children.len() - k),
{
    let n = widths.len() as int;
    if k + n <= children.len() {
        lemma_row_prefix(children, widths, k, n);
    } else {
        lemma_row_prefix(children, widths, k, children.len() - k);
        assert(grid_cells(children, widths, children.len() as int) == Seq::<char>::empty());
        assert(row_cells(children, widths, k, children.len() - k) + Seq::<char>::empty()
            == row_cells(children, widths, k, children.len() - k));
    }
}

/// The flex cells of children `k..k + j`, in order.
pub open spec fn flex_row_cells(children: Seq<Seq<char>>, td_style: Seq<char>, k: int, j: int) -> Seq<char>
    decreases j,
{
    if j <= 0 {
        Seq::empty()
    } else {
        flex_row_cells(children, td_style, k, j - 1) + flex_td(td_style, children[k + j - 1])
    }
}

proof fn lemma_flex_row_prefix(children: Seq<Seq<char>>, cols: int, td_style: Seq<char>, k: int, j: int)
    requires
        cols > 0,
        0 <= k,
        k % cols == 0,
        0 < j <= cols,
        k + j <= children.len(),
    ensures
        flex_cells(children, cols, td_style, k) == (if k > 0 { row_break() } else { Seq::empty() })
            + flex_row_cells(children, td_style, k, j) + flex_cells(children, cols, td_style, k + j),
    decreases j,
{
    if j == 1 {
        assert(flex_row_cells(children, td_style, k, 0) == Seq::<char>::empty());
        assert(flex_row_cells(children, td_style, k, 1) =~= flex_td(td_style, children[k]));
    } else {
        lemma_flex_row_prefix(children, cols, td_style, k, j - 1);
        let i = k + j - 1;
        assert(i % cols == j - 1) by (nonlinear_arith)
            requires k % cols == 0, 0 <= k, 0 < j - 1 < cols, i == k + j - 1;
        assert(flex_cells(children, cols, td_style, i) == flex_td(td_style, children[i]) + flex_cells(children, cols, td_style, i + 1));
    }
}

/// A flex table of `cols` cells to a row: from each child `k` that starts a
/// row, the cells are a row break (except before the first row), then the
/// next `cols` children (or as many as are left), then the rows after.
pub proof fn lemma_flex_rows(children: Seq<Seq<char>>, cols: int, td_style: Seq<char>, k: int)
    requires
        cols > 0,
        0 <= k < children.len(),
        k % cols == 0,
    ensures
        k + cols <= children.len() ==> flex_cells(children, cols, td_style, k)
            == (if k > 0 { row_break() } else { Seq::empty() })
            + flex_row_cells(children, td_style, k, cols) + flex_cells(children, cols, td_style, k + cols),
        k + cols > children.len() ==> flex_cells(children, cols, td_style, k)
            == (if k > 0 { row_break() } else { Seq::empty() })
            + flex_row_cells(children, td_style, k, children.len() - k),
{
    if k + cols <= children.len() {
        lemma_flex_row_prefix(children, cols, td_style, k, cols);
    } else {
        lemma_flex_row_prefix(children, cols, td_style, k, children.len() - k);
        assert(flex_cells(children, cols, td_style, children.len() as int) == Seq::<char>::empty());
        assert(flex_row_cells(children, td_style, k, children.len() - k) + Seq::<char>::empty()
            == flex_row_cells(children, td_style, k, children.len() - k));
    }
}

} // verus!
