//! Grid and Flexbox container rules declared in `<style>` blocks.
use vstd::prelude::*;
use crate::text::{
    words, words_from, words_exec,
    is_ascii_white, contains_exec, seq_views, trimmed_range, is_white_space, trim, ci_find_from_exec, ci_occurs_at_exec, find_from_exec, is_white_space_exec, lemma_find_from,
    lemma_trailing_ws_bound, occurs_at_exec, push_str, trailing_ws, ws_end_exec, chars_of, ci_eq, ci_find_from, ci_occurs_at, ends_with, find_from, lemma_ws_end, trim_end,
    ws_end, contains_seq, decimal, decimal_exec, lemma_decimal_injective, lemma_decimal_no_nul,
    lemma_replace_none, lemma_replace_skip, occurs_at, replace_from, push_all, push_range, replace_all, replace_all_exec,
    string_of,
};

verus! {

// ── Style sheets inside the document ────────────────────────────────────

pub open spec fn style_open_tag() -> Seq<char> {
    seq!['<', 's', 't', 'y', 'l', 'e']
}

pub open spec fn style_close_tag() -> Seq<char> {
    seq!['<', '/', 's', 't', 'y', 'l', 'e', '>']
}

/// The match of `(?s)<style[^>]*>(.*?)</style>` at `j`: the start and end
/// of the style sheet text and the end of the match.
pub open spec fn style_block_at(s: Seq<char>, j: int) -> Option<(int, int, int)> {
    if occurs_at(s, j, style_open_tag()) {
        match find_from(s, seq!['>'], j + 6) {
            Some(g) => match find_from(s, style_close_tag(), g + 1) {
                Some(c) => Some((g + 1, c, c + 8)),
                None => None,
            },
            None => None,
        }
    } else {
        None
    }
}

/// The leftmost `<style>` block at or after `i`.
pub open spec fn next_style_block(s: Seq<char>, i: int) -> Option<(int, int, int)>
    decreases s.len() + 1 - i,
{
    if i < 0 || i > s.len() {
        None
    } else {
        match style_block_at(s, i) {
            Some(m) => Some(m),
            None => next_style_block(s, i + 1),
        }
    }
}

/// The texts of the style sheets of `s` from `i` on, in document order.
pub open spec fn style_sheets_from(s: Seq<char>, i: int) -> Seq<Seq<char>>
    decreases s.len() + 1 - i,
{
    if i < 0 || i > s.len() {
        Seq::empty()
    } else {
        match next_style_block(s, i) {
            Some((a, b, e)) => {
                proof {
                    lemma_next_style_block(s, i);
                }
                seq![s.subrange(a, b)] + style_sheets_from(s, e)
            },
            None => Seq::empty(),
        }
    }
}

pub proof fn lemma_style_block_at(s: Seq<char>, j: int)
    requires
        0 <= j,
    ensures
        style_block_at(s, j) matches Some((a, b, e)) ==> j + 6 < a <= b && b + 8 == e && e
            <= s.len(),
{
    if occurs_at(s, j, style_open_tag()) {
        lemma_find_from(s, seq!['>'], j + 6);
        match find_from(s, seq!['>'], j + 6) {
            Some(g) => {
                lemma_find_from(s, style_close_tag(), g + 1);
            },
            None => {},
        }
    }
}

pub proof fn lemma_next_style_block(s: Seq<char>, i: int)
    requires
        0 <= i,
    ensures
        next_style_block(s, i) matches Some((a, b, e)) ==> i < a <= b < e <= s.len(),
    decreases s.len() + 1 - i,
{
    if i <= s.len() {
        lemma_style_block_at(s, i);
        if style_block_at(s, i) is None {
            lemma_next_style_block(s, i + 1);
        }
    }
}

/// The match of `(?s)([^{]+)\s*\{\s*([^}]*)\}` at `j`: the end of the
/// selector text, the start and end of the declaration text, and the end
/// of the match.
pub open spec fn css_rule_at(css: Seq<char>, j: int) -> Option<(int, int, int, int)> {
    if 0 <= j < css.len() && css[j] != '{' {
        match find_from(css, seq!['{'], j) {
            Some(b) => match find_from(css, seq!['}'], b + 1) {
                Some(c) => Some((b, ws_end(css, b + 1), c, c + 1)),
                None => None,
            },
            None => None,
        }
    } else {
        None
    }
}

/// The leftmost rule at or after `i`.
pub open spec fn next_css_rule(css: Seq<char>, i: int) -> Option<(int, int, int, int, int)>
    decreases css.len() + 1 - i,
{
    if i < 0 || i > css.len() {
        None
    } else {
        match css_rule_at(css, i) {
            Some((b, bs, be, e)) => Some((i, b, bs, be, e)),
            None => next_css_rule(css, i + 1),
        }
    }
}

/// (selector, declarations) of every rule of the style sheet from `i` on;
/// the selector with surrounding white space trimmed.
pub open spec fn css_rules_from(css: Seq<char>, i: int) -> Seq<(Seq<char>, Seq<char>)>
    decreases css.len() + 1 - i,
{
    if i < 0 || i > css.len() {
        Seq::empty()
    } else {
        match next_css_rule(css, i) {
            Some((a, b, bs, be, e)) => {
                proof {
                    lemma_next_css_rule(css, i);
                }
                seq![(trim(css.subrange(a, b)), css.subrange(bs, be))] + css_rules_from(css, e)
            },
            None => Seq::empty(),
        }
    }
}

pub proof fn lemma_css_rule_at(css: Seq<char>, j: int)
    requires
        0 <= j,
    ensures
        css_rule_at(css, j) matches Some((b, bs, be, e)) ==> j < b < bs <= be < e
            && e <= css.len() && e == be + 1,
{
    if 0 <= j < css.len() && css[j] != '{' {
        lemma_find_from(css, seq!['{'], j);
        match find_from(css, seq!['{'], j) {
            Some(b) => {
                lemma_find_from(css, seq!['}'], b + 1);
                match find_from(css, seq!['}'], b + 1) {
                    Some(c) => {
                        lemma_ws_end(css, b + 1);
                        let w = ws_end(css, b + 1);
                        if w > c {
                            assert(is_white_space(css[c]));
                            assert(css.subrange(c, c + 1)[0] == '}');
                        }
                        if b == j {
                            assert(css.subrange(b, b + 1)[0] == '{');
                        }
                    },
                    None => {},
                }
            },
            None => {},
        }
    }
}

pub proof fn lemma_next_css_rule(css: Seq<char>, i: int)
    requires
        0 <= i,
    ensures
        next_css_rule(css, i) matches Some((a, b, bs, be, e)) ==> i <= a < b < bs <= be < e
            && e <= css.len(),
    decreases css.len() + 1 - i,
{
    if i <= css.len() {
        lemma_css_rule_at(css, i);
        if css_rule_at(css, i) is None {
            lemma_next_css_rule(css, i + 1);
        }
    }
}

/// The value group of `NAME\s*:\s*([^;]+)` when `NAME` occurs at `j`.
pub open spec fn prop_value_at(body: Seq<char>, j: int, name: Seq<char>) -> Option<Seq<char>> {
    if occurs_at(body, j, name) {
        let a = ws_end(body, j + name.len());
        if 0 <= a < body.len() && body[a] == ':' {
            let w = ws_end(body, a + 1);
            if w < body.len() && body[w] != ';' {
                let end = match find_from(body, seq![';'], w) {
                    Some(p) => p,
                    None => body.len() as int,
                };
                Some(body.subrange(w, end))
            } else if w > a + 1 {
                Some(body.subrange(w - 1, w))
            } else {
                None
            }
        } else {
            None
        }
    } else {
        None
    }
}

/// The value of the leftmost `NAME\s*:\s*([^;]+)` match at or after `j`.
pub open spec fn prop_value_from(body: Seq<char>, name: Seq<char>, j: int) -> Option<Seq<char>>
    decreases body.len() + 1 - j,
{
    if j < 0 || j > body.len() {
        None
    } else {
        match prop_value_at(body, j, name) {
            Some(v) => Some(v),
            None => prop_value_from(body, name, j + 1),
        }
    }
}

/// The value of the first `NAME: value` in the declarations.
pub open spec fn prop_value(body: Seq<char>, name: Seq<char>) -> Option<Seq<char>> {
    prop_value_from(body, name, 0)
}

pub open spec fn map_trim(o: Option<Seq<char>>) -> Option<Seq<char>> {
    match o {
        Some(v) => Some(trim(v)),
        None => None,
    }
}

pub open spec fn grid_template_columns() -> Seq<char> {
    seq!['g', 'r', 'i', 'd', '-', 't', 'e', 'm', 'p', 'l', 'a', 't', 'e', '-', 'c', 'o', 'l', 'u', 'm', 'n', 's']
}

pub open spec fn gap_name() -> Seq<char> {
    seq!['g', 'a', 'p']
}

/// A grid container rule: (selector, column track sizes, gap).
pub type GridRuleView = (Seq<char>, Seq<Seq<char>>, Option<Seq<char>>);

/// The grid rule that a (selector, declarations) pair describes, if any:
/// the declarations say `display:grid` or `display: grid` and name the
/// column tracks.
pub open spec fn grid_rule_of(sel: Seq<char>, body: Seq<char>) -> Option<GridRuleView> {
    if (contains_seq(body, seq!['d', 'i', 's', 'p', 'l', 'a', 'y', ':', 'g', 'r', 'i', 'd'])
        || contains_seq(body, seq!['d', 'i', 's', 'p', 'l', 'a', 'y', ':', ' ', 'g', 'r', 'i', 'd'])) {
        match prop_value(body, grid_template_columns()) {
            Some(cols) => Some((sel, words(cols), map_trim(prop_value(body, gap_name())))),
            None => None,
        }
    } else {
        None
    }
}

/// The grid rules among `rules[k..]`.
pub open spec fn grid_rules_of(rules: Seq<(Seq<char>, Seq<char>)>) -> Seq<GridRuleView>
    decreases rules.len(),
{
    if rules.len() == 0 {
        Seq::empty()
    } else {
        let rest = grid_rules_of(rules.drop_first());
        match grid_rule_of(rules[0].0, rules[0].1) {
            Some(g) => seq![g] + rest,
            None => rest,
        }
    }
}

/// The grid rules of all style sheets in `sheets`.
pub open spec fn grid_rules_in(sheets: Seq<Seq<char>>) -> Seq<GridRuleView>
    decreases sheets.len(),
{
    if sheets.len() == 0 {
        Seq::empty()
    } else {
        grid_rules_of(css_rules_from(sheets[0], 0)) + grid_rules_in(sheets.drop_first())
    }
}

/// The grid rules that the document's `<style>` blocks declare.
pub open spec fn grid_rules_spec(html: Seq<char>) -> Seq<GridRuleView> {
    grid_rules_in(style_sheets_from(html, 0))
}

/// `display\s*:\s*flex` matches at `j`.
pub open spec fn display_flex_at(body: Seq<char>, j: int) -> bool {
    &&& occurs_at(body, j, seq!['d', 'i', 's', 'p', 'l', 'a', 'y'])
    &&& {
        let a = ws_end(body, j + 7);
        &&& 0 <= a < body.len()
        &&& body[a] == ':'
        &&& occurs_at(body, ws_end(body, a + 1), seq!['f', 'l', 'e', 'x'])
    }
}

/// A flex container rule: (selector, gap, wraps, align-items, justify-content).
pub type FlexRuleView = (Seq<char>, Option<Seq<char>>, bool, Option<Seq<char>>, Option<Seq<char>>);

pub open spec fn align_items_name() -> Seq<char> {
    seq!['a', 'l', 'i', 'g', 'n', '-', 'i', 't', 'e', 'm', 's']
}

pub open spec fn justify_content_name() -> Seq<char> {
    seq!['j', 'u', 's', 't', 'i', 'f', 'y', '-', 'c', 'o', 'n', 't', 'e', 'n', 't']
}

/// The flex rule that a (selector, declarations) pair describes, if any.
pub open spec fn flex_rule_of(sel: Seq<char>, body: Seq<char>) -> Option<FlexRuleView> {
    if exists|j: int| display_flex_at(body, j) {
        Some(
            (
                sel,
                map_trim(prop_value(body, gap_name())),
                contains_seq(
                    body,
                    seq!['f', 'l', 'e', 'x', '-', 'w', 'r', 'a', 'p', ':', 'w', 'r', 'a', 'p'],
                ) || contains_seq(
                    body,
                    seq!['f', 'l', 'e', 'x', '-', 'w', 'r', 'a', 'p', ':', ' ', 'w', 'r', 'a', 'p'],
                ),
                map_trim(prop_value(body, align_items_name())),
                map_trim(prop_value(body, justify_content_name())),
            ),
        )
    } else {
        None
    }
}

pub open spec fn flex_rules_of(rules: Seq<(Seq<char>, Seq<char>)>) -> Seq<FlexRuleView>
    decreases rules.len(),
{
    if rules.len() == 0 {
        Seq::empty()
    } else {
        let rest = flex_rules_of(rules.drop_first());
        match flex_rule_of(rules[0].0, rules[0].1) {
            Some(g) => seq![g] + rest,
            None => rest,
        }
    }
}

pub open spec fn flex_rules_in(sheets: Seq<Seq<char>>) -> Seq<FlexRuleView>
    decreases sheets.len(),
{
    if sheets.len() == 0 {
        Seq::empty()
    } else {
        flex_rules_of(css_rules_from(sheets[0], 0)) + flex_rules_in(sheets.drop_first())
    }
}

/// The flex rules that the document's `<style>` blocks declare.
pub open spec fn flex_rules_spec(html: Seq<char>) -> Seq<FlexRuleView> {
    flex_rules_in(style_sheets_from(html, 0))
}


fn style_block_at_exec(s: &Vec<char>, j: usize) -> (r: Option<(usize, usize, usize)>)
    requires
        j <= s.len(),
    ensures
        r matches Some((a, b, e)) ==> style_block_at(s@, j as int) == Some((a as int, b as int, e as int)),
        r is None ==> style_block_at(s@, j as int) is None,
{
    let open = chars_of("<style");
    let close = chars_of("</style>");
    proof {
        reveal_strlit("<style");
        reveal_strlit("</style>");
        assert(open@ =~= style_open_tag());
        assert(close@ =~= style_close_tag());
    }
    if !occurs_at_exec(s, j, &open) {
        return None;
    }
    let gt = vec!['>'];
    assert(gt@ =~= seq!['>']);
    match find_from_exec(s, &gt, j + 6) {
        Some(g) => {
            proof { lemma_find_from(s@, seq!['>'], j + 6); }
            match find_from_exec(s, &close, g + 1) {
                Some(c) => {
                    proof { lemma_find_from(s@, style_close_tag(), g + 1); }
                    Some((g + 1, c, c + 8))
                },
                None => None,
            }
        },
        None => None,
    }
}

fn next_style_block_exec(s: &Vec<char>, i: usize) -> (r: Option<(usize, usize, usize)>)
    requires
        i <= s.len(),
    ensures
        r matches Some((a, b, e)) ==> next_style_block(s@, i as int) == Some((a as int, b as int, e as int)),
        r is None ==> next_style_block(s@, i as int) is None,
{
    let mut j = i;
    while j < s.len()
        invariant
            i <= j <= s.len(),
            next_style_block(s@, i as int) == next_style_block(s@, j as int),
        decreases s.len() - j,
    {
        match style_block_at_exec(s, j) {
            Some(m) => {
                return Some(m);
            },
            None => {},
        }
        j = j + 1;
    }
    match style_block_at_exec(s, j) {
        Some(m) => Some(m),
        None => {
            assert(next_style_block(s@, j + 1) is None);
            None
        },
    }
}

/// The texts of the document's `<style>` blocks, in order.
pub fn style_sheets(s: &Vec<char>) -> (r: Vec<Vec<char>>)
    ensures
        seq_views(r@) == style_sheets_from(s@, 0),
{
    let mut out: Vec<Vec<char>> = Vec::new();
    let mut i: usize = 0;
    loop
        invariant
            i <= s.len(),
            seq_views(out@) + style_sheets_from(s@, i as int) == style_sheets_from(s@, 0),
        decreases s.len() + 1 - i,
    {
        match next_style_block_exec(s, i) {
            Some((a, b, e)) => {
                proof { lemma_next_style_block(s@, i as int); }
                let mut sheet: Vec<char> = Vec::new();
                push_range(&mut sheet, s, a, b);
                let ghost old_out = seq_views(out@);
                out.push(sheet);
                assert(seq_views(out@) =~= old_out.push(s@.subrange(a as int, b as int)));
                i = e;
            },
            None => {
                assert(seq_views(out@) + Seq::<Seq<char>>::empty() == seq_views(out@));
                return out;
            },
        }
    }
}

fn css_rule_at_exec(css: &Vec<char>, j: usize) -> (r: Option<(usize, usize, usize, usize)>)
    requires
        j <= css.len(),
    ensures
        r matches Some((b, bs, be, e)) ==> css_rule_at(css@, j as int) == Some((b as int, bs as int, be as int, e as int)),
        r is None ==> css_rule_at(css@, j as int) is None,
{
    if !(j < css.len() && css[j] != '{') {
        return None;
    }
    let ob = vec!['{'];
    let cb = vec!['}'];
    assert(ob@ =~= seq!['{']);
    assert(cb@ =~= seq!['}']);
    match find_from_exec(css, &ob, j) {
        Some(b) => {
            proof { lemma_find_from(css@, seq!['{'], j as int); }
            match find_from_exec(css, &cb, b + 1) {
                Some(c) => {
                    proof { lemma_find_from(css@, seq!['}'], b + 1); }
                    let w = ws_end_exec(css, b + 1);
                    Some((b, w, c, c + 1))
                },
                None => None,
            }
        },
        None => None,
    }
}

fn next_css_rule_exec(css: &Vec<char>, i: usize) -> (r: Option<(usize, usize, usize, usize, usize)>)
    requires
        i <= css.len(),
    ensures
        r matches Some((a, b, bs, be, e)) ==> next_css_rule(css@, i as int) == Some((a as int, b as int, bs as int, be as int, e as int)),
        r is None ==> next_css_rule(css@, i as int) is None,
{
    let mut j = i;
    while j < css.len()
        invariant
            i <= j <= css.len(),
            next_css_rule(css@, i as int) == next_css_rule(css@, j as int),
        decreases css.len() - j,
    {
        match css_rule_at_exec(css, j) {
            Some((b, bs, be, e)) => {
                return Some((j, b, bs, be, e));
            },
            None => {},
        }
        j = j + 1;
    }
    match css_rule_at_exec(css, j) {
        Some((b, bs, be, e)) => Some((j, b, bs, be, e)),
        None => {
            assert(next_css_rule(css@, j + 1) is None);
            None
        },
    }
}

/// (selector, declarations) of every rule in a style sheet.
fn css_rules(css: &Vec<char>) -> (r: (Vec<Vec<char>>, Vec<Vec<char>>))
    ensures
        r.0.len() == r.1.len(),
        forall|k: int| 0 <= k < r.0.len() ==> (#[trigger] r.0@[k]@, r.1@[k]@) == css_rules_from(css@, 0)[k],
        r.0.len() == css_rules_from(css@, 0).len(),
{
    let mut sels: Vec<Vec<char>> = Vec::new();
    let mut bodies: Vec<Vec<char>> = Vec::new();
    let ghost mut done: Seq<(Seq<char>, Seq<char>)> = Seq::empty();
    let mut i: usize = 0;
    loop
        invariant
            i <= css.len(),
            sels.len() == bodies.len(),
            sels.len() == done.len(),
            forall|k: int| 0 <= k < sels.len() ==> (#[trigger] sels@[k]@, bodies@[k]@) == done[k],
            done + css_rules_from(css@, i as int) == css_rules_from(css@, 0),
        decreases css.len() + 1 - i,
    {
        match next_css_rule_exec(css, i) {
            Some((a, b, bs, be, e)) => {
                proof { lemma_next_css_rule(css@, i as int); }
                let sel = trimmed_range(css, a, b);
                let mut body: Vec<char> = Vec::new();
                push_range(&mut body, css, bs, be);
                proof {
                    done = done.push((sel@, body@));
                }
                sels.push(sel);
                bodies.push(body);
                i = e;
            },
            None => {
                assert(done + Seq::<(Seq<char>, Seq<char>)>::empty() == done);
                return (sels, bodies);
            },
        }
    }
}

fn prop_value_at_exec(body: &Vec<char>, j: usize, name: &Vec<char>) -> (r: Option<Vec<char>>)
    requires
        j <= body.len(),
    ensures
        r matches Some(v) ==> prop_value_at(body@, j as int, name@) == Some(v@),
        r is None ==> prop_value_at(body@, j as int, name@) is None,
{
    if !occurs_at_exec(body, j, name) {
        return None;
    }
    let a = ws_end_exec(body, j + name.len());
    proof { lemma_ws_end(body@, j + name.len()); }
    if !(a < body.len() && body[a] == ':') {
        return None;
    }
    let w = ws_end_exec(body, a + 1);
    proof { lemma_ws_end(body@, a + 1); }
    if w < body.len() && body[w] != ';' {
        let semi = vec![';'];
        assert(semi@ =~= seq![';']);
        let end = match find_from_exec(body, &semi, w) {
            Some(p) => {
                proof { lemma_find_from(body@, seq![';'], w as int); }
                p
            },
            None => body.len(),
        };
        let mut v: Vec<char> = Vec::new();
        push_range(&mut v, body, w, end);
        Some(v)
    } else if w > a + 1 {
        let mut v: Vec<char> = Vec::new();
        push_range(&mut v, body, w - 1, w);
        Some(v)
    } else {
        None
    }
}

fn prop_value_exec(body: &Vec<char>, name: &Vec<char>) -> (r: Option<Vec<char>>)
    ensures
        r matches Some(v) ==> prop_value(body@, name@) == Some(v@),
        r is None ==> prop_value(body@, name@) is None,
{
    let mut j: usize = 0;
    while j < body.len()
        invariant
            j <= body.len(),
            prop_value(body@, name@) == prop_value_from(body@, name@, j as int),
        decreases body.len() - j,
    {
        match prop_value_at_exec(body, j, name) {
            Some(v) => {
                return Some(v);
            },
            None => {},
        }
        j = j + 1;
    }
    match prop_value_at_exec(body, j, name) {
        Some(v) => Some(v),
        None => {
            assert(prop_value_from(body@, name@, j + 1) is None);
            None
        },
    }
}

fn trimmed_option(o: Option<Vec<char>>) -> (r: Option<Vec<char>>)
    ensures
        r matches Some(v) ==> map_trim(match o { Some(x) => Some(x@), None => None }) == Some(v@),
        r is None ==> o is None,
{
    match o {
        Some(x) => {
            let t = trimmed_range(&x, 0, x.len());
            assert(x@.subrange(0, x@.len() as int) =~= x@);
            Some(t)
        },
        None => None,
    }
}


pub open spec fn opt_view(o: Option<String>) -> Option<Seq<char>> {
    match o {
        Some(s) => Some(s@),
        None => None,
    }
}

pub open spec fn string_views(v: Seq<String>) -> Seq<Seq<char>> {
    v.map_values(|s: String| s@)
}

/// A CSS Grid container rule found in a `<style>` block.
pub struct GridRule {
    pub selector: String,
    /// The column track sizes, e.g. `["280px", "1fr"]`.
    pub columns: Vec<String>,
    pub gap: Option<String>,
}

impl GridRule {
    pub open spec fn rule_view(&self) -> GridRuleView {
        (self.selector@, string_views(self.columns@), opt_view(self.gap))
    }
}

/// A Flexbox container rule found in a `<style>` block.
pub struct FlexRule {
    pub selector: String,
    pub gap: Option<String>,
    pub wrap: bool,
    pub align: Option<String>,
    pub justify: Option<String>,
}

impl FlexRule {
    pub open spec fn rule_view(&self) -> FlexRuleView {
        (self.selector@, opt_view(self.gap), self.wrap, opt_view(self.align), opt_view(self.justify))
    }
}

pub open spec fn grid_rule_views(v: Seq<GridRule>) -> Seq<GridRuleView> {
    v.map_values(|r: GridRule| r.rule_view())
}

pub open spec fn flex_rule_views(v: Seq<FlexRule>) -> Seq<FlexRuleView> {
    v.map_values(|r: FlexRule| r.rule_view())
}

fn opt_string(o: Option<Vec<char>>) -> (r: Option<String>)
    ensures
        opt_view(r) == match o { Some(x) => Some(x@), None => None::<Seq<char>> },
{
    match o {
        Some(x) => Some(string_of(&x)),
        None => None,
    }
}

fn strings_of(v: &Vec<Vec<char>>) -> (r: Vec<String>)
    ensures
        string_views(r@) == seq_views(v@),
{
    let mut out: Vec<String> = Vec::new();
    let mut i: usize = 0;
    while i < v.len()
        invariant
            i <= v.len(),
            string_views(out@) =~= seq_views(v@.take(i as int)),
        decreases v.len() - i,
    {
        let s = string_of(&v[i]);
        let ghost before = string_views(out@);
        out.push(s);
        assert(string_views(out@) =~= before.push(v@[i as int]@));
        assert(seq_views(v@.take(i + 1)) =~= seq_views(v@.take(i as int)).push(v@[i as int]@));
        i = i + 1;
    }
    assert(v@.take(v.len() as int) =~= v@);
    out
}

fn grid_rule_of_exec(sel: &Vec<char>, body: &Vec<char>) -> (r: Option<GridRule>)
    ensures
        r matches Some(g) ==> grid_rule_of(sel@, body@) == Some(g.rule_view()),
        r is None ==> grid_rule_of(sel@, body@) is None,
{
    let d1 = chars_of("display:grid");
    let d2 = chars_of("display: grid");
    let cols_name = chars_of("grid-template-columns");
    let gap = chars_of("gap");
    proof {
        reveal_strlit("display:grid");
        reveal_strlit("display: grid");
        reveal_strlit("grid-template-columns");
        reveal_strlit("gap");
        assert(d1@ =~= seq!['d', 'i', 's', 'p', 'l', 'a', 'y', ':', 'g', 'r', 'i', 'd']);
        assert(d2@ =~= seq!['d', 'i', 's', 'p', 'l', 'a', 'y', ':', ' ', 'g', 'r', 'i', 'd']);
        assert(cols_name@ =~= grid_template_columns());
        assert(gap@ =~= gap_name());
    }
    if !(contains_exec(body, &d1) || contains_exec(body, &d2)) {
        return None;
    }
    match prop_value_exec(body, &cols_name) {
        Some(cols) => {
            let ws = words_exec(&cols);
            let g = trimmed_option(prop_value_exec(body, &gap));
            Some(GridRule { selector: string_of(sel), columns: strings_of(&ws), gap: opt_string(g) })
        },
        None => None,
    }
}

fn display_flex_at_exec(body: &Vec<char>, j: usize) -> (b: bool)
    requires
        j <= body.len(),
    ensures
        b == display_flex_at(body@, j as int),
{
    let display = chars_of("display");
    let flex = chars_of("flex");
    proof {
        reveal_strlit("display");
        reveal_strlit("flex");
        assert(display@ =~= seq!['d', 'i', 's', 'p', 'l', 'a', 'y']);
        assert(flex@ =~= seq!['f', 'l', 'e', 'x']);
    }
    if !occurs_at_exec(body, j, &display) {
        return false;
    }
    let a = ws_end_exec(body, j + 7);
    proof { lemma_ws_end(body@, j + 7); }
    if !(a < body.len() && body[a] == ':') {
        return false;
    }
    let b = ws_end_exec(body, a + 1);
    occurs_at_exec(body, b, &flex)
}

fn has_display_flex(body: &Vec<char>) -> (b: bool)
    ensures
        b == exists|j: int| display_flex_at(body@, j),
{
    let mut j: usize = 0;
    while j < body.len()
        invariant
            j <= body.len(),
            forall|q: int| q < j ==> !display_flex_at(body@, q),
        decreases body.len() - j,
    {
        if display_flex_at_exec(body, j) {
            return true;
        }
        j = j + 1;
    }
    assert forall|q: int| !display_flex_at(body@, q) by {
        if q >= body.len() {
            assert(!occurs_at(body@, q, seq!['d', 'i', 's', 'p', 'l', 'a', 'y']));
        }
    }
    false
}

fn flex_rule_of_exec(sel: &Vec<char>, body: &Vec<char>) -> (r: Option<FlexRule>)
    ensures
        r matches Some(g) ==> flex_rule_of(sel@, body@) == Some(g.rule_view()),
        r is None ==> flex_rule_of(sel@, body@) is None,
{
    if !has_display_flex(body) {
        return None;
    }
    let gap = chars_of("gap");
    let w1 = chars_of("flex-wrap:wrap");
    let w2 = chars_of("flex-wrap: wrap");
    let align = chars_of("align-items");
    let justify = chars_of("justify-content");
    proof {
        reveal_strlit("gap");
        reveal_strlit("flex-wrap:wrap");
        reveal_strlit("flex-wrap: wrap");
        reveal_strlit("align-items");
        reveal_strlit("justify-content");
        assert(gap@ =~= gap_name());
        assert(w1@ =~= seq!['f', 'l', 'e', 'x', '-', 'w', 'r', 'a', 'p', ':', 'w', 'r', 'a', 'p']);
        assert(w2@ =~= seq!['f', 'l', 'e', 'x', '-', 'w', 'r', 'a', 'p', ':', ' ', 'w', 'r', 'a', 'p']);
        assert(align@ =~= align_items_name());
        assert(justify@ =~= justify_content_name());
    }
    let g = trimmed_option(prop_value_exec(body, &gap));
    let wrap = contains_exec(body, &w1) || contains_exec(body, &w2);
    let a = trimmed_option(prop_value_exec(body, &align));
    let j = trimmed_option(prop_value_exec(body, &justify));
    Some(FlexRule {
        selector: string_of(sel),
        gap: opt_string(g),
        wrap,
        align: opt_string(a),
        justify: opt_string(j),
    })
}

proof fn lemma_skip_step<A>(s: Seq<A>, k: int)
    requires
        0 <= k < s.len(),
    ensures
        s.skip(k)[0] == s[k],
        s.skip(k).drop_first() == s.skip(k + 1),
        s.skip(k).len() > 0,
{
    assert(s.skip(k).drop_first() =~= s.skip(k + 1));
}

/// The CSS Grid rules declared in the document's `<style>` blocks.
pub fn parse_grid_rules(html: &str) -> (r: Vec<GridRule>)
    ensures
        grid_rule_views(r@) == grid_rules_spec(html@),
{
    let v = chars_of(html);
    grid_rules_of_chars(&v)
}

/// The Grid rules declared in the `<style>` blocks of a document given as characters.
pub fn grid_rules_of_chars(v: &Vec<char>) -> (r: Vec<GridRule>)
    ensures
        grid_rule_views(r@) == grid_rules_spec(v@),
{
    let sheets = style_sheets(v);
    let ghost sv = seq_views(sheets@);
    let mut out: Vec<GridRule> = Vec::new();
    let mut si: usize = 0;
    assert(sv.skip(0) =~= sv);
    while si < sheets.len()
        invariant
            si <= sheets.len(),
            sv == seq_views(sheets@),
            sv == style_sheets_from(v@, 0),
            grid_rule_views(out@) + grid_rules_in(sv.skip(si as int)) == grid_rules_spec(v@),
        decreases sheets.len() - si,
    {
        let (sels, bodies) = css_rules(&sheets[si]);
        let ghost rv = css_rules_from(sheets@[si as int]@, 0);
        proof {
            lemma_skip_step(sv, si as int);
        }
        let mut k: usize = 0;
        assert(rv.skip(0) =~= rv);
        while k < sels.len()
            invariant
                k <= sels.len(),
                sels.len() == bodies.len(),
                sels.len() == rv.len(),
                forall|m: int| 0 <= m < sels.len() ==> (#[trigger] sels@[m]@, bodies@[m]@) == rv[m],
                grid_rule_views(out@) + grid_rules_of(rv.skip(k as int)) + grid_rules_in(sv.skip(si + 1))
                    == grid_rules_spec(v@),
            decreases sels.len() - k,
        {
            proof {
                lemma_skip_step(rv, k as int);
                assert(rv[k as int] == (sels@[k as int]@, bodies@[k as int]@));
            }
            match grid_rule_of_exec(&sels[k], &bodies[k]) {
                Some(g) => {
                    let ghost before = grid_rule_views(out@);
                    out.push(g);
                    assert(grid_rule_views(out@) =~= before.push(g.rule_view()));
                },
                None => {},
            }
            k = k + 1;
        }
        assert(rv.skip(k as int) =~= Seq::<(Seq<char>, Seq<char>)>::empty());
        si = si + 1;
    }
    assert(sv.skip(si as int) =~= Seq::<Seq<char>>::empty());
    out
}

/// The Flexbox rules declared in the document's `<style>` blocks.
pub fn parse_flex_rules(html: &str) -> (r: Vec<FlexRule>)
    ensures
        flex_rule_views(r@) == flex_rules_spec(html@),
{
    let v = chars_of(html);
    flex_rules_of_chars(&v)
}

/// The Flex rules declared in the `<style>` blocks of a document given as characters.
pub fn flex_rules_of_chars(v: &Vec<char>) -> (r: Vec<FlexRule>)
    ensures
        flex_rule_views(r@) == flex_rules_spec(v@),
{
    let sheets = style_sheets(v);
    let ghost sv = seq_views(sheets@);
    let mut out: Vec<FlexRule> = Vec::new();
    let mut si: usize = 0;
    assert(sv.skip(0) =~= sv);
    while si < sheets.len()
        invariant
            si <= sheets.len(),
            sv == seq_views(sheets@),
            sv == style_sheets_from(v@, 0),
            flex_rule_views(out@) + flex_rules_in(sv.skip(si as int)) == flex_rules_spec(v@),
        decreases sheets.len() - si,
    {
        let (sels, bodies) = css_rules(&sheets[si]);
        let ghost rv = css_rules_from(sheets@[si as int]@, 0);
        proof {
            lemma_skip_step(sv, si as int);
        }
        let mut k: usize = 0;
        assert(rv.skip(0) =~= rv);
        while k < sels.len()
            invariant
                k <= sels.len(),
                sels.len() == bodies.len(),
                sels.len() == rv.len(),
                forall|m: int| 0 <= m < sels.len() ==> (#[trigger] sels@[m]@, bodies@[m]@) == rv[m],
                flex_rule_views(out@) + flex_rules_of(rv.skip(k as int)) + flex_rules_in(sv.skip(si + 1))
                    == flex_rules_spec(v@),
            decreases sels.len() - k,
        {
            proof {
                lemma_skip_step(rv, k as int);
                assert(rv[k as int] == (sels@[k as int]@, bodies@[k as int]@));
            }
            match flex_rule_of_exec(&sels[k], &bodies[k]) {
                Some(g) => {
                    let ghost before = flex_rule_views(out@);
                    out.push(g);
                    assert(flex_rule_views(out@) =~= before.push(g.rule_view()));
                },
                None => {},
            }
            k = k + 1;
        }
        assert(rv.skip(k as int) =~= Seq::<(Seq<char>, Seq<char>)>::empty());
        si = si + 1;
    }
    assert(sv.skip(si as int) =~= Seq::<Seq<char>>::empty());
    out
}

} // verus!
