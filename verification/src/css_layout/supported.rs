//! Deciding in advance whether the layout passes can run on a document:
//! each pass stops on a few malformed inputs, and these tests tell a
//! caller which ones.
use vstd::prelude::*;
use super::containers::{
    find_div_open, find_div_open_exec, find_matching_close_div_chars, lemma_close_div_from,
    lemma_find_div_open, matching_close_div,
};
use super::tables::{
    convert_flex_div_to_table, convert_grid_div_to_table, flex_div_from, grid_div_from, grid_div_spec,
};
use super::containers::{selector_class, selector_class_exec};
use super::rules::{
    flex_rule_views, flex_rules_of_chars, flex_rules_spec, grid_rule_views, grid_rules_of_chars,
    grid_rules_spec, string_views, FlexRuleView, GridRuleView,
};
use super::gradients::{degrade_gradients_chars, gradients_supported_chars};
use super::svg::{protect_svg_elements, protected_from};
use super::{
    apply_flex_rules, apply_grid_rules, column_width_exec, column_widths, convert_flex_spec,
    convert_grid_spec, convert_grid_to_table, css_layout_spec, flex_table_style, flex_td_style,
    build_flex_table_style, build_flex_td_style, grid_table_style, grid_table_style_exec,
};
use crate::text::{chars_of, push_all, seq_views};

verus! {

/// Whether every `cls` container that the conversion reaches from
/// `offset` on has its closing tag, if any, after the end of its opening
/// tag (the conversion stops otherwise).
pub open spec fn divs_closed_from(s: Seq<char>, cls: Seq<char>, offset: int) -> bool
    decreases s.len() - offset,
{
    if offset < 0 || offset >= s.len() {
        true
    } else {
        match find_div_open(s, offset, cls) {
            None => true,
            Some((j, e)) => {
                proof {
                    lemma_find_div_open(s, offset, cls);
                }
                match matching_close_div(s, j) {
                    Some(be) => {
                        proof {
                            lemma_close_div_from(s, j, 0);
                        }
                        if be < e {
                            false
                        } else {
                            divs_closed_from(s, cls, be + 6)
                        }
                    },
                    None => divs_closed_from(s, cls, e),
                }
            },
        }
    }
}

/// The grid conversion runs exactly where the containers are closed.
pub proof fn lemma_grid_div_some(s: Seq<char>, cls: Seq<char>, widths: Seq<Seq<char>>, style: Seq<char>, offset: int)
    ensures
        (grid_div_from(s, cls, widths, style, offset) is Some) == divs_closed_from(s, cls, offset),
    decreases s.len() - offset,
{
    if 0 <= offset < s.len() {
        lemma_find_div_open(s, offset, cls);
        if let Some((j, e)) = find_div_open(s, offset, cls) {
            lemma_close_div_from(s, j, 0);
            match matching_close_div(s, j) {
                Some(be) => {
                    if be >= e {
                        lemma_grid_div_some(s, cls, widths, style, be + 6);
                    }
                },
                None => lemma_grid_div_some(s, cls, widths, style, e),
            }
        }
    }
}

/// The flex conversion runs exactly where the containers are closed.
pub proof fn lemma_flex_div_some(s: Seq<char>, cls: Seq<char>, ts: Seq<char>, tds: Seq<char>, wrap: bool, offset: int)
    ensures
        (flex_div_from(s, cls, ts, tds, wrap, offset) is Some) == divs_closed_from(s, cls, offset),
    decreases s.len() - offset,
{
    if 0 <= offset < s.len() {
        lemma_find_div_open(s, offset, cls);
        if let Some((j, e)) = find_div_open(s, offset, cls) {
            lemma_close_div_from(s, j, 0);
            match matching_close_div(s, j) {
                Some(be) => {
                    if be >= e {
                        lemma_flex_div_some(s, cls, ts, tds, wrap, be + 6);
                    }
                },
                None => lemma_flex_div_some(s, cls, ts, tds, wrap, e),
            }
        }
    }
}

proof fn lemma_closed_step(s: Seq<char>, cls: Seq<char>, offset: int)
    requires
        0 <= offset < s.len(),
    ensures
        match find_div_open(s, offset, cls) {
            None => divs_closed_from(s, cls, offset),
            Some((j, e)) => offset <= j && j + 4 < e <= s.len() && match matching_close_div(s, j) {
                Some(be) => j <= be && be + 6 <= s.len() && divs_closed_from(s, cls, offset) == (be >= e
                    && divs_closed_from(s, cls, be + 6)),
                None => divs_closed_from(s, cls, offset) == divs_closed_from(s, cls, e),
            },
        },
{
    lemma_find_div_open(s, offset, cls);
    if let Some((j, e)) = find_div_open(s, offset, cls) {
        lemma_close_div_from(s, j, 0);
    }
}

/// Whether every `cls` container of `s` that the conversions reach is
/// closed after its opening tag.
pub fn containers_closed(s: &Vec<char>, cls: &Vec<char>) -> (b: bool)
    ensures
        b == divs_closed_from(s@, cls@, 0),
{
    let mut offset: usize = 0;
    while offset < s.len()
        invariant
            offset <= s.len(),
            divs_closed_from(s@, cls@, 0) == divs_closed_from(s@, cls@, offset as int),
        decreases s.len() - offset,
    {
        proof {
            lemma_closed_step(s@, cls@, offset as int);
        }
        match find_div_open_exec(s, offset, cls) {
            None => {
                return true;
            },
            Some((j, e)) => {
                match find_matching_close_div_chars(s, j) {
                    Some(be) => {
                        if be < e {
                            return false;
                        }
                        offset = be + 6;
                    },
                    None => {
                        offset = e;
                    },
                }
            },
        }
    }
    true
}

/// Whether a grid container conversion can run.
pub fn grid_div_supported(s: &Vec<char>, cls: &Vec<char>, widths: &Vec<Vec<char>>, style: &Vec<char>) -> (b: bool)
    ensures
        b == (grid_div_spec(s@, cls@, seq_views(widths@), style@) is Some),
{
    if widths.len() == 0 {
        true
    } else {
        proof {
            lemma_grid_div_some(s@, cls@, seq_views(widths@), style@, 0);
        }
        containers_closed(s, cls)
    }
}

/// Whether the grid pass can run on `s`.
pub fn grid_conversion_supported(s: &Vec<char>) -> (b: bool)
    ensures
        b == (convert_grid_spec(s@) is Some),
{
    let rules = grid_rules_of_chars(s);
    let ghost rv = grid_rule_views(rules@);
    if rules.len() == 0 {
        return true;
    }
    let mut cur: Vec<char> = Vec::new();
    push_all(&mut cur, s);
    let mut k: usize = 0;
    assert(rv.skip(0) =~= rv);
    while k < rules.len()
        invariant
            k <= rules.len(),
            rules.len() > 0,
            rv == grid_rule_views(rules@),
            rv == grid_rules_spec(s@),
            apply_grid_rules(s@, rv) == apply_grid_rules(cur@, rv.skip(k as int)),
        decreases rules.len() - k,
    {
        let rule = &rules[k];
        assert(rv.skip(k as int)[0] == rule.rule_view());
        assert(rv.skip(k as int).drop_first() =~= rv.skip(k + 1));
        let sel = chars_of(rule.selector.as_str());
        match selector_class_exec(&sel) {
            Some(cls) => {
                let mut widths: Vec<Vec<char>> = Vec::new();
                let mut c: usize = 0;
                while c < rule.columns.len()
                    invariant
                        c <= rule.columns.len(),
                        seq_views(widths@) =~= column_widths(string_views(rule.columns@).take(c as int)),
                    decreases rule.columns.len() - c,
                {
                    let cv = chars_of(rule.columns[c].as_str());
                    let w = column_width_exec(&cv);
                    let ghost before = seq_views(widths@);
                    widths.push(w);
                    assert(seq_views(widths@) =~= before.push(w@));
                    assert(string_views(rule.columns@).take(c + 1) =~= string_views(rule.columns@).take(c as int).push(cv@));
                    c = c + 1;
                    assert(seq_views(widths@) =~= column_widths(string_views(rule.columns@).take(c as int)));
                }
                assert(string_views(rule.columns@).take(c as int) =~= string_views(rule.columns@));
                let style = grid_table_style_exec(&rule.gap);
                if !grid_div_supported(&cur, &cls, &widths, &style) {
                    return false;
                }
                cur = convert_grid_div_to_table(&cur, &cls, &widths, &style);
            },
            None => {},
        }
        k = k + 1;
    }
    assert(rv.skip(k as int) =~= Seq::<GridRuleView>::empty());
    true
}

/// Whether the flex pass can run on `s`.
pub fn flex_conversion_supported(s: &Vec<char>) -> (b: bool)
    ensures
        b == (convert_flex_spec(s@) is Some),
{
    let rules = flex_rules_of_chars(s);
    let ghost rv = flex_rule_views(rules@);
    if rules.len() == 0 {
        return true;
    }
    let mut cur: Vec<char> = Vec::new();
    push_all(&mut cur, s);
    let mut k: usize = 0;
    assert(rv.skip(0) =~= rv);
    while k < rules.len()
        invariant
            k <= rules.len(),
            rules.len() > 0,
            rv == flex_rule_views(rules@),
            rv == flex_rules_spec(s@),
            apply_flex_rules(s@, rv) == apply_flex_rules(cur@, rv.skip(k as int)),
        decreases rules.len() - k,
    {
        let rule = &rules[k];
        assert(rv.skip(k as int)[0] == rule.rule_view());
        assert(rv.skip(k as int).drop_first() =~= rv.skip(k + 1));
        let sel = chars_of(rule.selector.as_str());
        match selector_class_exec(&sel) {
            Some(cls) => {
                let table_style = build_flex_table_style(rule);
                let td_style = build_flex_td_style(rule);
                proof {
                    lemma_flex_div_some(cur@, cls@, table_style@, td_style@, rule.wrap, 0);
                }
                if !containers_closed(&cur, &cls) {
                    return false;
                }
                cur = convert_flex_div_to_table(&cur, &cls, &table_style, &td_style, rule.wrap);
            },
            None => {},
        }
        k = k + 1;
    }
    assert(rv.skip(k as int) =~= Seq::<FlexRuleView>::empty());
    true
}

/// Whether `process_css_layout` can run on `html`: every pass it makes can.
pub fn css_layout_supported(html: &str) -> (b: bool)
    ensures
        b == (css_layout_spec(html@) is Some),
{
    let (protected, _svg_map) = protect_svg_elements(html);
    let p = chars_of(protected.as_str());
    if !gradients_supported_chars(&p) {
        return false;
    }
    let d = degrade_gradients_chars(&p);
    if !grid_conversion_supported(&d) {
        return false;
    }
    let g = convert_grid_to_table(&d);
    flex_conversion_supported(&g)
}

} // verus!
