//! CSS layout preprocessing: Grid and Flexbox containers become tables,
//! gradients become solid colours, and inline SVG is shielded from both.
pub mod svg;
pub mod gradients;
pub mod rules;
pub mod containers;
pub mod tables;
pub mod declarations;
pub mod supported;
pub mod plain;
pub use crate::svg::count_pdf_pages;

use vstd::prelude::*;
use crate::text::{chars_of, ends_with, eq_str, occurs_at_exec, push_all, push_str, seq_views, string_of};
use self::svg::{
    block_pairs, protect_svg_elements, protected_from, restore_list, restore_svg_elements,
    svg_blocks_from,
};
use self::gradients::{degrade_gradients_chars, degrade_gradients_spec};
use self::rules::{
    flex_rule_views, flex_rules_of_chars, flex_rules_spec, grid_rule_views, grid_rules_of_chars,
    grid_rules_spec, string_views, opt_view, FlexRule, FlexRuleView, GridRule, GridRuleView,
};
use self::containers::{selector_class, selector_class_exec};
use self::tables::{
    auto_width, convert_flex_div_to_table, convert_grid_div_to_table, flex_div_from, grid_div_spec,
};
use self::declarations::{strip_decl_from, strip_decl_lines};

verus! {

pub open spec fn fr_suffix() -> Seq<char> {
    seq!['f', 'r']
}

/// A grid column becomes an `auto` table column when its track is
/// fractional (`1fr`, `2fr`, …), else it keeps its size.
pub open spec fn column_width(c: Seq<char>) -> Seq<char> {
    if c == seq!['1', 'f', 'r'] || ends_with(c, fr_suffix()) {
        auto_width()
    } else {
        c
    }
}

pub open spec fn column_widths(cols: Seq<Seq<char>>) -> Seq<Seq<char>> {
    cols.map_values(|c: Seq<char>| column_width(c))
}

pub open spec fn width_100() -> Seq<char> {
    seq!['w', 'i', 'd', 't', 'h', ':', '1', '0', '0', '%']
}

/// The style of the table that replaces a grid container.
pub open spec fn grid_table_style(gap: Option<Seq<char>>) -> Seq<char> {
    match gap {
        Some(g) => seq!['b', 'o', 'r', 'd', 'e', 'r', '-', 'c', 'o', 'l', 'l', 'a', 'p', 's', 'e', ':', 's', 'e', 'p', 'a', 'r', 'a', 't', 'e', ';', 'b', 'o', 'r', 'd', 'e', 'r', '-', 's', 'p', 'a', 'c', 'i', 'n', 'g', ':'] + g + seq![';'] + width_100(),
        None => seq!['b', 'o', 'r', 'd', 'e', 'r', '-', 'c', 'o', 'l', 'l', 'a', 'p', 's', 'e', ':', 'c', 'o', 'l', 'l', 'a', 'p', 's', 'e', ';'] + width_100(),
    }
}

/// The style of the table that replaces a flex container: separated
/// borders, the gap as border spacing, full width, and centred when the
/// container centres its content.
pub open spec fn flex_table_style(gap: Option<Seq<char>>, justify: Option<Seq<char>>) -> Seq<char> {
    seq!['b', 'o', 'r', 'd', 'e', 'r', '-', 'c', 'o', 'l', 'l', 'a', 'p', 's', 'e', ':', 's', 'e', 'p', 'a', 'r', 'a', 't', 'e']
        + match gap {
        Some(g) => seq![';', 'b', 'o', 'r', 'd', 'e', 'r', '-', 's', 'p', 'a', 'c', 'i', 'n', 'g', ':'] + g,
        None => Seq::empty(),
    } + seq![';'] + width_100() + if justify == Some(seq!['c', 'e', 'n', 't', 'e', 'r']) {
        seq![';', 'm', 'a', 'r', 'g', 'i', 'n', ':', '0', ' ', 'a', 'u', 't', 'o']
    } else {
        Seq::empty()
    }
}

/// The style of a flex table cell: no padding, and the vertical alignment
/// that `align-items` asks for.
pub open spec fn flex_td_style(align: Option<Seq<char>>) -> Seq<char> {
    let va = seq![';', 'v', 'e', 'r', 't', 'i', 'c', 'a', 'l', '-', 'a', 'l', 'i', 'g', 'n', ':'];
    seq!['p', 'a', 'd', 'd', 'i', 'n', 'g', ':', '0'] + match align {
        Some(a) => if a == seq!['c', 'e', 'n', 't', 'e', 'r'] {
            va + seq!['m', 'i', 'd', 'd', 'l', 'e']
        } else if a == seq!['f', 'l', 'e', 'x', '-', 's', 't', 'a', 'r', 't'] || a == seq!['s', 't', 'a', 'r', 't'] {
            va + seq!['t', 'o', 'p']
        } else if a == seq!['f', 'l', 'e', 'x', '-', 'e', 'n', 'd'] || a == seq!['e', 'n', 'd'] {
            va + seq!['b', 'o', 't', 't', 'o', 'm']
        } else {
            Seq::empty()
        },
        None => Seq::empty(),
    }
}

/// Applies the grid rules in order; a rule whose selector names no class
/// changes nothing.
pub open spec fn apply_grid_rules(s: Seq<char>, rules: Seq<GridRuleView>) -> Option<Seq<char>>
    decreases rules.len(),
{
    if rules.len() == 0 {
        Some(s)
    } else {
        let r = rules[0];
        let next = match selector_class(r.0) {
            Some(cls) => grid_div_spec(s, cls, column_widths(r.1), grid_table_style(r.2)),
            None => Some(s),
        };
        match next {
            Some(t) => apply_grid_rules(t, rules.drop_first()),
            None => None,
        }
    }
}

/// Applies the flex rules in order.
pub open spec fn apply_flex_rules(s: Seq<char>, rules: Seq<FlexRuleView>) -> Option<Seq<char>>
    decreases rules.len(),
{
    if rules.len() == 0 {
        Some(s)
    } else {
        let r = rules[0];
        let next = match selector_class(r.0) {
            Some(cls) => flex_div_from(s, cls, flex_table_style(r.1, r.4), flex_td_style(r.3), r.2, 0),
            None => Some(s),
        };
        match next {
            Some(t) => apply_flex_rules(t, rules.drop_first()),
            None => None,
        }
    }
}

pub open spec fn grid_word() -> Seq<char> {
    seq!['g', 'r', 'i', 'd']
}

pub open spec fn flex_word() -> Seq<char> {
    seq!['f', 'l', 'e', 'x']
}

pub open spec fn grid_template_columns_word() -> Seq<char> {
    seq!['g', 'r', 'i', 'd', '-', 't', 'e', 'm', 'p', 'l', 'a', 't', 'e', '-', 'c', 'o', 'l', 'u', 'm', 'n', 's']
}

pub open spec fn flex_wrap_word() -> Seq<char> {
    seq!['f', 'l', 'e', 'x', '-', 'w', 'r', 'a', 'p']
}

/// The grid pass: with no grid rule the document is unchanged; otherwise
/// every rule's containers become tables and the `display: grid` and
/// `grid-template-columns` lines are removed.
pub open spec fn convert_grid_spec(s: Seq<char>) -> Option<Seq<char>> {
    let rules = grid_rules_spec(s);
    if rules.len() == 0 {
        Some(s)
    } else {
        match apply_grid_rules(s, rules) {
            Some(t) => Some(strip_decl_from(strip_decl_from(t, 0, true, grid_word()), 0, false, grid_template_columns_word())),
            None => None,
        }
    }
}

/// The flex pass, as the grid pass with `display: flex` and `flex-wrap`.
pub open spec fn convert_flex_spec(s: Seq<char>) -> Option<Seq<char>> {
    let rules = flex_rules_spec(s);
    if rules.len() == 0 {
        Some(s)
    } else {
        match apply_flex_rules(s, rules) {
            Some(t) => Some(strip_decl_from(strip_decl_from(t, 0, true, flex_word()), 0, false, flex_wrap_word())),
            None => None,
        }
    }
}

/// The whole layout preprocessor: protect SVG, degrade gradients, convert
/// grids, convert flex containers, restore SVG. `None` on the inputs on
/// which a pass would stop.
pub open spec fn css_layout_spec(v: Seq<char>) -> Option<Seq<char>> {
    match degrade_gradients_spec(protected_from(v, 0, 0)) {
        Some(d) => match convert_grid_spec(d) {
            Some(g) => match convert_flex_spec(g) {
                Some(f) => Some(restore_list(f, svg_blocks_from(v, 0, 0))),
                None => None,
            },
            None => None,
        },
        None => None,
    }
}

fn column_width_exec(c: &Vec<char>) -> (r: Vec<char>)
    ensures
        r@ == column_width(c@),
{
    let fr = chars_of("fr");
    let one_fr = chars_of("1fr");
    proof {
        reveal_strlit("fr");
        reveal_strlit("1fr");
        assert(fr@ =~= fr_suffix());
        assert(one_fr@ =~= seq!['1', 'f', 'r']);
    }
    let is_one = c.len() == 3 && occurs_at_exec(c, 0, &one_fr);
    let ends = c.len() >= 2 && occurs_at_exec(c, c.len() - 2, &fr);
    proof {
        if c.len() == 3 {
            assert(c@.subrange(0, 3) =~= c@);
        }
        if c.len() >= 2 {
            assert(c@.subrange(c.len() - 2, c.len() as int) =~= c@.subrange(c.len() - 2, c.len() - 2 + 2));
        }
    }
    if is_one || ends {
        let a = chars_of("auto");
        proof {
            reveal_strlit("auto");
            assert(a@ =~= auto_width());
        }
        a
    } else {
        let mut r: Vec<char> = Vec::new();
        push_all(&mut r, c);
        r
    }
}

fn opt_chars(o: &Option<String>) -> (r: Option<Vec<char>>)
    ensures
        match r { Some(x) => Some(x@), None => None::<Seq<char>> } == opt_view(*o),
{
    match o {
        Some(s) => Some(chars_of(s.as_str())),
        None => None,
    }
}

fn grid_table_style_exec(gap: &Option<String>) -> (r: Vec<char>)
    ensures
        r@ == grid_table_style(opt_view(*gap)),
{
    let mut r: Vec<char> = Vec::new();
    match gap {
        Some(g) => {
            push_str(&mut r, "border-collapse:separate;border-spacing:");
            push_str(&mut r, g.as_str());
            push_str(&mut r, ";width:100%");
            proof {
                reveal_strlit("border-collapse:separate;border-spacing:");
                reveal_strlit(";width:100%");
            }
        },
        None => {
            push_str(&mut r, "border-collapse:collapse;width:100%");
            proof {
                reveal_strlit("border-collapse:collapse;width:100%");
            }
        },
    }
    assert(r@ =~= grid_table_style(opt_view(*gap)));
    r
}

/// The table style for a flex rule.
fn build_flex_table_style(rule: &FlexRule) -> (r: Vec<char>)
    ensures
        r@ == flex_table_style(rule.rule_view().1, rule.rule_view().4),
{
    let mut r: Vec<char> = Vec::new();
    push_str(&mut r, "border-collapse:separate");
    proof { reveal_strlit("border-collapse:separate"); }
    let ghost a = r@;
    match &rule.gap {
        Some(g) => {
            push_str(&mut r, ";border-spacing:");
            push_str(&mut r, g.as_str());
            proof { reveal_strlit(";border-spacing:"); }
        },
        None => {},
    }
    push_str(&mut r, ";width:100%");
    proof { reveal_strlit(";width:100%"); }
    let center = match &rule.justify {
        Some(j) => {
            let jv = chars_of(j.as_str());
            let c = eq_str(&jv, "center");
            proof {
                reveal_strlit("center");
                assert("center"@ =~= seq!['c', 'e', 'n', 't', 'e', 'r']);
            }
            c
        },
        None => false,
    };
    if center {
        push_str(&mut r, ";margin:0 auto");
        proof { reveal_strlit(";margin:0 auto"); }
    }
    assert(r@ =~= flex_table_style(rule.rule_view().1, rule.rule_view().4));
    r
}

/// The cell style for a flex rule.
fn build_flex_td_style(rule: &FlexRule) -> (r: Vec<char>)
    ensures
        r@ == flex_td_style(rule.rule_view().3),
{
    let mut r: Vec<char> = Vec::new();
    push_str(&mut r, "padding:0");
    proof {
        reveal_strlit("padding:0");
        reveal_strlit("center");
        reveal_strlit("flex-start");
        reveal_strlit("start");
        reveal_strlit("flex-end");
        reveal_strlit("end");
        reveal_strlit(";vertical-align:middle");
        reveal_strlit(";vertical-align:top");
        reveal_strlit(";vertical-align:bottom");
        assert("center"@ =~= seq!['c', 'e', 'n', 't', 'e', 'r']);
        assert("flex-start"@ =~= seq!['f', 'l', 'e', 'x', '-', 's', 't', 'a', 'r', 't']);
        assert("start"@ =~= seq!['s', 't', 'a', 'r', 't']);
        assert("flex-end"@ =~= seq!['f', 'l', 'e', 'x', '-', 'e', 'n', 'd']);
        assert("end"@ =~= seq!['e', 'n', 'd']);
    }
    match &rule.align {
        Some(a) => {
            let av = chars_of(a.as_str());
            if eq_str(&av, "center") {
                push_str(&mut r, ";vertical-align:middle");
            } else if eq_str(&av, "flex-start") || eq_str(&av, "start") {
                push_str(&mut r, ";vertical-align:top");
            } else if eq_str(&av, "flex-end") || eq_str(&av, "end") {
                push_str(&mut r, ";vertical-align:bottom");
            }
        },
        None => {},
    }
    assert(r@ =~= flex_td_style(rule.rule_view().3));
    r
}

/// Converts the grid containers that the document's style sheets declare.
pub fn convert_grid_to_table(s: &Vec<char>) -> (r: Vec<char>)
    requires
        convert_grid_spec(s@) is Some,
    ensures
        convert_grid_spec(s@) == Some(r@),
{
    let rules = grid_rules_of_chars(s);
    let ghost rv = grid_rule_views(rules@);
    if rules.len() == 0 {
        let mut r: Vec<char> = Vec::new();
        push_all(&mut r, s);
        return r;
    }
    let mut cur: Vec<char> = Vec::new();
    push_all(&mut cur, s);
    let mut k: usize = 0;
    assert(rv.skip(0) =~= rv);
    while k < rules.len()
        invariant
            k <= rules.len(),
            rv == grid_rule_views(rules@),
            rv == grid_rules_spec(s@),
            apply_grid_rules(s@, rv) == apply_grid_rules(cur@, rv.skip(k as int)),
            apply_grid_rules(s@, rv) is Some,
        decreases rules.len() - k,
    {
        let rule = &rules[k];
        assert(rv.skip(k as int)[0] == rule.rule_view());
        assert(rv.skip(k as int).drop_first() =~= rv.skip(k + 1));
        let sel = chars_of(rule.selector.as_str());
        match selector_class_exec(&sel) {
            Some(cls) => {
                let mut widths: Vec<Vec<char>> = Vec::new();
                let mut c: usize = 0;
                while c < rule.columns.len()
                    invariant
                        c <= rule.columns.len(),
                        seq_views(widths@) =~= column_widths(string_views(rule.columns@).take(c as int)),
                    decreases rule.columns.len() - c,
                {
                    let cv = chars_of(rule.columns[c].as_str());
                    let w = column_width_exec(&cv);
                    let ghost before = seq_views(widths@);
                    widths.push(w);
                    assert(seq_views(widths@) =~= before.push(w@));
                    assert(string_views(rule.columns@).take(c + 1) =~= string_views(rule.columns@).take(c as int).push(cv@));
                    c = c + 1;
                    assert(seq_views(widths@) =~= column_widths(string_views(rule.columns@).take(c as int)));
                }
                assert(string_views(rule.columns@).take(c as int) =~= string_views(rule.columns@));
                let style = grid_table_style_exec(&rule.gap);
                cur = convert_grid_div_to_table(&cur, &cls, &widths, &style);
            },
            None => {},
        }
        k = k + 1;
    }
    assert(rv.skip(k as int) =~= Seq::<GridRuleView>::empty());
    let grid = chars_of("grid");
    let cols = chars_of("grid-template-columns");
    proof {
        reveal_strlit("grid");
        reveal_strlit("grid-template-columns");
        assert(grid@ =~= grid_word());
        assert(cols@ =~= grid_template_columns_word());
    }
    let a = strip_decl_lines(&cur, true, &grid);
    strip_decl_lines(&a, false, &cols)
}

/// Converts the flex containers that the document's style sheets declare.
pub fn convert_flexbox_to_table(s: &Vec<char>) -> (r: Vec<char>)
    requires
        convert_flex_spec(s@) is Some,
    ensures
        convert_flex_spec(s@) == Some(r@),
{
    let rules = flex_rules_of_chars(s);
    let ghost rv = flex_rule_views(rules@);
    if rules.len() == 0 {
        let mut r: Vec<char> = Vec::new();
        push_all(&mut r, s);
        return r;
    }
    let mut cur: Vec<char> = Vec::new();
    push_all(&mut cur, s);
    let mut k: usize = 0;
    assert(rv.skip(0) =~= rv);
    while k < rules.len()
        invariant
            k <= rules.len(),
            rv == flex_rule_views(rules@),
            rv == flex_rules_spec(s@),
            apply_flex_rules(s@, rv) == apply_flex_rules(cur@, rv.skip(k as int)),
            apply_flex_rules(s@, rv) is Some,
        decreases rules.len() - k,
    {
        let rule = &rules[k];
        assert(rv.skip(k as int)[0] == rule.rule_view());
        assert(rv.skip(k as int).drop_first() =~= rv.skip(k + 1));
        let sel = chars_of(rule.selector.as_str());
        match selector_class_exec(&sel) {
            Some(cls) => {
                let table_style = build_flex_table_style(rule);
                let td_style = build_flex_td_style(rule);
                cur = convert_flex_div_to_table(&cur, &cls, &table_style, &td_style, rule.wrap);
            },
            None => {},
        }
        k = k + 1;
    }
    assert(rv.skip(k as int) =~= Seq::<FlexRuleView>::empty());
    let flex = chars_of("flex");
    let wrap = chars_of("flex-wrap");
    proof {
        reveal_strlit("flex");
        reveal_strlit("flex-wrap");
        assert(flex@ =~= flex_word());
        assert(wrap@ =~= flex_wrap_word());
    }
    let a = strip_decl_lines(&cur, true, &flex);
    strip_decl_lines(&a, false, &wrap)
}

/// Process CSS layout: Grid→Table, Flexbox→Table, Gradient→Solid, with
/// inline SVG protected throughout.
pub fn process_css_layout(html: &str) -> (r: String)
    requires
        css_layout_spec(html@) is Some,
    ensures
        css_layout_spec(html@) == Some(r@),
{
    let (protected, svg_map) = protect_svg_elements(html);
    let p = chars_of(protected.as_str());
    let d = degrade_gradients_chars(&p);
    let g = convert_grid_to_table(&d);
    let f = convert_flexbox_to_table(&g);
    let fs = string_of(&f);
    restore_svg_elements(fs.as_str(), svg_map.as_slice())
}

} // verus!
