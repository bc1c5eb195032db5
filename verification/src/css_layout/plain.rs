//! A document with nothing for the layout passes to do comes back as it
//! was: no style sheet, no gradient function, no `background-clip`, and no
//! text that restoring could take for an SVG placeholder.
use vstd::prelude::*;
use crate::text::{ci_eq, ci_find_from, ci_occurs_at, contains_seq, decimal, lemma_decimal_no_nul, occurs_at};
use super::svg::{
    restorable, lemma_next_svg_bounds, lemma_protect_restore_roundtrip, next_svg, protected_from,
    svg_blocks_from, svg_end, svg_placeholder, txpsvg,
};
use super::gradients::{
    clip_match_at, clip_tail_end, conic_gradient_name, degrade_from, degrade_gradients_spec,
    lemma_ci_find_from, linear_gradient_name, next_gradient, radial_gradient_name, strip_clip_from,
};
use super::rules::{
    flex_rules_in, flex_rules_spec, grid_rules_in, grid_rules_spec, next_style_block, style_block_at,
    style_open_tag, style_sheets_from,
};
use super::{convert_flex_spec, convert_grid_spec, css_layout_spec};

verus! {

/// `-gradient(`, the tail shared by the gradient function names.
pub open spec fn gradient_tail() -> Seq<char> {
    seq!['-', 'g', 'r', 'a', 'd', 'i', 'e', 'n', 't', '(']
}

/// `background-clip`.
pub open spec fn clip_word() -> Seq<char> {
    seq!['b', 'a', 'c', 'k', 'g', 'r', 'o', 'u', 'n', 'd', '-', 'c', 'l', 'i', 'p']
}

/// `p` occurs at `j` in `s`, ignoring case when `ci`.
pub open spec fn pattern_at(s: Seq<char>, j: int, p: Seq<char>, ci: bool) -> bool {
    &&& 0 <= j
    &&& j + p.len() <= s.len()
    &&& forall|m: int| 0 <= m < p.len() ==> if ci { ci_eq(#[trigger] s[j + m], p[m]) } else { s[j + m] == p[m] }
}

proof fn lemma_occurs_is_pattern(s: Seq<char>, j: int, p: Seq<char>)
    ensures
        occurs_at(s, j, p) == pattern_at(s, j, p, false),
        ci_occurs_at(s, j, p) == pattern_at(s, j, p, true),
{
    if occurs_at(s, j, p) {
        assert forall|m: int| 0 <= m < p.len() implies s[j + m] == p[m] by {
            assert(s.subrange(j, j + p.len())[m] == s[j + m]);
        }
    }
    if pattern_at(s, j, p, false) {
        assert forall|m: int| 0 <= m < p.len() implies s.subrange(j, j + p.len())[m] == p[m] by {
            assert(s[j + m] == p[m]);
        }
        assert(s.subrange(j, j + p.len()) =~= p);
    }
}

/// The characters of a placeholder: NUL at both ends, the marker letters
/// and decimal digits between.
proof fn lemma_placeholder_chars(k: nat, m: int)
    requires
        0 <= m < svg_placeholder(k).len(),
    ensures
        svg_placeholder(k)[m] != '-',
        svg_placeholder(k)[m] != '<',
        (m == 0 || m == svg_placeholder(k).len() - 1) ==> svg_placeholder(k)[m] == '\0',
{
    lemma_decimal_no_nul(k);
    let ph = svg_placeholder(k);
    if 1 <= m < 7 {
        assert(ph[m] == txpsvg()[m - 1]);
    } else if 7 <= m < ph.len() - 1 {
        assert(ph[m] == decimal(k)[m - 7]);
    }
}

/// A pattern with no NUL and with a `-` or `<` (neither of which a
/// placeholder holds) that does not occur in the text does not occur in its
/// protected form either.
proof fn lemma_protected_keeps_absent(v: Seq<char>, i: int, k: nat, p: Seq<char>, ci: bool, m0: int)
    requires
        0 <= i <= v.len(),
        0 <= m0 < p.len(),
        p[m0] == '-' || p[m0] == '<',
        forall|m: int| 0 <= m < p.len() ==> p[m] != '\0',
        forall|j: int| !pattern_at(v, j, p, ci),
    ensures
        forall|q: int| !pattern_at(protected_from(v, i, k), q, p, ci),
    decreases v.len() - i,
{
    lemma_next_svg_bounds(v, i);
    let pp = protected_from(v, i, k);
    match next_svg(v, i) {
        None => {
            assert forall|q: int| !pattern_at(pp, q, p, ci) by {
                if pattern_at(pp, q, p, ci) {
                    assert forall|m: int| 0 <= m < p.len() implies if ci { ci_eq(#[trigger] v[i + q + m], p[m]) } else { v[i + q + m] == p[m] } by {
                        assert(pp[q + m] == v[i + q + m]);
                    }
                    assert(pattern_at(v, i + q, p, ci));
                }
            }
        },
        Some(s) => {
            let e = svg_end(v, s);
            let x = v.subrange(i, s);
            let ph = svg_placeholder(k);
            let rest = protected_from(v, e, k + 1);
            lemma_protected_keeps_absent(v, e, k + 1, p, ci, m0);
            assert(pp == x + ph + rest);
            let xl = x.len() as int;
            let pl = ph.len() as int;
            let n = p.len() as int;
            lemma_decimal_no_nul(k);
            assert forall|q: int| !pattern_at(pp, q, p, ci) by {
                if pattern_at(pp, q, p, ci) {
                    if q + n <= xl {
                        assert forall|m: int| 0 <= m < n implies if ci { ci_eq(#[trigger] v[i + q + m], p[m]) } else { v[i + q + m] == p[m] } by {
                            assert(pp[q + m] == v[i + q + m]);
                        }
                        assert(pattern_at(v, i + q, p, ci));
                    } else if q >= xl + pl {
                        assert forall|m: int| 0 <= m < n implies if ci { ci_eq(#[trigger] rest[q - xl - pl + m], p[m]) } else { rest[q - xl - pl + m] == p[m] } by {
                            assert(pp[q + m] == rest[q - xl - pl + m]);
                        }
                        assert(pattern_at(rest, q - xl - pl, p, ci));
                    } else {
                        let t0 = q + m0;
                        if xl <= t0 < xl + pl {
                            lemma_placeholder_chars(k, t0 - xl);
                            assert(pp[t0] == ph[t0 - xl]);
                            assert(if ci { ci_eq(pp[q + m0], p[m0]) } else { pp[q + m0] == p[m0] });
                        } else if t0 < xl {
                            let m1 = xl - q;
                            lemma_placeholder_chars(k, 0);
                            assert(pp[xl] == ph[0]);
                            assert(if ci { ci_eq(pp[q + m1], p[m1]) } else { pp[q + m1] == p[m1] });
                        } else {
                            let m1 = xl + pl - 1 - q;
                            lemma_placeholder_chars(k, pl - 1);
                            assert(pp[xl + pl - 1] == ph[pl - 1]);
                            assert(if ci { ci_eq(pp[q + m1], p[m1]) } else { pp[q + m1] == p[m1] });
                        }
                    }
                }
            }
        },
    }
}

/// A gradient name found would hold the gradient tail.
proof fn lemma_name_has_tail(s: Seq<char>, name: Seq<char>, j: int)
    requires
        name.len() >= 10,
        name.subrange(name.len() - 10, name.len() as int) == gradient_tail(),
        ci_occurs_at(s, j, name),
    ensures
        pattern_at(s, j + name.len() - 10, gradient_tail(), true),
{
    let d = name.len() - 10;
    assert forall|m: int| 0 <= m < 10 implies ci_eq(#[trigger] s[j + d + m], gradient_tail()[m]) by {
        assert(ci_eq(s[j + (d + m)], name[d + m]));
        assert(name.subrange(d, name.len() as int)[m] == name[d + m]);
    }
}

/// Without a gradient function the gradient search finds nothing and the
/// text passes through.
proof fn lemma_no_gradient(s: Seq<char>)
    requires
        forall|j: int| !pattern_at(s, j, gradient_tail(), true),
    ensures
        degrade_from(s, 0) == Some(s),
{
    lemma_ci_find_from(s, linear_gradient_name(), 0);
    lemma_ci_find_from(s, radial_gradient_name(), 0);
    lemma_ci_find_from(s, conic_gradient_name(), 0);
    assert(linear_gradient_name().subrange(6, 16) =~= gradient_tail());
    assert(radial_gradient_name().subrange(6, 16) =~= gradient_tail());
    assert(conic_gradient_name().subrange(5, 15) =~= gradient_tail());
    if let Some(j) = ci_find_from(s, linear_gradient_name(), 0) {
        lemma_name_has_tail(s, linear_gradient_name(), j);
    }
    if let Some(j) = ci_find_from(s, radial_gradient_name(), 0) {
        lemma_name_has_tail(s, radial_gradient_name(), j);
    }
    if let Some(j) = ci_find_from(s, conic_gradient_name(), 0) {
        lemma_name_has_tail(s, conic_gradient_name(), j);
    }
    assert(next_gradient(s, 0) is None);
    if s.len() > 0 {
        assert(s.subrange(0, s.len() as int) =~= s);
    } else {
        assert(s =~= Seq::<char>::empty());
    }
}

/// Without `background-clip` the clip pass changes nothing.
proof fn lemma_no_clip(s: Seq<char>, i: int)
    requires
        0 <= i <= s.len(),
        forall|j: int| !pattern_at(s, j, clip_word(), true),
    ensures
        strip_clip_from(s, i) == s.subrange(i, s.len() as int),
    decreases s.len() - i,
{
    if i < s.len() {
        lemma_occurs_is_pattern(s, i, clip_word());
        lemma_occurs_is_pattern(s, i + 8, clip_word());
        assert(clip_tail_end(s, i) is None);
        assert(clip_tail_end(s, i + 8) is None);
        assert(clip_match_at(s, i) is None);
        lemma_no_clip(s, i + 1);
        assert(s.subrange(i, s.len() as int) =~= seq![s[i]] + s.subrange(i + 1, s.len() as int));
    } else {
        assert(s.subrange(i, s.len() as int) =~= Seq::<char>::empty());
    }
}

/// Without `<style` there is no style sheet.
proof fn lemma_no_style(s: Seq<char>, i: int)
    requires
        forall|j: int| !pattern_at(s, j, style_open_tag(), false),
    ensures
        next_style_block(s, i) is None,
        style_sheets_from(s, i) == Seq::<Seq<char>>::empty(),
    decreases s.len() + 1 - i,
{
    if 0 <= i <= s.len() {
        lemma_occurs_is_pattern(s, i, style_open_tag());
        assert(style_block_at(s, i) is None);
        lemma_no_style(s, i + 1);
    }
}

proof fn lemma_absent_as_patterns(v: Seq<char>)
    requires
        !contains_seq(v, style_open_tag()),
        forall|j: int| !ci_occurs_at(v, j, gradient_tail()),
        forall|j: int| !ci_occurs_at(v, j, clip_word()),
    ensures
        forall|j: int| !pattern_at(v, j, style_open_tag(), false),
        forall|j: int| !pattern_at(v, j, gradient_tail(), true),
        forall|j: int| !pattern_at(v, j, clip_word(), true),
{
    assert forall|j: int| !pattern_at(v, j, style_open_tag(), false) by {
        lemma_occurs_is_pattern(v, j, style_open_tag());
    }
    assert forall|j: int| !pattern_at(v, j, gradient_tail(), true) by {
        lemma_occurs_is_pattern(v, j, gradient_tail());
    }
    assert forall|j: int| !pattern_at(v, j, clip_word(), true) by {
        lemma_occurs_is_pattern(v, j, clip_word());
    }
}

/// Each pass leaves alone a text without the words it looks for.
proof fn lemma_passes_keep(p: Seq<char>)
    requires
        forall|j: int| !pattern_at(p, j, style_open_tag(), false),
        forall|j: int| !pattern_at(p, j, gradient_tail(), true),
        forall|j: int| !pattern_at(p, j, clip_word(), true),
    ensures
        degrade_gradients_spec(p) == Some(p),
        convert_grid_spec(p) == Some(p),
        convert_flex_spec(p) == Some(p),
{
    lemma_no_gradient(p);
    lemma_no_clip(p, 0);
    assert(p.subrange(0, p.len() as int) =~= p);
    lemma_no_style(p, 0);
    assert(grid_rules_spec(p) =~= Seq::empty());
    assert(flex_rules_spec(p) =~= Seq::empty());
}

#[verifier::spinoff_prover]
#[verifier::rlimit(50)]
proof fn lemma_protected_passes_keep(v: Seq<char>)
    requires
        forall|j: int| !pattern_at(v, j, style_open_tag(), false),
        forall|j: int| !pattern_at(v, j, gradient_tail(), true),
        forall|j: int| !pattern_at(v, j, clip_word(), true),
    ensures
        degrade_gradients_spec(protected_from(v, 0, 0)) == Some(protected_from(v, 0, 0)),
        convert_grid_spec(protected_from(v, 0, 0)) == Some(protected_from(v, 0, 0)),
        convert_flex_spec(protected_from(v, 0, 0)) == Some(protected_from(v, 0, 0)),
{
    lemma_protected_keeps_absent(v, 0, 0, style_open_tag(), false, 0);
    lemma_protected_keeps_absent(v, 0, 0, gradient_tail(), true, 0);
    lemma_protected_keeps_absent(v, 0, 0, clip_word(), true, 10);
    lemma_passes_keep(protected_from(v, 0, 0));
}

proof fn lemma_layout_of_kept(v: Seq<char>)
    requires
        degrade_gradients_spec(protected_from(v, 0, 0)) == Some(protected_from(v, 0, 0)),
        convert_grid_spec(protected_from(v, 0, 0)) == Some(protected_from(v, 0, 0)),
        convert_flex_spec(protected_from(v, 0, 0)) == Some(protected_from(v, 0, 0)),
        super::svg::restore_list(protected_from(v, 0, 0), svg_blocks_from(v, 0, 0)) == v,
    ensures
        css_layout_spec(v) == Some(v),
{
}

/// A document with no `<style`, no gradient function and no
/// `background-clip` (letters in any case), in which no NUL is followed by
/// `TXPSVG` and no SVG element is followed right away by `TXPSVG`, comes
/// back from the layout passes unchanged; its SVG elements are protected
/// and restored as they were.
#[verifier::spinoff_prover]
pub proof fn lemma_plain_document_unchanged(v: Seq<char>)
    requires
        restorable(v),
        !contains_seq(v, style_open_tag()),
        forall|j: int| !ci_occurs_at(v, j, gradient_tail()),
        forall|j: int| !ci_occurs_at(v, j, clip_word()),
    ensures
        css_layout_spec(v) == Some(v),
{
    lemma_absent_as_patterns(v);
    lemma_protected_passes_keep(v);
    lemma_protect_restore_roundtrip(v);
    lemma_layout_of_kept(v);
}

} // verus!
