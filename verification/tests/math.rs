use typepress::math::{
    math_replacements,
    display_math_spans, escape_html, html_dom_children_to_math_html, html_dom_to_math_html,
    inline_math_spans, is_large_operator_text, math_child_html, math_child_plain_text,
    math_children_to_html, math_children_to_plain_text, math_dom_to_html, math_dom_to_plain_text,
    math_fallback_markup, math_markup, math_node_to_html, math_node_to_plain_text,
    protect_escaped_dollars, render_large_operator_limits, render_script_stack_fallback,
    render_superscript_text, restore_escaped_dollars, unicode_subscript, unicode_subscript_char,
    unicode_superscript, unicode_superscript_char, HtmlDomNode, MathDomNode, MathNode, MathNodeType,
};
use typepress::splice::splice_spans;

fn node(t: MathNodeType, children: Vec<MathDomNode>) -> MathNode {
    MathNode { node_type: t, attributes: Vec::new(), children }
}

fn text(s: &str) -> MathDomNode {
    MathDomNode::Text(s.to_string())
}

fn mi(s: &str) -> MathDomNode {
    MathDomNode::Math(node(MathNodeType::Mi, vec![text(s)]))
}

#[test]
fn escape_html_escapes_all_five() {
    assert_eq!(escape_html("a<b>&\"c'"), "a&lt;b&gt;&amp;&quot;c&#39;");
    assert_eq!(escape_html("plain"), "plain");
    assert_eq!(escape_html(""), "");
}

#[test]
fn script_chars() {
    assert_eq!(unicode_superscript_char('2'), Some('²'));
    assert_eq!(unicode_superscript_char('q'), None);
    assert_eq!(unicode_subscript_char('1'), Some('₁'));
    assert_eq!(unicode_subscript_char('b'), None);
    assert_eq!(unicode_superscript("2n"), Some("²ⁿ".to_string()));
    assert_eq!(unicode_superscript("2q"), None);
    assert_eq!(unicode_subscript("i+1"), Some("ᵢ₊₁".to_string()));
    assert_eq!(unicode_subscript(""), Some(String::new()));
}

#[test]
fn superscript_falls_back_to_a_raised_span() {
    assert_eq!(render_superscript_text("2"), "²");
    assert_eq!(render_superscript_text("<q>"), "<span class=\"txp-script-sup\">&lt;q&gt;</span>");
}

#[test]
fn script_stack_and_operator_limits() {
    assert_eq!(
        render_script_stack_fallback("x", Some("a"), None),
        "<span class=\"txp-script-pair\"><span class=\"txp-script-base\">x</span><span class=\"txp-script-stack\"><span class=\"txp-script-over\">a</span></span></span>"
    );
    assert_eq!(
        render_large_operator_limits("∑", Some("n"), Some("i")),
        "<span class=\"txp-op-limits\"><span class=\"txp-op-over\">n</span><span class=\"txp-op-base\">∑</span><span class=\"txp-op-under\">i</span></span>"
    );
    assert!(is_large_operator_text(" ∫ "));
    assert!(!is_large_operator_text("∫∫"));
    assert!(!is_large_operator_text("x"));
}

#[test]
fn fallback_markup_escapes_the_source() {
    assert_eq!(
        math_fallback_markup("a<b", true),
        "<span class=\"txp-math txp-math-display txp-math-error\">a&lt;b</span>"
    );
    assert_eq!(
        math_fallback_markup("x", false),
        "<span class=\"txp-math txp-math-inline txp-math-error\">x</span>"
    );
}

#[test]
fn superscript_node_uses_unicode() {
    // E = mc^2
    let sup = node(MathNodeType::Msup, vec![mi("c"), MathDomNode::Math(node(MathNodeType::Mn, vec![text("2")]))]);
    assert_eq!(math_node_to_html(&sup), "c²");
    let row = node(MathNodeType::Mrow, vec![mi("m"), MathDomNode::Math(sup)]);
    assert_eq!(math_node_to_html(&row), "mc²");
    assert_eq!(math_node_to_plain_text(&row), None);
}

#[test]
fn subscript_node_uses_unicode_or_stack() {
    let sub = node(MathNodeType::Msub, vec![mi("x"), mi("1")]);
    assert_eq!(math_node_to_html(&sub), "x₁");
    let sub2 = node(MathNodeType::Msub, vec![mi("x"), mi("q")]);
    assert_eq!(
        math_node_to_html(&sub2),
        "<span class=\"txp-script-pair\"><span class=\"txp-script-base\">x</span><span class=\"txp-script-stack\"><span class=\"txp-script-under\">q</span></span></span>"
    );
}

#[test]
fn integral_with_limits() {
    let op = MathDomNode::Math(node(MathNodeType::Mo, vec![text("∫")]));
    let n = node(MathNodeType::Msubsup, vec![op, mi("0"), mi("1")]);
    assert_eq!(
        math_node_to_html(&n),
        "<span class=\"txp-op-limits\"><span class=\"txp-op-over\">1</span><span class=\"txp-op-base\">∫</span><span class=\"txp-op-under\">0</span></span>"
    );
}

#[test]
fn fraction_and_root() {
    let frac = node(MathNodeType::Mfrac, vec![mi("1"), mi("2")]);
    assert_eq!(
        math_node_to_html(&frac),
        "<span class=\"txp-frac\"><span class=\"txp-frac-num\">1</span><span class=\"txp-frac-den\">2</span></span>"
    );
    let sqrt = node(MathNodeType::Msqrt, vec![mi("2")]);
    assert_eq!(
        math_node_to_html(&sqrt),
        "<span class=\"txp-sqrt\"><span class=\"txp-sqrt-glyph\">√</span><span class=\"txp-sqrt-body\">2</span></span>"
    );
}

#[test]
fn semantics_drops_annotations() {
    let ann = MathDomNode::Math(node(MathNodeType::Annotation, vec![text("x^2")]));
    let sem = node(MathNodeType::Semantics, vec![mi("x"), ann]);
    assert_eq!(math_node_to_html(&sem), "x");
    assert_eq!(math_node_to_plain_text(&sem), Some("x".to_string()));
}

#[test]
fn table_rows_wrap_loose_cells() {
    let cell = MathDomNode::Math(node(MathNodeType::Mtd, vec![mi("a")]));
    let row = node(MathNodeType::Mtr, vec![cell, mi("b")]);
    assert_eq!(math_node_to_html(&row), "<tr><td>a</td><td>b</td></tr>");
}

#[test]
fn enclosure_box_and_glyph() {
    let boxed = MathNode {
        node_type: MathNodeType::Menclose,
        attributes: vec![("notation".to_string(), "box".to_string())],
        children: vec![mi("x")],
    };
    assert_eq!(math_node_to_html(&boxed), "<span class=\"txp-menclose-box\">x</span>");
    let glyph = MathNode {
        node_type: MathNodeType::Mglyph,
        attributes: vec![("alt".to_string(), "<g>".to_string())],
        children: Vec::new(),
    };
    assert_eq!(math_node_to_html(&glyph), "&lt;g&gt;");
    assert_eq!(math_node_to_plain_text(&glyph), Some("<g>".to_string()));
}

#[test]
fn dom_nodes_and_children() {
    assert_eq!(math_dom_to_html(&MathDomNode::Space(None)), " ");
    assert_eq!(math_dom_to_html(&MathDomNode::Text("<".to_string())), "&lt;");
    assert_eq!(math_dom_to_plain_text(&MathDomNode::Space(Some("\u{2009}".to_string()))), Some("\u{2009}".to_string()));
    let kids = vec![mi("a"), mi("b")];
    assert_eq!(math_children_to_html(&kids), "ab");
    assert_eq!(math_children_to_plain_text(&kids), Some("ab".to_string()));
    let n = node(MathNodeType::Mrow, kids);
    assert_eq!(math_child_html(&n, 1), "b");
    assert_eq!(math_child_html(&n, 5), "");
    assert_eq!(math_child_plain_text(&n, 0), Some("a".to_string()));
    assert_eq!(math_child_plain_text(&n, 2), None);
}

#[test]
fn html_tree_wraps_mathml() {
    let tree = vec![HtmlDomNode::DomSpan(vec![
        HtmlDomNode::MathML(node(MathNodeType::Math, vec![mi("x")])),
        HtmlDomNode::Symbol("&".to_string()),
        HtmlDomNode::Other,
    ])];
    assert_eq!(html_dom_children_to_math_html(&tree), "x&amp;");
    assert_eq!(html_dom_to_math_html(&tree[0]), "x&amp;");
    assert_eq!(math_markup(&tree, false), "<span class=\"txp-math txp-math-inline\">x&amp;</span>");
}

#[test]
fn finds_display_and_inline_formulas() {
    let doc = "a $$x$$ b $y$ c $$ $ d";
    let display = display_math_spans(doc);
    assert_eq!(display.len(), 1);
    assert_eq!((display[0].start, display[0].end), (2, 7));
    assert_eq!(display[0].inner, "x");
    let inline = inline_math_spans("p $x$ q $$ r $y+1$");
    let found: Vec<&str> = inline.iter().map(|s| s.inner.as_str()).collect();
    assert_eq!(found, vec!["x", " r "]);
}

#[test]
fn splicing_replaces_each_formula() {
    let doc = "E: $E=mc^2$, done";
    let spans = inline_math_spans(doc);
    let rendered = vec!["[math]".to_string()];
    assert_eq!(splice_spans(doc, &spans, &rendered), "E: [math], done");
}

#[test]
fn escaped_dollars_round_trip() {
    let doc = "cost \\$5 and $x$";
    let protected = protect_escaped_dollars(doc);
    assert_eq!(inline_math_spans(&protected).len(), 1);
    assert_eq!(restore_escaped_dollars(&protected), doc);
}

#[test]
fn failed_formulas_fall_back_and_are_not_counted() {
    let doc = "Good $a$ bad $\\bad$ end";
    let spans = inline_math_spans(doc);
    assert_eq!(spans.len(), 2);
    let renders = vec![Some("<span>A</span>".to_string()), None];
    let (reps, count) = math_replacements(&spans, &renders, false);
    assert_eq!(count, 1);
    assert_eq!(reps[0], "<span>A</span>");
    assert_eq!(reps[1], math_fallback_markup("\\bad", false));
    let out = splice_spans(doc, &spans, &reps);
    assert_eq!(
        out,
        "Good <span>A</span> bad <span class=\"txp-math txp-math-inline txp-math-error\">\\bad</span> end"
    );
}
