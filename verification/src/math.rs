//! Math rendering: the MathML tree that the TeX engine produces is turned
//! into plain HTML spans that the PDF layout engine can draw, with Unicode
//! super- and subscripts where every character has one.
use vstd::prelude::*;
use crate::css_layout::rules::opt_view;
use crate::splice::{Span, span_ranges, inners_match, spans_ordered, substring};
use crate::text::{chars_of, string_of, push_all, push_str, trimmed_range, trim, contains_seq, contains_exec, eq_str, replace_all,
    replace_all_exec, find_from, find_from_exec, lemma_find_from, push_range, replace_from, occurs_at};

verus! {

// ---------------------------------------------------------------------------
// HTML escaping
// ---------------------------------------------------------------------------

/// The escape of one character: the five characters with a meaning in HTML
/// become entities, every other character stands for itself.
pub open spec fn escape_char(c: char) -> Seq<char> {
    if c == '&' {
        "&amp;"@
    } else if c == '<' {
        "&lt;"@
    } else if c == '>' {
        "&gt;"@
    } else if c == '"' {
        "&quot;"@
    } else if c == '\'' {
        "&#39;"@
    } else {
        seq![c]
    }
}

/// The escape of a text: the escapes of its characters, in order.
pub open spec fn escaped(s: Seq<char>) -> Seq<char>
    decreases s.len(),
{
    if s.len() == 0 {
        Seq::empty()
    } else {
        escaped(s.drop_last()) + escape_char(s.last())
    }
}

fn push_escaped_char(out: &mut Vec<char>, c: char)
    ensures
        final(out)@ == old(out)@ + escape_char(c),
{
    if c == '&' {
        push_str(out, "&amp;");
    } else if c == '<' {
        push_str(out, "&lt;");
    } else if c == '>' {
        push_str(out, "&gt;");
    } else if c == '"' {
        push_str(out, "&quot;");
    } else if c == '\'' {
        push_str(out, "&#39;");
    } else {
        out.push(c);
    }
}

/// Appends the escape of `v` to `out`.
pub fn push_escaped(out: &mut Vec<char>, v: &Vec<char>)
    ensures
        final(out)@ == old(out)@ + escaped(v@),
{
    let mut i: usize = 0;
    while i < v.len()
        invariant
            i <= v.len(),
            out@ == old(out)@ + escaped(v@.take(i as int)),
        decreases v.len() - i,
    {
        proof {
            assert(v@.take(i + 1).drop_last() == v@.take(i as int));
        }
        push_escaped_char(out, v[i]);
        i = i + 1;
    }
    assert(v@.take(v.len() as int) == v@);
}

/// Escapes `&`, `<`, `>`, `"` and `'` for use in HTML text and attribute
/// values.
pub fn escape_html(text: &str) -> (r: String)
    ensures
        r@ == escaped(text@),
{
    let v = chars_of(text);
    let mut out: Vec<char> = Vec::new();
    push_escaped(&mut out, &v);
    string_of(&out)
}

// ---------------------------------------------------------------------------
// Unicode scripts
// ---------------------------------------------------------------------------

/// The Unicode superscript form of a character, where there is one.
pub open spec fn superscript_of(c: char) -> Option<char> {
    match c {
        '0' => Some('⁰'),
        '1' => Some('¹'),
        '2' => Some('²'),
        '3' => Some('³'),
        '4' => Some('⁴'),
        '5' => Some('⁵'),
        '6' => Some('⁶'),
        '7' => Some('⁷'),
        '8' => Some('⁸'),
        '9' => Some('⁹'),
        '+' => Some('⁺'),
        '-' => Some('⁻'),
        '=' => Some('⁼'),
        '(' => Some('⁽'),
        ')' => Some('⁾'),
        'a' => Some('ᵃ'),
        'b' => Some('ᵇ'),
        'c' => Some('ᶜ'),
        'd' => Some('ᵈ'),
        'e' => Some('ᵉ'),
        'f' => Some('ᶠ'),
        'g' => Some('ᵍ'),
        'h' => Some('ʰ'),
        'i' => Some('ⁱ'),
        'j' => Some('ʲ'),
        'k' => Some('ᵏ'),
        'l' => Some('ˡ'),
        'm' => Some('ᵐ'),
        'n' => Some('ⁿ'),
        'o' => Some('ᵒ'),
        'p' => Some('ᵖ'),
        'r' => Some('ʳ'),
        's' => Some('ˢ'),
        't' => Some('ᵗ'),
        'u' => Some('ᵘ'),
        'v' => Some('ᵛ'),
        'w' => Some('ʷ'),
        'x' => Some('ˣ'),
        'y' => Some('ʸ'),
        'z' => Some('ᶻ'),
        'β' => Some('ᵝ'),
        'γ' => Some('ᵞ'),
        'δ' => Some('ᵟ'),
        'θ' => Some('ᶿ'),
        'φ' => Some('ᵠ'),
        'χ' => Some('ᵡ'),
        _ => None,
    }
}

/// The Unicode subscript form of a character, where there is one.
pub open spec fn subscript_of(c: char) -> Option<char> {
    match c {
        '0' => Some('₀'),
        '1' => Some('₁'),
        '2' => Some('₂'),
        '3' => Some('₃'),
        '4' => Some('₄'),
        '5' => Some('₅'),
        '6' => Some('₆'),
        '7' => Some('₇'),
        '8' => Some('₈'),
        '9' => Some('₉'),
        '+' => Some('₊'),
        '-' => Some('₋'),
        '=' => Some('₌'),
        '(' => Some('₍'),
        ')' => Some('₎'),
        'a' => Some('ₐ'),
        'e' => Some('ₑ'),
        'h' => Some('ₕ'),
        'i' => Some('ᵢ'),
        'j' => Some('ⱼ'),
        'k' => Some('ₖ'),
        'l' => Some('ₗ'),
        'm' => Some('ₘ'),
        'n' => Some('ₙ'),
        'o' => Some('ₒ'),
        'p' => Some('ₚ'),
        'r' => Some('ᵣ'),
        's' => Some('ₛ'),
        't' => Some('ₜ'),
        'u' => Some('ᵤ'),
        'v' => Some('ᵥ'),
        'x' => Some('ₓ'),
        'β' => Some('ᵦ'),
        'γ' => Some('ᵧ'),
        'ρ' => Some('ᵨ'),
        'φ' => Some('ᵩ'),
        'χ' => Some('ᵪ'),
        _ => None,
    }
}

pub fn unicode_superscript_char(ch: char) -> (r: Option<char>)
    ensures
        r == superscript_of(ch),
{
    match ch {
        '0' => Some('⁰'),
        '1' => Some('¹'),
        '2' => Some('²'),
        '3' => Some('³'),
        '4' => Some('⁴'),
        '5' => Some('⁵'),
        '6' => Some('⁶'),
        '7' => Some('⁷'),
        '8' => Some('⁸'),
        '9' => Some('⁹'),
        '+' => Some('⁺'),
        '-' => Some('⁻'),
        '=' => Some('⁼'),
        '(' => Some('⁽'),
        ')' => Some('⁾'),
        'a' => Some('ᵃ'),
        'b' => Some('ᵇ'),
        'c' => Some('ᶜ'),
        'd' => Some('ᵈ'),
        'e' => Some('ᵉ'),
        'f' => Some('ᶠ'),
        'g' => Some('ᵍ'),
        'h' => Some('ʰ'),
        'i' => Some('ⁱ'),
        'j' => Some('ʲ'),
        'k' => Some('ᵏ'),
        'l' => Some('ˡ'),
        'm' => Some('ᵐ'),
        'n' => Some('ⁿ'),
        'o' => Some('ᵒ'),
        'p' => Some('ᵖ'),
        'r' => Some('ʳ'),
        's' => Some('ˢ'),
        't' => Some('ᵗ'),
        'u' => Some('ᵘ'),
        'v' => Some('ᵛ'),
        'w' => Some('ʷ'),
        'x' => Some('ˣ'),
        'y' => Some('ʸ'),
        'z' => Some('ᶻ'),
        'β' => Some('ᵝ'),
        'γ' => Some('ᵞ'),
        'δ' => Some('ᵟ'),
        'θ' => Some('ᶿ'),
        'φ' => Some('ᵠ'),
        'χ' => Some('ᵡ'),
        _ => None,
    }
}

pub fn unicode_subscript_char(ch: char) -> (r: Option<char>)
    ensures
        r == subscript_of(ch),
{
    match ch {
        '0' => Some('₀'),
        '1' => Some('₁'),
        '2' => Some('₂'),
        '3' => Some('₃'),
        '4' => Some('₄'),
        '5' => Some('₅'),
        '6' => Some('₆'),
        '7' => Some('₇'),
        '8' => Some('₈'),
        '9' => Some('₉'),
        '+' => Some('₊'),
        '-' => Some('₋'),
        '=' => Some('₌'),
        '(' => Some('₍'),
        ')' => Some('₎'),
        'a' => Some('ₐ'),
        'e' => Some('ₑ'),
        'h' => Some('ₕ'),
        'i' => Some('ᵢ'),
        'j' => Some('ⱼ'),
        'k' => Some('ₖ'),
        'l' => Some('ₗ'),
        'm' => Some('ₘ'),
        'n' => Some('ₙ'),
        'o' => Some('ₒ'),
        'p' => Some('ₚ'),
        'r' => Some('ᵣ'),
        's' => Some('ₛ'),
        't' => Some('ₜ'),
        'u' => Some('ᵤ'),
        'v' => Some('ᵥ'),
        'x' => Some('ₓ'),
        'β' => Some('ᵦ'),
        'γ' => Some('ᵧ'),
        'ρ' => Some('ᵨ'),
        'φ' => Some('ᵩ'),
        'χ' => Some('ᵪ'),
        _ => None,
    }
}

/// Every character of `s` has a superscript form.
pub open spec fn all_superscript(s: Seq<char>) -> bool {
    forall|i: int| 0 <= i < s.len() ==> (#[trigger] superscript_of(s[i])) is Some
}

/// Every character of `s` has a subscript form.
pub open spec fn all_subscript(s: Seq<char>) -> bool {
    forall|i: int| 0 <= i < s.len() ==> (#[trigger] subscript_of(s[i])) is Some
}

/// `s` with each character replaced by its superscript form.
pub open spec fn superscripted(s: Seq<char>) -> Seq<char> {
    s.map_values(|c: char| superscript_of(c)->0)
}

/// `s` with each character replaced by its subscript form.
pub open spec fn subscripted(s: Seq<char>) -> Seq<char> {
    s.map_values(|c: char| subscript_of(c)->0)
}

fn superscript_chars(v: &Vec<char>) -> (r: Option<Vec<char>>)
    ensures
        r is Some <==> all_superscript(v@),
        r is Some ==> r->0@ == superscripted(v@),
{
    let mut out: Vec<char> = Vec::new();
    let mut i: usize = 0;
    while i < v.len()
        invariant
            i <= v.len(),
            all_superscript(v@.take(i as int)),
            out@ == superscripted(v@.take(i as int)),
        decreases v.len() - i,
    {
        match unicode_superscript_char(v[i]) {
            Some(c) => {
                out.push(c);
                i = i + 1;
                assert(out@ =~= superscripted(v@.take(i as int)));
                assert forall|k: int| 0 <= k < i implies (#[trigger] superscript_of(v@.take(i as int)[k])) is Some by {
                    if k < i - 1 {
                        assert(v@.take(i as int)[k] == v@.take(i - 1)[k]);
                    }
                }
            },
            None => {
                assert(superscript_of(v@[i as int]) is None);
                return None;
            },
        }
    }
    assert(v@.take(v.len() as int) == v@);
    Some(out)
}

fn subscript_chars(v: &Vec<char>) -> (r: Option<Vec<char>>)
    ensures
        r is Some <==> all_subscript(v@),
        r is Some ==> r->0@ == subscripted(v@),
{
    let mut out: Vec<char> = Vec::new();
    let mut i: usize = 0;
    while i < v.len()
        invariant
            i <= v.len(),
            all_subscript(v@.take(i as int)),
            out@ == subscripted(v@.take(i as int)),
        decreases v.len() - i,
    {
        match unicode_subscript_char(v[i]) {
            Some(c) => {
                out.push(c);
                i = i + 1;
                assert(out@ =~= subscripted(v@.take(i as int)));
                assert forall|k: int| 0 <= k < i implies (#[trigger] subscript_of(v@.take(i as int)[k])) is Some by {
                    if k < i - 1 {
                        assert(v@.take(i as int)[k] == v@.take(i - 1)[k]);
                    }
                }
            },
            None => {
                assert(subscript_of(v@[i as int]) is None);
                return None;
            },
        }
    }
    assert(v@.take(v.len() as int) == v@);
    Some(out)
}

/// The text in Unicode superscripts, or `None` when a character has no
/// superscript form.
pub fn unicode_superscript(text: &str) -> (r: Option<String>)
    ensures
        r is Some <==> all_superscript(text@),
        r is Some ==> r->0@ == superscripted(text@),
{
    let v = chars_of(text);
    match superscript_chars(&v) {
        Some(out) => Some(string_of(&out)),
        None => None,
    }
}

/// The text in Unicode subscripts, or `None` when a character has no
/// subscript form.
pub fn unicode_subscript(text: &str) -> (r: Option<String>)
    ensures
        r is Some <==> all_subscript(text@),
        r is Some ==> r->0@ == subscripted(text@),
{
    let v = chars_of(text);
    match subscript_chars(&v) {
        Some(out) => Some(string_of(&out)),
        None => None,
    }
}

// ---------------------------------------------------------------------------
// Script and operator markup
// ---------------------------------------------------------------------------

/// A superscript: in Unicode superscripts where every character has one,
/// otherwise the escaped text in a raised span.
pub open spec fn superscript_html(s: Seq<char>) -> Seq<char> {
    if all_superscript(s) {
        superscripted(s)
    } else {
        "<span class=\"txp-script-sup\">"@ + escaped(s) + "</span>"@
    }
}

fn superscript_html_chars(v: &Vec<char>) -> (r: Vec<char>)
    ensures
        r@ == superscript_html(v@),
{
    match superscript_chars(v) {
        Some(out) => out,
        None => {
            let mut out: Vec<char> = Vec::new();
            push_str(&mut out, "<span class=\"txp-script-sup\">");
            push_escaped(&mut out, v);
            push_str(&mut out, "</span>");
            out
        },
    }
}

pub fn render_superscript_text(text: &str) -> (r: String)
    ensures
        r@ == superscript_html(text@),
{
    let v = chars_of(text);
    string_of(&superscript_html_chars(&v))
}

/// `content` in a span of the given class, or nothing when absent.
pub open spec fn optional_span(class_open: Seq<char>, content: Option<Seq<char>>) -> Seq<char> {
    match content {
        Some(c) => class_open + c + "</span>"@,
        None => Seq::empty(),
    }
}

/// A base with scripts stacked beside it: the over script above the under
/// script, each present only when given.
pub open spec fn script_stack_html(base: Seq<char>, over: Option<Seq<char>>, under: Option<Seq<char>>) -> Seq<char> {
    "<span class=\"txp-script-pair\"><span class=\"txp-script-base\">"@ + base
        + "</span><span class=\"txp-script-stack\">"@
        + optional_span("<span class=\"txp-script-over\">"@, over)
        + optional_span("<span class=\"txp-script-under\">"@, under)
        + "</span></span>"@
}

/// A large operator with its limits above and below it.
pub open spec fn operator_limits_html(base: Seq<char>, over: Option<Seq<char>>, under: Option<Seq<char>>) -> Seq<char> {
    "<span class=\"txp-op-limits\">"@
        + optional_span("<span class=\"txp-op-over\">"@, over)
        + "<span class=\"txp-op-base\">"@ + base + "</span>"@
        + optional_span("<span class=\"txp-op-under\">"@, under)
        + "</span>"@
}

pub open spec fn opt_chars_view(o: Option<Vec<char>>) -> Option<Seq<char>> {
    match o {
        Some(v) => Some(v@),
        None => None,
    }
}

pub open spec fn opt_str_view(o: Option<&str>) -> Option<Seq<char>> {
    match o {
        Some(s) => Some(s@),
        None => None,
    }
}

fn push_optional_span(out: &mut Vec<char>, class_open: &str, content: &Option<Vec<char>>)
    ensures
        final(out)@ == old(out)@ + optional_span(class_open@, opt_chars_view(*content)),
{
    match content {
        Some(c) => {
            push_str(out, class_open);
            push_all(out, c);
            push_str(out, "</span>");
        },
        None => {},
    }
}

fn script_stack_chars(base: &Vec<char>, over: &Option<Vec<char>>, under: &Option<Vec<char>>) -> (r: Vec<char>)
    ensures
        r@ == script_stack_html(base@, opt_chars_view(*over), opt_chars_view(*under)),
{
    let mut out: Vec<char> = Vec::new();
    push_str(&mut out, "<span class=\"txp-script-pair\"><span class=\"txp-script-base\">");
    push_all(&mut out, base);
    push_str(&mut out, "</span><span class=\"txp-script-stack\">");
    push_optional_span(&mut out, "<span class=\"txp-script-over\">", over);
    push_optional_span(&mut out, "<span class=\"txp-script-under\">", under);
    push_str(&mut out, "</span></span>");
    out
}

fn operator_limits_chars(base: &Vec<char>, over: &Option<Vec<char>>, under: &Option<Vec<char>>) -> (r: Vec<char>)
    ensures
        r@ == operator_limits_html(base@, opt_chars_view(*over), opt_chars_view(*under)),
{
    let mut out: Vec<char> = Vec::new();
    push_str(&mut out, "<span class=\"txp-op-limits\">");
    push_optional_span(&mut out, "<span class=\"txp-op-over\">", over);
    push_str(&mut out, "<span class=\"txp-op-base\">");
    push_all(&mut out, base);
    push_str(&mut out, "</span>");
    push_optional_span(&mut out, "<span class=\"txp-op-under\">", under);
    push_str(&mut out, "</span>");
    out
}

fn opt_str_chars(o: Option<&str>) -> (r: Option<Vec<char>>)
    ensures
        opt_chars_view(r) == opt_str_view(o),
{
    match o {
        Some(s) => Some(chars_of(s)),
        None => None,
    }
}

/// Scripts that cannot be written in Unicode, stacked beside their base.
/// The base and scripts are markup already and are inserted as they are.
pub fn render_script_stack_fallback(base: &str, over: Option<&str>, under: Option<&str>) -> (r: String)
    ensures
        r@ == script_stack_html(base@, opt_str_view(over), opt_str_view(under)),
{
    let b = chars_of(base);
    let o = opt_str_chars(over);
    let u = opt_str_chars(under);
    string_of(&script_stack_chars(&b, &o, &u))
}

/// The large operators whose scripts are set as limits.
pub open spec fn is_large_operator(c: char) -> bool {
    c == '∫' || c == '∮' || c == '∯' || c == '∰' || c == '∑' || c == '∏' || c == '⋂' || c == '⋃'
        || c == '⋁' || c == '⋀' || c == '⨀' || c == '⨁' || c == '⨂' || c == '⨆'
}

/// Text that, without surrounding white space, is one large operator.
pub open spec fn large_operator_text(s: Seq<char>) -> bool {
    trim(s).len() == 1 && is_large_operator(trim(s)[0])
}

fn large_operator_chars(v: &Vec<char>) -> (b: bool)
    ensures
        b == large_operator_text(v@),
{
    let t = trimmed_range(v, 0, v.len());
    assert(v@.subrange(0, v.len() as int) == v@);
    if t.len() != 1 {
        return false;
    }
    let c = t[0];
    c == '∫' || c == '∮' || c == '∯' || c == '∰' || c == '∑' || c == '∏' || c == '⋂' || c == '⋃'
        || c == '⋁' || c == '⋀' || c == '⨀' || c == '⨁' || c == '⨂' || c == '⨆'
}

pub fn is_large_operator_text(text: &str) -> (b: bool)
    ensures
        b == large_operator_text(text@),
{
    let v = chars_of(text);
    large_operator_chars(&v)
}

pub fn render_large_operator_limits(base: &str, over: Option<&str>, under: Option<&str>) -> (r: String)
    ensures
        r@ == operator_limits_html(base@, opt_str_view(over), opt_str_view(under)),
{
    let b = chars_of(base);
    let o = opt_str_chars(over);
    let u = opt_str_chars(under);
    string_of(&operator_limits_chars(&b, &o, &u))
}

/// The class of a math span: display or inline.
pub open spec fn math_class(display_mode: bool) -> Seq<char> {
    if display_mode {
        "txp-math txp-math-display"@
    } else {
        "txp-math txp-math-inline"@
    }
}

/// The markup for math that could not be rendered: its TeX source,
/// escaped, in a span marked as an error.
pub open spec fn fallback_html(latex: Seq<char>, display_mode: bool) -> Seq<char> {
    "<span class=\""@ + math_class(display_mode) + " txp-math-error\">"@ + escaped(latex) + "</span>"@
}

fn push_math_class(out: &mut Vec<char>, display_mode: bool)
    ensures
        final(out)@ == old(out)@ + math_class(display_mode),
{
    if display_mode {
        push_str(out, "txp-math txp-math-display");
    } else {
        push_str(out, "txp-math txp-math-inline");
    }
}

pub fn math_fallback_markup(latex: &str, display_mode: bool) -> (r: String)
    ensures
        r@ == fallback_html(latex@, display_mode),
{
    let v = chars_of(latex);
    let mut out: Vec<char> = Vec::new();
    push_str(&mut out, "<span class=\"");
    push_math_class(&mut out, display_mode);
    push_str(&mut out, " txp-math-error\">");
    push_escaped(&mut out, &v);
    push_str(&mut out, "</span>");
    string_of(&out)
}


// ---------------------------------------------------------------------------
// The MathML tree
// ---------------------------------------------------------------------------

/// The kinds of MathML element that the TeX engine produces.
#[derive(PartialEq, Eq, Structural, Clone, Copy, Debug)]
pub enum MathNodeType {
    Math,
    Annotation,
    Semantics,
    Mtext,
    Mi,
    Mn,
    Mo,
    Mspace,
    Mover,
    Munder,
    Munderover,
    Msup,
    Msub,
    Msubsup,
    Mfrac,
    Mroot,
    Msqrt,
    Mtable,
    Mtr,
    Mtd,
    Mlabeledtr,
    Mrow,
    Menclose,
    Mstyle,
    Mpadded,
    Mphantom,
    Mglyph,
}

/// A MathML element: its kind, its attributes as name/value pairs, and its
/// children.
pub struct MathNode {
    pub node_type: MathNodeType,
    pub attributes: Vec<(String, String)>,
    pub children: Vec<MathDomNode>,
}

/// A node of the MathML tree: an element, a text, a space (with the
/// character that stands for it, if any) or a fragment of nodes.
pub enum MathDomNode {
    Math(MathNode),
    Text(String),
    Space(Option<String>),
    Fragment(Vec<MathDomNode>),
}

/// A node of the HTML tree that wraps the MathML output: the MathML itself,
/// spans and fragments of nodes, symbols, and other nodes, which render as
/// nothing.
pub enum HtmlDomNode {
    MathML(MathNode),
    DomSpan(Vec<HtmlDomNode>),
    Fragment(Vec<HtmlDomNode>),
    Symbol(String),
    Other,
}

/// The value of the first attribute with the given name.
pub open spec fn attribute(attrs: Seq<(String, String)>, name: Seq<char>) -> Option<Seq<char>>
    decreases attrs.len(),
{
    if attrs.len() == 0 {
        None
    } else if attrs[0].0@ == name {
        Some(attrs[0].1@)
    } else {
        attribute(attrs.drop_first(), name)
    }
}

/// The character that a space node stands for: its own, or a blank.
pub open spec fn space_text(c: Option<String>) -> Seq<char> {
    match c {
        Some(s) => s@,
        None => " "@,
    }
}

/// A child that is an annotation element; such children carry the TeX
/// source and are not rendered.
pub open spec fn is_annotation(d: MathDomNode) -> bool {
    d matches MathDomNode::Math(m) && m.node_type == MathNodeType::Annotation
}

/// A child that is a table cell element.
pub open spec fn is_cell(d: MathDomNode) -> bool {
    d matches MathDomNode::Math(m) && m.node_type == MathNodeType::Mtd
}

/// The HTML of a node.
pub open spec fn dom_html(d: MathDomNode) -> Seq<char>
    decreases d, 0int,
{
    match d {
        MathDomNode::Math(m) => node_html(m),
        MathDomNode::Text(t) => escaped(t@),
        MathDomNode::Space(c) => escaped(space_text(c)),
        MathDomNode::Fragment(f) => list_html(f@),
    }
}

/// The HTML of a list of nodes, one after the other.
pub open spec fn list_html(cs: Seq<MathDomNode>) -> Seq<char>
    decreases cs, 0int,
{
    if cs.len() == 0 {
        Seq::empty()
    } else {
        list_html(cs.subrange(0, cs.len() - 1)) + dom_html(cs[cs.len() - 1])
    }
}

/// The HTML of a list of nodes without its annotations.
pub open spec fn semantics_html(cs: Seq<MathDomNode>) -> Seq<char>
    decreases cs, 0int,
{
    if cs.len() == 0 {
        Seq::empty()
    } else {
        semantics_html(cs.subrange(0, cs.len() - 1)) + if is_annotation(cs[cs.len() - 1]) {
            Seq::empty()
        } else {
            dom_html(cs[cs.len() - 1])
        }
    }
}

/// The cells of a table row: cell elements as they are, anything else
/// wrapped in a cell.
pub open spec fn row_html(cs: Seq<MathDomNode>) -> Seq<char>
    decreases cs, 0int,
{
    if cs.len() == 0 {
        Seq::empty()
    } else {
        row_html(cs.subrange(0, cs.len() - 1)) + if is_cell(cs[cs.len() - 1]) {
            dom_html(cs[cs.len() - 1])
        } else {
            "<td>"@ + dom_html(cs[cs.len() - 1]) + "</td>"@
        }
    }
}

/// The HTML of the child at `i`, or nothing when there is none.
pub open spec fn child_html(m: MathNode, i: int) -> Seq<char>
    decreases m, 0int,
{
    if 0 <= i < m.children@.len() {
        dom_html(m.children@[i])
    } else {
        Seq::empty()
    }
}


/// The plain text of a node, where it has one: elements whose text is more
/// than the text of their children (fractions, roots, scripts, tables, ...)
/// have none.
pub open spec fn dom_plain(d: MathDomNode) -> Option<Seq<char>>
    decreases d, 0int,
{
    match d {
        MathDomNode::Math(m) => node_plain(m),
        MathDomNode::Text(t) => Some(t@),
        MathDomNode::Space(c) => Some(space_text(c)),
        MathDomNode::Fragment(f) => list_plain(f@),
    }
}

/// The plain text of a list of nodes, where each has one.
pub open spec fn list_plain(cs: Seq<MathDomNode>) -> Option<Seq<char>>
    decreases cs, 0int,
{
    if cs.len() == 0 {
        Some(Seq::empty())
    } else {
        match (list_plain(cs.subrange(0, cs.len() - 1)), dom_plain(cs[cs.len() - 1])) {
            (Some(a), Some(b)) => Some(a + b),
            _ => None,
        }
    }
}

/// The plain text of a list of nodes without its annotations.
pub open spec fn semantics_plain(cs: Seq<MathDomNode>) -> Option<Seq<char>>
    decreases cs, 0int,
{
    if cs.len() == 0 {
        Some(Seq::empty())
    } else if is_annotation(cs[cs.len() - 1]) {
        semantics_plain(cs.subrange(0, cs.len() - 1))
    } else {
        match (semantics_plain(cs.subrange(0, cs.len() - 1)), dom_plain(cs[cs.len() - 1])) {
            (Some(a), Some(b)) => Some(a + b),
            _ => None,
        }
    }
}

/// The plain text of the child at `i`; `None` when there is no such child
/// or it has no plain text.
pub open spec fn child_plain(m: MathNode, i: int) -> Option<Seq<char>>
    decreases m, 0int,
{
    if 0 <= i < m.children@.len() {
        dom_plain(m.children@[i])
    } else {
        None
    }
}

/// The plain text of an element.
pub open spec fn node_plain(m: MathNode) -> Option<Seq<char>>
    decreases m, 1int,
{
    match m.node_type {
        MathNodeType::Math | MathNodeType::Mrow | MathNodeType::Mstyle | MathNodeType::Mpadded
        | MathNodeType::Mphantom | MathNodeType::Mi | MathNodeType::Mn | MathNodeType::Mo
        | MathNodeType::Mtext | MathNodeType::Menclose => list_plain(m.children@),
        MathNodeType::Semantics => semantics_plain(m.children@),
        MathNodeType::Annotation => Some(Seq::empty()),
        MathNodeType::Mspace => Some(" "@),
        MathNodeType::Mglyph => attribute(m.attributes@, "alt"@),
        _ => None,
    }
}

/// Whether the child at `i` has a plain text that is a large operator.
pub open spec fn large_operator_child(m: MathNode, i: int) -> bool
    decreases m, 1int,
{
    child_plain(m, i) matches Some(t) && large_operator_text(t)
}

/// A base with a superscript.
pub open spec fn sup_html(m: MathNode) -> Seq<char>
    decreases m, 2int,
{
    let base = child_html(m, 0);
    let sup = child_html(m, 1);
    if large_operator_child(m, 0) {
        operator_limits_html(base, Some(sup), None)
    } else {
        match child_plain(m, 1) {
            Some(t) => base + superscript_html(t),
            None => script_stack_html(base, Some(sup), None),
        }
    }
}

/// A base with a subscript.
pub open spec fn sub_html(m: MathNode) -> Seq<char>
    decreases m, 2int,
{
    let base = child_html(m, 0);
    let sub = child_html(m, 1);
    if large_operator_child(m, 0) {
        operator_limits_html(base, None, Some(sub))
    } else {
        match child_plain(m, 1) {
            Some(t) => if all_subscript(t) {
                base + subscripted(t)
            } else {
                script_stack_html(base, None, Some(sub))
            },
            None => script_stack_html(base, None, Some(sub)),
        }
    }
}

/// A base with both a subscript and a superscript.
pub open spec fn subsup_html(m: MathNode) -> Seq<char>
    decreases m, 2int,
{
    let base = child_html(m, 0);
    let sub = child_html(m, 1);
    let sup = child_html(m, 2);
    if large_operator_child(m, 0) {
        operator_limits_html(base, Some(sup), Some(sub))
    } else {
        match (child_plain(m, 1), child_plain(m, 2)) {
            (Some(b), Some(p)) => if all_subscript(b) {
                base + subscripted(b) + superscript_html(p)
            } else {
                script_stack_html(base, Some(sup), Some(sub))
            },
            _ => script_stack_html(base, Some(sup), Some(sub)),
        }
    }
}

/// The notation of an enclosure, empty when absent.
pub open spec fn notation(m: MathNode) -> Seq<char> {
    match attribute(m.attributes@, "notation"@) {
        Some(n) => n,
        None => Seq::empty(),
    }
}

/// The HTML of an element.
pub open spec fn node_html(m: MathNode) -> Seq<char>
    decreases m, 3int,
{
    match m.node_type {
        MathNodeType::Math | MathNodeType::Mrow | MathNodeType::Mstyle | MathNodeType::Mpadded
        | MathNodeType::Mphantom | MathNodeType::Mi | MathNodeType::Mn | MathNodeType::Mo
        | MathNodeType::Mtext => list_html(m.children@),
        MathNodeType::Semantics => semantics_html(m.children@),
        MathNodeType::Annotation => Seq::empty(),
        MathNodeType::Mspace => " "@,
        MathNodeType::Msup => sup_html(m),
        MathNodeType::Msub => sub_html(m),
        MathNodeType::Msubsup => subsup_html(m),
        MathNodeType::Mfrac => "<span class=\"txp-frac\"><span class=\"txp-frac-num\">"@
            + child_html(m, 0) + "</span><span class=\"txp-frac-den\">"@ + child_html(m, 1)
            + "</span></span>"@,
        MathNodeType::Msqrt => "<span class=\"txp-sqrt\"><span class=\"txp-sqrt-glyph\">√</span><span class=\"txp-sqrt-body\">"@
            + list_html(m.children@) + "</span></span>"@,
        MathNodeType::Mroot => "<span class=\"txp-root\"><sup>"@ + child_html(m, 1)
            + "</sup><span class=\"txp-sqrt\"><span class=\"txp-sqrt-glyph\">√</span><span class=\"txp-sqrt-body\">"@
            + child_html(m, 0) + "</span></span></span>"@,
        MathNodeType::Mover => "<span class=\"txp-overunder\"><span class=\"txp-script-over\">"@
            + child_html(m, 1) + "</span><span class=\"txp-overunder-base\">"@ + child_html(m, 0)
            + "</span></span>"@,
        MathNodeType::Munder => "<span class=\"txp-overunder\"><span class=\"txp-overunder-base\">"@
            + child_html(m, 0) + "</span><span class=\"txp-script-under\">"@ + child_html(m, 1)
            + "</span></span>"@,
        MathNodeType::Munderover => "<span class=\"txp-overunder\"><span class=\"txp-script-over\">"@
            + child_html(m, 2) + "</span><span class=\"txp-overunder-base\">"@ + child_html(m, 0)
            + "</span><span class=\"txp-script-under\">"@ + child_html(m, 1) + "</span></span>"@,
        MathNodeType::Mtable => "<table class=\"txp-matrix\"><tbody>"@ + list_html(m.children@)
            + "</tbody></table>"@,
        MathNodeType::Mtr | MathNodeType::Mlabeledtr => "<tr>"@ + row_html(m.children@) + "</tr>"@,
        MathNodeType::Mtd => "<td>"@ + list_html(m.children@) + "</td>"@,
        MathNodeType::Menclose => if contains_seq(notation(m), "box"@) {
            "<span class=\"txp-menclose-box\">"@ + list_html(m.children@) + "</span>"@
        } else {
            list_html(m.children@)
        },
        MathNodeType::Mglyph => match attribute(m.attributes@, "alt"@) {
            Some(a) => escaped(a),
            None => Seq::empty(),
        },
    }
}

/// The HTML of a node of the wrapping HTML tree.
pub open spec fn html_node_html(d: HtmlDomNode) -> Seq<char>
    decreases d,
{
    match d {
        HtmlDomNode::MathML(m) => node_html(m),
        HtmlDomNode::DomSpan(cs) => html_list_html(cs@),
        HtmlDomNode::Fragment(cs) => html_list_html(cs@),
        HtmlDomNode::Symbol(t) => escaped(t@),
        HtmlDomNode::Other => Seq::empty(),
    }
}

/// The HTML of a list of nodes of the wrapping HTML tree.
pub open spec fn html_list_html(cs: Seq<HtmlDomNode>) -> Seq<char>
    decreases cs,
{
    if cs.len() == 0 {
        Seq::empty()
    } else {
        html_list_html(cs.subrange(0, cs.len() - 1)) + html_node_html(cs[cs.len() - 1])
    }
}


// ---------------------------------------------------------------------------
// Rendering the tree
// ---------------------------------------------------------------------------

/// The value of the first attribute named `name`.
fn attribute_of(attrs: &Vec<(String, String)>, name: &str) -> (r: Option<Vec<char>>)
    ensures
        opt_chars_view(r) == attribute(attrs@, name@),
{
    let mut k: usize = 0;
    assert(attrs@.skip(0) == attrs@);
    while k < attrs.len()
        invariant
            k <= attrs.len(),
            attribute(attrs@, name@) == attribute(attrs@.skip(k as int), name@),
        decreases attrs.len() - k,
    {
        let key = chars_of(attrs[k].0.as_str());
        if eq_str(&key, name) {
            return Some(chars_of(attrs[k].1.as_str()));
        }
        assert(attrs@.skip(k as int).drop_first() == attrs@.skip(k + 1));
        k = k + 1;
    }
    None
}

fn space_chars(c: &Option<String>) -> (r: Vec<char>)
    ensures
        r@ == space_text(*c),
{
    match c {
        Some(s) => chars_of(s.as_str()),
        None => chars_of(" "),
    }
}

fn push_dom_html(out: &mut Vec<char>, d: &MathDomNode)
    ensures
        final(out)@ == old(out)@ + dom_html(*d),
    decreases *d, 0int,
{
    match d {
        MathDomNode::Math(m) => push_node_html(out, m),
        MathDomNode::Text(t) => {
            let v = chars_of(t.as_str());
            push_escaped(out, &v);
        },
        MathDomNode::Space(c) => {
            let v = space_chars(c);
            push_escaped(out, &v);
        },
        MathDomNode::Fragment(f) => push_list_html(out, f.as_slice()),
    }
}

fn push_list_html(out: &mut Vec<char>, cs: &[MathDomNode])
    ensures
        final(out)@ == old(out)@ + list_html(cs@),
    decreases cs@, 0int,
{
    let mut i: usize = 0;
    while i < cs.len()
        invariant
            i <= cs.len(),
            out@ == old(out)@ + list_html(cs@.subrange(0, i as int)),
        decreases cs.len() - i,
    {
        proof {
            assert(cs@.subrange(0, i + 1).subrange(0, i as int) == cs@.subrange(0, i as int));
            assert(cs@.subrange(0, i + 1)[i as int] == cs@[i as int]);
        }
        push_dom_html(out, &cs[i]);
        i = i + 1;
    }
    assert(cs@.subrange(0, cs.len() as int) == cs@);
}

fn push_semantics_html(out: &mut Vec<char>, cs: &[MathDomNode])
    ensures
        final(out)@ == old(out)@ + semantics_html(cs@),
    decreases cs@, 0int,
{
    let mut i: usize = 0;
    while i < cs.len()
        invariant
            i <= cs.len(),
            out@ == old(out)@ + semantics_html(cs@.subrange(0, i as int)),
        decreases cs.len() - i,
    {
        proof {
            assert(cs@.subrange(0, i + 1).subrange(0, i as int) == cs@.subrange(0, i as int));
            assert(cs@.subrange(0, i + 1)[i as int] == cs@[i as int]);
        }
        let skip = match &cs[i] {
            MathDomNode::Math(m) => m.node_type == MathNodeType::Annotation,
            _ => false,
        };
        if !skip {
            push_dom_html(out, &cs[i]);
        } else {
            assert(out@ == old(out)@ + semantics_html(cs@.subrange(0, i + 1)));
        }
        i = i + 1;
    }
    assert(cs@.subrange(0, cs.len() as int) == cs@);
}

fn push_row_html(out: &mut Vec<char>, cs: &[MathDomNode])
    ensures
        final(out)@ == old(out)@ + row_html(cs@),
    decreases cs@, 0int,
{
    let mut i: usize = 0;
    while i < cs.len()
        invariant
            i <= cs.len(),
            out@ == old(out)@ + row_html(cs@.subrange(0, i as int)),
        decreases cs.len() - i,
    {
        proof {
            assert(cs@.subrange(0, i + 1).subrange(0, i as int) == cs@.subrange(0, i as int));
            assert(cs@.subrange(0, i + 1)[i as int] == cs@[i as int]);
        }
        let cell = match &cs[i] {
            MathDomNode::Math(m) => m.node_type == MathNodeType::Mtd,
            _ => false,
        };
        if cell {
            push_dom_html(out, &cs[i]);
        } else {
            push_str(out, "<td>");
            push_dom_html(out, &cs[i]);
            push_str(out, "</td>");
        }
        i = i + 1;
    }
    assert(cs@.subrange(0, cs.len() as int) == cs@);
}

fn push_child_html(out: &mut Vec<char>, m: &MathNode, i: usize)
    ensures
        final(out)@ == old(out)@ + child_html(*m, i as int),
    decreases *m, 0int,
{
    if i < m.children.len() {
        push_dom_html(out, &m.children[i]);
    }
}

fn child_html_chars(m: &MathNode, i: usize) -> (r: Vec<char>)
    ensures
        r@ == child_html(*m, i as int),
    decreases *m, 1int,
{
    let mut out: Vec<char> = Vec::new();
    push_child_html(&mut out, m, i);
    out
}

fn dom_plain_chars(d: &MathDomNode) -> (r: Option<Vec<char>>)
    ensures
        opt_chars_view(r) == dom_plain(*d),
    decreases *d, 0int,
{
    match d {
        MathDomNode::Math(m) => node_plain_chars(m),
        MathDomNode::Text(t) => Some(chars_of(t.as_str())),
        MathDomNode::Space(c) => Some(space_chars(c)),
        MathDomNode::Fragment(f) => list_plain_chars(f.as_slice()),
    }
}

fn list_plain_chars(cs: &[MathDomNode]) -> (r: Option<Vec<char>>)
    ensures
        opt_chars_view(r) == list_plain(cs@),
    decreases cs@, 0int,
{
    let mut out: Vec<char> = Vec::new();
    let mut i: usize = 0;
    while i < cs.len()
        invariant
            i <= cs.len(),
            list_plain(cs@.subrange(0, i as int)) == Some(out@),
        decreases cs.len() - i,
    {
        proof {
            assert(cs@.subrange(0, i + 1).subrange(0, i as int) == cs@.subrange(0, i as int));
            assert(cs@.subrange(0, i + 1)[i as int] == cs@[i as int]);
        }
        match dom_plain_chars(&cs[i]) {
            Some(t) => push_all(&mut out, &t),
            None => {
                proof { lemma_list_plain_none(cs@, i as int); }
                return None;
            },
        }
        i = i + 1;
    }
    assert(cs@.subrange(0, cs.len() as int) == cs@);
    Some(out)
}

/// Once a node has no plain text, no longer prefix of the list has one.
proof fn lemma_list_plain_none(cs: Seq<MathDomNode>, i: int)
    requires
        0 <= i < cs.len(),
        dom_plain(cs[i]) is None,
    ensures
        list_plain(cs) is None,
    decreases cs.len(),
{
    if i < cs.len() - 1 {
        lemma_list_plain_none(cs.subrange(0, cs.len() - 1), i);
    }
}

/// Once a non-annotation node has no plain text, no longer prefix of the
/// list has one.
proof fn lemma_semantics_plain_none(cs: Seq<MathDomNode>, i: int)
    requires
        0 <= i < cs.len(),
        !is_annotation(cs[i]),
        dom_plain(cs[i]) is None,
    ensures
        semantics_plain(cs) is None,
    decreases cs.len(),
{
    if i < cs.len() - 1 {
        lemma_semantics_plain_none(cs.subrange(0, cs.len() - 1), i);
    }
}

fn semantics_plain_chars(cs: &[MathDomNode]) -> (r: Option<Vec<char>>)
    ensures
        opt_chars_view(r) == semantics_plain(cs@),
    decreases cs@, 0int,
{
    let mut out: Vec<char> = Vec::new();
    let mut i: usize = 0;
    while i < cs.len()
        invariant
            i <= cs.len(),
            semantics_plain(cs@.subrange(0, i as int)) == Some(out@),
        decreases cs.len() - i,
    {
        proof {
            assert(cs@.subrange(0, i + 1).subrange(0, i as int) == cs@.subrange(0, i as int));
            assert(cs@.subrange(0, i + 1)[i as int] == cs@[i as int]);
        }
        let skip = match &cs[i] {
            MathDomNode::Math(m) => m.node_type == MathNodeType::Annotation,
            _ => false,
        };
        if !skip {
            match dom_plain_chars(&cs[i]) {
                Some(t) => push_all(&mut out, &t),
                None => {
                    proof { lemma_semantics_plain_none(cs@, i as int); }
                    return None;
                },
            }
        }
        i = i + 1;
    }
    assert(cs@.subrange(0, cs.len() as int) == cs@);
    Some(out)
}

fn child_plain_chars(m: &MathNode, i: usize) -> (r: Option<Vec<char>>)
    ensures
        opt_chars_view(r) == child_plain(*m, i as int),
    decreases *m, 0int,
{
    if i < m.children.len() {
        dom_plain_chars(&m.children[i])
    } else {
        None
    }
}

fn node_plain_chars(m: &MathNode) -> (r: Option<Vec<char>>)
    ensures
        opt_chars_view(r) == node_plain(*m),
    decreases *m, 3int,
{
    match m.node_type {
        MathNodeType::Math | MathNodeType::Mrow | MathNodeType::Mstyle | MathNodeType::Mpadded
        | MathNodeType::Mphantom | MathNodeType::Mi | MathNodeType::Mn | MathNodeType::Mo
        | MathNodeType::Mtext | MathNodeType::Menclose => list_plain_chars(m.children.as_slice()),
        MathNodeType::Semantics => semantics_plain_chars(m.children.as_slice()),
        MathNodeType::Annotation => Some(Vec::new()),
        MathNodeType::Mspace => Some(chars_of(" ")),
        MathNodeType::Mglyph => attribute_of(&m.attributes, "alt"),
        _ => None,
    }
}

fn large_operator_child_exec(m: &MathNode, i: usize) -> (b: bool)
    ensures
        b == large_operator_child(*m, i as int),
    decreases *m, 1int,
{
    match child_plain_chars(m, i) {
        Some(t) => large_operator_chars(&t),
        None => false,
    }
}

fn push_sup_html(out: &mut Vec<char>, m: &MathNode)
    ensures
        final(out)@ == old(out)@ + sup_html(*m),
    decreases *m, 2int,
{
    let base = child_html_chars(m, 0);
    let sup = child_html_chars(m, 1);
    if large_operator_child_exec(m, 0) {
        push_all(out, &operator_limits_chars(&base, &Some(sup), &None));
    } else {
        match child_plain_chars(m, 1) {
            Some(t) => {
                push_all(out, &base);
                push_all(out, &superscript_html_chars(&t));
            },
            None => push_all(out, &script_stack_chars(&base, &Some(sup), &None)),
        }
    }
}

fn push_sub_html(out: &mut Vec<char>, m: &MathNode)
    ensures
        final(out)@ == old(out)@ + sub_html(*m),
    decreases *m, 2int,
{
    let base = child_html_chars(m, 0);
    let sub = child_html_chars(m, 1);
    if large_operator_child_exec(m, 0) {
        push_all(out, &operator_limits_chars(&base, &None, &Some(sub)));
    } else {
        let scripted = match child_plain_chars(m, 1) {
            Some(t) => subscript_chars(&t),
            None => None,
        };
        match scripted {
            Some(s) => {
                push_all(out, &base);
                push_all(out, &s);
            },
            None => push_all(out, &script_stack_chars(&base, &None, &Some(sub))),
        }
    }
}

fn push_subsup_html(out: &mut Vec<char>, m: &MathNode)
    ensures
        final(out)@ == old(out)@ + subsup_html(*m),
    decreases *m, 2int,
{
    let base = child_html_chars(m, 0);
    let sub = child_html_chars(m, 1);
    let sup = child_html_chars(m, 2);
    if large_operator_child_exec(m, 0) {
        push_all(out, &operator_limits_chars(&base, &Some(sup), &Some(sub)));
    } else {
        let sub_text = match child_plain_chars(m, 1) {
            Some(t) => subscript_chars(&t),
            None => None,
        };
        let sup_text = child_plain_chars(m, 2);
        match (sub_text, sup_text) {
            (Some(b), Some(p)) => {
                push_all(out, &base);
                push_all(out, &b);
                push_all(out, &superscript_html_chars(&p));
            },
            _ => push_all(out, &script_stack_chars(&base, &Some(sup), &Some(sub))),
        }
    }
}

fn push_node_html(out: &mut Vec<char>, m: &MathNode)
    ensures
        final(out)@ == old(out)@ + node_html(*m),
    decreases *m, 3int,
{
    match m.node_type {
        MathNodeType::Math | MathNodeType::Mrow | MathNodeType::Mstyle | MathNodeType::Mpadded
        | MathNodeType::Mphantom | MathNodeType::Mi | MathNodeType::Mn | MathNodeType::Mo
        | MathNodeType::Mtext => push_list_html(out, m.children.as_slice()),
        MathNodeType::Semantics => push_semantics_html(out, m.children.as_slice()),
        MathNodeType::Annotation => {},
        MathNodeType::Mspace => push_str(out, " "),
        MathNodeType::Msup => push_sup_html(out, m),
        MathNodeType::Msub => push_sub_html(out, m),
        MathNodeType::Msubsup => push_subsup_html(out, m),
        MathNodeType::Mfrac => {
            push_str(out, "<span class=\"txp-frac\"><span class=\"txp-frac-num\">");
            push_child_html(out, m, 0);
            push_str(out, "</span><span class=\"txp-frac-den\">");
            push_child_html(out, m, 1);
            push_str(out, "</span></span>");
        },
        MathNodeType::Msqrt => {
            push_str(out, "<span class=\"txp-sqrt\"><span class=\"txp-sqrt-glyph\">√</span><span class=\"txp-sqrt-body\">");
            push_list_html(out, m.children.as_slice());
            push_str(out, "</span></span>");
        },
        MathNodeType::Mroot => {
            push_str(out, "<span class=\"txp-root\"><sup>");
            push_child_html(out, m, 1);
            push_str(out, "</sup><span class=\"txp-sqrt\"><span class=\"txp-sqrt-glyph\">√</span><span class=\"txp-sqrt-body\">");
            push_child_html(out, m, 0);
            push_str(out, "</span></span></span>");
        },
        MathNodeType::Mover => {
            push_str(out, "<span class=\"txp-overunder\"><span class=\"txp-script-over\">");
            push_child_html(out, m, 1);
            push_str(out, "</span><span class=\"txp-overunder-base\">");
            push_child_html(out, m, 0);
            push_str(out, "</span></span>");
        },
        MathNodeType::Munder => {
            push_str(out, "<span class=\"txp-overunder\"><span class=\"txp-overunder-base\">");
            push_child_html(out, m, 0);
            push_str(out, "</span><span class=\"txp-script-under\">");
            push_child_html(out, m, 1);
            push_str(out, "</span></span>");
        },
        MathNodeType::Munderover => {
            push_str(out, "<span class=\"txp-overunder\"><span class=\"txp-script-over\">");
            push_child_html(out, m, 2);
            push_str(out, "</span><span class=\"txp-overunder-base\">");
            push_child_html(out, m, 0);
            push_str(out, "</span><span class=\"txp-script-under\">");
            push_child_html(out, m, 1);
            push_str(out, "</span></span>");
        },
        MathNodeType::Mtable => {
            push_str(out, "<table class=\"txp-matrix\"><tbody>");
            push_list_html(out, m.children.as_slice());
            push_str(out, "</tbody></table>");
        },
        MathNodeType::Mtr | MathNodeType::Mlabeledtr => {
            push_str(out, "<tr>");
            push_row_html(out, m.children.as_slice());
            push_str(out, "</tr>");
        },
        MathNodeType::Mtd => {
            push_str(out, "<td>");
            push_list_html(out, m.children.as_slice());
            push_str(out, "</td>");
        },
        MathNodeType::Menclose => {
            let n = match attribute_of(&m.attributes, "notation") {
                Some(n) => n,
                None => Vec::new(),
            };
            let boxed = chars_of("box");
            if contains_exec(&n, &boxed) {
                push_str(out, "<span class=\"txp-menclose-box\">");
                push_list_html(out, m.children.as_slice());
                push_str(out, "</span>");
            } else {
                push_list_html(out, m.children.as_slice());
            }
        },
        MathNodeType::Mglyph => {
            match attribute_of(&m.attributes, "alt") {
                Some(a) => push_escaped(out, &a),
                None => {},
            }
        },
    }
}

fn push_html_node_html(out: &mut Vec<char>, d: &HtmlDomNode)
    ensures
        final(out)@ == old(out)@ + html_node_html(*d),
    decreases *d,
{
    match d {
        HtmlDomNode::MathML(m) => push_node_html(out, m),
        HtmlDomNode::DomSpan(cs) => push_html_list_html(out, cs.as_slice()),
        HtmlDomNode::Fragment(cs) => push_html_list_html(out, cs.as_slice()),
        HtmlDomNode::Symbol(t) => {
            let v = chars_of(t.as_str());
            push_escaped(out, &v);
        },
        HtmlDomNode::Other => {},
    }
}

fn push_html_list_html(out: &mut Vec<char>, cs: &[HtmlDomNode])
    ensures
        final(out)@ == old(out)@ + html_list_html(cs@),
    decreases cs@,
{
    let mut i: usize = 0;
    while i < cs.len()
        invariant
            i <= cs.len(),
            out@ == old(out)@ + html_list_html(cs@.subrange(0, i as int)),
        decreases cs.len() - i,
    {
        proof {
            assert(cs@.subrange(0, i + 1).subrange(0, i as int) == cs@.subrange(0, i as int));
            assert(cs@.subrange(0, i + 1)[i as int] == cs@[i as int]);
        }
        push_html_node_html(out, &cs[i]);
        i = i + 1;
    }
    assert(cs@.subrange(0, cs.len() as int) == cs@);
}


fn string_option(o: Option<Vec<char>>) -> (r: Option<String>)
    ensures
        opt_view(r) == opt_chars_view(o),
{
    match o {
        Some(v) => Some(string_of(&v)),
        None => None,
    }
}

/// The HTML of a list of nodes of the wrapping HTML tree.
pub fn html_dom_children_to_math_html(children: &[HtmlDomNode]) -> (r: String)
    ensures
        r@ == html_list_html(children@),
{
    let mut out: Vec<char> = Vec::new();
    push_html_list_html(&mut out, children);
    string_of(&out)
}

/// The HTML of a node of the wrapping HTML tree.
pub fn html_dom_to_math_html(node: &HtmlDomNode) -> (r: String)
    ensures
        r@ == html_node_html(*node),
{
    let mut out: Vec<char> = Vec::new();
    push_html_node_html(&mut out, node);
    string_of(&out)
}

/// The plain text of a list of MathML nodes, or `None` when one of them
/// has none.
pub fn math_children_to_plain_text(children: &[MathDomNode]) -> (r: Option<String>)
    ensures
        opt_view(r) == list_plain(children@),
{
    string_option(list_plain_chars(children))
}

/// The HTML of a list of MathML nodes.
pub fn math_children_to_html(children: &[MathDomNode]) -> (r: String)
    ensures
        r@ == list_html(children@),
{
    let mut out: Vec<char> = Vec::new();
    push_list_html(&mut out, children);
    string_of(&out)
}

/// The HTML of a MathML node.
pub fn math_dom_to_html(node: &MathDomNode) -> (r: String)
    ensures
        r@ == dom_html(*node),
{
    let mut out: Vec<char> = Vec::new();
    push_dom_html(&mut out, node);
    string_of(&out)
}

/// The plain text of a MathML node, where it has one.
pub fn math_dom_to_plain_text(node: &MathDomNode) -> (r: Option<String>)
    ensures
        opt_view(r) == dom_plain(*node),
{
    string_option(dom_plain_chars(node))
}

/// The HTML of the child at `index`; empty when there is no such child.
pub fn math_child_html(node: &MathNode, index: usize) -> (r: String)
    ensures
        r@ == child_html(*node, index as int),
{
    string_of(&child_html_chars(node, index))
}

/// The plain text of the child at `index`, where there is such a child and
/// it has one.
pub fn math_child_plain_text(node: &MathNode, index: usize) -> (r: Option<String>)
    ensures
        opt_view(r) == child_plain(*node, index as int),
{
    string_option(child_plain_chars(node, index))
}

/// The plain text of a MathML element, where it has one.
pub fn math_node_to_plain_text(node: &MathNode) -> (r: Option<String>)
    ensures
        opt_view(r) == node_plain(*node),
{
    string_option(node_plain_chars(node))
}

/// The HTML of a MathML element.
pub fn math_node_to_html(node: &MathNode) -> (r: String)
    ensures
        r@ == node_html(*node),
{
    let mut out: Vec<char> = Vec::new();
    push_node_html(&mut out, node);
    string_of(&out)
}


/// The markup of rendered math: the HTML of the tree in a span of the
/// display or inline class.
pub open spec fn math_markup_html(children: Seq<HtmlDomNode>, display_mode: bool) -> Seq<char> {
    "<span class=\""@ + math_class(display_mode) + "\">"@ + html_list_html(children) + "</span>"@
}

/// The markup for a formula from the tree the TeX engine built for it.
pub fn math_markup(children: &[HtmlDomNode], display_mode: bool) -> (r: String)
    ensures
        r@ == math_markup_html(children@, display_mode),
{
    let mut out: Vec<char> = Vec::new();
    push_str(&mut out, "<span class=\"");
    push_math_class(&mut out, display_mode);
    push_str(&mut out, "\">");
    push_html_list_html(&mut out, children);
    push_str(&mut out, "</span>");
    string_of(&out)
}

// ---------------------------------------------------------------------------
// Finding the formulas of a document
// ---------------------------------------------------------------------------

/// What an escaped dollar sign `\$` stands as while formulas are found.
pub open spec fn dollar_placeholder() -> Seq<char> {
    "\x00TXP_ESC_DOLLAR\x00"@
}

/// Hides each escaped dollar sign `\$` behind a placeholder, so that it
/// delimits no formula.
pub fn protect_escaped_dollars(html: &str) -> (r: String)
    ensures
        r@ == replace_all(html@, "\\$"@, dollar_placeholder()),
{
    let v = chars_of(html);
    let from = chars_of("\\$");
    let to = chars_of("\x00TXP_ESC_DOLLAR\x00");
    string_of(&replace_all_exec(&v, &from, &to))
}

/// Puts the escaped dollar signs back in place of their placeholders.
pub fn restore_escaped_dollars(html: &str) -> (r: String)
    ensures
        r@ == replace_all(html@, dollar_placeholder(), "\\$"@),
{
    let v = chars_of(html);
    let from = chars_of("\x00TXP_ESC_DOLLAR\x00");
    let to = chars_of("\\$");
    string_of(&replace_all_exec(&v, &from, &to))
}

/// Replacing from inside the second part of a text is replacing in that
/// part alone.
proof fn lemma_replace_shift(u: Seq<char>, v: Seq<char>, f: Seq<char>, t: Seq<char>, k: int)
    requires
        f.len() > 0,
        0 <= k <= v.len(),
    ensures
        replace_from(u + v, f, t, u.len() + k) == replace_from(v, f, t, k),
    decreases v.len() - k,
{
    let s = u + v;
    if k < v.len() {
        assert(occurs_at(s, u.len() + k, f) == occurs_at(v, k, f)) by {
            if u.len() + k + f.len() <= s.len() {
                assert(s.subrange(u.len() + k, u.len() + k + f.len()) =~= v.subrange(k, k + f.len()));
            }
        }
        if occurs_at(v, k, f) {
            lemma_replace_shift(u, v, f, t, k + f.len());
        } else {
            lemma_replace_shift(u, v, f, t, k + 1);
            assert(s[u.len() + k] == v[k]);
        }
    }
}

/// The placeholder without its closing NUL.
pub open spec fn dollar_placeholder_start() -> Seq<char> {
    dollar_placeholder().subrange(0, 15)
}

/// If the protected text from `j` begins with a NUL-free `w`, the text
/// itself has `w` at `j`.
proof fn lemma_protected_dollar_prefix(x: Seq<char>, j: int, w: Seq<char>)
    requires
        0 <= j <= x.len(),
        forall|m: int| 0 <= m < w.len() ==> w[m] != '\x00',
        w.len() <= replace_from(x, "\\$"@, dollar_placeholder(), j).len(),
        replace_from(x, "\\$"@, dollar_placeholder(), j).subrange(0, w.len() as int) == w,
    ensures
        j + w.len() <= x.len(),
        x.subrange(j, j + w.len()) == w,
    decreases w.len(),
{
    reveal_strlit("\\$");
    reveal_strlit("\x00TXP_ESC_DOLLAR\x00");
    let a = "\\$"@;
    let p = dollar_placeholder();
    let y = replace_from(x, a, p, j);
    if w.len() > 0 {
        if j == x.len() {
            assert(y.len() == 0);
        } else if occurs_at(x, j, a) {
            assert(y == p + replace_from(x, a, p, j + 2));
            assert(y.subrange(0, w.len() as int)[0] == y[0]);
            assert(false);
        } else {
            let y1 = replace_from(x, a, p, j + 1);
            assert(y == seq![x[j]] + y1);
            let w1 = w.drop_first();
            assert(y1.subrange(0, w1.len() as int) =~= w1) by {
                assert forall|m: int| 0 <= m < w1.len() implies y1.subrange(0, w1.len() as int)[m] == w1[m] by {
                    assert(y.subrange(0, w.len() as int)[m + 1] == y[m + 1]);
                    assert(y[m + 1] == y1[m]);
                }
            }
            lemma_protected_dollar_prefix(x, j + 1, w1);
            assert(y.subrange(0, w.len() as int)[0] == y[0]);
            assert(x.subrange(j, j + w.len()) =~= seq![x[j]] + x.subrange(j + 1, j + 1 + w1.len()));
        }
    }
}

/// Protecting then restoring the escaped dollars of `x` from index `i` on
/// gives back `x` from `i` on.
proof fn lemma_dollars_suffix(x: Seq<char>, i: int)
    requires
        0 <= i <= x.len(),
        !contains_seq(x, dollar_placeholder_start()),
    ensures
        replace_from(replace_from(x, "\\$"@, dollar_placeholder(), i), dollar_placeholder(), "\\$"@, 0)
            == x.subrange(i, x.len() as int),
    decreases x.len() - i,
{
    reveal_strlit("\\$");
    reveal_strlit("\x00TXP_ESC_DOLLAR\x00");
    let a = "\\$"@;
    let p = dollar_placeholder();
    if i == x.len() {
        assert(x.subrange(i, x.len() as int) =~= Seq::<char>::empty());
    } else if occurs_at(x, i, a) {
        let y2 = replace_from(x, a, p, i + 2);
        lemma_dollars_suffix(x, i + 2);
        lemma_replace_shift(p, y2, p, a, 0);
        assert((p + y2).subrange(0, p.len() as int) =~= p);
        assert(x.subrange(i, x.len() as int) =~= a + x.subrange(i + 2, x.len() as int));
    } else {
        let y1 = replace_from(x, a, p, i + 1);
        lemma_dollars_suffix(x, i + 1);
        lemma_replace_shift(seq![x[i]], y1, p, a, 0);
        assert(!occurs_at(seq![x[i]] + y1, 0, p)) by {
            let z = seq![x[i]] + y1;
            if occurs_at(z, 0, p) {
                assert(z.subrange(0, p.len() as int)[0] == p[0]);
                let w = p.subrange(1, 15);
                assert(w =~= seq!['T', 'X', 'P', '_', 'E', 'S', 'C', '_', 'D', 'O', 'L', 'L', 'A', 'R']);
                assert(y1.subrange(0, 14) =~= w) by {
                    assert forall|m: int| 0 <= m < 14 implies y1.subrange(0, 14)[m] == w[m] by {
                        assert(z.subrange(0, p.len() as int)[m + 1] == z[m + 1]);
                        assert(z[m + 1] == y1[m]);
                    }
                }
                lemma_protected_dollar_prefix(x, i + 1, w);
                assert(x.subrange(i, i + 15) =~= dollar_placeholder_start()) by {
                    assert forall|m: int| 0 <= m < 15 implies x.subrange(i, i + 15)[m] == dollar_placeholder_start()[m] by {
                        if m > 0 {
                            assert(x.subrange(i + 1, i + 15)[m - 1] == x[i + m]);
                        }
                    }
                }
                assert(occurs_at(x, i, dollar_placeholder_start()));
            }
        }
        assert(x.subrange(i, x.len() as int) =~= seq![x[i]] + x.subrange(i + 1, x.len() as int));
    }
}

/// Escaped dollar signs survive: restoring the placeholders after
/// protecting a text gives the text back, for every text that does not
/// hold the placeholder's opening (its NUL and `TXP_ESC_DOLLAR`).
pub proof fn lemma_escaped_dollars_round_trip(x: Seq<char>)
    requires
        !contains_seq(x, dollar_placeholder_start()),
    ensures
        replace_all(replace_all(x, "\\$"@, dollar_placeholder()), dollar_placeholder(), "\\$"@) == x,
{
    lemma_dollars_suffix(x, 0);
    assert(x.subrange(0, x.len() as int) =~= x);
}

/// The escape of a text holds none of `<`, `>`, `"` and `'`: it cannot
/// open or close a tag or an attribute value.
pub proof fn lemma_escaped_is_inert(s: Seq<char>)
    ensures
        forall|i: int| 0 <= i < escaped(s).len() ==> {
            let c = #[trigger] escaped(s)[i];
            c != '<' && c != '>' && c != '"' && c != '\''
        },
    decreases s.len(),
{
    reveal_strlit("&amp;");
    reveal_strlit("&lt;");
    reveal_strlit("&gt;");
    reveal_strlit("&quot;");
    reveal_strlit("&#39;");
    if s.len() > 0 {
        lemma_escaped_is_inert(s.drop_last());
        let a = escaped(s.drop_last());
        let e = escape_char(s.last());
        assert(escaped(s) == a + e);
        assert forall|i: int| 0 <= i < escaped(s).len() implies {
            let c = #[trigger] escaped(s)[i];
            c != '<' && c != '>' && c != '"' && c != '\''
        } by {
            if i < a.len() {
                assert(escaped(s)[i] == a[i]);
            } else {
                assert(escaped(s)[i] == e[i - a.len()]);
            }
        }
    }
}

/// The display formulas `$$...$$` from index `i` on, as the ranges they
/// cover: each runs from a `$$` to the first `$$` that leaves at least one
/// character between them, and the search goes on after it.
pub open spec fn display_spans_from(s: Seq<char>, i: int) -> Seq<(int, int)>
    decreases s.len() + 1 - i,
{
    match find_from(s, "$$"@, i) {
        Some(p) => match find_from(s, "$$"@, p + 3) {
            Some(q) => {
                proof {
                    reveal_strlit("$$");
                    lemma_find_from(s, "$$"@, i);
                    lemma_find_from(s, "$$"@, p + 3);
                }
                seq![(p, q + 2)] + display_spans_from(s, q + 2)
            },
            None => Seq::empty(),
        },
        None => Seq::empty(),
    }
}

/// The inline formulas `$...$` from index `i` on, as the ranges they cover:
/// each runs from a `$` to the next `$` with at least one character between
/// them; a `$` directly followed by another opens nothing.
pub open spec fn inline_spans_from(s: Seq<char>, i: int) -> Seq<(int, int)>
    decreases s.len() + 1 - i,
{
    match find_from(s, "$"@, i) {
        Some(p) => match find_from(s, "$"@, p + 1) {
            Some(q) => {
                proof {
                    reveal_strlit("$");
                    lemma_find_from(s, "$"@, i);
                    lemma_find_from(s, "$"@, p + 1);
                }
                if q == p + 1 {
                    inline_spans_from(s, q)
                } else {
                    seq![(p, q + 1)] + inline_spans_from(s, q + 1)
                }
            },
            None => Seq::empty(),
        },
        None => Seq::empty(),
    }
}

/// The display formulas lie in order within the text, from `i` on.
proof fn lemma_display_spans_ordered(s: Seq<char>, i: int)
    requires
        0 <= i,
    ensures
        spans_ordered(display_spans_from(s, i), s.len() as int),
        forall|k: int| 0 <= k < display_spans_from(s, i).len() ==> i <= (#[trigger] display_spans_from(s, i)[k]).0,
    decreases s.len() + 1 - i,
{
    reveal_strlit("$$");
    let r = display_spans_from(s, i);
    lemma_find_from(s, "$$"@, i);
    if let Some(p) = find_from(s, "$$"@, i) {
        lemma_find_from(s, "$$"@, p + 3);
        if let Some(q) = find_from(s, "$$"@, p + 3) {
            lemma_display_spans_ordered(s, q + 2);
            let t = display_spans_from(s, q + 2);
            assert(r == seq![(p, q + 2)] + t);
            assert forall|k: int| 0 < k < r.len() implies (#[trigger] r[k - 1]).1 <= r[k].0 by {
                assert(r[k] == t[k - 1]);
                if k > 1 {
                    assert(r[k - 1] == t[k - 2]);
                }
            }
            assert forall|k: int| 0 <= k < r.len() implies 0 <= (#[trigger] r[k]).0 <= r[k].1 <= s.len() by {
                if k > 0 {
                    assert(r[k] == t[k - 1]);
                }
            }
        }
    }
}

/// The inline formulas lie in order within the text, from `i` on.
proof fn lemma_inline_spans_ordered(s: Seq<char>, i: int)
    requires
        0 <= i,
    ensures
        spans_ordered(inline_spans_from(s, i), s.len() as int),
        forall|k: int| 0 <= k < inline_spans_from(s, i).len() ==> i <= (#[trigger] inline_spans_from(s, i)[k]).0,
    decreases s.len() + 1 - i,
{
    reveal_strlit("$");
    let r = inline_spans_from(s, i);
    lemma_find_from(s, "$"@, i);
    if let Some(p) = find_from(s, "$"@, i) {
        lemma_find_from(s, "$"@, p + 1);
        if let Some(q) = find_from(s, "$"@, p + 1) {
            if q == p + 1 {
                lemma_inline_spans_ordered(s, q);
            } else {
                lemma_inline_spans_ordered(s, q + 1);
                let t = inline_spans_from(s, q + 1);
                assert(r == seq![(p, q + 1)] + t);
                assert forall|k: int| 0 < k < r.len() implies (#[trigger] r[k - 1]).1 <= r[k].0 by {
                    assert(r[k] == t[k - 1]);
                    if k > 1 {
                        assert(r[k - 1] == t[k - 2]);
                    }
                }
                assert forall|k: int| 0 <= k < r.len() implies 0 <= (#[trigger] r[k]).0 <= r[k].1 <= s.len() by {
                    if k > 0 {
                        assert(r[k] == t[k - 1]);
                    }
                }
            }
        }
    }
}

/// The display formulas `$$...$$` of a document, in order.
pub fn display_math_spans(html: &str) -> (r: Vec<Span>)
    ensures
        span_ranges(r@) == display_spans_from(html@, 0),
        inners_match(html@, r@, 2),
        spans_ordered(span_ranges(r@), html@.len() as int),
{
    proof { lemma_display_spans_ordered(html@, 0); }
    let v = chars_of(html);
    let dd = chars_of("$$");
    proof { reveal_strlit("$$"); }
    let mut out: Vec<Span> = Vec::new();
    let mut i: usize = 0;
    loop
        invariant
            i <= v.len() + 1,
            v@ == html@,
            dd@ == "$$"@,
            dd@.len() == 2,
            span_ranges(out@) + display_spans_from(v@, i as int) == display_spans_from(v@, 0),
            inners_match(v@, out@, 2),
        ensures
            span_ranges(out@) == display_spans_from(v@, 0),
        decreases v.len() + 1 - i,
    {
        let p = match find_from_exec(&v, &dd, i) {
            Some(p) => p,
            None => break,
        };
        proof { lemma_find_from(v@, dd@, i as int); }
        if v.len() - p < 3 {
            assert(find_from(v@, dd@, p + 3) is None);
            break;
        }
        let q = match find_from_exec(&v, &dd, p + 3) {
            Some(q) => q,
            None => break,
        };
        proof { lemma_find_from(v@, dd@, p + 3); }
        let latex = substring(&v, p + 2, q);
        let ghost before = out@;
        out.push(Span { start: p, end: q + 2, inner: latex });
        proof {
            assert(span_ranges(out@) == span_ranges(before).push((p as int, q + 2)));
            assert(span_ranges(out@) + display_spans_from(v@, q + 2) =~= span_ranges(before)
                + display_spans_from(v@, i as int));
        }
        i = q + 2;
    }
    out
}

/// The inline formulas `$...$` of a document, in order.
pub fn inline_math_spans(html: &str) -> (r: Vec<Span>)
    ensures
        span_ranges(r@) == inline_spans_from(html@, 0),
        inners_match(html@, r@, 1),
        spans_ordered(span_ranges(r@), html@.len() as int),
{
    proof { lemma_inline_spans_ordered(html@, 0); }
    let v = chars_of(html);
    let d = chars_of("$");
    proof { reveal_strlit("$"); }
    let mut out: Vec<Span> = Vec::new();
    let mut i: usize = 0;
    loop
        invariant
            i <= v.len() + 1,
            v@ == html@,
            d@ == "$"@,
            d@.len() == 1,
            span_ranges(out@) + inline_spans_from(v@, i as int) == inline_spans_from(v@, 0),
            inners_match(v@, out@, 1),
        ensures
            span_ranges(out@) == inline_spans_from(v@, 0),
        decreases v.len() + 1 - i,
    {
        let p = match find_from_exec(&v, &d, i) {
            Some(p) => p,
            None => break,
        };
        proof { lemma_find_from(v@, d@, i as int); }
        let q = match find_from_exec(&v, &d, p + 1) {
            Some(q) => q,
            None => break,
        };
        proof { lemma_find_from(v@, d@, p + 1); }
        if q == p + 1 {
            i = q;
        } else {
            let latex = substring(&v, p + 1, q);
            let ghost before = out@;
            out.push(Span { start: p, end: q + 1, inner: latex });
            proof {
                assert(span_ranges(out@) == span_ranges(before).push((p as int, q + 1)));
                assert(span_ranges(out@) + inline_spans_from(v@, q + 1) =~= span_ranges(before)
                    + inline_spans_from(v@, i as int));
            }
            i = q + 1;
        }
    }
    out
}



/// The markup that stands in for one formula: what the TeX engine rendered,
/// or the fallback where it could not render it.
pub open spec fn chosen_markup(latex: Seq<char>, render: Option<String>, display_mode: bool) -> Seq<char> {
    match render {
        Some(m) => m@,
        None => fallback_html(latex, display_mode),
    }
}

/// How many of the formulas were rendered.
pub open spec fn rendered_count(renders: Seq<Option<String>>) -> nat
    decreases renders.len(),
{
    if renders.len() == 0 {
        0
    } else {
        rendered_count(renders.drop_last()) + if renders.last() is Some { 1nat } else { 0nat }
    }
}

/// For each formula, the markup that replaces it (the rendering, or the
/// fallback where the rendering failed), and how many were rendered.
pub fn math_replacements(spans: &[Span], renders: &[Option<String>], display_mode: bool) -> (r: (Vec<String>, usize))
    requires
        renders@.len() == spans@.len(),
    ensures
        r.0@.len() == spans@.len(),
        forall|k: int| 0 <= k < spans@.len() ==>
            (#[trigger] r.0@[k])@ == chosen_markup(spans@[k].inner@, renders@[k], display_mode),
        r.1 == rendered_count(renders@),
{
    let mut out: Vec<String> = Vec::new();
    let mut count: usize = 0;
    let mut k: usize = 0;
    while k < spans.len()
        invariant
            k <= spans.len() == renders.len(),
            out@.len() == k,
            forall|j: int| 0 <= j < k ==>
                (#[trigger] out@[j])@ == chosen_markup(spans@[j].inner@, renders@[j], display_mode),
            count == rendered_count(renders@.subrange(0, k as int)),
            count <= k,
        decreases spans.len() - k,
    {
        proof {
            assert(renders@.subrange(0, k + 1).drop_last() == renders@.subrange(0, k as int));
        }
        match &renders[k] {
            Some(m) => {
                out.push(m.clone());
                count = count + 1;
            },
            None => {
                out.push(math_fallback_markup(spans[k].inner.as_str(), display_mode));
            },
        }
        k = k + 1;
    }
    proof {
        assert(renders@.subrange(0, k as int) == renders@);
    }
    (out, count)
}

/// Every `$` of `x` is escaped: a backslash stands right before it.
pub open spec fn dollars_escaped(x: Seq<char>) -> bool {
    forall|j: int| 0 <= j < x.len() && #[trigger] x[j] == '$' ==> j > 0 && x[j - 1] == '\\'
}

/// Protecting the escaped dollars of a text whose dollars are all escaped
/// leaves no `$` from `i` on, where the scan does not stand on a `$`.
proof fn lemma_protected_dollar_free(x: Seq<char>, i: int)
    requires
        0 <= i <= x.len(),
        dollars_escaped(x),
        i < x.len() ==> x[i] != '$',
    ensures
        forall|m: int| 0 <= m < replace_from(x, "\\$"@, dollar_placeholder(), i).len()
            ==> replace_from(x, "\\$"@, dollar_placeholder(), i)[m] != '$',
    decreases x.len() - i,
{
    reveal_strlit("\\$");
    reveal_strlit("\x00TXP_ESC_DOLLAR\x00");
    let a = "\\$"@;
    let p = dollar_placeholder();
    if i < x.len() {
        if occurs_at(x, i, a) {
            assert(x.subrange(i, i + 2)[1] == x[i + 1]);
            if i + 2 < x.len() && x[i + 2] == '$' {
                assert(x[i + 1] == '\\');
            }
            lemma_protected_dollar_free(x, i + 2);
            let r = replace_from(x, a, p, i + 2);
            assert(replace_from(x, a, p, i) == p + r);
            assert forall|m: int| 0 <= m < (p + r).len() implies (p + r)[m] != '$' by {
                if m >= p.len() {
                    assert((p + r)[m] == r[m - p.len()]);
                }
            }
        } else {
            if i + 1 < x.len() && x[i + 1] == '$' {
                assert(x[i] == '\\');
                assert(x.subrange(i, i + 2) =~= a);
            }
            lemma_protected_dollar_free(x, i + 1);
            let r = replace_from(x, a, p, i + 1);
            assert(replace_from(x, a, p, i) == seq![x[i]] + r);
            assert forall|m: int| 0 <= m < (seq![x[i]] + r).len() implies (seq![x[i]] + r)[m] != '$' by {
                if m >= 1 {
                    assert((seq![x[i]] + r)[m] == r[m - 1]);
                }
            }
        }
    }
}

/// A text without `$` holds no formula.
proof fn lemma_no_dollar_no_spans(y: Seq<char>)
    requires
        forall|m: int| 0 <= m < y.len() ==> y[m] != '$',
    ensures
        display_spans_from(y, 0) == Seq::<(int, int)>::empty(),
        inline_spans_from(y, 0) == Seq::<(int, int)>::empty(),
{
    reveal_strlit("$");
    reveal_strlit("$$");
    lemma_find_from(y, "$$"@, 0);
    lemma_find_from(y, "$"@, 0);
    if let Some(j) = find_from(y, "$$"@, 0) {
        assert(y.subrange(j, j + 2)[0] == y[j]);
    }
    if let Some(j) = find_from(y, "$"@, 0) {
        assert(y.subrange(j, j + 1)[0] == y[j]);
    }
}

/// Escaped dollar signs are not math: when every `$` of a text is escaped
/// and the text does not hold the placeholder's opening, the protected
/// text holds no display or inline formula, and restoring it gives the
/// text back.
pub proof fn lemma_escaped_dollars_are_not_math(x: Seq<char>)
    requires
        dollars_escaped(x),
        !contains_seq(x, dollar_placeholder_start()),
    ensures
        display_spans_from(replace_all(x, "\\$"@, dollar_placeholder()), 0) == Seq::<(int, int)>::empty(),
        inline_spans_from(replace_all(x, "\\$"@, dollar_placeholder()), 0) == Seq::<(int, int)>::empty(),
        replace_all(replace_all(x, "\\$"@, dollar_placeholder()), dollar_placeholder(), "\\$"@) == x,
{
    if x.len() > 0 && x[0] == '$' {
        assert(false);
    }
    lemma_protected_dollar_free(x, 0);
    lemma_no_dollar_no_spans(replace_all(x, "\\$"@, dollar_placeholder()));
    lemma_escaped_dollars_round_trip(x);
}

/// Where each child of a positional element goes: a root's radicand (its
/// first child) stands under the radical and its index (second child) in
/// the raised `<sup>`; a fraction's numerator is its first child and its
/// denominator its second; an over/under element's base is its first
/// child, with the under script its second and the over script its last
/// child.
pub proof fn lemma_child_positions(m: MathNode)
    requires
        m.children@.len() >= 2,
    ensures
        m.node_type == MathNodeType::Mroot ==> node_html(m)
            == "<span class=\"txp-root\"><sup>"@ + dom_html(m.children@[1])
            + "</sup><span class=\"txp-sqrt\"><span class=\"txp-sqrt-glyph\">\u{221a}</span><span class=\"txp-sqrt-body\">"@
            + dom_html(m.children@[0]) + "</span></span></span>"@,
        m.node_type == MathNodeType::Mfrac ==> node_html(m)
            == "<span class=\"txp-frac\"><span class=\"txp-frac-num\">"@ + dom_html(m.children@[0])
            + "</span><span class=\"txp-frac-den\">"@ + dom_html(m.children@[1]) + "</span></span>"@,
        m.node_type == MathNodeType::Mover ==> node_html(m)
            == "<span class=\"txp-overunder\"><span class=\"txp-script-over\">"@ + dom_html(m.children@[1])
            + "</span><span class=\"txp-overunder-base\">"@ + dom_html(m.children@[0]) + "</span></span>"@,
        m.node_type == MathNodeType::Munder ==> node_html(m)
            == "<span class=\"txp-overunder\"><span class=\"txp-overunder-base\">"@ + dom_html(m.children@[0])
            + "</span><span class=\"txp-script-under\">"@ + dom_html(m.children@[1]) + "</span></span>"@,
        (m.node_type == MathNodeType::Munderover && m.children@.len() >= 3) ==> node_html(m)
            == "<span class=\"txp-overunder\"><span class=\"txp-script-over\">"@ + dom_html(m.children@[2])
            + "</span><span class=\"txp-overunder-base\">"@ + dom_html(m.children@[0])
            + "</span><span class=\"txp-script-under\">"@ + dom_html(m.children@[1]) + "</span></span>"@,
{
}

} // verus!
