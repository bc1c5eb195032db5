//! Building the HTML document: Markdown conversion with the print style
//! sheet, running headers and footers, and injected style blocks.
use vstd::prelude::*;
use crate::text::{
    chars_of, string_of, push_all, push_str, push_range, find_from, find_from_exec, rfind_before,
    rfind_exec, replace_all, replace_all_exec,
};

verus! {

/// The print style sheet that Markdown documents carry.
pub const DEFAULT_PRINT_CSS: &'static str = "
    table { border-collapse: collapse; width: 100%; }
    th { background: #eee; font-weight: bold; }
    td, th { border: 1px solid #999; padding: 4pt 8pt; text-align: left; }
    pre { background: #f5f5f5; border: 1px solid #ddd; padding: 8pt; font-family: monospace; font-size: 9pt; }
    pre code { background: none; padding: 0; }
    code { background: #f0f0f0; padding: 1pt 3pt; }
    blockquote { border-left: 3px solid #ccc; margin: 10pt 0; padding: 4pt 12pt; color: #555; }
    tr { break-inside: avoid; page-break-inside: avoid; }
    thead { display: table-header-group; }
    h2, h3 { break-after: avoid; page-break-after: avoid; }
";

/// The style sheet for rendered math: scripts, fractions, radicals,
/// matrices and over/under annotations drawn with inline tables.
pub const KATEX_CSS: &'static str = "
.txp-math{font-family:'TypePressMath','DejaVu Serif',serif;line-height:1.2}
.txp-math-inline{display:inline}
.txp-math-display{display:block;text-align:center;margin:1em 0}
.txp-math sup{font-size:.7em;vertical-align:.6em}
.txp-math sub{font-size:.7em;vertical-align:-.25em}
.txp-script-sup{font-size:.6em;vertical-align:.55em}
.txp-op-limits{display:inline-table;vertical-align:middle;line-height:1;margin-right:.08em}
.txp-op-over,.txp-op-under{font-size:.45em;line-height:1;display:table-row}
.txp-op-base{line-height:.85}
.txp-script-pair{display:inline-table;vertical-align:top}
.txp-script-pair td{padding:0}
.txp-script-base{line-height:1}
.txp-script-stack{display:inline-table;line-height:.8;font-size:.6em}
.txp-script-stack td{padding:0}
.txp-script-over{display:table-row}
.txp-script-under{display:table-row}
.txp-frac{display:inline-table;vertical-align:middle;text-align:center;line-height:1;margin:0 .15em}
.txp-frac td{padding:0}
.txp-frac-num{padding:0 .2em .08em;border-bottom:.04em solid currentColor}
.txp-frac-den{padding:.08em .2em 0}
.txp-sqrt{display:inline-table;vertical-align:middle}
.txp-sqrt td{padding:0}
.txp-sqrt-glyph{font-size:1.1em;line-height:1;padding-right:.08em;vertical-align:top}
.txp-sqrt-body{border-top:.04em solid currentColor;padding:.06em .1em 0 .08em;vertical-align:top}
.txp-root{display:inline-table;vertical-align:top}
.txp-root td{padding:0}
.txp-root>sup{margin-right:-.1em}
.txp-overunder{display:inline-table;line-height:.85;vertical-align:middle}
.txp-overunder td{padding:0}
.txp-overunder-base{line-height:1}
.txp-overunder .txp-script-over,.txp-overunder .txp-script-under{font-size:.6em;display:table-row}
.txp-matrix{display:inline-table;border-spacing:.35em .1em;vertical-align:middle;margin:0 .2em}
.txp-matrix td{padding:0}
.txp-menclose-box{display:inline-block;border:.04em solid currentColor;padding:.08em .2em}
.txp-math-error{color:#b42318;font-style:italic}
";

// ---------------------------------------------------------------------------
// Markdown
// ---------------------------------------------------------------------------

/// The HTML that the CommonMark renderer produces for a Markdown source,
/// with every extension it offers switched on.
pub uninterp spec fn commonmark_html(markdown: Seq<char>) -> Seq<char>;

/// Renders Markdown to an HTML fragment with `pulldown_cmark`, all
/// extensions enabled (tables, footnotes, strikethrough, task lists, ...).
#[verifier::external_body]
fn render_commonmark(markdown: &str) -> (r: String)
    ensures
        r@ == commonmark_html(markdown@),
{
    let parser = pulldown_cmark::Parser::new_ext(markdown, pulldown_cmark::Options::all());
    let mut out = String::new();
    pulldown_cmark::html::push_html(&mut out, parser);
    out
}

/// A complete HTML document around a rendered Markdown body: the print
/// style sheet in the head, and void elements written without the XHTML
/// slash (`<br />` becomes `<br>`).
pub open spec fn markdown_document(body: Seq<char>) -> Seq<char> {
    "<!DOCTYPE html>\n<html><head><meta charset=\"utf-8\"><style>"@ + DEFAULT_PRINT_CSS@
        + "</style></head><body>\n"@ + replace_all(body, " />"@, ">"@) + "\n</body></html>"@
}

/// Wraps a rendered Markdown body into the printable document.
pub fn wrap_markdown_body(body: &str) -> (r: String)
    ensures
        r@ == markdown_document(body@),
{
    let v = chars_of(body);
    let from = chars_of(" />");
    let to = chars_of(">");
    let cleaned = replace_all_exec(&v, &from, &to);
    let mut out: Vec<char> = Vec::new();
    push_str(&mut out, "<!DOCTYPE html>\n<html><head><meta charset=\"utf-8\"><style>");
    push_str(&mut out, DEFAULT_PRINT_CSS);
    push_str(&mut out, "</style></head><body>\n");
    push_all(&mut out, &cleaned);
    push_str(&mut out, "\n</body></html>");
    string_of(&out)
}

/// Converts Markdown to the printable HTML document.
pub fn markdown_to_html(markdown: &str) -> (r: String)
    ensures
        r@ == markdown_document(commonmark_html(markdown@)),
{
    let body = render_commonmark(markdown);
    wrap_markdown_body(body.as_str())
}

// ---------------------------------------------------------------------------
// Headers and footers
// ---------------------------------------------------------------------------

/// The escape of one character in header and footer text: `&`, `<` and `>`.
pub open spec fn text_escape_char(c: char) -> Seq<char> {
    if c == '&' {
        "&amp;"@
    } else if c == '<' {
        "&lt;"@
    } else if c == '>' {
        "&gt;"@
    } else {
        seq![c]
    }
}

/// Header and footer text with `&`, `<` and `>` escaped.
pub open spec fn text_escaped(s: Seq<char>) -> Seq<char>
    decreases s.len(),
{
    if s.len() == 0 {
        Seq::empty()
    } else {
        text_escaped(s.drop_last()) + text_escape_char(s.last())
    }
}

pub fn push_text_escaped(out: &mut Vec<char>, v: &Vec<char>)
    ensures
        final(out)@ == old(out)@ + text_escaped(v@),
{
    let mut i: usize = 0;
    while i < v.len()
        invariant
            i <= v.len(),
            out@ == old(out)@ + text_escaped(v@.take(i as int)),
        decreases v.len() - i,
    {
        proof {
            assert(v@.take(i + 1).drop_last() == v@.take(i as int));
        }
        let c = v[i];
        if c == '&' {
            push_str(out, "&amp;");
        } else if c == '<' {
            push_str(out, "&lt;");
        } else if c == '>' {
            push_str(out, "&gt;");
        } else {
            out.push(c);
        }
        i = i + 1;
    }
    assert(v@.take(v.len() as int) == v@);
}

/// `t` inserted into `s` at index `pos`.
pub open spec fn insert_at(s: Seq<char>, pos: int, t: Seq<char>) -> Seq<char> {
    s.take(pos) + t + s.skip(pos)
}

/// The page-margin rule that places the running header at the top centre.
pub open spec fn header_page_css() -> Seq<char> {
    "@top-center { content: element(typepress-hdr); font-size: 9pt; color: #555; }\n"@
}

/// The `@page` rule for a document with a header.
pub open spec fn header_page_rule() -> Seq<char> {
    "@page { "@ + header_page_css() + " }"@
}

/// The page-margin rule that places the running footer at the bottom centre.
pub open spec fn footer_page_css() -> Seq<char> {
    "@bottom-center { content: element(typepress-ftr); font-size: 9pt; color: #555; }\n"@
}

/// The `@page` rule that places the running elements a document has: the
/// header at the top centre, the footer at the bottom centre.
pub open spec fn page_rule(header: bool, footer: bool) -> Seq<char> {
    "@page { "@ + (if header { header_page_css() } else { Seq::empty() })
        + (if footer { footer_page_css() } else { Seq::empty() }) + " }"@
}

/// The running header element.
pub open spec fn header_element(h: Seq<char>) -> Seq<char> {
    "<div style=\"position:running(typepress-hdr)\">"@ + text_escaped(h) + "</div>\n"@
}

/// The running footer element.
pub open spec fn footer_element(f: Seq<char>) -> Seq<char> {
    "<div style=\"position:running(typepress-ftr)\">"@ + text_escaped(f) + "</div>\n"@
}

/// The document with a header: the `@page` rule in a style block before
/// `</head>`, and the header element right after the `<body ...>` tag
/// (after the first `>` that follows `<body`, or five characters on when
/// the tag is not closed).
pub open spec fn with_header(html: Seq<char>, h: Seq<char>) -> Seq<char> {
    let a = match find_from(html, "</head>"@, 0) {
        Some(p) => insert_at(html, p, "<style>"@ + header_page_rule() + "</style>"@),
        None => html,
    };
    match find_from(a, "<body"@, 0) {
        Some(p) => {
            let e = match find_from(a, ">"@, p) {
                Some(q) => q + 1,
                None => p + 5,
            };
            insert_at(a, e, "\n"@ + header_element(h))
        },
        None => a,
    }
}

/// The document with a footer element before its last `</body>`.
pub open spec fn with_footer(html: Seq<char>, f: Seq<char>) -> Seq<char> {
    match rfind_before(html, "</body>"@, html.len() as int) {
        Some(p) => insert_at(html, p, footer_element(f)),
        None => html,
    }
}

/// The document after header and footer injection.
pub open spec fn with_header_footer(html: Seq<char>, header: Option<Seq<char>>, footer: Option<Seq<char>>) -> Seq<char> {
    let a = match header {
        Some(h) => with_header(html, h),
        None => html,
    };
    match footer {
        Some(f) => with_footer(a, f),
        None => a,
    }
}

pub open spec fn opt_str_view(o: Option<&str>) -> Option<Seq<char>> {
    match o {
        Some(s) => Some(s@),
        None => None,
    }
}

fn insert_chars(v: &Vec<char>, pos: usize, t: &Vec<char>) -> (r: Vec<char>)
    requires
        pos <= v.len(),
    ensures
        r@ == insert_at(v@, pos as int, t@),
{
    let mut out: Vec<char> = Vec::new();
    push_range(&mut out, v, 0, pos);
    push_all(&mut out, t);
    push_range(&mut out, v, pos, v.len());
    assert(out@ =~= insert_at(v@, pos as int, t@));
    out
}

fn with_header_chars(html: &Vec<char>, h: &Vec<char>) -> (r: Vec<char>)
    ensures
        r@ == with_header(html@, h@),
{
    let head = chars_of("</head>");
    let a = match find_from_exec(html, &head, 0) {
        Some(p) => {
            proof { crate::text::lemma_find_from(html@, head@, 0); }
            let mut tag: Vec<char> = Vec::new();
            push_str(&mut tag, "<style>@page { ");
            push_str(&mut tag, "@top-center { content: element(typepress-hdr); font-size: 9pt; color: #555; }\n");
            push_str(&mut tag, " }</style>");
            proof {
                reveal_strlit("<style>@page { ");
                reveal_strlit(" }</style>");
                reveal_strlit("<style>");
                reveal_strlit("@page { ");
                reveal_strlit(" }");
                reveal_strlit("</style>");
                assert(tag@ =~= "<style>"@ + header_page_rule() + "</style>"@);
            }
            insert_chars(html, p, &tag)
        },
        None => html.clone(),
    };
    let body = chars_of("<body");
    match find_from_exec(&a, &body, 0) {
        Some(p) => {
            proof {
                crate::text::lemma_find_from(a@, body@, 0);
                reveal_strlit("<body");
            }
            let gt = chars_of(">");
            let alen = a.len();
            let e = match find_from_exec(&a, &gt, p) {
                Some(q) => {
                    proof {
                        crate::text::lemma_find_from(a@, gt@, p as int);
                        reveal_strlit(">");
                        assert(gt@.len() == 1);
                        assert(q < a@.len());
                    }
                    q + 1
                },
                None => {
                    assert(body@.len() == 5);
                    p + 5
                },
            };
            let mut el: Vec<char> = Vec::new();
            push_str(&mut el, "\n<div style=\"position:running(typepress-hdr)\">");
            push_text_escaped(&mut el, h);
            push_str(&mut el, "</div>\n");
            proof {
                reveal_strlit("\n<div style=\"position:running(typepress-hdr)\">");
                reveal_strlit("\n");
                reveal_strlit("<div style=\"position:running(typepress-hdr)\">");
                assert(el@ =~= "\n"@ + header_element(h@));
            }
            insert_chars(&a, e, &el)
        },
        None => a,
    }
}

fn with_footer_chars(html: &Vec<char>, f: &Vec<char>) -> (r: Vec<char>)
    ensures
        r@ == with_footer(html@, f@),
{
    let close = chars_of("</body>");
    match rfind_exec(html, &close) {
        Some(p) => {
            proof { lemma_rfind_before_bound(html@, close@, html@.len() as int); }
            let mut el: Vec<char> = Vec::new();
            push_str(&mut el, "<div style=\"position:running(typepress-ftr)\">");
            push_text_escaped(&mut el, f);
            push_str(&mut el, "</div>\n");
            insert_chars(html, p, &el)
        },
        None => html.clone(),
    }
}

/// A last occurrence found before `i` starts before `i`.
proof fn lemma_rfind_before_bound(s: Seq<char>, p: Seq<char>, i: int)
    ensures
        rfind_before(s, p, i) matches Some(j) ==> 0 <= j < i && crate::text::occurs_at(s, j, p),
    decreases i,
{
    if i > 0 && !crate::text::occurs_at(s, i - 1, p) {
        lemma_rfind_before_bound(s, p, i - 1);
    }
}

fn opt_chars(o: Option<&str>) -> (r: Option<Vec<char>>)
    ensures
        match r {
            Some(v) => opt_str_view(o) == Some(v@),
            None => o is None,
        },
{
    match o {
        Some(s) => Some(chars_of(s)),
        None => None,
    }
}

/// Adds a running header and footer to the document. Each text goes in a
/// running element; the `@page` rule that places them in the page margins
/// (header at the top centre, footer at the bottom centre) is returned, as
/// CSS for the asset bundle, whenever there is a header or a footer.
pub fn inject_hf(html: &mut String, header: Option<&str>, footer: Option<&str>) -> (r: Option<String>)
    ensures
        final(html)@ == with_header_footer(old(html)@, opt_str_view(header), opt_str_view(footer)),
        r is Some <==> (header is Some || footer is Some),
        r matches Some(css) ==> css@ == page_rule(header is Some, footer is Some),
{
    if header.is_none() && footer.is_none() {
        return None;
    }
    let v = chars_of(html.as_str());
    let h = opt_chars(header);
    let f = opt_chars(footer);
    let a = match &h {
        Some(hv) => with_header_chars(&v, hv),
        None => v,
    };
    let b = match &f {
        Some(fv) => with_footer_chars(&a, fv),
        None => a,
    };
    *html = string_of(&b);
    let mut css: Vec<char> = Vec::new();
    push_str(&mut css, "@page { ");
    if header.is_some() {
        push_str(&mut css, "@top-center { content: element(typepress-hdr); font-size: 9pt; color: #555; }\n");
    }
    if footer.is_some() {
        push_str(&mut css, "@bottom-center { content: element(typepress-ftr); font-size: 9pt; color: #555; }\n");
    }
    push_str(&mut css, " }");
    assert(css@ =~= page_rule(header is Some, footer is Some));
    Some(string_of(&css))
}

// ---------------------------------------------------------------------------
// Style blocks
// ---------------------------------------------------------------------------

/// The document with a `<style>` block holding `css`: before `</head>`, or
/// else (followed by a line break) before `<body`; unchanged when it has
/// neither.
pub open spec fn with_style(html: Seq<char>, css: Seq<char>) -> Seq<char> {
    let tag = "<style>"@ + css + "</style>"@;
    match find_from(html, "</head>"@, 0) {
        Some(p) => insert_at(html, p, tag),
        None => match find_from(html, "<body"@, 0) {
            Some(p) => insert_at(html, p, tag + "\n"@),
            None => html,
        },
    }
}

/// Injects a style block into the document.
pub fn inject_css(html: &mut String, css: &str)
    ensures
        final(html)@ == with_style(old(html)@, css@),
{
    let v = chars_of(html.as_str());
    let mut tag: Vec<char> = Vec::new();
    push_str(&mut tag, "<style>");
    push_str(&mut tag, css);
    push_str(&mut tag, "</style>");
    let head = chars_of("</head>");
    match find_from_exec(&v, &head, 0) {
        Some(p) => {
            proof { crate::text::lemma_find_from(v@, head@, 0); }
            *html = string_of(&insert_chars(&v, p, &tag));
        },
        None => {
            let body = chars_of("<body");
            match find_from_exec(&v, &body, 0) {
                Some(p) => {
                    proof { crate::text::lemma_find_from(v@, body@, 0); }
                    push_str(&mut tag, "\n");
                    *html = string_of(&insert_chars(&v, p, &tag));
                },
                None => {},
            }
        },
    }
}

/// The `@font-face` rule that maps the `TypePressMath` family to a font
/// file.
pub fn math_font_face_css(font_path: &str) -> (r: String)
    ensures
        r@ == "@font-face { font-family: 'TypePressMath'; src: url('"@ + font_path@ + "'); }"@,
{
    let mut out: Vec<char> = Vec::new();
    push_str(&mut out, "@font-face { font-family: 'TypePressMath'; src: url('");
    push_str(&mut out, font_path);
    push_str(&mut out, "'); }");
    string_of(&out)
}

} // verus!
