//! Mermaid diagrams: finding the ```` ```mermaid ```` blocks of a document,
//! the colour theme and font each diagram gets, and the markup that takes a
//! block's place: the rasterised image, the inline SVG, or a notice when the
//! diagram could not be rendered. The diagram layout itself (with its
//! floating-point sizes) is the caller's.
use vstd::prelude::*;
use crate::math::{escaped, push_escaped};
use crate::splice::{Span, span_ranges, inners_match, spans_ordered, substring};
use crate::text::{
    chars_of, string_of, push_all, push_str, occurs_at, occurs_at_exec, find_from, find_from_exec,
    lemma_find_from, trim, trimmed_range, decimal, decimal_exec,
};

verus! {

// ---------------------------------------------------------------------------
// Blocks
// ---------------------------------------------------------------------------

/// The start of the diagram source of a ```` ```mermaid ```` fence at `p`:
/// after the line break (`\n` or `\r\n`) that must follow the word.
pub open spec fn mermaid_source_start(s: Seq<char>, p: int) -> Option<int> {
    let a = p + 10;
    if a + 1 < s.len() && s[a] == '\r' && s[a + 1] == '\n' {
        Some(a + 2)
    } else if a < s.len() && s[a] == '\n' {
        Some(a + 1)
    } else {
        None
    }
}

/// The matches of `(?s)```mermaid\r?\n(.*?)```` from `i` on: each block
/// runs from the fence to the first ```` ``` ```` after its line break.
pub open spec fn mermaid_spans_from(s: Seq<char>, i: int) -> Seq<(int, int)>
    decreases s.len() + 1 - i,
{
    match find_from(s, "```mermaid"@, i) {
        Some(p) => {
            proof {
                reveal_strlit("```mermaid");
                reveal_strlit("```");
                lemma_find_from(s, "```mermaid"@, i);
                lemma_find_from(s, "```"@, p + 11);
                lemma_find_from(s, "```"@, p + 12);
            }
            if i >= 0 {
                match mermaid_source_start(s, p) {
                    Some(c) => match find_from(s, "```"@, c) {
                        Some(q) => seq![(p, q + 3)] + mermaid_spans_from(s, q + 3),
                        None => mermaid_spans_from(s, p + 1),
                    },
                    None => mermaid_spans_from(s, p + 1),
                }
            } else {
                Seq::empty()
            }
        },
        None => Seq::empty(),
    }
}

/// Each block's source runs from after its line break to its closing
/// fence.
pub open spec fn mermaid_sources_match(s: Seq<char>, v: Seq<Span>) -> bool {
    forall|k: int| 0 <= k < v.len() ==> (#[trigger] v[k]).inner@ == s.subrange(
        mermaid_source_start(s, v[k].start as int)->0,
        v[k].end - 3,
    )
}

/// The blocks lie in order within the text, from `i` on.
proof fn lemma_mermaid_spans_ordered(s: Seq<char>, i: int)
    requires
        0 <= i,
    ensures
        spans_ordered(mermaid_spans_from(s, i), s.len() as int),
        forall|k: int| 0 <= k < mermaid_spans_from(s, i).len() ==> i <= (#[trigger] mermaid_spans_from(s, i)[k]).0,
    decreases s.len() + 1 - i,
{
    reveal_strlit("```mermaid");
    reveal_strlit("```");
    let r = mermaid_spans_from(s, i);
    lemma_find_from(s, "```mermaid"@, i);
    if let Some(p) = find_from(s, "```mermaid"@, i) {
        lemma_find_from(s, "```"@, p + 11);
        lemma_find_from(s, "```"@, p + 12);
        match mermaid_source_start(s, p) {
            Some(c) => match find_from(s, "```"@, c) {
                Some(q) => {
                    lemma_mermaid_spans_ordered(s, q + 3);
                    let t = mermaid_spans_from(s, q + 3);
                    assert(r == seq![(p, q + 3)] + t);
                    assert forall|k: int| 0 < k < r.len() implies (#[trigger] r[k - 1]).1 <= r[k].0 by {
                        assert(r[k] == t[k - 1]);
                        if k > 1 {
                            assert(r[k - 1] == t[k - 2]);
                        }
                    }
                    assert forall|k: int| 0 <= k < r.len() implies 0 <= (#[trigger] r[k]).0 <= r[k].1 <= s.len() by {
                        if k > 0 {
                            assert(r[k] == t[k - 1]);
                        }
                    }
                },
                None => lemma_mermaid_spans_ordered(s, p + 1),
            },
            None => lemma_mermaid_spans_ordered(s, p + 1),
        }
    }
}

fn mermaid_source_start_exec(s: &Vec<char>, p: usize) -> (r: Option<usize>)
    requires
        p + 10 <= s.len(),
    ensures
        match r {
            Some(c) => mermaid_source_start(s@, p as int) == Some(c as int),
            None => mermaid_source_start(s@, p as int) is None,
        },
{
    let a = p + 10;
    let n = s.len();
    if a < n && a + 1 < n && s[a] == '\r' && s[a + 1] == '\n' {
        Some(a + 2)
    } else if a < n && s[a] == '\n' {
        Some(a + 1)
    } else {
        None
    }
}

/// The ```` ```mermaid ```` blocks of a document, in order, each with its
/// diagram source.
pub fn mermaid_blocks(html: &str) -> (r: Vec<Span>)
    ensures
        span_ranges(r@) == mermaid_spans_from(html@, 0),
        mermaid_sources_match(html@, r@),
        spans_ordered(span_ranges(r@), html@.len() as int),
{
    proof { lemma_mermaid_spans_ordered(html@, 0); }
    let v = chars_of(html);
    let fence = chars_of("```mermaid");
    let close = chars_of("```");
    proof {
        reveal_strlit("```mermaid");
        reveal_strlit("```");
    }
    let n = v.len();
    let mut out: Vec<Span> = Vec::new();
    let mut i: usize = 0;
    while i <= n
        invariant
            n == v@.len(),
            v@ == html@,
            fence@ == "```mermaid"@,
            fence@.len() == 10,
            close@ == "```"@,
            close@.len() == 3,
            span_ranges(out@) + mermaid_spans_from(v@, i as int) == mermaid_spans_from(v@, 0),
            mermaid_sources_match(v@, out@),
        ensures
            span_ranges(out@) == mermaid_spans_from(v@, 0),
            mermaid_sources_match(v@, out@),
        decreases n + 1 - i,
    {
        let p = match find_from_exec(&v, &fence, i) {
            Some(p) => p,
            None => break,
        };
        proof {
            lemma_find_from(v@, fence@, i as int);
            lemma_find_from(v@, close@, p + 11);
            lemma_find_from(v@, close@, p + 12);
        }
        match mermaid_source_start_exec(&v, p) {
            Some(c) => match find_from_exec(&v, &close, c) {
                Some(q) => {
                    proof { lemma_find_from(v@, close@, c as int); }
                    let source = substring(&v, c, q);
                    let ghost before = out@;
                    out.push(Span { start: p, end: q + 3, inner: source });
                    proof {
                        assert(span_ranges(out@) =~= span_ranges(before).push((p as int, q + 3)));
                        assert(span_ranges(out@) + mermaid_spans_from(v@, q + 3) =~= span_ranges(before)
                            + mermaid_spans_from(v@, i as int));
                    }
                    i = q + 3;
                },
                None => {
                    i = p + 1;
                },
            },
            None => {
                i = p + 1;
            },
        }
    }
    out
}

// ---------------------------------------------------------------------------
// Styling
// ---------------------------------------------------------------------------

/// Diagram colours: node fill, node stroke, node text, edge stroke, edge
/// text.
pub struct MermaidTheme {
    pub node_fill: &'static str,
    pub node_stroke: &'static str,
    pub node_text: &'static str,
    pub edge_stroke: &'static str,
    pub edge_text: &'static str,
}

/// The fill, stroke and text colour of the nodes of theme `k` (of eight:
/// blue, emerald, amber, rose, violet, cyan, orange, teal); edges are grey
/// in every theme.
pub open spec fn node_colours(k: int) -> (Seq<char>, Seq<char>, Seq<char>) {
    if k == 0 {
        ("#eff6ff"@, "#3b82f6"@, "#1e293b"@)
    } else if k == 1 {
        ("#ecfdf5"@, "#10b981"@, "#064e3b"@)
    } else if k == 2 {
        ("#fffbeb"@, "#f59e0b"@, "#78350f"@)
    } else if k == 3 {
        ("#fff1f2"@, "#f43f5e"@, "#881337"@)
    } else if k == 4 {
        ("#f5f3ff"@, "#8b5cf6"@, "#3b0764"@)
    } else if k == 5 {
        ("#ecfeff"@, "#06b6d4"@, "#164e63"@)
    } else if k == 6 {
        ("#fff7ed"@, "#f97316"@, "#7c2d12"@)
    } else {
        ("#f0fdfa"@, "#14b8a6"@, "#134e4a"@)
    }
}

/// The theme of the diagram that `count` diagrams precede: the themes are
/// used in turn.
pub fn mermaid_theme(count: usize) -> (t: MermaidTheme)
    ensures
        (t.node_fill@, t.node_stroke@, t.node_text@) == node_colours(count as int % 8),
        t.edge_stroke@ == "#64748b"@,
        t.edge_text@ == "#475569"@,
{
    let k = count % 8;
    let (f, s, x): (&'static str, &'static str, &'static str) = if k == 0 {
        ("#eff6ff", "#3b82f6", "#1e293b")
    } else if k == 1 {
        ("#ecfdf5", "#10b981", "#064e3b")
    } else if k == 2 {
        ("#fffbeb", "#f59e0b", "#78350f")
    } else if k == 3 {
        ("#fff1f2", "#f43f5e", "#881337")
    } else if k == 4 {
        ("#f5f3ff", "#8b5cf6", "#3b0764")
    } else if k == 5 {
        ("#ecfeff", "#06b6d4", "#164e63")
    } else if k == 6 {
        ("#fff7ed", "#f97316", "#7c2d12")
    } else {
        ("#f0fdfa", "#14b8a6", "#134e4a")
    };
    MermaidTheme { node_fill: f, node_stroke: s, node_text: x, edge_stroke: "#64748b", edge_text: "#475569" }
}

/// Diagrams whose source is not all ASCII prefer a CJK font.
pub fn prefers_cjk_font(source: &str) -> (b: bool)
    ensures
        b == exists|i: int| 0 <= i < source@.len() && (source@[i] as u32) >= 128,
{
    let v = chars_of(source);
    let mut i: usize = 0;
    while i < v.len()
        invariant
            i <= v.len(),
            v@ == source@,
            forall|j: int| 0 <= j < i ==> (v@[j] as u32) < 128,
        decreases v.len() - i,
    {
        if (v[i] as u32) >= 128 {
            return true;
        }
        i = i + 1;
    }
    false
}

/// The CJK fonts tried for diagram labels, as (family, file), in order.
pub open spec fn cjk_fonts() -> Seq<(Seq<char>, Seq<char>)> {
    seq![
        ("WenQuanYi Zen Hei"@, "/usr/share/fonts/truetype/wqy/wqy-zenhei.ttc"@),
        ("WenQuanYi Micro Hei"@, "/usr/share/fonts/truetype/wqy/wqy-microhei.ttc"@),
        ("Microsoft YaHei"@, "/mnt/c/Windows/Fonts/msyh.ttc"@),
        ("SimSun"@, "/mnt/c/Windows/Fonts/simsun.ttc"@),
    ]
}

/// The Latin fonts tried for diagram labels, as (family, file), in order.
pub open spec fn latin_fonts() -> Seq<(Seq<char>, Seq<char>)> {
    seq![
        ("DejaVu Sans"@, "/usr/share/fonts/truetype/dejavu/DejaVuSans.ttf"@),
        ("Liberation Sans"@, "/usr/share/fonts/truetype/liberation/LiberationSans-Regular.ttf"@),
        ("WenQuanYi Zen Hei"@, "/usr/share/fonts/truetype/wqy/wqy-zenhei.ttc"@),
    ]
}

/// The views of a list of (family, file) pairs.
pub open spec fn font_pair_views(v: Seq<(&'static str, &'static str)>) -> Seq<(Seq<char>, Seq<char>)> {
    v.map_values(|p: (&'static str, &'static str)| (p.0@, p.1@))
}

/// The system fonts tried for diagram labels, as (family, file), in order:
/// the CJK fonts first when the diagram prefers them, the Latin fonts
/// first otherwise.
pub fn mermaid_font_candidates(prefer_cjk: bool) -> (r: Vec<(&'static str, &'static str)>)
    ensures
        font_pair_views(r@) == if prefer_cjk { cjk_fonts() + latin_fonts() } else { latin_fonts() + cjk_fonts() },
{
    let cjk: Vec<(&'static str, &'static str)> = vec![
        ("WenQuanYi Zen Hei", "/usr/share/fonts/truetype/wqy/wqy-zenhei.ttc"),
        ("WenQuanYi Micro Hei", "/usr/share/fonts/truetype/wqy/wqy-microhei.ttc"),
        ("Microsoft YaHei", "/mnt/c/Windows/Fonts/msyh.ttc"),
        ("SimSun", "/mnt/c/Windows/Fonts/simsun.ttc"),
    ];
    let latin: Vec<(&'static str, &'static str)> = vec![
        ("DejaVu Sans", "/usr/share/fonts/truetype/dejavu/DejaVuSans.ttf"),
        ("Liberation Sans", "/usr/share/fonts/truetype/liberation/LiberationSans-Regular.ttf"),
        ("WenQuanYi Zen Hei", "/usr/share/fonts/truetype/wqy/wqy-zenhei.ttc"),
    ];
    assert(font_pair_views(cjk@) =~= cjk_fonts());
    assert(font_pair_views(latin@) =~= latin_fonts());
    let (mut first, second) = if prefer_cjk { (cjk, latin) } else { (latin, cjk) };
    let ghost f0 = first@;
    let ghost s0 = second@;
    let mut rest = second;
    first.append(&mut rest);
    assert(font_pair_views(first@) =~= font_pair_views(f0) + font_pair_views(s0));
    first
}

// ---------------------------------------------------------------------------
// Markup
// ---------------------------------------------------------------------------

/// The notice that takes the place of a diagram that could not be
/// rendered, with its trimmed, escaped source.
pub open spec fn mermaid_failure_html(source: Seq<char>) -> Seq<char> {
    "<div class=\"mermaid-placeholder\" style=\"border:2px dashed #ccc;padding:2em;text-align:center;margin:1em 0;color:#888;font-style:italic\">Mermaid render failed: "@
        + escaped(trim(source)) + "</div>"@
}

pub fn mermaid_failure_markup(source: &str) -> (r: String)
    ensures
        r@ == mermaid_failure_html(source@),
{
    let v = chars_of(source);
    let t = trimmed_range(&v, 0, v.len());
    assert(v@.subrange(0, v@.len() as int) == v@);
    let mut out: Vec<char> = Vec::new();
    push_str(&mut out, "<div class=\"mermaid-placeholder\" style=\"border:2px dashed #ccc;padding:2em;text-align:center;margin:1em 0;color:#888;font-style:italic\">Mermaid render failed: ");
    push_escaped(&mut out, &t);
    push_str(&mut out, "</div>");
    string_of(&out)
}

/// The bundle name of the image of the `index`-th diagram.
pub fn mermaid_image_name(index: usize) -> (r: String)
    ensures
        r@ == "txp-mermaid-"@ + decimal(index as nat) + ".png"@,
{
    let mut out: Vec<char> = Vec::new();
    push_str(&mut out, "txp-mermaid-");
    push_all(&mut out, &decimal_exec(index));
    push_str(&mut out, ".png");
    string_of(&out)
}

/// The image tag of a rasterised diagram, with its width and height (as
/// whole pixels) as attributes and as style.
pub fn mermaid_image_tag(name: &str, width: &str, height: &str) -> (r: String)
    ensures
        r@ == "<img src=\""@ + name@ + "\" width=\""@ + width@ + "\" height=\""@ + height@
            + "\" style=\"display:block;margin:1em auto;width:"@ + width@ + "px;height:"@ + height@
            + "px\" alt=\"mermaid diagram\" />"@,
{
    let mut out: Vec<char> = Vec::new();
    push_str(&mut out, "<img src=\"");
    push_str(&mut out, name);
    push_str(&mut out, "\" width=\"");
    push_str(&mut out, width);
    push_str(&mut out, "\" height=\"");
    push_str(&mut out, height);
    push_str(&mut out, "\" style=\"display:block;margin:1em auto;width:");
    push_str(&mut out, width);
    push_str(&mut out, "px;height:");
    push_str(&mut out, height);
    push_str(&mut out, "px\" alt=\"mermaid diagram\" />");
    string_of(&out)
}

/// The inline SVG that takes a diagram's place when it cannot be
/// rasterised: the SVG in a centred box of the diagram's size, its view box
/// the diagram's own size.
pub fn mermaid_svg_markup(svg: &str, width: &str, height: &str, view_width: &str, view_height: &str) -> (r: String)
    ensures
        r@ == "<div class=\"txp-mermaid\" style=\"text-align:center;margin:1em 0;width:"@ + width@ + "px;height:"@
            + height@ + "px\"><svg xmlns=\"http://www.w3.org/2000/svg\" width=\""@ + width@ + "\" height=\""@
            + height@ + "\" viewBox=\"0 0 "@ + view_width@ + " "@ + view_height@
            + "\" style=\"display:block;margin:0 auto\">"@ + svg@ + "</svg></div>"@,
{
    let mut out: Vec<char> = Vec::new();
    push_str(&mut out, "<div class=\"txp-mermaid\" style=\"text-align:center;margin:1em 0;width:");
    push_str(&mut out, width);
    push_str(&mut out, "px;height:");
    push_str(&mut out, height);
    push_str(&mut out, "px\"><svg xmlns=\"http://www.w3.org/2000/svg\" width=\"");
    push_str(&mut out, width);
    push_str(&mut out, "\" height=\"");
    push_str(&mut out, height);
    push_str(&mut out, "\" viewBox=\"0 0 ");
    push_str(&mut out, view_width);
    push_str(&mut out, " ");
    push_str(&mut out, view_height);
    push_str(&mut out, "\" style=\"display:block;margin:0 auto\">");
    push_str(&mut out, svg);
    push_str(&mut out, "</svg></div>");
    string_of(&out)
}

/// The stand-alone SVG document of a diagram, for rasterising.
pub fn svg_document(fragment: &str, width: &str, height: &str) -> (r: String)
    ensures
        r@ == "<svg xmlns=\"http://www.w3.org/2000/svg\" width=\""@ + width@ + "\" height=\""@ + height@
            + "\" viewBox=\"0 0 "@ + width@ + " "@ + height@ + "\">"@ + fragment@ + "</svg>"@,
{
    let mut out: Vec<char> = Vec::new();
    push_str(&mut out, "<svg xmlns=\"http://www.w3.org/2000/svg\" width=\"");
    push_str(&mut out, width);
    push_str(&mut out, "\" height=\"");
    push_str(&mut out, height);
    push_str(&mut out, "\" viewBox=\"0 0 ");
    push_str(&mut out, width);
    push_str(&mut out, " ");
    push_str(&mut out, height);
    push_str(&mut out, "\">");
    push_str(&mut out, fragment);
    push_str(&mut out, "</svg>");
    string_of(&out)
}

} // verus!
