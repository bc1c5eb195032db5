use typepress::mermaid::{
    mermaid_blocks, mermaid_failure_markup, mermaid_font_candidates, mermaid_image_name, mermaid_image_tag,
    mermaid_svg_markup, mermaid_theme, prefers_cjk_font, svg_document,
};

#[test]
fn blocks_are_found_with_their_source() {
    let doc = "intro\n```mermaid\ngraph TD\n  A --> B\n```\nmid\n```mermaid\r\nx\n```";
    let blocks = mermaid_blocks(doc);
    assert_eq!(blocks.len(), 2);
    assert_eq!(blocks[0].inner, "graph TD\n  A --> B\n");
    assert_eq!(&doc[blocks[0].start..blocks[0].end], "```mermaid\ngraph TD\n  A --> B\n```");
    assert_eq!(blocks[1].inner, "x\n");
    assert!(mermaid_blocks("```mermaid graph```").is_empty());
}

#[test]
fn themes_cycle() {
    let t0 = mermaid_theme(0);
    assert_eq!((t0.node_fill, t0.node_stroke, t0.node_text), ("#eff6ff", "#3b82f6", "#1e293b"));
    let t9 = mermaid_theme(9);
    assert_eq!(t9.node_fill, "#ecfdf5");
    assert_eq!((t9.edge_stroke, t9.edge_text), ("#64748b", "#475569"));
}

#[test]
fn font_preference() {
    assert!(!prefers_cjk_font("graph TD"));
    assert!(prefers_cjk_font("graph TD; A[中文]"));
    assert_eq!(mermaid_font_candidates(true)[0].0, "WenQuanYi Zen Hei");
    assert_eq!(mermaid_font_candidates(false)[0].0, "DejaVu Sans");
    assert_eq!(mermaid_font_candidates(false).len(), 7);
    assert_eq!(
        mermaid_font_candidates(true)[6],
        ("WenQuanYi Zen Hei", "/usr/share/fonts/truetype/wqy/wqy-zenhei.ttc")
    );
    assert_eq!(mermaid_font_candidates(false)[3].1, "/usr/share/fonts/truetype/wqy/wqy-zenhei.ttc");
}

#[test]
fn markup() {
    assert_eq!(
        mermaid_failure_markup("  a<b  "),
        "<div class=\"mermaid-placeholder\" style=\"border:2px dashed #ccc;padding:2em;text-align:center;margin:1em 0;color:#888;font-style:italic\">Mermaid render failed: a&lt;b</div>"
    );
    assert_eq!(mermaid_image_name(3), "txp-mermaid-3.png");
    assert_eq!(
        mermaid_image_tag("n.png", "120", "100"),
        "<img src=\"n.png\" width=\"120\" height=\"100\" style=\"display:block;margin:1em auto;width:120px;height:100px\" alt=\"mermaid diagram\" />"
    );
    assert!(mermaid_svg_markup("<g/>", "100", "100", "80", "90").contains("viewBox=\"0 0 80 90\""));
    assert_eq!(
        svg_document("<g/>", "10", "20"),
        "<svg xmlns=\"http://www.w3.org/2000/svg\" width=\"10\" height=\"20\" viewBox=\"0 0 10 20\"><g/></svg>"
    );
}
