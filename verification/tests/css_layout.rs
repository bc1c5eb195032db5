use typepress::css_layout::svg::{protect_svg_elements, restore_svg_elements};
use typepress::css_layout::containers::find_matching_close_div;
use typepress::css_layout::gradients::degrade_gradients;
use typepress::css_layout::rules::{parse_flex_rules, parse_grid_rules};
use typepress::css_layout::process_css_layout;
use typepress::css_layout::gradients::gradients_supported;
use typepress::css_layout::supported::css_layout_supported;

#[test]
fn test_degrade_gradients_simple() {
    let input = r#"background: linear-gradient(135deg, #0066cc, #7c3aed);"#;
    let output = degrade_gradients(input);
    assert!(output.contains("#0066cc"));
    assert!(!output.contains("linear-gradient"));
}

#[test]
fn test_degrade_gradients_webkit_clip() {
    let input = r#"background: linear-gradient(135deg, var(--blue), var(--purple));
-webkit-background-clip: text;"#;
    let output = degrade_gradients(input);
    assert!(!output.contains("linear-gradient"));
}

#[test]
fn test_protect_svg() {
    let input = r#"<div class="grid"><svg xmlns="http://www.w3.org/2000/svg"><rect x="0" y="0" width="10" height="10"/></svg></div>"#;
    let (protected, map) = protect_svg_elements(input);
    assert!(protected.contains("TXPSVG"));
    assert!(!protected.contains("<svg"));
    let restored = restore_svg_elements(&protected, &map);
    assert_eq!(restored, input);
}

#[test]
fn test_parse_grid_rules() {
    let html = r#"<style>
.main-grid {
    display: grid;
    grid-template-columns: 280px 1fr;
    gap: 24px;
}
</style>"#;
    let rules = parse_grid_rules(html);
    assert_eq!(rules.len(), 1);
    assert_eq!(rules[0].selector.trim(), ".main-grid");
    assert_eq!(rules[0].columns, vec!["280px", "1fr"]);
    assert_eq!(rules[0].gap.as_deref(), Some("24px"));
}

#[test]
fn test_parse_flex_rules() {
    let html = r#"<style>
.arch-nodes {
    display: flex;
    flex-wrap: wrap;
    gap: 8px;
    align-items: center;
}
</style>"#;
    let rules = parse_flex_rules(html);
    assert_eq!(rules.len(), 1);
    assert!(rules[0].wrap);
    assert_eq!(rules[0].gap.as_deref(), Some("8px"));
}

#[test]
fn test_find_matching_close_div() {
    let html = r#"<div class="outer"><div class="inner">hello</div></div>"#;
    let pos = find_matching_close_div(html, 0);
    assert!(pos.is_some());
    assert_eq!(&html[pos.unwrap()..pos.unwrap() + 6], "</div>");
}

#[test]
fn layout_conversion_preserves_svg() {
    let html = r#"<div class="main-grid">
            <svg xmlns="http://www.w3.org/2000/svg" viewBox="0 0 100 100">
                <rect x="0" y="0" width="100" height="100" fill="red"/>
            </svg>
        </div>"#;
    let output = process_css_layout(html);
    assert!(output.contains("<svg"), "SVG lost");
    assert!(output.contains("<rect"), "SVG child lost");
}

#[test]
fn matching_close_div_is_the_outer_one() {
    let html = r#"<div class="outer"><div class="inner">hello</div></div>"#;
    assert_eq!(find_matching_close_div(html, 0), Some(html.len() - 6));
    assert_eq!(find_matching_close_div("<div>open", 0), None);
}

#[test]
fn protect_restore_round_trip_with_two_svgs() {
    let input = "<p>a</p><svg><g/></svg> text <svg width=\"1\"></svg>";
    let (protected, map) = protect_svg_elements(input);
    assert_eq!(map.len(), 2);
    assert!(!protected.contains("<svg"));
    assert_eq!(restore_svg_elements(&protected, &map), input);
}

#[test]
fn grid_container_becomes_table() {
    let html = r#"<html><head><style>
.g { display: grid; grid-template-columns: 1fr 1fr; gap: 4px; }
</style></head><body><div class="g"><div>A</div><div>B</div></div></body></html>"#;
    let out = process_css_layout(html);
    assert!(out.contains("<table"));
    assert!(out.contains(">A<"));
    assert!(out.contains(">B<"));
}

#[test]
fn every_gradient_is_degraded_in_document_order() {
    let input = "a{background: radial-gradient(#f00, #00f)} b{background: linear-gradient(#0f0, #fff)} c{background: CONIC-gradient(#123, #456)}";
    assert!(gradients_supported(input));
    let out = degrade_gradients(input);
    assert!(!out.to_lowercase().contains("-gradient("));
    assert!(out.contains("background: #f00 /* gradient\u{2192}solid */"));
    assert!(out.contains("background: #0f0 /* gradient\u{2192}solid */"));
    assert!(out.contains("background: #123 /* gradient\u{2192}solid */"));
}

#[test]
fn unsupported_inputs_are_told_apart() {
    assert!(!gradients_supported("a{b:conic-gradient("));
    assert!(gradients_supported("a{b:linear-gradient("));
    assert!(css_layout_supported("<div><svg a><rect/></svg></div>"));
    assert!(!css_layout_supported("x{b:conic-gradient("));
    let grid = "<style>\n.g {\n    display: grid;\n    grid-template-columns: 1fr 1fr;\n}\n</style><div class=\"g\" data-x=\"</div>\">a</div>";
    assert!(!css_layout_supported(grid));
    let ok_grid = "<style>\n.g {\n    display: grid;\n    grid-template-columns: 1fr 1fr;\n}\n</style><div class=\"g\"><div>a</div><div>b</div></div>";
    assert!(css_layout_supported(ok_grid));
}

#[test]
fn a_plain_document_comes_back_unchanged() {
    let doc = "<html><body><p>Hello</p><svg width=\"10\"><rect/></svg><p>end</p></body></html>";
    assert!(css_layout_supported(doc));
    assert_eq!(process_css_layout(doc), doc);
}

#[test]
fn an_unclosed_grid_container_is_left_as_it_is() {
    let html = "<style>\n.g {\n    display: grid;\n    grid-template-columns: 1fr 1fr;\n}\n</style><div class=\"g\"><p>open";
    assert!(css_layout_supported(html));
    let out = process_css_layout(html);
    assert_eq!(out.matches("<div class=\"g\">").count(), 1);
    assert!(out.ends_with("<div class=\"g\"><p>open"));
}

#[test]
fn a_bare_marker_in_the_text_survives_the_svg_round_trip() {
    let html = "<p>TXPSVG0</p><svg a><rect/></svg>\n<p>end</p>";
    let (protected, blocks) = protect_svg_elements(html);
    assert!(!protected.contains("<svg"));
    assert_eq!(restore_svg_elements(&protected, &blocks), html);
}
