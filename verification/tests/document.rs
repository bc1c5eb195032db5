use typepress::document::{inject_css, inject_hf, markdown_to_html, math_font_face_css, wrap_markdown_body, DEFAULT_PRINT_CSS};

#[test]
fn markdown_becomes_a_printable_document() {
    let html = markdown_to_html("# Title\n\nA line  \nbreak.");
    assert!(html.starts_with("<!DOCTYPE html>\n<html><head><meta charset=\"utf-8\"><style>"));
    assert!(html.contains("<h1>Title</h1>"));
    assert!(html.contains("<br>"));
    assert!(!html.contains(" />"));
    assert!(html.ends_with("\n</body></html>"));
    assert!(html.contains(DEFAULT_PRINT_CSS));
}

#[test]
fn markdown_tables_are_enabled() {
    let html = markdown_to_html("| a | b |\n|---|---|\n| 1 | 2 |\n");
    assert!(html.contains("<table>"));
}

#[test]
fn wrapping_drops_xhtml_slashes() {
    let doc = wrap_markdown_body("<p>x<br /></p>");
    assert_eq!(
        doc,
        format!(
            "<!DOCTYPE html>\n<html><head><meta charset=\"utf-8\"><style>{}</style></head><body>\n<p>x<br></p>\n</body></html>",
            DEFAULT_PRINT_CSS
        )
    );
}

#[test]
fn header_and_footer_are_injected() {
    let mut html = String::from("<html><head></head><body class=\"x\"><p>b</p></body></html>");
    let css = inject_hf(&mut html, Some("A & B"), Some("<p>1</p>"));
    assert_eq!(
        css.as_deref(),
        Some("@page { @top-center { content: element(typepress-hdr); font-size: 9pt; color: #555; }\n@bottom-center { content: element(typepress-ftr); font-size: 9pt; color: #555; }\n }")
    );
    assert_eq!(
        html,
        "<html><head><style>@page { @top-center { content: element(typepress-hdr); font-size: 9pt; color: #555; }\n }</style></head><body class=\"x\">\n<div style=\"position:running(typepress-hdr)\">A &amp; B</div>\n<p>b</p><div style=\"position:running(typepress-ftr)\">&lt;p&gt;1&lt;/p&gt;</div>\n</body></html>"
    );
}

#[test]
fn a_footer_alone_is_placed_at_the_bottom() {
    let mut html = String::from("<body>x</body>");
    assert_eq!(
        inject_hf(&mut html, None, Some("f")).as_deref(),
        Some("@page { @bottom-center { content: element(typepress-ftr); font-size: 9pt; color: #555; }\n }")
    );
    assert_eq!(html, "<body>x<div style=\"position:running(typepress-ftr)\">f</div>\n</body>");
    let mut same = String::from("<body>x</body>");
    assert_eq!(inject_hf(&mut same, None, None), None);
    assert_eq!(same, "<body>x</body>");
}

#[test]
fn css_goes_into_the_head_or_before_the_body() {
    let mut a = String::from("<head></head><body></body>");
    inject_css(&mut a, "p{}");
    assert_eq!(a, "<head><style>p{}</style></head><body></body>");
    let mut b = String::from("<body></body>");
    inject_css(&mut b, "p{}");
    assert_eq!(b, "<style>p{}</style>\n<body></body>");
    let mut c = String::from("text");
    inject_css(&mut c, "p{}");
    assert_eq!(c, "text");
}

#[test]
fn math_font_face() {
    assert_eq!(
        math_font_face_css("/f/DejaVuSerif.ttf"),
        "@font-face { font-family: 'TypePressMath'; src: url('/f/DejaVuSerif.ttf'); }"
    );
}
