use typepress::fonts::{
    extract_font_faces_from_html, font_cache_name, font_source_of, is_font_extension, parse_font_faces,
    FontSource,
};

#[test]
fn parse_single_font_face() {
    let css = r#"@font-face { font-family: "MyFont"; src: url("myfont.woff2"); }"#;
    let faces = parse_font_faces(css);
    assert_eq!(faces.len(), 1);
    assert_eq!(faces[0].family, "MyFont");
    assert_eq!(faces[0].src_url, "myfont.woff2");
}

#[test]
fn parse_font_face_https_url() {
    let css = r#"@font-face { font-family: "WebFont"; src: url("https://example.com/font.woff2"); }"#;
    let faces = parse_font_faces(css);
    assert_eq!(faces.len(), 1);
    assert_eq!(faces[0].family, "WebFont");
    assert!(faces[0].src_url.starts_with("https://"));
}

#[test]
fn parse_multiple_font_faces() {
    let css = r#"
            @font-face { font-family: "A"; src: url("a.woff2"); }
            @font-face { font-family: "B"; src: url("b.woff2"); }
        "#;
    let faces = parse_font_faces(css);
    assert_eq!(faces.len(), 2);
    assert_eq!(faces[0].family, "A");
    assert_eq!(faces[1].family, "B");
}

#[test]
fn parse_empty_css_returns_none() {
    let faces = parse_font_faces("");
    assert!(faces.is_empty());
}

#[test]
fn parse_no_font_face_returns_empty() {
    let faces = parse_font_faces("body { color: red; }");
    assert!(faces.is_empty());
}

#[test]
fn parse_missing_src_skipped() {
    let css = r#"@font-face { font-family: "Bad"; }"#;
    let faces = parse_font_faces(css);
    assert!(faces.is_empty());
}

#[test]
fn parse_missing_family_skipped() {
    let css = r#"@font-face { src: url("font.woff2"); }"#;
    let faces = parse_font_faces(css);
    assert!(faces.is_empty());
}

#[test]
fn extract_from_html_style_block() {
    let html = r#"<html><head><style>@font-face { font-family: "F"; src: url("f.woff2"); }</style></head></html>"#;
    let faces = extract_font_faces_from_html(html);
    assert_eq!(faces.len(), 1);
    assert_eq!(faces[0].family, "F");
}

#[test]
fn extract_from_html_no_style_returns_empty() {
    let html = "<html><body>No fonts here</body></html>";
    let faces = extract_font_faces_from_html(html);
    assert!(faces.is_empty());
}

#[test]
fn test_parse_font_face_basic() {
    let css = r#"
        @font-face {
            font-family: "MyFont";
            src: url("fonts/MyFont.woff2");
        }
    "#;
    let faces = parse_font_faces(css);
    assert_eq!(faces.len(), 1);
    assert_eq!(faces[0].family, "MyFont");
    assert_eq!(faces[0].src_url, "fonts/MyFont.woff2");
}

#[test]
fn test_parse_font_face_multiple() {
    let css = r#"
        @font-face { font-family: "A"; src: url("a.ttf"); }
        @font-face { font-family: "B"; src: url("b.woff2"); }
    "#;
    let faces = parse_font_faces(css);
    assert_eq!(faces.len(), 2);
    assert_eq!(faces[0].family, "A");
    assert_eq!(faces[1].family, "B");
}

#[test]
fn test_parse_font_face_no_fonts() {
    let css = "body { color: red; }";
    let faces = parse_font_faces(css);
    assert!(faces.is_empty());
}

#[test]
fn test_extract_font_faces_from_html() {
    let html = r#"<html><head><style>
        @font-face { font-family: "WebFont"; src: url("web.woff2"); }
    </style></head><body></body></html>"#;
    let faces = extract_font_faces_from_html(html);
    assert_eq!(faces.len(), 1);
    assert_eq!(faces[0].family, "WebFont");
}

#[test]
fn unquoted_family_and_url_are_trimmed() {
    let css = "@font-face{font-family: Plain Sans ;src:url( plain.ttf )}";
    let faces = parse_font_faces(css);
    assert_eq!(faces.len(), 1);
    assert_eq!(faces[0].family, "Plain Sans");
    assert_eq!(faces[0].src_url, "plain.ttf");
}

#[test]
fn empty_rule_body_is_no_face() {
    assert!(parse_font_faces("@font-face {} @font-face { font-family: 'X'; src: url('x.otf') }").len() == 1);
}

#[test]
fn font_sources_are_classified() {
    assert_eq!(font_source_of("https://cdn/x.woff2"), FontSource::Remote);
    assert_eq!(font_source_of("http://cdn/x.woff2"), FontSource::Remote);
    assert_eq!(font_source_of("/usr/share/fonts/x.ttf"), FontSource::Absolute);
    assert_eq!(font_source_of("C:\\fonts\\x.ttf"), FontSource::Absolute);
    assert_eq!(font_source_of("fonts/x.ttf"), FontSource::Relative);
    assert_eq!(font_source_of("C:"), FontSource::Relative);
}

#[test]
fn font_cache_names() {
    assert_eq!(font_cache_name(Some("Inter.woff2")), "Inter.woff2");
    assert_eq!(font_cache_name(Some("inter")), "inter.ttf");
    assert_eq!(font_cache_name(None), "font.ttf");
}

#[test]
fn font_extensions_ignore_case() {
    assert!(is_font_extension("TTF"));
    assert!(is_font_extension("woff2"));
    assert!(is_font_extension("Ttc"));
    assert!(!is_font_extension("woff"));
    assert!(!is_font_extension("txt"));
}
