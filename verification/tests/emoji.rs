use typepress::emoji::{colr_font_face_css, has_emoji};

#[test]
fn test_has_emoji_detection() {
    assert!(has_emoji("Hello 🧬 World"));
    assert!(has_emoji("🚀 launch"));
    assert!(!has_emoji("Hello World"));
    assert!(!has_emoji("<p>text</p>"));
    assert!(has_emoji("🔍🔧🔮"));
}

#[test]
fn emoji_block_edges() {
    assert!(has_emoji("\u{2600}"));
    assert!(has_emoji("\u{23FF}"));
    assert!(!has_emoji("\u{22FF}"));
    assert!(!has_emoji("\u{1FB00}"));
}

#[test]
fn colr_css_names_the_emoji_family() {
    assert_eq!(
        colr_font_face_css(),
        "* { font-family: 'Noto Sans SC', 'Noto Color Emoji', sans-serif !important; }"
    );
}
