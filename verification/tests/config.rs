use typepress::config::{
    autofit_candidates, default_true, engine_settings, input_is_markdown, ExplicitOptions, MarginSource,
    MathConfig, MetadataConfig, PageConfig, PdfConfig,
};

fn explicit() -> ExplicitOptions {
    ExplicitOptions {
        size: None,
        landscape: false,
        margin: false,
        title: None,
        authors: Vec::new(),
        language: None,
        bookmarks: false,
        no_outline: false,
        tagged: false,
        pdf_ua: false,
    }
}

fn page() -> Option<PageConfig> {
    Some(PageConfig { size: Some("A3".to_string()), landscape: Some(false), margin: Some("10mm".to_string()) })
}

fn meta() -> Option<MetadataConfig> {
    Some(MetadataConfig { title: Some("Y".to_string()), author: vec!["Ann".to_string()], language: Some("de".to_string()) })
}

#[test]
fn defaults() {
    assert!(default_true());
    let m = MathConfig::default();
    assert!(m.enabled);
    assert!(m.font_dir.is_none());
    let p = PdfConfig::default();
    assert!(p.bookmarks.is_none() && p.tagged.is_none() && p.pdf_ua.is_none());
}

#[test]
fn configuration_fills_what_is_not_given() {
    let s = engine_settings(&explicit(), &page(), &meta());
    assert_eq!(s.page_size.as_deref(), Some("A3"));
    assert_eq!(s.landscape, Some(false));
    assert!(matches!(s.margin, MarginSource::Config(ref m) if m == "10mm"));
    assert_eq!(s.title.as_deref(), Some("Y"));
    assert_eq!(s.authors, Some(vec!["Ann".to_string()]));
    assert_eq!(s.language.as_deref(), Some("de"));
}

#[test]
fn explicit_options_win() {
    let o = ExplicitOptions {
        size: Some("A4".to_string()),
        landscape: true,
        margin: true,
        title: Some("X".to_string()),
        authors: vec!["Bo".to_string()],
        language: Some("en".to_string()),
        bookmarks: true,
        no_outline: false,
        tagged: true,
        pdf_ua: false,
    };
    let s = engine_settings(&o, &page(), &meta());
    assert_eq!(s.page_size.as_deref(), Some("A4"));
    assert_eq!(s.landscape, Some(true));
    assert!(matches!(s.margin, MarginSource::Explicit));
    assert_eq!(s.title.as_deref(), Some("X"));
    assert_eq!(s.authors, Some(vec!["Bo".to_string()]));
    assert_eq!(s.language.as_deref(), Some("en"));
    assert!(s.bookmarks && s.tagged && !s.pdf_ua);
}

#[test]
fn no_outline_turns_bookmarks_off() {
    let mut o = explicit();
    o.bookmarks = true;
    o.no_outline = true;
    let s = engine_settings(&o, &None, &None);
    assert!(!s.bookmarks);
    assert!(matches!(s.margin, MarginSource::Default));
    assert!(s.authors.is_none());
}

#[test]
fn autofit_tries_larger_pages() {
    let a4: Vec<(String, bool)> = autofit_candidates("A4");
    assert_eq!(
        a4,
        vec![("A4".to_string(), false), ("A4".to_string(), true), ("A3".to_string(), false), ("A3".to_string(), true)]
    );
    assert_eq!(autofit_candidates("A3"), vec![("A3".to_string(), false), ("A3".to_string(), true), ("A2".to_string(), true)]);
    assert_eq!(autofit_candidates("Letter").len(), 2);
}

#[test]
fn markdown_input_detection() {
    assert!(input_is_markdown("md", None, None));
    assert!(input_is_markdown("html", Some("md"), None));
    assert!(input_is_markdown("html", None, Some("md")));
    assert!(!input_is_markdown("html", Some("html"), None));
}
