use typepress::assets::{
    place_downloaded_image,
    cache_file_name, check_content_length, css_fetch_warning, embed_local_css, embed_remote_css,
    empty_image_warning, image_fetch_warning, local_stylesheet_links, remote_image_name, remote_image_refs,
    remote_stylesheet_links, replace_first_str, rewrite_image_tag,
};
use typepress::network::AssetLimits;

#[test]
fn remote_stylesheets_are_selected() {
    let html = "<link rel=\"stylesheet\" href=\"https://a.example/x.css\">\
<LINK REL=STYLESHEET HREF='https://b.example/y.css'>\
<link rel=\"alternate stylesheet\" href=\"https://c.example/z.css\">\
<link rel=\"stylesheet\" media=\"print\" href=\"https://d.example/p.css\">\
<link rel=\"icon\" href=\"https://e.example/i.png\">\
<link rel=\"stylesheet\" href=\"local.css\">";
    let links = remote_stylesheet_links(html);
    let urls: Vec<&str> = links.iter().map(|l| l.target.as_str()).collect();
    assert_eq!(urls, vec!["https://a.example/x.css", "https://b.example/y.css"]);
    let local = local_stylesheet_links(html);
    assert_eq!(local.len(), 1);
    assert_eq!(local[0].target, "local.css");
}

#[test]
fn no_links_no_work() {
    assert!(remote_stylesheet_links("<html><head></head><body></body></html>").is_empty());
    assert!(remote_image_refs("<img src=\"data:image/png;base64,xxx\">").is_empty());
}

#[test]
fn fetched_css_is_embedded() {
    let html = "<html><head><link href=\"https://a/x.css\"></head><body></body></html>";
    let out = embed_remote_css(html, "<link href=\"https://a/x.css\">", "https://a/x.css", "p{}");
    assert_eq!(
        out,
        "<html><head><!-- downloaded: https://a/x.css -->\n<style>\n/* Source: https://a/x.css */\np{}\n</style>\n</head><body></body></html>"
    );
    let local = embed_local_css("<p>x</p><link href=\"a.css\">", "<link href=\"a.css\">", "a.css", "q{}");
    assert_eq!(local, "<p>x</p><!-- embedded: a.css -->\n<style>\n/* embedded from: a.css */\nq{}\n</style>\n");
}

#[test]
fn images_are_renamed_and_sized() {
    let gif = b"GIF89a\x02\x00\x03\x00\x80\x00\x00";
    let tag = "<img src=\"https://x/a.gif\">";
    assert_eq!(
        rewrite_image_tag(tag, "https://x/a.gif", "txp-remote-0.png", gif),
        "<img src=\"txp-remote-0.png\" style=\"width:2px;height:3px\">"
    );
    let sized = "<img width=\"5\" src=\"https://x/a.gif\">";
    assert_eq!(
        rewrite_image_tag(sized, "https://x/a.gif", "n.png", gif),
        "<img width=\"5\" src=\"n.png\">"
    );
    assert_eq!(remote_image_name(4), "txp-remote-4.png");
    let refs = remote_image_refs("<p><img alt='a' src='https://x/b.png'></p>");
    assert_eq!(refs.len(), 1);
    assert_eq!(refs[0].tag, "<img alt='a' src='https://x/b.png'>");
}

#[test]
fn first_occurrence_only() {
    assert_eq!(replace_first_str("a-b-a", "a", "c"), "c-b-a");
    assert_eq!(replace_first_str("abc", "z", "c"), "abc");
}

#[test]
fn cache_names() {
    assert_eq!(cache_file_name(Some("my file (1).css")), "my_file__1_.css");
    assert_eq!(cache_file_name(Some("noext")), "noext.download");
    assert_eq!(cache_file_name(Some("")), "resource.download");
    assert_eq!(cache_file_name(None), "resource.download");
}

#[test]
fn announced_length_is_checked() {
    let cap = AssetLimits { max_bytes: 10, ..AssetLimits::default() };
    assert!(check_content_length(&cap, "u", Some(11)).is_err());
    assert!(check_content_length(&cap, "u", Some(10)).is_ok());
    assert!(check_content_length(&cap, "u", None).is_ok());
    let unlimited = AssetLimits { max_bytes: 0, ..AssetLimits::default() };
    assert!(check_content_length(&unlimited, "u", Some(u64::MAX)).is_ok());
}

#[test]
fn warning_codes() {
    let w = css_fetch_warning("https://a", false, "timeout");
    assert_eq!((w.code, w.message.as_str()), ("TP-1004", "failed to download CSS https://a: timeout"));
    assert_eq!(css_fetch_warning("https://a", true, "too big").code, "TP-1003");
    assert_eq!(image_fetch_warning("https://i", false, "e").code, "TP-1001");
    assert_eq!(empty_image_warning("https://i").message, "zero-byte image: https://i");
}

#[test]
fn test_inject_remote_css_noop() {
    let html = "<html><head></head><body></body></html>";
    assert!(remote_stylesheet_links(html).is_empty());
}

#[test]
fn test_download_remote_images_noop() {
    let html = "<img src=\"data:image/png;base64,xxx\">";
    assert!(remote_image_refs(html).is_empty());
}

#[test]
fn downloaded_images_are_placed_or_warned_about() {
    let html = "<p><img src=\"https://a.example/x.png\" width=\"3\"></p>";
    let tag = "<img src=\"https://a.example/x.png\" width=\"3\">";
    match place_downloaded_image(html, tag, "https://a.example/x.png", 2, &[]) {
        Err(w) => {
            assert_eq!(w.code, "TP-1002");
            assert_eq!(w.message, "zero-byte image: https://a.example/x.png");
        }
        Ok(_) => panic!("an empty image must not be placed"),
    }
    let (page, name) = place_downloaded_image(html, tag, "https://a.example/x.png", 2, &[1, 2, 3]).unwrap();
    assert_eq!(name, "txp-remote-2.png");
    assert_eq!(page, "<p><img src=\"txp-remote-2.png\" width=\"3\"></p>");
}
