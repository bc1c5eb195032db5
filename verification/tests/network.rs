use typepress::network::{host_matches_glob, image_dimensions, AssetLimits, DownloadError};

#[test]
fn test_host_matches_glob() {
    assert!(host_matches_glob("cdn.example.com", "*.example.com"));
    // `*.example.com` needs a subdomain — bare apex does NOT match
    assert!(!host_matches_glob("example.com", "*.example.com"));
    assert!(host_matches_glob("a.b.example.com", "*.example.com"));
    assert!(!host_matches_glob("evil.com", "*.example.com"));
    assert!(host_matches_glob("anything", "*"));
    assert!(host_matches_glob("static.example.com", "static.example.com"));
    assert!(!host_matches_glob("static2.example.com", "static.example.com"));
    // single `*` matches any host
    assert!(host_matches_glob("example.com", "*"));
}

#[test]
fn test_check_url_scheme_and_allowlist() {
    let https = AssetLimits::default();
    assert!(https.check_url("https://example.com/img.png").is_ok());
    // http blocked by default
    assert!(https.check_url("http://example.com/img.png").is_err());
    // allow_http lifts it
    let http_ok = AssetLimits {
        allow_http: true,
        ..AssetLimits::default()
    };
    assert!(http_ok.check_url("http://example.com/img.png").is_ok());
    // ftp always blocked
    assert!(https.check_url("ftp://example.com/img.png").is_err());

    // allowlist gates hosts
    let list = AssetLimits {
        allowlist: vec!["*.example.com".to_string()],
        ..AssetLimits::default()
    };
    assert!(list.check_url("https://cdn.example.com/a.css").is_ok());
    assert!(list.check_url("https://evil.net/a.css").is_err());
}

#[test]
fn test_check_size_cap() {
    let cap = AssetLimits {
        max_bytes: 100,
        ..AssetLimits::default()
    };
    assert!(cap.check_size("https://x/a", 99).is_ok());
    assert!(cap.check_size("https://x/a", 100).is_ok());
    assert!(cap.check_size("https://x/a", 101).is_err());
    // 0 = unlimited
    let unlimited = AssetLimits {
        max_bytes: 0,
        ..AssetLimits::default()
    };
    assert!(unlimited.check_size("https://x/a", 10_000_000).is_ok());
}

#[test]
fn test_image_dimensions_png() {
    // 1x1 PNG
    let png = [
        0x89, 0x50, 0x4E, 0x47, 0x0D, 0x0A, 0x1A, 0x0A, 0x00, 0x00, 0x00, 0x0D, 0x49, 0x48,
        0x44, 0x52, 0x00, 0x00, 0x00, 0x01, 0x00, 0x00, 0x00, 0x01, 0x08, 0x06, 0x00, 0x00,
        0x00,
    ];
    assert_eq!(image_dimensions(&png), Some((1, 1)));
}

#[test]
fn test_image_dimensions_gif() {
    // 2x3 GIF89a header
    let gif = b"GIF89a\x02\x00\x03\x00\x80\x00\x00";
    assert_eq!(image_dimensions(gif), Some((2, 3)));
}

#[test]
fn test_image_dimensions_jpeg() {
    // JPEG with SOF0: FFD8 ... FF C0 len=11 precision h w ...
    let jpeg = [
        0xFF, 0xD8, 0xFF, 0xE0, 0x00, 0x10, 0x4A, 0x46, 0x49, 0x46, 0x00, 0x01, 0x01, 0x00,
        0x00, 0x01, 0x00, 0x01, 0x00, 0x00, 0xFF, 0xC0, 0x00, 0x11, 0x08, 0x00, 0x64, 0x00,
        0xC8, 0x03, 0x01, 0x22, 0x00, 0x02, 0x11, 0x01, 0x03, 0x11, 0x01, 0xFF, 0xD9,
    ];
    // h=0x0064=100, w=0x00C8=200
    assert_eq!(image_dimensions(&jpeg), Some((200, 100)));
}

#[test]
fn test_image_dimensions_unknown() {
    assert_eq!(image_dimensions(b"not an image"), None);
    assert_eq!(image_dimensions(&[]), None);
}

#[test]
fn size_refusal_carries_cap_and_length() {
    let cap = AssetLimits { max_bytes: 10, ..AssetLimits::default() };
    match cap.check_size("https://x/b", 11) {
        Err(e) => {
            assert!(matches!(e, DownloadError::TooLarge { cap: 10, got: 11, .. }));
            assert_eq!(e.message(), "asset exceeds 10 bytes (11 bytes): https://x/b");
        }
        Ok(()) => panic!("expected a refusal"),
    }
}

#[test]
fn refusal_messages_name_scheme_and_host() {
    let https = AssetLimits::default();
    match https.check_url("ftp://example.com/img.png") {
        Err(e) => assert_eq!(e.message(), "unsupported scheme \"ftp\": ftp://example.com/img.png"),
        Ok(()) => panic!("ftp must be refused"),
    }
    match https.check_url("http://example.com/a") {
        Err(e) => assert_eq!(e.message(), "plain-http blocked (use --allow-http): http://example.com/a"),
        Ok(()) => panic!("http must be refused"),
    }
    let list = AssetLimits { allowlist: vec!["*.example.com".to_string()], ..AssetLimits::default() };
    match list.check_url("https://evil.net/a.css") {
        Err(e) => assert_eq!(e.message(), "host \"evil.net\" not in asset allowlist: https://evil.net/a.css"),
        Ok(()) => panic!("host must be refused"),
    }
    assert!(matches!(https.check_url("not a url"), Err(DownloadError::Other(_))));
}

#[test]
fn jpeg_without_frame_has_no_size() {
    assert_eq!(image_dimensions(&[0xFF, 0xD8, 0xFF, 0xD9]), None);
}

#[test]
fn question_mark_is_literal_in_host_globs() {
    assert!(!host_matches_glob("a", "?"));
    assert!(!host_matches_glob("cdn.example.com", "cd?.example.com"));
    assert!(host_matches_glob("?", "?"));
    assert!(host_matches_glob("a.example.com", "*.example.com"));
}

#[test]
fn a_star_in_the_host_is_matched_like_any_character() {
    assert!(host_matches_glob("*ab", "*b"));
    assert!(host_matches_glob("a*b", "a*"));
    assert!(!host_matches_glob("*a", "*b"));
}

#[test]
fn the_policy_decides_on_scheme_and_host() {
    let limits = AssetLimits { max_bytes: 0, allow_http: false, allowlist: vec!["*.example.com".to_string()] };
    assert!(limits.url_policy("https://a.example.com/x", "https", Some("a.example.com")).is_ok());
    match limits.url_policy("http://a.example.com/x", "http", Some("a.example.com")) {
        Err(DownloadError::Blocked(m)) => assert_eq!(m, "plain-http blocked (use --allow-http): http://a.example.com/x"),
        _ => panic!("plain http must be blocked"),
    }
    match limits.url_policy("ftp://a.example.com/x", "ftp", Some("a.example.com")) {
        Err(DownloadError::Blocked(m)) => assert_eq!(m, "unsupported scheme \"ftp\": ftp://a.example.com/x"),
        _ => panic!("ftp must be blocked"),
    }
    match limits.url_policy("https://evil.com/x", "https", Some("evil.com")) {
        Err(DownloadError::Blocked(m)) => assert_eq!(m, "host \"evil.com\" not in asset allowlist: https://evil.com/x"),
        _ => panic!("host must be refused"),
    }
}
