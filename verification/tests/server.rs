use typepress::diagnostics::Warning;
use typepress::server::{
    body_limit_reply, default_asset_size, health_body, invalid_json_reply, not_found_body,
    render_error_reply, route, select_content, strict_reply, Route,
};

#[test]
fn routes() {
    assert_eq!(route("GET", "/healthz"), Route::Health);
    assert_eq!(route("POST", "/render"), Route::Render);
    assert_eq!(route("POST", "/healthz"), Route::NotFound);
    assert_eq!(route("GET", "/render"), Route::NotFound);
}

#[test]
fn bodies() {
    assert_eq!(health_body("0.5.0"), "{\"status\":\"ok\",\"version\":\"0.5.0\"}");
    assert_eq!(not_found_body("PUT", "/x"), "not found: PUT /x");
    assert_eq!(default_asset_size(), 10 * 1024 * 1024);
}

#[test]
fn body_cap() {
    assert!(body_limit_reply(10, 10).is_none());
    let r = body_limit_reply(11, 10).unwrap();
    assert_eq!(r.status, 413);
    assert_eq!(r.body, "{\"error\":\"request body exceeds 10 bytes\"}");
}

#[test]
fn invalid_json() {
    let r = invalid_json_reply("expected \"x\" at line 1");
    assert_eq!(r.status, 400);
    assert_eq!(r.body, "{\"error\":\"invalid JSON: expected \\\"x\\\" at line 1\"}");
}

#[test]
fn exactly_one_document() {
    let ok = select_content(Some("<p>".to_string()), None).ok().unwrap();
    assert_eq!(ok, ("<p>".to_string(), "html".to_string()));
    let md = select_content(None, Some("# a".to_string())).ok().unwrap();
    assert_eq!(md.1, "md");
    let both = select_content(Some("a".to_string()), Some("b".to_string())).err().unwrap();
    assert_eq!(both.status, 400);
    assert_eq!(both.body, "{\"error\":\"provide exactly one of 'html' or 'markdown'\"}");
    let none = select_content(None, None).err().unwrap();
    assert_eq!(none.body, "{\"error\":\"provide 'html' or 'markdown' in the JSON body\"}");
}

#[test]
fn strict_mode_refuses_warnings() {
    let ws = vec![Warning::new("TP-1001", "a \"b\""), Warning::new("TP-1002", "c\n")];
    assert!(strict_reply(false, &ws).is_none());
    assert!(strict_reply(true, &[]).is_none());
    let r = strict_reply(true, &ws).unwrap();
    assert_eq!(r.status, 422);
    assert_eq!(
        r.body,
        "{\"error\":\"strict mode: warnings\",\"warnings\":[\"[TP-1001] a \\\"b\\\"\",\"[TP-1002] c\\n\"]}"
    );
}

#[test]
fn render_errors_are_json() {
    let r = render_error_reply("bad \\ thing\u{1}");
    assert_eq!(r.status, 500);
    assert_eq!(r.body, "{\"error\":\"bad \\\\ thing\\u0001\"}");
}
