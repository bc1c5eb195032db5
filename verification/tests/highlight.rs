use typepress::highlight::{extract_pre_body, find_syntax, highlight_code_blocks, html_decode, html_escape, render_code_block};

#[test]
fn entities_are_decoded_in_order() {
    assert_eq!(html_decode("&lt;a&gt; &amp;lt; &quot;q&quot; &#39;s&#39;"), "<a> &lt; \"q\" 's'");
    assert_eq!(html_escape("a<b>&c"), "a&lt;b&gt;&amp;c");
}

#[test]
fn languages_map_to_syntaxes() {
    assert_eq!(find_syntax("rs"), Some("Rust"));
    assert_eq!(find_syntax("Python"), Some("Python"));
    assert_eq!(find_syntax("YML"), Some("YAML"));
    assert_eq!(find_syntax("\u{212A}t"), Some("Kotlin"));
    assert_eq!(find_syntax("cobol"), None);
}

#[test]
fn pre_body_is_cut_out() {
    assert_eq!(extract_pre_body("<pre style=\"x\">body</pre>\n").as_deref(), Some("body"));
    assert_eq!(extract_pre_body("no pre here").as_deref(), Some("no pre here"));
    assert_eq!(extract_pre_body("</pre><pre>x").as_deref(), None);
}

#[test]
fn unknown_language_is_escaped_plain_text() {
    assert_eq!(render_code_block(None, None, "a<b").as_deref(), Some("<pre><code>a&lt;b</code></pre>"));
    assert_eq!(
        render_code_block(Some("Rust"), Some("<pre style=\"s\">hl</pre>"), "x").as_deref(),
        Some("<pre style=\"background:#2b303b;color:#c0c5ce;padding:8pt;overflow-x:auto;font-size:8pt;line-height:1.4\"><code>hl</code></pre>")
    );
}

#[test]
fn code_blocks_are_replaced() {
    let mut html = String::from("<p>x</p><pre><code>a &lt; b</code></pre><pre><code class=\"language-cobol\">1</code></pre>");
    let n = highlight_code_blocks(&mut html);
    assert_eq!(n, Some(2));
    assert_eq!(html, "<p>x</p><pre><code>a &lt; b</code></pre><pre><code>1</code></pre>");
}

#[test]
fn known_languages_are_highlighted() {
    let mut html = String::from("<pre><code class=\"language-rust\">fn main() {}\n</code></pre>");
    let n = highlight_code_blocks(&mut html);
    assert_eq!(n, Some(1));
    assert!(html.starts_with("<pre style=\"background:#2b303b;"));
    assert!(html.contains("main"));
    assert!(!html.contains("language-rust"));
}
