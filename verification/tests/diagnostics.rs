use typepress::diagnostics::{Diagnostics, Warning};

#[test]
fn diagnostics_collects_warnings() {
    let mut d = Diagnostics::new();
    assert!(d.is_empty());
    d.push("TP-1001", "boom");
    assert_eq!(d.len(), 1);
    assert!(!d.is_empty());
    assert_eq!(d.warnings()[0].code, "TP-1001");
    assert_eq!(d.warnings()[0].message, "boom");
}

#[test]
fn diagnostics_multiple_warnings_preserve_order() {
    let mut d = Diagnostics::new();
    d.push("TP-1001", "first");
    d.push("TP-1002", "second");
    let w = d.warnings();
    assert_eq!(w.len(), 2);
    assert_eq!(w[0].code, "TP-1001");
    assert_eq!(w[1].code, "TP-1002");
}

#[test]
fn warning_new_keeps_code_and_message() {
    let w = Warning::new("TP-1005", "font missing");
    assert_eq!(w.code, "TP-1005");
    assert_eq!(w.message, "font missing");
}

#[test]
fn push_appends_after_existing_warnings() {
    let mut d = Diagnostics::default();
    d.push("TP-1003", "a");
    d.push("TP-1004", "b");
    d.push("TP-1003", "c");
    let msgs: Vec<&str> = d.warnings().iter().map(|w| w.message.as_str()).collect();
    assert_eq!(msgs, vec!["a", "b", "c"]);
}
