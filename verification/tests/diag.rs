use goplus::ast::Span;
use goplus::diag::{json_escape, line_col, Diagnostic, DiagnosticSeverity, Diagnostics};

#[test]
fn render_points_a_caret_under_the_span() {
    let source = "package main\nfn x() {}\n";
    let d = Diagnostic::new("bad fn".to_string(), Some(Span { start: 13, end: 15 }))
        .with_code("E0001".to_string())
        .with_hint("fix it".to_string());
    assert_eq!(d.render("main.gp", source), "main.gp:2:1: error E0001: bad fn\nfn x() {}\n^^\nhint: fix it");
}

#[test]
fn render_without_a_span_puts_the_hint_in_parentheses() {
    let d = Diagnostic::new("oops".to_string(), None).with_hint("look".to_string());
    assert_eq!(d.render("a.gp", ""), "a.gp: error E0000: oops (hint: look)");
    let w = Diagnostic::warning("careful".to_string(), None);
    assert_eq!(w.render("a.gp", ""), "a.gp: warning W0000: careful");
}

#[test]
fn render_caret_is_at_least_one_wide_and_stops_at_the_line_end() {
    let source = "ab\ncd\n";
    let empty = Diagnostic::new("here".to_string(), Some(Span { start: 4, end: 4 }));
    assert_eq!(empty.render("f", source), "f:2:2: error E0000: here\ncd\n ^");
    let long = Diagnostic::new("two lines".to_string(), Some(Span { start: 0, end: 5 }));
    assert_eq!(long.render("f", source), "f:1:1: error E0000: two lines\nab\n^^");
}

#[test]
fn render_json_lists_every_field() {
    let source = "ab\ncd";
    let d = Diagnostic::new("say \"hi\"".to_string(), Some(Span { start: 1, end: 4 }))
        .with_severity(DiagnosticSeverity::Info);
    assert_eq!(
        d.render_json("dir\\f.gp", source),
        "{\"path\":\"dir\\\\f.gp\",\"code\":\"E0000\",\"severity\":\"info\",\"message\":\"say \\\"hi\\\"\",\"span\":{\"start\":1,\"end\":4,\"line\":1,\"column\":2,\"endLine\":2,\"endColumn\":2},\"hint\":null,\"source\":\"goplus\"}"
    );
    let none = Diagnostic::new("x".to_string(), None).with_hint("h".to_string());
    assert_eq!(
        none.render_json("p", ""),
        "{\"path\":\"p\",\"code\":\"E0000\",\"severity\":\"error\",\"message\":\"x\",\"span\":null,\"hint\":\"h\",\"source\":\"goplus\"}"
    );
}

#[test]
fn json_escape_escapes_quotes_backslashes_and_controls() {
    assert_eq!(json_escape("a\"b\\c\nd\te\r\u{1}é"), "a\\\"b\\\\c\\nd\\te\\r\\u0001é");
}

#[test]
fn line_col_counts_chars_from_one() {
    assert_eq!(line_col("ab\ncd", 0), (1, 1));
    assert_eq!(line_col("ab\ncd", 4), (2, 2));
    assert_eq!(line_col("éa", 2), (1, 2));
    assert_eq!(line_col("ab", 99), (1, 3));
}

#[test]
fn severity_names() {
    assert_eq!(DiagnosticSeverity::Error.as_str(), "error");
    assert_eq!(DiagnosticSeverity::Warning.as_str(), "warning");
    assert_eq!(DiagnosticSeverity::Info.as_str(), "info");
    assert_eq!(DiagnosticSeverity::Hint.as_str(), "hint");
}

#[test]
fn diagnostics_collect_and_report() {
    let mut ds = Diagnostics::new();
    assert!(ds.is_empty());
    assert!(!ds.has_any());
    ds.push(Diagnostic::warning("first".to_string(), None));
    assert!(ds.has_any());
    assert!(!ds.has_errors());
    ds.extend(vec![Diagnostic::new("second".to_string(), None)]);
    assert!(ds.has_errors());
    assert_eq!(ds.items().len(), 2);
    assert_eq!(ds.messages(), "first\nsecond\n");
}
