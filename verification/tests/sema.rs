use goplus::parser::parse_program;
use goplus::sema::analyze;
use goplus::sema::analyze_with_model;
use goplus::sema::model::build_model;

#[test]
fn sema_enforces_retry_on_error_functions() {
    let src = r#"
package main

@retry(3)
fn run() -> string {
    return "ok"
}
"#;
    let mut program = parse_program(src).expect("parse ok");
    let result = analyze(&mut program);
    assert!(result.is_err());
}

#[test]
fn sema_catches_non_exhaustive_match() {
    let src = r#"
package main

enum Status {
    Pending
    Running
    Done
}

fn label(s: Status) -> string {
    match s {
        Status::Pending => "pending",
        Status::Running => "running",
    }
}
"#;
    let mut program = parse_program(src).expect("parse ok");
    let result = analyze(&mut program);
    assert!(result.is_err());
}

#[test]
fn sema_rejects_memoize_with_slice_param() {
    let src = r#"
package main

@memoize
fn sum(items: []int) -> int {
    return 1
}
"#;
    let mut program = parse_program(src).expect("parse ok");
    let result = analyze(&mut program);
    assert!(result.is_err());
}

#[test]
fn sema_rejects_memoize_on_methods() {
    let src = r#"
package main

struct User {
    name: string
}

impl User {
    @memoize
    fn greet(self) -> string {
        return "hi"
    }
}
"#;
    let mut program = parse_program(src).expect("parse ok");
    let result = analyze(&mut program);
    assert!(result.is_err());
}

#[test]
fn tests_allows_custom_decorator() {
    let src = r#"
package main

fn foo(next: func() string) -> func() string {
    return next
}

@foo
fn run() -> string {
    return "ok"
}
"#;
    let mut program = parse_program(src).expect("parse ok");
    let result = analyze(&mut program);
    result.expect("sema should succeed");
}

#[test]
fn tests_enforces_retry_on_error_functions() {
    let src = r#"
package main

@retry(3)
fn run() -> string {
    return "ok"
}
"#;
    let mut program = parse_program(src).expect("parse ok");
    let result = analyze(&mut program);
    assert!(result.is_err());
}

#[test]
fn tests_catches_non_exhaustive_match() {
    let src = r#"
package main

enum Status {
    Pending
    Running
    Done
}

fn label(s: Status) -> string {
    match s {
        Status::Pending => "pending",
        Status::Running => "running",
    }
}
"#;
    let mut program = parse_program(src).expect("parse ok");
    let result = analyze(&mut program);
    assert!(result.is_err());
}

#[test]
fn tests_rejects_memoize_with_slice_param() {
    let src = r#"
package main

@memoize
fn sum(items: []int) -> int {
    return 1
}
"#;
    let mut program = parse_program(src).expect("parse ok");
    let result = analyze(&mut program);
    assert!(result.is_err());
}

#[test]
fn tests_rejects_memoize_on_methods() {
    let src = r#"
package main

struct User {
    name: string
}

impl User {
    @memoize
    fn greet(self) -> string {
        return "hi"
    }
}
"#;
    let mut program = parse_program(src).expect("parse ok");
    let result = analyze(&mut program);
    assert!(result.is_err());
}

#[test]
fn rejects_duplicate_declarations_and_reserved_generated_names() {
    let src = r#"
package main

fn load() {}
fn load() {}
fn mainWarp() {}
"#;
    let mut program = parse_program(src).expect("parse ok");
    let result = analyze(&mut program);
    let diagnostics = result.expect_err("sema should fail");
    assert!(diagnostics.iter().any(|diag| diag.code == "E0100"));
    assert!(diagnostics.iter().any(|diag| diag.code == "E0101"));
}

#[test]
fn rejects_tagged_match_payload_arity_and_duplicate_arms() {
    let src = r#"
package main

enum Result<T> {
    Ok(T)
    Err(string)
}

fn label(r: Result<int>) -> string {
    match r {
        Ok => "ok",
        Ok(v) => "again",
        Err(e) => e,
    }
}
"#;
    let mut program = parse_program(src).expect("parse ok");
    let result = analyze(&mut program);
    let diagnostics = result.expect_err("sema should fail");
    assert!(diagnostics.iter().any(|diag| diag.code == "E0200"));
    assert!(diagnostics.iter().any(|diag| diag.code == "E0201"));
}

#[test]
fn validates_known_custom_decorator_argument_count() {
    let src = r#"
package main

fn trace(next: func() string, label: string) -> func() string {
    return next
}

@trace
fn run() -> string {
    return "ok"
}
"#;
    let mut program = parse_program(src).expect("parse ok");
    let result = analyze(&mut program);
    let diagnostics = result.expect_err("sema should fail");
    assert!(diagnostics.iter().any(|diag| diag.code == "E0302"));
}

#[test]
fn analysing_again_after_the_enums_are_recorded_gives_the_same_result() {
    let good = "package main\nenum Status {\nPending\nDone\n}\nfn label(s: Status) -> string {\nmatch s {\nStatus::Pending => \"p\",\nStatus::Done => \"d\",\n}\n}\n";
    let mut program = parse_program(good).expect("parses");
    let model = build_model(std::slice::from_ref(&program));
    assert!(analyze_with_model(&mut program, &model).is_ok());
    let mut once = parse_program(good).expect("parses");
    assert!(analyze_with_model(&mut once, &model).is_ok());
    assert!(analyze_with_model(&mut program, &model).is_ok());
    assert_eq!(program, once);

    let bad = "package main\nenum Status {\nPending\nDone\n}\nfn label(s: Status) -> string {\nmatch s {\nStatus::Pending => \"p\",\n}\n}\n";
    let mut program = parse_program(bad).expect("parses");
    let model = build_model(std::slice::from_ref(&program));
    let first = analyze_with_model(&mut program, &model).unwrap_err();
    let second = analyze_with_model(&mut program, &model).unwrap_err();
    assert_eq!(first.len(), 1);
    assert_eq!(first[0].code, second[0].code);
    assert_eq!(first[0].message, second[0].message);
    assert_eq!(first.len(), second.len());
}
