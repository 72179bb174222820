use goplus::diag::Diagnostic;
use goplus::parser::parse_program;
use goplus::sema::analyze;

fn codes(src: &str) -> Vec<Diagnostic> {
    let mut program = parse_program(src).expect("parse ok");
    match analyze(&mut program) {
        Ok(_) => Vec::new(),
        Err(ds) => ds,
    }
}

fn has(ds: &[Diagnostic], code: &str) -> bool {
    ds.iter().any(|d| d.code == code)
}

#[test]
fn try_outside_error_function_is_e0000() {
    let ds = codes("package main\n\nfn run() -> string {\n    value := load()?\n    return value\n}\n");
    assert_eq!(ds.len(), 1);
    assert_eq!(ds[0].code, "E0000");
    assert_eq!(ds[0].message, "`?` can only be used in functions returning `!` or `T!`");
    assert_eq!(ds[0].hint.as_deref(), Some("change function return type to `!` or `T!`"));
}

#[test]
fn duplicate_declaration_is_e0100_with_first_position() {
    let src = "package main\n\nfn load() {}\nfn load() {}\n";
    let ds = codes(src);
    let d = ds.iter().find(|d| d.code == "E0100").expect("E0100");
    assert_eq!(d.message, "duplicate declaration `load`");
    assert_eq!(d.hint.as_deref(), Some("the first declaration starts at byte 14"));
}

#[test]
fn reserved_names_are_e0101() {
    let ds = codes("package main\n\nfn __goplusHelper() {}\n");
    assert!(has(&ds, "E0101"));
    let ds = codes("package main\n\nenum Status {\n    Pending\n}\n\nstruct load__decor0 {\n    x: int\n}\n");
    assert!(has(&ds, "E0101"));
}

#[test]
fn duplicate_variant_is_e0102() {
    let ds = codes("package main\n\nenum Status {\n    Pending\n    Pending\n}\n");
    assert!(has(&ds, "E0102"));
}

#[test]
fn match_errors_e0202_e0203_e0205() {
    let base = "package main\n\nenum Status {\n    Pending\n    Done\n}\n\nenum Other {\n    Pending\n}\n\n";
    let wrong_enum = format!(
        "{}fn label(s: Status) -> string {{\n    match s {{\n        Status::Pending => \"p\",\n        Other::Pending => \"o\",\n        _ => \"d\",\n    }}\n}}\n",
        base
    );
    assert!(has(&codes(&wrong_enum), "E0202"));
    let unknown = format!(
        "{}fn label(s: Status) -> string {{\n    match s {{\n        Status::Missing => \"p\",\n        _ => \"d\",\n    }}\n}}\n",
        base
    );
    assert!(has(&codes(&unknown), "E0203"));
    let unresolved = "package main\n\nfn label(x: int) -> string {\n    match x {\n        Pending => \"p\",\n    }\n}\n";
    assert!(has(&codes(unresolved), "E0205"));
}

#[test]
fn non_exhaustive_match_is_e0204() {
    let src = "package main\n\nenum Status {\n    Pending\n    Running\n    Done\n}\n\nfn label(s: Status) -> string {\n    match s {\n        Status::Pending => \"p\",\n    }\n}\n";
    let ds = codes(src);
    let d = ds.iter().find(|d| d.code == "E0204").expect("E0204");
    assert_eq!(d.message, "non-exhaustive match for enum `Status`");
}

#[test]
fn retry_errors_e0303_e0304_e0305() {
    assert!(has(&codes("package main\n\n@retry(3)\nfn run() -> string {\n    return \"ok\"\n}\n"), "E0303"));
    assert!(has(&codes("package main\n\n@retry\nfn run() -> ! {\n    return\n}\n"), "E0304"));
    let ds = codes("package main\n\n@retry(0)\nfn run() -> ! {\n    return\n}\n");
    let d = ds.iter().find(|d| d.code == "E0305").expect("E0305");
    assert_eq!(d.message, "`@retry` argument `0` must be a positive integer");
}

#[test]
fn memoize_errors_e0306_e0307_e0308() {
    let method = "package main\n\nstruct User {\n    name: string\n}\n\nimpl User {\n    @memoize\n    fn greet(self) -> string {\n        return \"hi\"\n    }\n}\n";
    assert!(has(&codes(method), "E0306"));
    assert!(has(&codes("package main\n\n@memoize\nfn run() -> string! {\n    return \"ok\"\n}\n"), "E0307"));
    let ds = codes("package main\n\n@memoize\nfn sum(items: []int) -> int {\n    return 1\n}\n");
    let d = ds.iter().find(|d| d.code == "E0308").expect("E0308");
    assert_eq!(d.message, "`@memoize` parameter `items` with type `[]int` is not comparable");
}

#[test]
fn custom_decorator_errors_e0300_e0301_e0302() {
    assert!(has(&codes("package main\n\nfn deco() -> int {\n    return 1\n}\n\n@deco\nfn run() {\n    return\n}\n"), "E0300"));
    assert!(has(&codes("package main\n\nfn deco(next: int) -> int {\n    return 1\n}\n\n@deco\nfn run() {\n    return\n}\n"), "E0301"));
    let ds = codes("package main\n\nfn deco(next: func(), label: string) -> func() {\n    return next\n}\n\n@deco\nfn run() {\n    return\n}\n");
    let d = ds.iter().find(|d| d.code == "E0302").expect("E0302");
    assert_eq!(d.message, "custom decorator `deco` expects 1 argument(s), found 0");
}

#[test]
fn next_shape_errors_e0309_e0310() {
    let ret = "package main\n\nfn deco(next: func() string) -> func() string {\n    return next\n}\n\n@deco\nfn run() {\n    return\n}\n";
    assert!(has(&codes(ret), "E0309"));
    let count = "package main\n\nfn deco(next: func(a string) string) -> func(a string) string {\n    return next\n}\n\n@deco\nfn run() -> string {\n    return \"x\"\n}\n";
    assert!(has(&codes(count), "E0310"));
}

#[test]
fn payload_arity_is_e0201() {
    let src = "package main\n\nenum Result<T> {\n    Ok(T)\n    Err(string)\n}\n\nfn label(r: Result<int>) -> string {\n    match r {\n        Ok(a, b) => \"ok\",\n        Err(e) => e,\n    }\n}\n";
    let ds = codes(src);
    let d = ds.iter().find(|d| d.code == "E0201").expect("E0201");
    assert_eq!(d.message, "variant `Ok` expects 1 payload binding(s), found 2");
}
