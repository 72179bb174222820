use goplus::ast::DeriveKind;
use goplus::ast::{Item, Pattern, ReturnType, Stmt};
use goplus::parser::parse_program;

#[test]
fn parser_parse_decorated_function() {
    let src = r#"
package main

@log
@retry(3, 100)
fn load(path: string) -> string! {
    value := read(path)?
    return value
}
"#;
    let program = parse_program(src).expect("parse should succeed");
    let fn_decl = match &program.items[0] {
        Item::Function(it) => it,
        _ => panic!("expected function"),
    };
    assert_eq!(fn_decl.decorators.len(), 2);
    assert!(matches!(fn_decl.ret, ReturnType::TypeWithError(_)));
    match &fn_decl.body.stmts[0] {
        Stmt::VarDecl(stmt) => assert!(stmt.expr.has_try),
        _ => panic!("expected var decl"),
    }
}

#[test]
fn parser_parse_match_arm_patterns() {
    let src = r#"
package main

enum Result<T, E> {
    Ok(T)
    Err(E)
}

fn show(r: Result<int, string>) -> string {
    match r {
        Ok(v) => "ok",
        Err(e) => "err",
    }
}
"#;
    let program = parse_program(src).expect("parse should succeed");
    let fn_decl = match &program.items[1] {
        Item::Function(it) => it,
        _ => panic!("expected function"),
    };
    let match_stmt = match &fn_decl.body.stmts[0] {
        Stmt::Match(stmt) => stmt,
        _ => panic!("expected match"),
    };
    assert!(matches!(match_stmt.arms[0].pattern, Pattern::Variant { .. }));
}

#[test]
fn tests_parse_decorated_function() {
    let src = r#"
package main

@log
@retry(3, 100)
fn load(path: string) -> string! {
    value := read(path)?
    return value
}
"#;
    let program = parse_program(src).expect("parse should succeed");
    let fn_decl = match &program.items[0] {
        Item::Function(it) => it,
        _ => panic!("expected function"),
    };
    assert_eq!(fn_decl.decorators.len(), 2);
    assert!(matches!(fn_decl.ret, ReturnType::TypeWithError(_)));
    match &fn_decl.body.stmts[0] {
        Stmt::VarDecl(stmt) => assert!(stmt.expr.has_try),
        _ => panic!("expected var decl"),
    }
}

#[test]
fn tests_parse_match_arm_patterns() {
    let src = r#"
package main

enum Result<T, E> {
    Ok(T)
    Err(E)
}

fn show(r: Result<int, string>) -> string {
    match r {
        Ok(v) => "ok",
        Err(e) => "err",
    }
}
"#;
    let program = parse_program(src).expect("parse should succeed");
    let fn_decl = match &program.items[1] {
        Item::Function(it) => it,
        _ => panic!("expected function"),
    };
    let match_stmt = match &fn_decl.body.stmts[0] {
        Stmt::Match(stmt) => stmt,
        _ => panic!("expected match"),
    };
    assert!(matches!(match_stmt.arms[0].pattern, Pattern::Variant { .. }));
}

#[test]
fn parse_qualified_decorator_name() {
    let src = r#"
package main

@decorators.trace("svc")
fn run() {
    return
}
"#;
    let program = parse_program(src).expect("parse should succeed");
    let fn_decl = match &program.items[0] {
        Item::Function(it) => it,
        _ => panic!("expected function"),
    };
    assert_eq!(fn_decl.decorators[0].name, "decorators.trace");
}

#[test]
fn parse_reads_package_imports_and_items_in_order() {
    let src = "\n;package shapes\nimport \"fmt\"\n\nimport \"strings\";\nstruct Point {\n    x: int\n}\nenum Shape {\n    Dot\n}\nfn area() -> int {\n    return 0\n}\n";
    let program = parse_program(src).expect("parse should succeed");
    assert_eq!(program.package, "shapes");
    assert_eq!(program.imports, vec!["fmt".to_string(), "strings".to_string()]);
    let names: Vec<String> = program
        .items
        .iter()
        .map(|it| match it {
            Item::Struct(d) => format!("struct {}", d.name),
            Item::Enum(d) => format!("enum {}", d.name),
            Item::Function(f) => format!("fn {}", f.name),
            Item::Impl(b) => format!("impl {}", b.target),
        })
        .collect();
    assert_eq!(names, vec!["struct Point", "enum Shape", "fn area"]);
}

#[test]
fn parse_without_package_clause_is_an_error() {
    let errors = parse_program("fn main() {\n}\n").expect_err("a file needs a package clause");
    assert_eq!(errors[0].message, "expected `package` declaration");
}

#[test]
fn parse_keeps_field_variant_param_and_method_names_in_order() {
    let src = "package main\n\nstruct Pair {\n    left: int,\n    right: string\n}\n\nenum Light {\n    Red\n    Green(int)\n}\n\nimpl Pair {\n    fn swap(self) -> Pair {\n        return self\n    }\n    fn size(self, scale: int) -> int {\n        return scale\n    }\n}\n\nfn mix(a: int, b: string) -> int {\n    return a\n}\n";
    let program = parse_program(src).expect("parse should succeed");
    match &program.items[0] {
        Item::Struct(d) => {
            let names: Vec<&str> = d.fields.iter().map(|f| f.name.as_str()).collect();
            assert_eq!(names, vec!["left", "right"]);
        }
        _ => panic!("expected struct"),
    }
    match &program.items[1] {
        Item::Enum(d) => {
            let names: Vec<&str> = d.variants.iter().map(|v| v.name.as_str()).collect();
            assert_eq!(names, vec!["Red", "Green"]);
        }
        _ => panic!("expected enum"),
    }
    match &program.items[2] {
        Item::Impl(b) => {
            let names: Vec<&str> = b.methods.iter().map(|m| m.name.as_str()).collect();
            assert_eq!(names, vec!["swap", "size"]);
            let params: Vec<&str> = b.methods[1].params.iter().map(|p| p.name.as_str()).collect();
            assert_eq!(params, vec!["scale"]);
        }
        _ => panic!("expected impl"),
    }
    match &program.items[3] {
        Item::Function(f) => {
            let names: Vec<&str> = f.params.iter().map(|p| p.name.as_str()).collect();
            assert_eq!(names, vec!["a", "b"]);
        }
        _ => panic!("expected function"),
    }
}

#[test]
fn parse_package_clause_without_name_is_an_error() {
    let errors = parse_program("package\n\nfn main() {\n}\n").expect_err("the package needs a name");
    assert_eq!(errors[0].message, "expected package name");
}

#[test]
fn parse_classifies_statements_by_their_first_tokens() {
    let src = "package main\n\nfn run(n: int) -> int {\n    total := n\n    for total < 10 {\n        total = total + n\n    }\n    if total > 3 {\n        return total\n    }\n    print(total)\n    return 0\n}\n";
    let program = parse_program(src).expect("parse should succeed");
    let body = match &program.items[0] {
        Item::Function(f) => &f.body.stmts,
        _ => panic!("expected function"),
    };
    let kinds: Vec<&str> = body
        .iter()
        .map(|st| match st {
            Stmt::VarDecl(_) => "var",
            Stmt::Raw(_) => "raw",
            Stmt::If(_) => "if",
            Stmt::Expr(_) => "expr",
            Stmt::Return(_) => "return",
            Stmt::Match(_) => "match",
        })
        .collect();
    assert_eq!(kinds, vec!["var", "raw", "if", "expr", "return"]);
    match &body[0] {
        Stmt::VarDecl(v) => {
            assert_eq!(v.name, "total");
            assert_eq!(v.expr.text, "n");
            assert!(!v.expr.has_try);
        }
        _ => panic!("expected var decl"),
    }
    match &body[2] {
        Stmt::If(i) => assert_eq!(i.condition.text, "total > 3"),
        _ => panic!("expected if"),
    }
    match &body[3] {
        Stmt::Expr(x) => assert_eq!(x.expr.text, "print(total)"),
        _ => panic!("expected expression statement"),
    }
}

#[test]
fn parse_takes_try_marker_off_the_end_of_a_line() {
    let src = "package main

fn load(path: string) -> string! {
    data := read(path)?
    check(data)?;
    return data
}
";
    let program = parse_program(src).expect("parse should succeed");
    let body = match &program.items[0] {
        Item::Function(f) => &f.body.stmts,
        _ => panic!("expected function"),
    };
    match &body[0] {
        Stmt::VarDecl(v) => {
            assert_eq!(v.expr.text, "read(path)");
            assert!(v.expr.has_try);
        }
        _ => panic!("expected var decl"),
    }
    match &body[1] {
        Stmt::Expr(x) => {
            assert_eq!(x.expr.text, "check(data)");
            assert!(x.expr.has_try);
        }
        _ => panic!("expected expression statement"),
    }
}

#[test]
fn parse_splits_return_values_at_top_level_commas() {
    let src = "package main\n\nfn pair() -> int {\n    return f(a, b), g(c)?\n}\n\nfn nothing() {\n    return\n}\n";
    let program = parse_program(src).expect("parse should succeed");
    match &program.items[0] {
        Item::Function(f) => match &f.body.stmts[0] {
            Stmt::Return(r) => {
                let texts: Vec<&str> = r.exprs.iter().map(|e| e.text.as_str()).collect();
                assert_eq!(texts, vec!["f(a, b)", "g(c)"]);
                assert!(!r.exprs[0].has_try);
                assert!(r.exprs[1].has_try);
            }
            _ => panic!("expected return"),
        },
        _ => panic!("expected function"),
    }
    match &program.items[1] {
        Item::Function(f) => match &f.body.stmts[0] {
            Stmt::Return(r) => assert!(r.exprs.is_empty()),
            _ => panic!("expected return"),
        },
        _ => panic!("expected function"),
    }
}

#[test]
fn parse_accepts_a_file_with_only_its_header() {
    let program = parse_program("package tools\n\nimport \"fmt\"\nimport \"os\"\n\n").expect("a header alone parses");
    assert_eq!(program.package, "tools");
    assert_eq!(program.imports, vec!["fmt".to_string(), "os".to_string()]);
    assert!(program.items.is_empty());
}

#[test]
fn parse_reads_type_parameters_and_stacked_decorators() {
    let src = "package main\n\n@trace.span(\"x\")\n@log\nfn pick<T, U>(a: T, b: U) -> T {\n    return a\n}\n";
    let program = parse_program(src).expect("parse should succeed");
    match &program.items[0] {
        Item::Function(f) => {
            assert_eq!(f.type_params, vec!["T".to_string(), "U".to_string()]);
            let names: Vec<&str> = f.decorators.iter().map(|d| d.name.as_str()).collect();
            assert_eq!(names, vec!["trace.span", "log"]);
            assert_eq!(f.decorators[0].args, vec!["\"x\"".to_string()]);
        }
        _ => panic!("expected function"),
    }
}

#[test]
fn parse_reports_a_parameter_without_a_name() {
    let errors = parse_program("package main\n\nfn f(: int) {\n}\n").expect_err("a parameter needs a name");
    assert!(errors.iter().any(|d| d.message == "expected parameter name"));
}

#[test]
fn parse_reads_derive_targets_with_json_shorthand() {
    let src = "package main\n\n@derive(String, JSON)\nstruct User {\n    name: string\n}\n\n@derive(Debug, Equal)\nenum Mode {\n    On\n    Off\n}\n";
    let program = parse_program(src).expect("parse should succeed");
    match &program.items[0] {
        Item::Struct(d) => assert_eq!(
            d.derives,
            vec![DeriveKind::String, DeriveKind::JsonMarshal, DeriveKind::JsonUnmarshal]
        ),
        _ => panic!("expected struct"),
    }
    match &program.items[1] {
        Item::Enum(d) => assert_eq!(d.derives, vec![DeriveKind::Debug, DeriveKind::Equal]),
        _ => panic!("expected enum"),
    }
}

#[test]
fn parse_refuses_unknown_derive_targets() {
    let src = "package main\n\n@derive(Foo)\nstruct User {\n    name: string\n}\n";
    let errors = parse_program(src).expect_err("Foo is no derive target");
    assert_eq!(errors.len(), 1);
    assert_eq!(errors[0].message, "unsupported derive target `Foo`");
    let empty = parse_program("package main\n\n@derive()\nstruct User {\n    name: string\n}\n")
        .expect_err("a derive needs a target");
    assert_eq!(empty[0].message, "@derive requires at least one target");
}

#[test]
fn parse_keeps_parameter_types_whole() {
    let src = "package main\n\nfn pick(a: int, b: Result<int, string>, c: []string) -> int {\n    return a\n}\n";
    let program = parse_program(src).expect("parse should succeed");
    match &program.items[0] {
        Item::Function(f) => {
            let pairs: Vec<(&str, &str)> =
                f.params.iter().map(|p| (p.name.as_str(), p.ty.raw.as_str())).collect();
            assert_eq!(pairs, vec![("a", "int"), ("b", "Result<int, string>"), ("c", "[]string")]);
        }
        _ => panic!("expected function"),
    }
}

#[test]
fn a_file_of_struct_declarations_parses() {
    let src = "package main\nimport \"fmt\"\n\nstruct User {\n    name: string,\n    tags: map[string]int\n    age: int\n}\n;\nstruct Empty {}\n";
    let program = parse_program(src).expect("struct declarations parse");
    assert_eq!(program.imports, vec!["fmt".to_string()]);
    assert_eq!(program.items.len(), 2);
    match &program.items[0] {
        Item::Struct(s) => {
            assert_eq!(s.name, "User");
            let fields: Vec<(&str, &str)> =
                s.fields.iter().map(|f| (f.name.as_str(), f.ty.raw.as_str())).collect();
            assert_eq!(fields, vec![("name", "string"), ("tags", "map[string]int"), ("age", "int")]);
        }
        other => panic!("expected a struct, got {other:?}"),
    }
    assert!(matches!(&program.items[1], Item::Struct(s) if s.name == "Empty" && s.fields.is_empty()));
}

#[test]
fn a_struct_field_without_a_colon_is_refused() {
    let src = "package main\nstruct User {\n    name string\n}\n";
    let errors = parse_program(src).unwrap_err();
    assert!(!errors.is_empty());
}

#[test]
fn a_file_of_structs_and_functions_without_parameters_parses() {
    let src = "package main\nimport \"fmt\"\n\nstruct Point {\n    x: int\n}\n\nfn main() {\n    fmt.Println(\"hello\")\n    run()?\n\n}\n\nfn name() -> string! {\n    value := load()?\n    return value\n}\n\nfn done() {\n    return\n}\n";
    let program = parse_program(src).expect("declarations parse");
    assert_eq!(program.items.len(), 4);
    match &program.items[1] {
        Item::Function(f) => {
            assert_eq!(f.name, "main");
            assert!(f.params.is_empty());
            assert!(matches!(f.ret, ReturnType::Void));
            assert_eq!(f.body.stmts.len(), 2);
            assert!(matches!(&f.body.stmts[1], Stmt::Expr(e) if e.expr.has_try && e.expr.text == "run()"));
        }
        other => panic!("expected a function, got {other:?}"),
    }
    match &program.items[2] {
        Item::Function(f) => {
            assert!(matches!(&f.ret, ReturnType::TypeWithError(t) if t.raw == "string"));
            assert_eq!(f.body.stmts.len(), 2);
            assert!(matches!(&f.body.stmts[0], Stmt::VarDecl(v) if v.name == "value" && v.expr.has_try));
            assert!(matches!(&f.body.stmts[1], Stmt::Return(r) if r.exprs.len() == 1 && r.exprs[0].text == "value"));
        }
        other => panic!("expected a function, got {other:?}"),
    }
}

#[test]
fn a_bare_return_before_the_closing_brace_parses() {
    let program = parse_program("package main\nfn stop() {\n    return\n}\n").expect("parses");
    match &program.items[0] {
        Item::Function(f) => {
            assert!(matches!(&f.body.stmts[0], Stmt::Return(r) if r.exprs.is_empty()));
        }
        other => panic!("expected a function, got {other:?}"),
    }
}

#[test]
fn a_function_with_decorators_without_arguments_parses() {
    let src = "package main\n@log\n@trace.span\nfn run() -> string {\nreturn \"ok\"\n}\n";
    let program = parse_program(src).expect("parses");
    match &program.items[0] {
        Item::Function(f) => {
            let names: Vec<&str> = f.decorators.iter().map(|d| d.name.as_str()).collect();
            assert_eq!(names, vec!["log", "trace.span"]);
            assert!(f.decorators.iter().all(|d| d.args.is_empty()));
            assert!(matches!(&f.body.stmts[0], Stmt::Return(r) if r.exprs[0].text == "\"ok\""));
        }
        other => panic!("expected a function, got {other:?}"),
    }
}

#[test]
fn a_function_with_decorator_arguments_parses() {
    let src = "package main\n@retry(3, 100)\n@memoize()\nfn load() -> string! {\n    value := read()?\n    return value\n}\n";
    let program = parse_program(src).expect("parses");
    match &program.items[0] {
        Item::Function(f) => {
            assert_eq!(f.decorators.len(), 2);
            assert_eq!(f.decorators[0].name, "retry");
            assert_eq!(f.decorators[0].args, vec!["3".to_string(), "100".to_string()]);
            assert_eq!(f.decorators[1].name, "memoize");
            assert!(f.decorators[1].args.is_empty());
        }
        other => panic!("expected a function, got {other:?}"),
    }
}
