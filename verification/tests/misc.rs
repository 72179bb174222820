use goplus::ast::{EnumDecl, EnumVariant, Item, Program, Span};
use goplus::codegen::transform_expr;
use goplus::sema::build_model;
use goplus::lexer::{lex, TokenKind};
use goplus::order::{insert_sorted, lex_less};
use goplus::sema::{base_enum_name, is_comparable_type, parse_positive_int};

fn model_with_enum(name: &str, variant: &str) -> goplus::sema::SemanticModel {
    let span = Span { start: 0, end: 0 };
    let program = Program {
        package: "main".to_string(),
        imports: vec![],
        items: vec![Item::Enum(EnumDecl {
            name: name.to_string(),
            type_params: vec![],
            variants: vec![EnumVariant { name: variant.to_string(), payload: vec![], span }],
            derives: vec![],
            span,
        })],
        span,
    };
    build_model(&[program])
}

#[test]
fn enum_paths_match_names_literally_not_as_patterns() {
    let model = model_with_enum("Opt.Val", "None");
    assert_eq!(transform_expr(&model, "Opt.Val::None"), "Opt.ValNone");
    assert_eq!(transform_expr(&model, "OptXVal::None"), "OptXVal::None");
}

#[test]
fn lex_reads_keywords_symbols_and_literals() {
    let tokens = lex("fn main() -> ! { x := \"s\" // c\n}").expect("lexes");
    let kinds: Vec<TokenKind> = tokens.iter().map(|t| t.kind).collect();
    assert_eq!(
        kinds,
        vec![
            TokenKind::Fn,
            TokenKind::Ident,
            TokenKind::LParen,
            TokenKind::RParen,
            TokenKind::Arrow,
            TokenKind::Bang,
            TokenKind::LBrace,
            TokenKind::Ident,
            TokenKind::ColonEq,
            TokenKind::StringLit,
            TokenKind::Newline,
            TokenKind::RBrace,
        ]
    );
    assert_eq!(tokens[9].span.start, 22);
    assert_eq!(tokens[9].span.end, 25);
}

#[test]
fn lex_reports_bad_characters_and_open_strings() {
    let errs = lex("a $ b").err().expect("bad char");
    assert_eq!(errs.len(), 1);
    assert_eq!(errs[0].message, "invalid token `$`");
    assert!(lex("\"open").is_err());
}

#[test]
fn lex_less_orders_by_code_point_with_prefixes_first() {
    assert!(lex_less("abc", "abd"));
    assert!(lex_less("ab", "abc"));
    assert!(!lex_less("b", "abc"));
    assert!(!lex_less("same", "same"));
    assert!(lex_less("Z", "a"));
}

#[test]
fn insert_sorted_keeps_names_sorted_and_distinct() {
    let mut names = Vec::new();
    for n in ["os", "fmt", "sync", "fmt", "errors"] {
        insert_sorted(&mut names, n.to_string());
    }
    assert_eq!(names, vec!["errors", "fmt", "os", "sync"]);
}

#[test]
fn base_enum_name_drops_type_arguments() {
    assert_eq!(base_enum_name(" Result<int, string> "), "Result");
    assert_eq!(base_enum_name("Status"), "Status");
}

#[test]
fn comparable_types_for_memoize() {
    assert!(is_comparable_type("int"));
    assert!(!is_comparable_type("[]int"));
    assert!(!is_comparable_type("map[string]int"));
}

#[test]
fn positive_ints_for_retry() {
    assert_eq!(parse_positive_int("3"), Some(3));
    assert_eq!(parse_positive_int("1_000"), Some(1000));
    assert_eq!(parse_positive_int("0"), None);
    assert_eq!(parse_positive_int("-2"), None);
}

#[test]
fn base_enum_name_settles_after_one_step() {
    let once = base_enum_name(" Result<int> ");
    assert_eq!(once, "Result");
    assert!(!once.contains('<'));
    assert_eq!(base_enum_name(&once), once);
}
