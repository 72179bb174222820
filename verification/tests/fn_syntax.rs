use goplus::codegen::fn_syntax::{normalize_go_type, rewrite_fn_syntax};

#[test]
fn rewrite_fn_syntax_writes_go_function_types() {
    assert_eq!(rewrite_fn_syntax("fn(a: int, b: string) -> bool"), "func(a int, b string) bool");
    assert_eq!(rewrite_fn_syntax("fn() -> !"), "func() error");
    assert_eq!(rewrite_fn_syntax("fn(x: int) -> int!"), "func(x int) (int, error)");
    assert_eq!(rewrite_fn_syntax("fn(int, : string) -> T"), "func(int, string) T");
}

#[test]
fn rewrite_fn_syntax_handles_nested_and_repeated_types() {
    assert_eq!(
        rewrite_fn_syntax("fn(next: fn(x: int) -> int) -> fn(y: int) -> int"),
        "func(next func(x int) int) func(y int) int"
    );
    assert_eq!(
        rewrite_fn_syntax("pair(fn() -> int, fn() -> string)"),
        "pair(func() int, func() string)"
    );
}

#[test]
fn rewrite_fn_syntax_leaves_other_text_alone() {
    assert_eq!(rewrite_fn_syntax("define(fn, x)"), "define(fn, x)");
    assert_eq!(rewrite_fn_syntax("myfn(a) -> b"), "myfn(a) -> b");
    assert_eq!(rewrite_fn_syntax("fn(a)"), "fn(a)");
    assert_eq!(rewrite_fn_syntax(""), "");
}

#[test]
fn normalize_go_type_combines_fn_and_generic_syntax() {
    assert_eq!(normalize_go_type("  fn(m: Map<string, int>) -> Result<int>!  "), "func(m Map[string, int]) (Result[int], error)");
    assert_eq!(normalize_go_type("Option<T>"), "Option[T]");
}
