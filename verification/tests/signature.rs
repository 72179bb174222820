use goplus::sema::{count_func_params, parse_func_type_parts};

#[test]
fn parse_func_type_basic() {
    let (params, ret) = parse_func_type_parts("func(path string) (string, error)").unwrap();
    assert_eq!(params, "path string");
    assert!(ret.contains("string"));
    assert!(ret.contains("error"));
}

#[test]
fn count_params_empty() {
    assert_eq!(count_func_params(""), 0);
}

#[test]
fn count_params_two() {
    assert_eq!(count_func_params("a string, b int"), 2);
}

#[test]
fn count_params_nested() {
    assert_eq!(count_func_params("a func(int, int), b string"), 2);
}
