use goplus::codegen::generate_go;
use goplus::compiler::cache::{package_cache_key, GoSupportFile, SourceText};
use goplus::compiler::project::{analyze_package, gather_package, item_sources, merge_programs, ParsedFile};
use goplus::compiler::source_map::build_source_map;
use goplus::parser::parse_program;

fn parsed(path: &str, source: &str) -> ParsedFile {
    ParsedFile { path: path.to_string(), source: source.to_string(), parsed: parse_program(source) }
}

#[test]
fn source_map_maps_functions_statements_and_arms() {
    let main_src = "package main\n\nfn main() -> ! {\n    x := 1\n    return\n}\n";
    let enum_src = "package main\n\nenum Status {\n    Pending\n    Done\n}\n\nfn label(s: Status) -> string {\n    match s {\n        Status::Pending => \"p\",\n        _ => \"d\",\n    }\n}\n";
    let files = vec![parsed("main.gp", main_src), parsed("status.gp", enum_src)];
    let mut pkg = gather_package(files).ok().expect("one package");
    let model = analyze_package(&mut pkg).ok().expect("analysis");
    let sources = item_sources(&pkg.units);
    assert_eq!(sources, vec!["main.gp", "status.gp", "status.gp"]);
    let paths: Vec<String> = pkg.units.iter().map(|u| u.path.clone()).rev().collect();
    let programs = pkg.units.into_iter().map(|u| u.program).collect();
    let merged = merge_programs("main", programs);
    let generated = generate_go(&merged, &model);
    let map = build_source_map(&merged, &sources, &paths, "out/zz_goplus_gen.go", &generated);
    assert_eq!(map.version, 1);
    assert_eq!(map.generated, "out/zz_goplus_gen.go");
    assert_eq!(map.sources, vec!["main.gp", "status.gp"]);
    let kinds: Vec<(&str, &str, &str)> = map
        .mappings
        .iter()
        .map(|m| (m.source.as_str(), m.kind.as_str(), m.name.as_str()))
        .collect();
    assert_eq!(
        kinds,
        vec![
            ("main.gp", "function", "main"),
            ("main.gp", "statement", "x"),
            ("main.gp", "statement", "return"),
            ("status.gp", "declaration", "Status"),
            ("status.gp", "function", "label"),
            ("status.gp", "statement", "match"),
            ("status.gp", "match_arm", "Pending"),
            ("status.gp", "match_arm", "_"),
        ]
    );
    let f = &map.mappings[0];
    let line = &generated[f.generated_start..f.generated_end];
    assert!(line.starts_with("func mainWarp()"));
    assert_eq!(f.source_start, main_src.find("fn main").unwrap());
    let x = &map.mappings[1];
    assert!(generated[x.generated_start..x.generated_end].contains("x := 1"));
}

#[test]
fn package_cache_key_is_the_sha256_of_its_inputs() {
    let units = vec![SourceText { path: "a.gp".to_string(), source: "src".to_string() }];
    let go_files = vec![GoSupportFile { path: "b.go".to_string(), content: vec![1, 2] }];
    let key = package_cache_key("0.1.0", "main", &units, "gen", &go_files);
    assert_eq!(key, "23a60863c31ebe6cb1f01c425636a2cc1c00ac6e6ab0cf7e059e7a3741d55660");
    let bare = package_cache_key("0.1.0", "main", &Vec::new(), "gen", &Vec::new());
    assert_eq!(bare, "630235f286ed001b78c423f7c897c9814f626d08d3ecf9ec208879b3ed0c38d3");
}
