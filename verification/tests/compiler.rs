use goplus::compiler::walk::{build_order, PackageNode, PackageWalk};
use goplus::codegen::generate_go;
use goplus::compiler::module::{
    go_run_target, import_segments, module_name_from_go_mod, skips_output_dir, split_string,
};
use goplus::compiler::project::{
    file_has_extension, select_source_files,
    analyze_package, gather_package, has_multiple_executable_entries, is_executable_entry,
    merge_programs, render_unit_diagnostics,
    render_unit_diagnostics_json, render_unit_diagnostics_with_format, DiagnosticFormat,
    ParsedFile, UnitDiagnostics,
};
use goplus::diag::Diagnostic;
use goplus::parser::parse_program;

fn parsed(path: &str, source: &str) -> ParsedFile {
    ParsedFile {
        path: path.to_string(),
        source: source.to_string(),
        parsed: parse_program(source),
    }
}

#[test]
fn gather_package_accepts_files_of_one_package() {
    let files = vec![
        parsed("a.gp", "package main\n\nfn a() {\n    return\n}\n"),
        parsed("b.gp", "package main\n\nfn b() {\n    return\n}\n"),
    ];
    let pkg = gather_package(files).ok().expect("one package");
    assert_eq!(pkg.package_name, "main");
    assert_eq!(pkg.units.len(), 2);
    assert_eq!(pkg.units[1].path, "b.gp");
}

#[test]
fn gather_package_reports_a_package_mismatch() {
    let files = vec![
        parsed("a.gp", "package main\n"),
        parsed("b.gp", "package other\n"),
    ];
    let failures = gather_package(files).err().expect("mismatch");
    assert_eq!(failures.len(), 1);
    assert_eq!(failures[0].path, "b.gp");
    let d = &failures[0].diagnostics[0];
    assert_eq!(d.message, "package `other` does not match package `main`");
    assert_eq!(d.code, "E0400");
    assert_eq!(
        d.hint.as_deref(),
        Some("all `.gp` files in a package directory must use the same package name")
    );
}

#[test]
fn gather_package_of_no_files_is_main() {
    let pkg = gather_package(Vec::new()).ok().expect("empty package");
    assert_eq!(pkg.package_name, "main");
    assert!(pkg.units.is_empty());
}

#[test]
fn analyze_package_sees_enums_of_other_files() {
    let files = vec![
        parsed("types.gp", "package main\n\nenum Status {\n    Pending\n    Done\n}\n"),
        parsed(
            "use.gp",
            "package main\n\nfn label(s: Status) -> string {\n    match s {\n        Status::Pending => \"p\",\n    }\n}\n",
        ),
    ];
    let mut pkg = gather_package(files).ok().expect("one package");
    let failures = analyze_package(&mut pkg).err().expect("non-exhaustive match");
    assert_eq!(failures.len(), 1);
    assert_eq!(failures[0].path, "use.gp");
    assert!(failures[0].diagnostics.iter().any(|d| d.code == "E0204"));
}

#[test]
fn merge_programs_keeps_file_order() {
    let a = parse_program("package main\n\nimport \"fmt\"\n\nfn a() {\n    return\n}\n").expect("a");
    let b = parse_program("package main\n\nimport \"os\"\n\nfn b() {\n    return\n}\n").expect("b");
    let merged = merge_programs("main", vec![a, b]);
    assert_eq!(merged.imports, vec!["fmt".to_string(), "os".to_string()]);
    assert_eq!(merged.items.len(), 2);
    assert_eq!(merged.span.start, 0);
    assert_eq!(merged.span.end, 0);
}

#[test]
fn merged_package_generates_one_go_file() {
    let files = vec![
        parsed("main.gp", "package main\n\nfn main() -> ! {\n    printMessage()\n    return\n}\n"),
        parsed("helper.gp", "package main\n\nfn printMessage() {\n    fmt.Println(\"hi\")\n}\n"),
    ];
    let mut pkg = gather_package(files).ok().expect("one package");
    let model = analyze_package(&mut pkg).ok().expect("analysis");
    let programs = pkg.units.into_iter().map(|u| u.program).collect();
    let merged = merge_programs(&pkg.package_name, programs);
    let go = generate_go(&merged, &model);
    assert!(go.contains("func mainWarp() error"));
    assert!(go.contains("func printMessage()"));
}

#[test]
fn render_unit_diagnostics_joins_with_newlines() {
    let items = vec![
        UnitDiagnostics {
            path: "a.gp".to_string(),
            source: "package main\n".to_string(),
            diagnostics: vec![Diagnostic::new("first".to_string(), None)],
        },
        UnitDiagnostics {
            path: "b.gp".to_string(),
            source: "package main\n".to_string(),
            diagnostics: vec![Diagnostic::new("second".to_string(), None)],
        },
    ];
    assert_eq!(
        render_unit_diagnostics(&items),
        "a.gp: error E0000: first\nb.gp: error E0000: second"
    );
    let json = render_unit_diagnostics_json(&items);
    assert!(json.starts_with("{\"diagnostics\":[{"));
    assert!(json.ends_with("}]}"));
    assert_eq!(
        render_unit_diagnostics_with_format(&items, DiagnosticFormat::Json),
        json
    );
    assert_eq!(render_unit_diagnostics_json(&Vec::new()), "{\"diagnostics\":[]}");
}

#[test]
fn module_name_from_go_mod_reads_the_module_line() {
    let content = "// generated\n\nmodule example.com/demo\n\ngo 1.23.0\n";
    assert_eq!(module_name_from_go_mod(content), Some("example.com/demo".to_string()));
    assert_eq!(module_name_from_go_mod("go 1.23\nmodule \n"), None);
    assert_eq!(module_name_from_go_mod("  module   a/b  \r\nmodule c\n"), Some("a/b".to_string()));
}

#[test]
fn import_segments_of_local_packages() {
    assert_eq!(import_segments("example.com/demo", "example.com/demo"), Some(Vec::new()));
    assert_eq!(
        import_segments("example.com/demo/pkg/support", "example.com/demo"),
        Some(vec!["pkg".to_string(), "support".to_string()])
    );
    assert_eq!(import_segments("example.com/demolition", "example.com/demo"), None);
    assert_eq!(import_segments("fmt", "example.com/demo"), None);
}

#[test]
fn split_string_keeps_empty_pieces() {
    assert_eq!(split_string("a//b", '/'), vec!["a", "", "b"]);
    assert_eq!(split_string("", '/'), vec![""]);
}

#[test]
fn go_run_target_of_relative_dirs() {
    assert_eq!(go_run_target(""), ".");
    assert_eq!(go_run_target("cmd\\demo"), "./cmd/demo");
    assert_eq!(go_run_target("././cmd"), "./cmd");
}

#[test]
fn skips_output_dir_names() {
    assert!(skips_output_dir(".goplusgen"));
    assert!(skips_output_dir(".git"));
    assert!(!skips_output_dir("cmd"));
}

#[test]
fn executable_entries_need_package_main_and_fn_main() {
    assert!(is_executable_entry("package main\n\nfn main() -> ! {\n    return\n}\n"));
    assert!(is_executable_entry("  package main  \r\n    fn main(x) {}"));
    assert!(!is_executable_entry("package main\n\nfn helper() {}\n"));
    assert!(!is_executable_entry("package lib\nfn main() {}\n"));
    assert!(!is_executable_entry("package main // app\nfn main() {}\n"));
    let one = vec!["package main\nfn main() {}".to_string(), "package main\nfn other() {}".to_string()];
    assert!(!has_multiple_executable_entries(&one));
    let two = vec!["package main\nfn main() {}".to_string(), "package main\nfn main() {}".to_string()];
    assert!(has_multiple_executable_entries(&two));
}

#[test]
fn package_walk_hands_out_each_directory_once_in_breadth_first_order() {
    let mut walk = PackageWalk::new("app");
    assert_eq!(walk.next_package().as_deref(), Some("app"));
    walk.discovered(&vec!["app/a".to_string(), "app/b".to_string(), "app".to_string()]);
    assert_eq!(walk.next_package().as_deref(), Some("app/a"));
    walk.discovered(&vec!["app/b".to_string(), "app/c".to_string()]);
    assert_eq!(walk.next_package().as_deref(), Some("app/b"));
    assert_eq!(walk.next_package().as_deref(), Some("app/c"));
    assert_eq!(walk.next_package(), None);
}

#[test]
fn diagnostics_fixture_reports_codes_spans_and_hints() {
    // A `@retry` on a function without an error result, with an argument that is no number.
    let source = "package main\n\n@retry(abc)\nfn load() -> string {\n    return \"x\"\n}\n";
    let mut program = parse_program(source).expect("fixture parses");
    let diagnostics = goplus::sema::analyze(&mut program).expect_err("fixture should fail");
    let items = vec![UnitDiagnostics {
        path: "diagnostics/bad_retry.gp".to_string(),
        source: source.to_string(),
        diagnostics,
    }];
    let rendered = render_unit_diagnostics_json(&items);
    assert!(rendered.contains(r#""code":"E0303""#));
    assert!(rendered.contains(r#""code":"E0305""#));
    assert!(rendered.contains(r#""span""#));
    assert!(rendered.contains(r#""hint""#));
}

fn package(dir: &str, imports: &[&str]) -> PackageNode {
    PackageNode { dir: dir.to_string(), imports: imports.iter().map(|i| i.to_string()).collect() }
}

#[test]
fn build_order_puts_dependencies_first() {
    // the entry imports a and b, and a imports b: b, then a, then the entry
    let nodes = vec![
        package("app", &["app/a", "app/b"]),
        package("app/a", &["app/b"]),
        package("app/b", &[]),
    ];
    assert_eq!(build_order(&nodes), Ok(vec![2, 1, 0]));
}

#[test]
fn build_order_takes_the_first_ready_package_at_each_step() {
    let nodes = vec![
        package("app", &["app/c", "app/a"]),
        package("app/a", &[]),
        package("app/b", &[]),
        package("app/c", &["app/b", "outside/pkg"]),
    ];
    assert_eq!(build_order(&nodes), Ok(vec![1, 2, 3, 0]));
}

#[test]
fn build_order_refuses_an_import_cycle() {
    // b imports the entry back: the three packages are left, in index order
    let nodes = vec![
        package("app", &["app/a", "app/b"]),
        package("app/a", &["app/b"]),
        package("app/b", &["app"]),
    ];
    assert_eq!(build_order(&nodes), Err(vec![0, 1, 2]));
}

#[test]
fn build_order_lists_only_the_packages_left_in_a_cycle() {
    let nodes = vec![
        package("app", &["app/a"]),
        package("app/a", &["app/b"]),
        package("app/b", &["app/a"]),
        package("app/c", &[]),
    ];
    assert_eq!(build_order(&nodes), Err(vec![0, 1, 2]));
    let self_import = vec![package("app", &["app"])];
    assert_eq!(build_order(&self_import), Err(vec![0]));
    assert_eq!(build_order(&Vec::new()), Ok(Vec::new()));
}

#[test]
fn source_files_are_picked_by_extension_and_sorted() {
    let names: Vec<String> = ["b.gp", "notes.txt", "a.gp", "z.go", ".gp", "helpers.go", "x.gpx"]
        .iter()
        .map(|n| n.to_string())
        .collect();
    let selected = select_source_files(&names).expect("a .gp file is there");
    assert_eq!(selected.gp_files, vec!["a.gp".to_string(), "b.gp".to_string()]);
    assert_eq!(selected.go_files, vec!["helpers.go".to_string(), "z.go".to_string()]);
}

#[test]
fn a_directory_without_gp_files_is_refused() {
    let names: Vec<String> = ["main.go", ".gp", "readme.md"].iter().map(|n| n.to_string()).collect();
    assert!(select_source_files(&names).is_none());
    assert!(select_source_files(&Vec::new()).is_none());
    assert!(file_has_extension("main.gp", "gp"));
    assert!(!file_has_extension(".gp", "gp"));
    assert!(!file_has_extension("main.gpx", "gp"));
    assert!(file_has_extension("..gp", "gp"));
}
