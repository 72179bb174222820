use goplus::codegen::fmt::format_gp;
use goplus::parser::parse_program;

#[test]
fn format_round_trip_simple() {
    let input = "package main\n\nimport \"fmt\"\n\nfn main() {\n\tfmt.Println(\"hello\")\n}\n";
    let program = parse_program(input).expect("parse");
    let formatted = format_gp(&program, input);
    assert!(formatted.contains("package main"));
    assert!(formatted.contains("import \"fmt\""));
    assert!(formatted.contains("fn main()"));
}

#[test]
fn format_enum_with_derive() {
    let input = r#"package main

@derive(String)
enum Status {
    Pending
    Running
    Done
}
"#;
    let program = parse_program(input).expect("parse");
    let formatted = format_gp(&program, input);
    assert!(formatted.contains("@derive(String)"));
    assert!(formatted.contains("enum Status {"));
    assert!(formatted.contains("\tPending"));
}

#[test]
fn format_decorated_function() {
    let input = r#"package main

import "fmt"

@log
@retry(3, 100)
fn readName() -> string! {
    return "goplus"
}
"#;
    let program = parse_program(input).expect("parse");
    let formatted = format_gp(&program, input);
    assert!(formatted.contains("@log"));
    assert!(formatted.contains("@retry(3, 100)"));
    assert!(formatted.contains("fn readName() -> string!"));
}

#[test]
fn format_is_a_fixed_point_on_canonical_text() {
    let input = "package main\n\nimport \"fmt\"\n\nfn main() {\n\tfmt.Println(\"hello\")\n}\n";
    let program = parse_program(input).expect("parse");
    assert_eq!(format_gp(&program, input), input);
}

#[test]
fn format_groups_several_imports_and_lays_out_match_and_if() {
    // an `else if` chain is written with no tabs before its later braces

    let input = r#"package main
import "fmt"
import "os"
enum Shape {
  Circle(int)
  Empty
}
fn area(s: Shape, n: int) -> int {
  if n > 0 {
    return 1
  } else if n == 0 {
    return 2
  } else {
    v := load()?
  }
  match s {
    Shape::Circle(r) => r,
    _ => {
      return 0
    }
  }
}
"#;
    let program = parse_program(input).expect("parse");
    let formatted = format_gp(&program, input);
    let expected = "package main\n\nimport (\n\t\"fmt\"\n\t\"os\"\n)\n\nenum Shape {\n\tCircle(int)\n\tEmpty\n}\n\nfn area(s: Shape, n: int) -> int {\n\tif n > 0 {\n\t\treturn 1\n\t} else if n == 0 {\n\t\treturn 2\n} else {\n\t\tv := load()?\n}\n\tmatch s {\n\t\tShape::Circle(r) => r\n\t\t_ => {\n\t\t\treturn 0\n\t\t}\n\t}\n}\n";
    assert_eq!(formatted, expected);
}

#[test]
fn format_writes_pointer_methods_with_mut() {
    let input = r#"package main
struct Counter {
    n: int
}
impl Counter {
    @log
    fn bump(mut self, step: int) {
        n := step
    }
    fn get(self) -> int {
        return 1
    }
}
"#;
    let program = parse_program(input).expect("parse");
    let formatted = format_gp(&program, input);
    let expected = "package main\n\nstruct Counter {\n\tn: int\n}\n\nimpl Counter {\n\t@log\n\tfn mut bump(step: int) {\n\t\tn := step\n\t}\n\n\tfn get() -> int {\n\t\treturn 1\n\t}\n}\n";
    assert_eq!(formatted, expected);
}

#[test]
fn format_keeps_every_derive_target() {
    let src = "package main\n\n@derive(Debug, JSON)\nstruct User {\n    name: string\n}\n";
    let program = goplus::parser::parse_program(src).expect("parses");
    let formatted = goplus::codegen::fmt::format_gp(&program, src);
    assert!(formatted.contains("@derive(Debug, JsonMarshal, JsonUnmarshal)"));
}
