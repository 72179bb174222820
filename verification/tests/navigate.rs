use goplus::diag::line_col;
use goplus::compiler::navigate::{
    go_location, gp_location, line_col_to_offset, narrowest_go_mapping, narrowest_gp_mapping,
    normalize_path, SourceMapFile, SourceMapMapping,
};

fn mapping(source: &str, s0: usize, s1: usize, g0: usize, g1: usize, name: &str) -> SourceMapMapping {
    SourceMapMapping {
        source: source.to_string(),
        source_start: s0,
        source_end: s1,
        generated_start: g0,
        generated_end: g1,
        kind: "function".to_string(),
        name: name.to_string(),
    }
}

fn sample_map() -> SourceMapFile {
    SourceMapFile {
        version: 1,
        generated: "out/zz_goplus_gen.go".to_string(),
        sources: vec!["src\\main.gp".to_string()],
        mappings: vec![
            mapping("src\\main.gp", 0, 40, 0, 100, "outer"),
            mapping("src\\main.gp", 10, 20, 30, 50, "inner"),
            mapping("src\\main.gp", 12, 22, 35, 55, "same_width"),
            mapping("other.gp", 0, 5, 0, 5, "other"),
        ],
    }
}

#[test]
fn line_col_to_offset_basic() {
    let source = "hello\nworld\n";
    assert_eq!(line_col_to_offset(source, 1, 1), Some(0));
    assert_eq!(line_col_to_offset(source, 1, 6), Some(5));
    assert_eq!(line_col_to_offset(source, 2, 1), Some(6));
    assert_eq!(line_col_to_offset(source, 2, 3), Some(8));
}

#[test]
fn line_col_to_offset_clamps_and_counts_bytes() {
    let source = "héllo\nab";
    // past the end of line 1: the newline's byte offset
    assert_eq!(line_col_to_offset(source, 1, 40), Some(6));
    // columns count chars, offsets count bytes
    assert_eq!(line_col_to_offset(source, 1, 3), Some(3));
    // last line without a newline: the end of the text
    assert_eq!(line_col_to_offset(source, 2, 9), Some(9));
    // no such line
    assert_eq!(line_col_to_offset(source, 3, 1), None);
}

#[test]
fn normalize_path_turns_backslashes() {
    assert_eq!(normalize_path("a\\b/c\\d.gp"), "a/b/c/d.gp");
}

#[test]
fn narrowest_gp_mapping_prefers_the_first_narrowest() {
    let map = sample_map();
    assert_eq!(narrowest_gp_mapping(&map, "src/main.gp", 15), Some(1));
    assert_eq!(narrowest_gp_mapping(&map, "src/main.gp", 21), Some(2));
    assert_eq!(narrowest_gp_mapping(&map, "src/main.gp", 30), Some(0));
    assert_eq!(narrowest_gp_mapping(&map, "src/main.gp", 41), None);
    assert_eq!(narrowest_gp_mapping(&map, "other.gp", 3), Some(3));
}

#[test]
fn narrowest_go_mapping_by_generated_range() {
    let map = sample_map();
    assert_eq!(narrowest_go_mapping(&map, 3), Some(3));
    assert_eq!(narrowest_go_mapping(&map, 40), Some(1));
    assert_eq!(narrowest_go_mapping(&map, 52), Some(2));
    assert_eq!(narrowest_go_mapping(&map, 101), None);
}

#[test]
fn locations_report_line_and_column_of_the_mapping_start() {
    let map = sample_map();
    let generated = "package main\n\nfunc main() {\n\tx := 1\n}\n";
    let go = go_location(&map, 1, generated);
    assert_eq!(go.file, "out/zz_goplus_gen.go");
    assert_eq!((go.line, go.column, go.offset), (4, 3, 30));
    let source = "package main\n\nfn main() {\n}\n";
    let gp = gp_location(&map, 1, source);
    assert_eq!(gp.file, "src\\main.gp");
    assert_eq!((gp.line, gp.column, gp.offset), (1, 11, 10));
}

#[test]
fn offset_of_a_line_and_column_maps_back() {
    let source = "ab\nxé z\n";
    let offset = line_col_to_offset(source, 2, 3).expect("line 2 exists");
    assert_eq!(goplus::diag::line_col(source, offset), (2, 3));
    let clamped = line_col_to_offset(source, 1, 9).expect("line 1 exists");
    assert_eq!(goplus::diag::line_col(source, clamped), (1, 3));
}

#[test]
fn every_char_boundary_round_trips_through_line_and_column() {
    let source = "fn a() {\n  é := 1\n\n}";
    let mut offsets: Vec<usize> = source.char_indices().map(|(o, _)| o).collect();
    offsets.push(source.len());
    for offset in offsets {
        let (line, col) = line_col(source, offset);
        assert_eq!(line_col_to_offset(source, line, col), Some(offset), "offset {offset}");
    }
}

#[test]
fn a_column_past_the_line_end_stops_at_the_line_end() {
    let source = "ab\ncd";
    let offset = line_col_to_offset(source, 1, 9).unwrap();
    assert_eq!(offset, 2);
    assert_eq!(line_col(source, offset), (1, 3));
    let end = line_col_to_offset(source, 2, 7).unwrap();
    assert_eq!(end, 5);
    assert_eq!(line_col(source, end), (2, 3));
    assert_eq!(line_col_to_offset(source, 3, 1), None);
}
