//! Moving between positions of a `.gp` source and of the Go file made from it, by way of
//! the source map written beside the Go file.
use vstd::prelude::*;

use crate::diag::{chars_before, lemma_chars_before_exact, line_col, line_col_of, line_col_spec};
use crate::text::{byte_len, char_width, lemma_byte_len_take, push_char, str_eq, str_to_string, to_chars};

verus! {

/// A position in a generated `.go` file.
#[derive(Debug, Clone)]
pub struct GoLocation {
    pub file: String,
    pub line: usize,
    pub column: usize,
    pub offset: usize,
}

/// A position in a `.gp` source file.
#[derive(Debug, Clone)]
pub struct GpLocation {
    pub file: String,
    pub line: usize,
    pub column: usize,
    pub offset: usize,
}

/// A source map: which byte ranges of the Go file came from which ranges of which sources.
#[derive(Debug, Clone)]
pub struct SourceMapFile {
    pub version: u8,
    pub generated: String,
    pub sources: Vec<String>,
    pub mappings: Vec<SourceMapMapping>,
}

#[derive(Debug, Clone)]
pub struct SourceMapMapping {
    pub source: String,
    pub source_start: usize,
    pub source_end: usize,
    pub generated_start: usize,
    pub generated_end: usize,
    pub kind: String,
    pub name: String,
}

// ----- line and column to offset -----

/// Scanning `s` at char `i`, whose position is (line, column): the scan stops there when
/// that is the target, or when `i` ends the target line.
pub open spec fn stops_at(s: Seq<char>, i: int, line: nat, col: nat) -> bool {
    let lc = line_col_of(s.take(i));
    (lc.0 == line && lc.1 == col) || (s[i] == '\n' && lc.0 == line)
}

/// `i` is the first char where the scan stops.
pub open spec fn first_stop(s: Seq<char>, i: int, line: nat, col: nat) -> bool {
    &&& 0 <= i < s.len()
    &&& stops_at(s, i, line, col)
    &&& forall|j: int| 0 <= j < i ==> !#[trigger] stops_at(s, j, line, col)
}

pub open spec fn never_stops(s: Seq<char>, line: nat, col: nat) -> bool {
    forall|j: int| 0 <= j < s.len() ==> !#[trigger] stops_at(s, j, line, col)
}

/// The byte offset of the 1-based `line` and `col` of `s`: that of the char there, of the
/// line's end when the line is shorter, of the text's end when `line` is its last line;
/// `None` when `s` has no such line.
pub open spec fn offset_at(s: Seq<char>, line: nat, col: nat, r: Option<usize>) -> bool {
    match r {
        Some(o) => (exists|i: int| first_stop(s, i, line, col) && o == byte_len(s.take(i)))
            || (never_stops(s, line, col) && line_col_of(s).0 == line && o == byte_len(s)),
        None => never_stops(s, line, col) && line_col_of(s).0 != line,
    }
}

proof fn lemma_line_col_bound(t: Seq<char>)
    ensures
        line_col_of(t).0 <= t.len() + 1,
        1 <= line_col_of(t).1 <= t.len() + 1,
    decreases t.len(),
{
    if t.len() > 0 {
        lemma_line_col_bound(t.drop_last());
    }
}

/// Reading on from char `j` to char `i` moves the position forward: to a later line, or
/// to a later column of the same line; past a newline, always to a later line.
proof fn lemma_positions_advance(s: Seq<char>, j: int, i: int)
    requires
        0 <= j < i <= s.len(),
    ensures
        line_col_of(s.take(j)).0 < line_col_of(s.take(i)).0 || (line_col_of(s.take(j)).0
            == line_col_of(s.take(i)).0 && line_col_of(s.take(j)).1 < line_col_of(s.take(i)).1),
        s[j] == '\n' ==> line_col_of(s.take(j)).0 < line_col_of(s.take(i)).0,
    decreases i - j,
{
    assert(s.take(i).drop_last() =~= s.take(i - 1));
    assert(s.take(i).last() == s[i - 1]);
    if i > j + 1 {
        lemma_positions_advance(s, j, i - 1);
    }
}

/// Every column before the one reached on a line was reached earlier on that line.
proof fn lemma_column_reached(s: Seq<char>, i: int, c: nat)
    requires
        0 <= i <= s.len(),
        1 <= c < line_col_of(s.take(i)).1,
    ensures
        exists|j: int|
            0 <= j < i && #[trigger] line_col_of(s.take(j)) == (line_col_of(s.take(i)).0, c),
    decreases i,
{
    if i == 0 {
    } else {
        assert(s.take(i).drop_last() =~= s.take(i - 1));
        assert(s.take(i).last() == s[i - 1]);
        if line_col_of(s.take(i - 1)).1 == c {
            assert(line_col_of(s.take(i - 1)) == (line_col_of(s.take(i)).0, c));
        } else {
            lemma_column_reached(s, i - 1, c);
            let j = choose|j: int|
                0 <= j < i - 1 && #[trigger] line_col_of(s.take(j)) == (line_col_of(s.take(i - 1)).0, c);
            assert(line_col_of(s.take(j)) == (line_col_of(s.take(i)).0, c));
        }
    }
}

/// The offset found for a line and a column (columns start at 1) lies on that line: at that
/// column, or, where the line is shorter, at its end (a newline, or the end of the text),
/// whose column comes before the one asked for.
pub proof fn law_offset_maps_back(s: Seq<char>, line: nat, col: nat, o: usize)
    requires
        col >= 1,
        offset_at(s, line, col, Some(o)),
    ensures
        line_col_spec(s, o as nat).0 == line,
        line_col_spec(s, o as nat).1 == col || (line_col_spec(s, o as nat).1 < col && (o
            == byte_len(s) || s[chars_before(s, o as nat) as int] == '\n')),
{
    if exists|i: int| first_stop(s, i, line, col) && o == byte_len(s.take(i)) {
        let i = choose|i: int| first_stop(s, i, line, col) && o == byte_len(s.take(i));
        lemma_chars_before_exact(s, i);
        if line_col_of(s.take(i)).1 > col {
            lemma_column_reached(s, i, col);
            let j = choose|j: int| 0 <= j < i && #[trigger] line_col_of(s.take(j)) == (line, col);
            assert(stops_at(s, j, line, col));
        }
    } else {
        lemma_chars_before_exact(s, s.len() as int);
        assert(s.take(s.len() as int) =~= s);
        if line_col_of(s).1 > col {
            lemma_column_reached(s, s.len() as int, col);
            let j = choose|j: int|
                0 <= j < s.len() && #[trigger] line_col_of(s.take(j)) == (line, col);
            assert(stops_at(s, j, line, col));
        }
    }
}

/// Every char boundary of the text comes back: the line and column found for its byte
/// offset lead back to that offset, and to no other.
pub proof fn law_position_round_trip(s: Seq<char>, i: int, r: Option<usize>)
    requires
        0 <= i <= s.len(),
        byte_len(s) <= usize::MAX,
        offset_at(
            s,
            line_col_spec(s, byte_len(s.take(i))).0,
            line_col_spec(s, byte_len(s.take(i))).1,
            r,
        ),
    ensures
        r == Some(byte_len(s.take(i)) as usize),
{
    lemma_chars_before_exact(s, i);
    let line = line_col_of(s.take(i)).0;
    let col = line_col_of(s.take(i)).1;
    assert(line_col_spec(s, byte_len(s.take(i))) == (line, col));
    assert forall|j: int| 0 <= j < i implies !#[trigger] stops_at(s, j, line, col) by {
        lemma_positions_advance(s, j, i);
    }
    if i < s.len() {
        assert(stops_at(s, i, line, col));
        assert(first_stop(s, i, line, col));
    } else {
        assert(s.take(i) =~= s);
        assert(never_stops(s, line, col));
    }
    if let Some(o) = r {
        if exists|k: int| first_stop(s, k, line, col) && o == byte_len(s.take(k)) {
            let k = choose|k: int| first_stop(s, k, line, col) && o == byte_len(s.take(k));
            if k < i {
                assert(!stops_at(s, k, line, col));
            } else if k > i {
                assert(!stops_at(s, i, line, col));
            }
        }
    }
    crate::text::lemma_byte_len_mono(s, i, s.len() as int);
}

/// Byte offset of 1-based `target_line` and `target_col` (columns count chars).
pub fn line_col_to_offset(source: &str, target_line: usize, target_col: usize) -> (r: Option<usize>)
    requires
        byte_len(source@) <= usize::MAX,
        source@.len() < usize::MAX,
    ensures
        offset_at(source@, target_line as nat, target_col as nat, r),
{
    let v = to_chars(source);
    let ghost s = v@;
    let n = v.len();
    let mut line: usize = 1;
    let mut col: usize = 1;
    let mut byte: usize = 0;
    let mut i: usize = 0;
    assert(s.take(0) =~= Seq::<char>::empty());
    while i < n
        invariant
            s == v@,
            s == source@,
            n == s.len(),
            n < usize::MAX,
            byte_len(s) <= usize::MAX,
            0 <= i <= n,
            line_col_of(s.take(i as int)) == (line as nat, col as nat),
            byte == byte_len(s.take(i as int)),
            forall|j: int| 0 <= j < i ==> !#[trigger] stops_at(s, j, target_line as nat, target_col as nat),
        decreases n - i,
    {
        proof {
            lemma_line_col_bound(s.take(i as int));
            lemma_byte_len_take(s, i as int);
            crate::text::lemma_byte_len_mono(s, i + 1, n as int);
            assert(s.take(n as int) =~= s);
            assert(s.take(i + 1).drop_last() =~= s.take(i as int));
            assert(s.take(i + 1).last() == s[i as int]);
        }
        let ch = v[i];
        if line == target_line && col == target_col {
            assert(first_stop(s, i as int, target_line as nat, target_col as nat));
            return Some(byte);
        }
        if ch == '\n' {
            if line == target_line {
                assert(first_stop(s, i as int, target_line as nat, target_col as nat));
                return Some(byte);
            }
            line = line + 1;
            col = 1;
        } else {
            col = col + 1;
        }
        byte = byte + char_width(ch);
        i = i + 1;
    }
    assert(s.take(n as int) =~= s);
    if line == target_line {
        Some(byte)
    } else {
        None
    }
}

// ----- paths -----

pub open spec fn slash(c: char) -> char {
    if c == '\\' {
        '/'
    } else {
        c
    }
}

/// The path with each backslash made a slash.
pub open spec fn normalized(p: Seq<char>) -> Seq<char> {
    p.map_values(|c: char| slash(c))
}

pub fn normalize_path(path: &str) -> (r: String)
    ensures
        r@ == normalized(path@),
{
    let v = to_chars(path);
    let mut r = String::new();
    let mut i: usize = 0;
    while i < v.len()
        invariant
            0 <= i <= v@.len(),
            v@ == path@,
            r@ == normalized(v@.take(i as int)),
        decreases v@.len() - i,
    {
        let c = v[i];
        if c == '\\' {
            push_char(&mut r, '/');
        } else {
            push_char(&mut r, c);
        }
        assert(normalized(v@.take(i + 1)) =~= normalized(v@.take(i as int)).push(slash(c)));
        i = i + 1;
    }
    assert(v@.take(v@.len() as int) =~= v@);
    r
}

// ----- choosing a mapping -----

/// The mapping comes from the source at `path` and its range holds `offset`.
pub open spec fn gp_hit(m: SourceMapMapping, path: Seq<char>, offset: nat) -> bool {
    normalized(m.source@) == normalized(path) && m.source_start <= offset <= m.source_end
}

/// The mapping's generated range holds `offset`.
pub open spec fn go_hit(m: SourceMapMapping, offset: nat) -> bool {
    m.generated_start <= offset <= m.generated_end
}

pub open spec fn gp_width(m: SourceMapMapping) -> int {
    m.source_end - m.source_start
}

pub open spec fn go_width(m: SourceMapMapping) -> int {
    m.generated_end - m.generated_start
}

/// `i` is the narrowest mapping that `hit` admits, the first of them where several are.
pub open spec fn narrowest(
    ms: Seq<SourceMapMapping>,
    hit: spec_fn(SourceMapMapping) -> bool,
    width: spec_fn(SourceMapMapping) -> int,
    i: int,
) -> bool {
    &&& 0 <= i < ms.len()
    &&& hit(ms[i])
    &&& forall|j: int| 0 <= j < ms.len() && hit(ms[j]) ==> width(ms[i]) <= width(#[trigger] ms[j])
    &&& forall|j: int| 0 <= j < i && hit(ms[j]) ==> width(ms[i]) < width(#[trigger] ms[j])
}

pub open spec fn chosen(
    ms: Seq<SourceMapMapping>,
    hit: spec_fn(SourceMapMapping) -> bool,
    width: spec_fn(SourceMapMapping) -> int,
    r: Option<usize>,
) -> bool {
    match r {
        Some(i) => narrowest(ms, hit, width, i as int),
        None => forall|j: int| 0 <= j < ms.len() ==> !hit(#[trigger] ms[j]),
    }
}

/// The narrowest mapping from the `.gp` file at `gp_path` whose source range holds `offset`.
pub fn narrowest_gp_mapping(map: &SourceMapFile, gp_path: &str, offset: usize) -> (r: Option<usize>)
    ensures
        chosen(
            map.mappings@,
            |m: SourceMapMapping| gp_hit(m, gp_path@, offset as nat),
            |m: SourceMapMapping| gp_width(m),
            r,
        ),
{
    let ghost hit = |m: SourceMapMapping| gp_hit(m, gp_path@, offset as nat);
    let ghost width = |m: SourceMapMapping| gp_width(m);
    let ms = &map.mappings;
    let target = normalize_path(gp_path);
    let mut best: Option<usize> = None;
    let mut i: usize = 0;
    while i < ms.len()
        invariant
            0 <= i <= ms@.len(),
            target@ == normalized(gp_path@),
            hit == (|m: SourceMapMapping| gp_hit(m, gp_path@, offset as nat)),
            width == (|m: SourceMapMapping| gp_width(m)),
            chosen(ms@.take(i as int), hit, width, best),
        decreases ms@.len() - i,
    {
        let m = &ms[i];
        let src = normalize_path(m.source.as_str());
        let is_hit = str_eq(src.as_str(), target.as_str()) && m.source_start <= offset && offset
            <= m.source_end;
        assert(is_hit == hit(ms@[i as int]));
        let ghost prev = ms@.take(i as int);
        assert(ms@.take(i + 1) =~= prev.push(ms@[i as int]));
        if is_hit {
            match best {
                None => {
                    best = Some(i);
                },
                Some(b) => {
                    if m.source_end - m.source_start < ms[b].source_end - ms[b].source_start {
                        best = Some(i);
                    }
                },
            }
        }
        i = i + 1;
    }
    assert(ms@.take(ms@.len() as int) =~= ms@);
    best
}

/// The narrowest mapping whose generated range holds `offset`.
pub fn narrowest_go_mapping(map: &SourceMapFile, offset: usize) -> (r: Option<usize>)
    ensures
        chosen(
            map.mappings@,
            |m: SourceMapMapping| go_hit(m, offset as nat),
            |m: SourceMapMapping| go_width(m),
            r,
        ),
{
    let ghost hit = |m: SourceMapMapping| go_hit(m, offset as nat);
    let ghost width = |m: SourceMapMapping| go_width(m);
    let ms = &map.mappings;
    let mut best: Option<usize> = None;
    let mut i: usize = 0;
    while i < ms.len()
        invariant
            0 <= i <= ms@.len(),
            hit == (|m: SourceMapMapping| go_hit(m, offset as nat)),
            width == (|m: SourceMapMapping| go_width(m)),
            chosen(ms@.take(i as int), hit, width, best),
        decreases ms@.len() - i,
    {
        let m = &ms[i];
        let is_hit = m.generated_start <= offset && offset <= m.generated_end;
        let ghost prev = ms@.take(i as int);
        assert(ms@.take(i + 1) =~= prev.push(ms@[i as int]));
        if is_hit {
            match best {
                None => {
                    best = Some(i);
                },
                Some(b) => {
                    if m.generated_end - m.generated_start < ms[b].generated_end
                        - ms[b].generated_start {
                        best = Some(i);
                    }
                },
            }
        }
        i = i + 1;
    }
    assert(ms@.take(ms@.len() as int) =~= ms@);
    best
}

// ----- the two lookups, given the texts of the files -----

/// Where the mapping at `idx` starts in the generated file, whose text is `generated`.
pub fn go_location(map: &SourceMapFile, idx: usize, generated: &str) -> (r: GoLocation)
    requires
        idx < map.mappings@.len(),
        generated@.len() < usize::MAX,
    ensures
        r.file@ == map.generated@,
        r.offset == map.mappings@[idx as int].generated_start,
        (r.line as nat, r.column as nat) == line_col_spec(
            generated@,
            map.mappings@[idx as int].generated_start as nat,
        ),
{
    let start = map.mappings[idx].generated_start;
    let (line, column) = line_col(generated, start);
    GoLocation { file: str_to_string(map.generated.as_str()), line, column, offset: start }
}

/// Where the mapping at `idx` starts in its source, whose text is `source`.
pub fn gp_location(map: &SourceMapFile, idx: usize, source: &str) -> (r: GpLocation)
    requires
        idx < map.mappings@.len(),
        source@.len() < usize::MAX,
    ensures
        r.file@ == map.mappings@[idx as int].source@,
        r.offset == map.mappings@[idx as int].source_start,
        (r.line as nat, r.column as nat) == line_col_spec(
            source@,
            map.mappings@[idx as int].source_start as nat,
        ),
{
    let m = &map.mappings[idx];
    let (line, column) = line_col(source, m.source_start);
    GpLocation { file: str_to_string(m.source.as_str()), line, column, offset: m.source_start }
}

} // verus!
