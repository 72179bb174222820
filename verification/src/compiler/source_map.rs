//! Source maps: which lines of the generated Go file came from which declarations and
//! statements of the `.gp` sources. Each is found by searching the generated text, from
//! where the previous one was found, for a line that it must have produced.
use vstd::prelude::*;

use crate::ast::{
    Block, ElseBranch, FnDecl, IfStmt, ImplBlock, Item, MatchArm, MatchStmt, MethodDecl,
    Pattern, Program, ReturnType, Span, Stmt, pattern_variant,
};
use crate::compiler::module::{split_on, split_string};
use crate::compiler::navigate::{SourceMapFile, SourceMapMapping};
use crate::order::{insert_sorted, lemma_sorted_list, lemma_to_set_empty, sorted_list, strictly_sorted};
use crate::text::{
    byte_len, char_width, find_from, lemma_byte_len_take, occurs_at, push_str, str_eq,
    str_to_string, to_chars, trim, trim_string, views,
};

verus! {

// ----- finding a line of the generated text -----

/// The first place at or after `from` where `p` occurs in `s`.
pub open spec fn first_from(s: Seq<char>, p: Seq<char>, from: int) -> Option<int> {
    if exists|i: int| from <= i && occurs_at(s, p, i) {
        Some(
            choose|i: int|
                from <= i && occurs_at(s, p, i) && forall|j: int|
                    from <= j < i ==> !occurs_at(s, p, j),
        )
    } else {
        None
    }
}

proof fn lemma_first_from(s: Seq<char>, p: Seq<char>, from: int, i: int)
    requires
        from <= i,
        occurs_at(s, p, i),
        forall|j: int| from <= j < i ==> !occurs_at(s, p, j),
    ensures
        first_from(s, p, from) == Some(i),
{
    let c = choose|c: int|
        from <= c && occurs_at(s, p, c) && forall|j: int| from <= j < c ==> !occurs_at(s, p, j);
    assert(from <= c && occurs_at(s, p, c));
    if c < i {
        assert(!occurs_at(s, p, c));
    }
    if i < c {
        assert(!occurs_at(s, p, i));
    }
}

/// Where the line holding char `o` starts.
pub open spec fn line_start(g: Seq<char>, o: int) -> int
    decreases o,
{
    if o <= 0 {
        0
    } else if g[o - 1] == '\n' {
        o
    } else {
        line_start(g, o - 1)
    }
}

/// Where the line holding char `o` ends: at its newline, or at the end of the text.
pub open spec fn line_end(g: Seq<char>, o: int) -> int
    decreases g.len() - o,
{
    if o >= g.len() {
        g.len() as int
    } else if g[o] == '\n' {
        o
    } else {
        line_end(g, o + 1)
    }
}

/// The line of `g` where `p` first occurs at or after `from`, as char positions.
pub open spec fn line_range(g: Seq<char>, p: Seq<char>, from: int) -> Option<(int, int)> {
    if p.len() == 0 || from > g.len() {
        None
    } else {
        match first_from(g, p, from) {
            Some(o) => Some((line_start(g, o), line_end(g, o))),
            None => None,
        }
    }
}

proof fn lemma_line_bounds(g: Seq<char>, o: int)
    requires
        0 <= o <= g.len(),
    ensures
        0 <= line_start(g, o) <= o,
        o <= line_end(g, o) <= g.len(),
{
    lemma_line_start_bound(g, o);
    lemma_line_end_bound(g, o);
}

proof fn lemma_line_start_bound(g: Seq<char>, o: int)
    requires
        0 <= o,
    ensures
        0 <= line_start(g, o) <= o,
    decreases o,
{
    if o > 0 && g[o - 1] != '\n' {
        lemma_line_start_bound(g, o - 1);
    }
}

proof fn lemma_line_end_bound(g: Seq<char>, o: int)
    requires
        o <= g.len(),
    ensures
        o <= line_end(g, o) <= g.len(),
    decreases g.len() - o,
{
    if o < g.len() && g[o] != '\n' {
        lemma_line_end_bound(g, o + 1);
    }
}

fn find_line_range(g: &Vec<char>, p: &Vec<char>, from: usize) -> (r: Option<(usize, usize)>)
    ensures
        match r {
            Some((a, b)) => line_range(g@, p@, from as int) == Some((a as int, b as int)) && a
                <= b <= g@.len(),
            None => line_range(g@, p@, from as int) is None,
        },
{
    if p.len() == 0 || from > g.len() {
        return None;
    }
    let o = match find_from(g, p, from) {
        Some(o) => o,
        None => {
            return None;
        },
    };
    proof {
        lemma_first_from(g@, p@, from as int, o as int);
        assert(o <= g@.len());
        lemma_line_bounds(g@, o as int);
    }
    let mut a = o;
    while a > 0 && g[a - 1] != '\n'
        invariant
            0 <= a <= o <= g@.len(),
            line_start(g@, o as int) == line_start(g@, a as int),
        decreases a,
    {
        a = a - 1;
    }
    let mut b = o;
    while b < g.len() && g[b] != '\n'
        invariant
            o <= b <= g@.len(),
            line_end(g@, o as int) == line_end(g@, b as int),
        decreases g@.len() - b,
    {
        b = b + 1;
    }
    Some((a, b))
}

// ----- the line to look for -----

/// The first line of `lines` that is not blank, trimmed; nothing when all are blank.
pub open spec fn first_filled(lines: Seq<Seq<char>>) -> Seq<char>
    decreases lines.len(),
{
    if lines.len() == 0 {
        Seq::empty()
    } else {
        let prev = first_filled(lines.drop_last());
        if prev.len() > 0 {
            prev
        } else {
            trim(lines.last())
        }
    }
}

/// The first non-blank line of `text`, trimmed.
pub open spec fn first_search_line(text: Seq<char>) -> Seq<char> {
    first_filled(split_on(text, '\n'))
}

fn search_line(text: &str) -> (r: String)
    ensures
        r@ == first_search_line(text@),
{
    let lines = split_string(text, '\n');
    let ghost ls = split_on(text@, '\n');
    let mut found = String::new();
    let mut i: usize = 0;
    assert(ls.take(0) =~= Seq::<Seq<char>>::empty());
    while i < lines.len()
        invariant
            0 <= i <= lines@.len(),
            views(lines@) == ls,
            found@ == first_filled(ls.take(i as int)),
        decreases lines@.len() - i,
    {
        assert(ls.take(i + 1).drop_last() =~= ls.take(i as int));
        assert(ls.take(i + 1).last() == lines@[i as int]@);
        if found.as_str().is_empty() {
            found = trim_string(lines[i].as_str());
        }
        i = i + 1;
    }
    assert(ls.take(lines@.len() as int) =~= ls);
    found
}

// ----- the mappings -----

/// A mapping as plain values.
pub struct MappingView {
    pub source: Seq<char>,
    pub source_start: nat,
    pub source_end: nat,
    pub generated_start: nat,
    pub generated_end: nat,
    pub kind: Seq<char>,
    pub name: Seq<char>,
}

pub open spec fn mapping_view(m: SourceMapMapping) -> MappingView {
    MappingView {
        source: m.source@,
        source_start: m.source_start as nat,
        source_end: m.source_end as nat,
        generated_start: m.generated_start as nat,
        generated_end: m.generated_end as nat,
        kind: m.kind@,
        name: m.name@,
    }
}

pub open spec fn mapping_views(ms: Seq<SourceMapMapping>) -> Seq<MappingView> {
    ms.map_values(|m: SourceMapMapping| mapping_view(m))
}

/// Where the next declaration is looked for (a char position of the generated text), and
/// the mappings made so far.
pub struct MapState {
    pub cursor: nat,
    pub mappings: Seq<MappingView>,
}

/// The state after looking for one line, and where that line ends when it was found.
pub struct Found {
    pub state: MapState,
    pub end: Option<nat>,
}

/// Looks for `pat` from `from` (then from the start): when found, maps `span` of `src` to
/// the line holding it, and the next search starts at that line's end.
pub open spec fn map_line(
    g: Seq<char>,
    src: Seq<char>,
    span: Span,
    kind: Seq<char>,
    name: Seq<char>,
    pat: Seq<char>,
    from: nat,
    st: MapState,
) -> Found {
    let range = match line_range(g, pat, from as int) {
        Some(r) => Some(r),
        None => line_range(g, pat, 0),
    };
    match range {
        None => Found { state: st, end: None },
        Some((a, b)) => Found {
            state: MapState {
                cursor: b as nat,
                mappings: st.mappings.push(
                    MappingView {
                        source: src,
                        source_start: span.start as nat,
                        source_end: span.end as nat,
                        generated_start: byte_len(g.take(a)),
                        generated_end: byte_len(g.take(b)),
                        kind,
                        name,
                    },
                ),
            },
            end: Some(b as nat),
        },
    }
}

pub open spec fn or_else(end: Option<nat>, c: nat) -> nat {
    match end {
        Some(e) => e,
        None => c,
    }
}

pub open spec fn arm_pattern(p: Pattern) -> Seq<char> {
    match p {
        Pattern::Wildcard { .. } => "default:"@,
        Pattern::TypedVariant { variant, .. } => variant@,
        Pattern::Variant { variant, .. } => variant@,
    }
}

pub open spec fn arm_name(p: Pattern) -> Seq<char> {
    match pattern_variant(p) {
        Some(v) => v,
        None => "_"@,
    }
}

/// The arms of a `match`, each looked for after the previous one; the search position
/// for the next arm comes back with the state.
pub open spec fn arms_map(
    g: Seq<char>,
    src: Seq<char>,
    arms: Seq<MatchArm>,
    cur: nat,
    st: MapState,
) -> (MapState, nat)
    decreases arms.len(),
{
    if arms.len() == 0 {
        (st, cur)
    } else {
        let (s1, c1) = arms_map(g, src, arms.drop_last(), cur, st);
        let arm = arms.last();
        let f = map_line(
            g,
            src,
            arm.span,
            "match_arm"@,
            arm_name(arm.pattern),
            arm_pattern(arm.pattern),
            c1,
            s1,
        );
        (f.state, or_else(f.end, c1))
    }
}

pub open spec fn stmt_map(g: Seq<char>, src: Seq<char>, s: Stmt, cur: nat, st: MapState) -> Found
    decreases s,
{
    match s {
        Stmt::VarDecl(v) => map_line(
            g,
            src,
            v.span,
            "statement"@,
            v.name@,
            v.name@ + " := "@,
            cur,
            st,
        ),
        Stmt::Return(r) => map_line(g, src, r.span, "statement"@, "return"@, "return"@, cur, st),
        Stmt::Expr(e) => map_line(
            g,
            src,
            e.span,
            "statement"@,
            "expr"@,
            first_search_line(e.expr.text@),
            cur,
            st,
        ),
        Stmt::Raw(r) => map_line(
            g,
            src,
            r.span,
            "statement"@,
            "raw"@,
            first_search_line(r.text@),
            cur,
            st,
        ),
        Stmt::Match(m) => match_map(g, src, m, cur, st),
        Stmt::If(i) => if_map(g, src, i, cur, st),
    }
}

pub open spec fn match_map(g: Seq<char>, src: Seq<char>, m: MatchStmt, cur: nat, st: MapState) -> Found
    decreases m,
{
    let f = map_line(g, src, m.span, "statement"@, "match"@, "switch"@, cur, st);
    let (s1, _) = arms_map(g, src, m.arms@, or_else(f.end, cur), f.state);
    Found { state: s1, end: f.end }
}

pub open spec fn if_map(g: Seq<char>, src: Seq<char>, i: IfStmt, cur: nat, st: MapState) -> Found
    decreases i,
{
    let f = map_line(g, src, i.span, "statement"@, "if"@, "if "@, cur, st);
    let c = or_else(f.end, cur);
    let (s1, _) = block_map(g, src, i.then_block.stmts@, c, f.state);
    let s2 = match i.else_branch {
        None => s1,
        Some(ElseBranch::Block(b)) => block_map(g, src, b.stmts@, c, s1).0,
        Some(ElseBranch::If(n)) => if_map(g, src, *n, c, s1).state,
    };
    Found { state: s2, end: f.end }
}

/// The statements of a block, each looked for after the previous one found.
pub open spec fn block_map(
    g: Seq<char>,
    src: Seq<char>,
    stmts: Seq<Stmt>,
    cur: nat,
    st: MapState,
) -> (MapState, nat)
    decreases stmts,
{
    if stmts.len() == 0 {
        (st, cur)
    } else {
        let (s1, c1) = block_map(g, src, stmts.drop_last(), cur, st);
        let f = stmt_map(g, src, stmts.last(), c1, s1);
        (f.state, or_else(f.end, c1))
    }
}

/// The Go name of a function: `mainWarp` for a `main` that returns an error.
pub open spec fn go_fn_name(f: FnDecl) -> Seq<char> {
    if f.name@ == "main"@ && f.ret is ErrorOnly {
        "mainWarp"@
    } else {
        f.name@
    }
}

pub open spec fn methods_map(
    g: Seq<char>,
    src: Seq<char>,
    target: Seq<char>,
    ms: Seq<MethodDecl>,
    st: MapState,
) -> MapState
    decreases ms.len(),
{
    if ms.len() == 0 {
        st
    } else {
        let s1 = methods_map(g, src, target, ms.drop_last(), st);
        let m = ms.last();
        let f = map_line(
            g,
            src,
            m.span,
            "method"@,
            target + "."@ + m.name@,
            ") "@ + m.name@,
            s1.cursor,
            s1,
        );
        block_map(g, src, m.body.stmts@, f.state.cursor, f.state).0
    }
}

/// One declaration of the source `src`, looked for from the state's cursor.
#[verifier::opaque]
pub open spec fn item_map(g: Seq<char>, src: Seq<char>, it: Item, st: MapState) -> MapState {
    match it {
        Item::Struct(d) => map_line(
            g,
            src,
            d.span,
            "declaration"@,
            d.name@,
            "type "@ + d.name@ + " struct"@,
            st.cursor,
            st,
        ).state,
        Item::Enum(d) => map_line(
            g,
            src,
            d.span,
            "declaration"@,
            d.name@,
            "type "@ + d.name@,
            st.cursor,
            st,
        ).state,
        Item::Function(f) => {
            let fd = map_line(
                g,
                src,
                f.span,
                "function"@,
                f.name@,
                "func "@ + go_fn_name(f),
                st.cursor,
                st,
            );
            block_map(g, src, f.body.stmts@, fd.state.cursor, fd.state).0
        },
        Item::Impl(b) => {
            let fd = map_line(g, src, b.span, "declaration"@, b.target@, "func ("@, st.cursor, st);
            methods_map(g, src, b.target@, b.methods@, fd.state)
        },
    }
}

/// The declarations in order, each with the path of the source it came from.
pub open spec fn items_map(
    g: Seq<char>,
    items: Seq<Item>,
    srcs: Seq<Seq<char>>,
    st: MapState,
) -> MapState
    decreases items.len(),
{
    if items.len() == 0 {
        st
    } else {
        item_map(
            g,
            srcs[items.len() - 1],
            items.last(),
            items_map(g, items.drop_last(), srcs, st),
        )
    }
}

proof fn lemma_items_map_step(
    g: Seq<char>,
    items: Seq<Item>,
    srcs: Seq<Seq<char>>,
    st: MapState,
    i: int,
)
    requires
        0 <= i < items.len(),
    ensures
        items_map(g, items.take(i + 1), srcs, st) == item_map(
            g,
            srcs[i],
            items[i],
            items_map(g, items.take(i), srcs, st),
        ),
{
    assert(items.take(i + 1).drop_last() =~= items.take(i));
    assert(items.take(i + 1).last() == items[i]);
}

pub open spec fn start_state() -> MapState {
    MapState { cursor: 0, mappings: Seq::empty() }
}

// ----- building the mappings -----

/// `offsets[i]` is the byte offset of char `i` of `g`, for every `i` up to its length.
pub open spec fn offsets_ok(g: Seq<char>, offsets: Seq<usize>) -> bool {
    &&& offsets.len() == g.len() + 1
    &&& forall|i: int| 0 <= i <= g.len() ==> offsets[i] == byte_len(#[trigger] g.take(i))
}

fn byte_offsets(g: &Vec<char>) -> (r: Vec<usize>)
    requires
        byte_len(g@) <= usize::MAX,
    ensures
        offsets_ok(g@, r@),
{
    let mut r: Vec<usize> = Vec::new();
    let mut n: usize = 0;
    r.push(0);
    assert(g@.take(0) =~= Seq::<char>::empty());
    let mut i: usize = 0;
    while i < g.len()
        invariant
            0 <= i <= g@.len(),
            byte_len(g@) <= usize::MAX,
            r@.len() == i + 1,
            n == byte_len(g@.take(i as int)),
            forall|k: int| 0 <= k <= i ==> r@[k] == byte_len(#[trigger] g@.take(k)),
        decreases g@.len() - i,
    {
        proof {
            lemma_byte_len_take(g@, i as int);
            crate::text::lemma_byte_len_mono(g@, i + 1, g@.len() as int);
            assert(g@.take(g@.len() as int) =~= g@);
        }
        n = n + char_width(g[i]);
        r.push(n);
        i = i + 1;
    }
    r
}

pub open spec fn state_of(cursor: usize, ms: Seq<SourceMapMapping>) -> MapState {
    MapState { cursor: cursor as nat, mappings: mapping_views(ms) }
}

pub open spec fn opt_nat(o: Option<usize>) -> Option<nat> {
    match o {
        Some(e) => Some(e as nat),
        None => None,
    }
}

/// The exec side followed `f`: same cursor, same mappings, same answer.
pub open spec fn follows(f: Found, cursor: usize, ms: Seq<SourceMapMapping>, r: Option<usize>) -> bool {
    &&& cursor as nat == f.state.cursor
    &&& mapping_views(ms) == f.state.mappings
    &&& opt_nat(r) == f.end
}

pub open spec fn in_text(g: Seq<char>, r: Option<usize>) -> bool {
    match r {
        Some(e) => e <= g.len(),
        None => true,
    }
}

fn map_line_exec(
    g: &Vec<char>,
    offsets: &Vec<usize>,
    src: &str,
    span: Span,
    kind: &str,
    name: String,
    pat: &str,
    from: usize,
    cursor: &mut usize,
    ms: &mut Vec<SourceMapMapping>,
) -> (r: Option<usize>)
    requires
        offsets_ok(g@, offsets@),
        *old(cursor) <= g@.len(),
    ensures
        follows(
            map_line(g@, src@, span, kind@, name@, pat@, from as nat, state_of(*old(cursor), old(ms)@)),
            *final(cursor),
            final(ms)@,
            r,
        ),
        *final(cursor) <= g@.len(),
        in_text(g@, r),
{
    let pv = to_chars(pat);
    let range = match find_line_range(g, &pv, from) {
        Some(r) => Some(r),
        None => find_line_range(g, &pv, 0),
    };
    match range {
        None => None,
        Some((a, b)) => {
            let m = SourceMapMapping {
                source: str_to_string(src),
                source_start: span.start,
                source_end: span.end,
                generated_start: offsets[a],
                generated_end: offsets[b],
                kind: str_to_string(kind),
                name,
            };
            let ghost before = ms@;
            ms.push(m);
            assert(mapping_views(ms@) =~= mapping_views(before).push(mapping_view(m)));
            *cursor = b;
            Some(b)
        },
    }
}

fn stmt_exec(
    g: &Vec<char>,
    offsets: &Vec<usize>,
    src: &str,
    s: &Stmt,
    cur: usize,
    cursor: &mut usize,
    ms: &mut Vec<SourceMapMapping>,
) -> (r: Option<usize>)
    requires
        offsets_ok(g@, offsets@),
        *old(cursor) <= g@.len(),
        cur <= g@.len(),
    ensures
        follows(
            stmt_map(g@, src@, *s, cur as nat, state_of(*old(cursor), old(ms)@)),
            *final(cursor),
            final(ms)@,
            r,
        ),
        *final(cursor) <= g@.len(),
        in_text(g@, r),
    decreases s,
{
    match s {
        Stmt::VarDecl(v) => {
            let mut pat = str_to_string(v.name.as_str());
            push_str(&mut pat, " := ");
            map_line_exec(
                g,
                offsets,
                src,
                v.span,
                "statement",
                str_to_string(v.name.as_str()),
                pat.as_str(),
                cur,
                cursor,
                ms,
            )
        },
        Stmt::Return(r) => map_line_exec(
            g,
            offsets,
            src,
            r.span,
            "statement",
            str_to_string("return"),
            "return",
            cur,
            cursor,
            ms,
        ),
        Stmt::Expr(e) => {
            let pat = search_line(e.expr.text.as_str());
            map_line_exec(
                g,
                offsets,
                src,
                e.span,
                "statement",
                str_to_string("expr"),
                pat.as_str(),
                cur,
                cursor,
                ms,
            )
        },
        Stmt::Raw(r) => {
            let pat = search_line(r.text.as_str());
            map_line_exec(
                g,
                offsets,
                src,
                r.span,
                "statement",
                str_to_string("raw"),
                pat.as_str(),
                cur,
                cursor,
                ms,
            )
        },
        Stmt::Match(m) => match_exec(g, offsets, src, m, cur, cursor, ms),
        Stmt::If(i) => if_exec(g, offsets, src, i, cur, cursor, ms),
    }
}

fn arms_exec(
    g: &Vec<char>,
    offsets: &Vec<usize>,
    src: &str,
    arms: &Vec<MatchArm>,
    cur: usize,
    cursor: &mut usize,
    ms: &mut Vec<SourceMapMapping>,
) -> (r: usize)
    requires
        offsets_ok(g@, offsets@),
        *old(cursor) <= g@.len(),
        cur <= g@.len(),
    ensures
        ({
            let (st, c) = arms_map(g@, src@, arms@, cur as nat, state_of(*old(cursor), old(ms)@));
            &&& *final(cursor) as nat == st.cursor
            &&& mapping_views(final(ms)@) == st.mappings
            &&& r as nat == c
        }),
        *final(cursor) <= g@.len(),
        r <= g@.len(),
{
    let ghost st0 = state_of(*cursor, ms@);
    let mut c = cur;
    let mut i: usize = 0;
    assert(arms@.take(0) =~= Seq::<MatchArm>::empty());
    while i < arms.len()
        invariant
            0 <= i <= arms@.len(),
            offsets_ok(g@, offsets@),
            *cursor <= g@.len(),
            c <= g@.len(),
            ({
                let (st, cc) = arms_map(g@, src@, arms@.take(i as int), cur as nat, st0);
                &&& *cursor as nat == st.cursor
                &&& mapping_views(ms@) == st.mappings
                &&& c as nat == cc
            }),
        decreases arms@.len() - i,
    {
        assert(arms@.take(i + 1).drop_last() =~= arms@.take(i as int));
        assert(arms@.take(i + 1).last() == arms@[i as int]);
        let arm = &arms[i];
        let (pat, name) = match &arm.pattern {
            Pattern::Wildcard { .. } => (str_to_string("default:"), str_to_string("_")),
            Pattern::TypedVariant { variant, .. } => (
                str_to_string(variant.as_str()),
                str_to_string(variant.as_str()),
            ),
            Pattern::Variant { variant, .. } => (
                str_to_string(variant.as_str()),
                str_to_string(variant.as_str()),
            ),
        };
        let found = map_line_exec(
            g,
            offsets,
            src,
            arm.span,
            "match_arm",
            name,
            pat.as_str(),
            c,
            cursor,
            ms,
        );
        match found {
            Some(e) => {
                c = e;
            },
            None => {},
        }
        i = i + 1;
    }
    assert(arms@.take(arms@.len() as int) =~= arms@);
    c
}

fn match_exec(
    g: &Vec<char>,
    offsets: &Vec<usize>,
    src: &str,
    m: &MatchStmt,
    cur: usize,
    cursor: &mut usize,
    ms: &mut Vec<SourceMapMapping>,
) -> (r: Option<usize>)
    requires
        offsets_ok(g@, offsets@),
        *old(cursor) <= g@.len(),
        cur <= g@.len(),
    ensures
        follows(
            match_map(g@, src@, *m, cur as nat, state_of(*old(cursor), old(ms)@)),
            *final(cursor),
            final(ms)@,
            r,
        ),
        *final(cursor) <= g@.len(),
        in_text(g@, r),
    decreases m,
{
    let found = map_line_exec(
        g,
        offsets,
        src,
        m.span,
        "statement",
        str_to_string("match"),
        "switch",
        cur,
        cursor,
        ms,
    );
    let c = match found {
        Some(e) => e,
        None => cur,
    };
    let _ = arms_exec(g, offsets, src, &m.arms, c, cursor, ms);
    found
}

fn if_exec(
    g: &Vec<char>,
    offsets: &Vec<usize>,
    src: &str,
    i: &IfStmt,
    cur: usize,
    cursor: &mut usize,
    ms: &mut Vec<SourceMapMapping>,
) -> (r: Option<usize>)
    requires
        offsets_ok(g@, offsets@),
        *old(cursor) <= g@.len(),
        cur <= g@.len(),
    ensures
        follows(
            if_map(g@, src@, *i, cur as nat, state_of(*old(cursor), old(ms)@)),
            *final(cursor),
            final(ms)@,
            r,
        ),
        *final(cursor) <= g@.len(),
        in_text(g@, r),
    decreases i,
{
    let found = map_line_exec(
        g,
        offsets,
        src,
        i.span,
        "statement",
        str_to_string("if"),
        "if ",
        cur,
        cursor,
        ms,
    );
    let c = match found {
        Some(e) => e,
        None => cur,
    };
    let _ = block_exec(g, offsets, src, &i.then_block, c, cursor, ms);
    match &i.else_branch {
        None => {},
        Some(ElseBranch::Block(b)) => {
            let _ = block_exec(g, offsets, src, b, c, cursor, ms);
        },
        Some(ElseBranch::If(n)) => {
            let _ = if_exec(g, offsets, src, n, c, cursor, ms);
        },
    }
    found
}

fn block_exec(
    g: &Vec<char>,
    offsets: &Vec<usize>,
    src: &str,
    block: &Block,
    cur: usize,
    cursor: &mut usize,
    ms: &mut Vec<SourceMapMapping>,
) -> (r: usize)
    requires
        offsets_ok(g@, offsets@),
        *old(cursor) <= g@.len(),
        cur <= g@.len(),
    ensures
        ({
            let (st, c) = block_map(
                g@,
                src@,
                block.stmts@,
                cur as nat,
                state_of(*old(cursor), old(ms)@),
            );
            &&& *final(cursor) as nat == st.cursor
            &&& mapping_views(final(ms)@) == st.mappings
            &&& r as nat == c
        }),
        *final(cursor) <= g@.len(),
        r <= g@.len(),
    decreases block,
{
    let ghost st0 = state_of(*cursor, ms@);
    let ghost ss = block.stmts@;
    let mut c = cur;
    let mut i: usize = 0;
    assert(ss.take(0) =~= Seq::<Stmt>::empty());
    while i < block.stmts.len()
        invariant
            0 <= i <= ss.len(),
            ss == block.stmts@,
            offsets_ok(g@, offsets@),
            *cursor <= g@.len(),
            c <= g@.len(),
            ({
                let (st, cc) = block_map(g@, src@, ss.take(i as int), cur as nat, st0);
                &&& *cursor as nat == st.cursor
                &&& mapping_views(ms@) == st.mappings
                &&& c as nat == cc
            }),
        decreases ss.len() - i,
    {
        assert(ss.take(i + 1).drop_last() =~= ss.take(i as int));
        assert(ss.take(i + 1).last() == ss[i as int]);
        assert(decreases_to!(block => block.stmts@[i as int]));
        let found = stmt_exec(g, offsets, src, &block.stmts[i], c, cursor, ms);
        match found {
            Some(e) => {
                c = e;
            },
            None => {},
        }
        i = i + 1;
    }
    assert(ss.take(ss.len() as int) =~= ss);
    c
}

fn methods_exec(
    g: &Vec<char>,
    offsets: &Vec<usize>,
    src: &str,
    b: &ImplBlock,
    cursor: &mut usize,
    ms: &mut Vec<SourceMapMapping>,
)
    requires
        offsets_ok(g@, offsets@),
        *old(cursor) <= g@.len(),
    ensures
        state_of(*final(cursor), final(ms)@) == methods_map(
            g@,
            src@,
            b.target@,
            b.methods@,
            state_of(*old(cursor), old(ms)@),
        ),
        *final(cursor) <= g@.len(),
{
    let ghost st0 = state_of(*cursor, ms@);
    let ghost mds = b.methods@;
    let mut i: usize = 0;
    assert(mds.take(0) =~= Seq::<MethodDecl>::empty());
    while i < b.methods.len()
        invariant
            0 <= i <= mds.len(),
            mds == b.methods@,
            offsets_ok(g@, offsets@),
            *cursor <= g@.len(),
            state_of(*cursor, ms@) == methods_map(g@, src@, b.target@, mds.take(i as int), st0),
        decreases mds.len() - i,
    {
        assert(mds.take(i + 1).drop_last() =~= mds.take(i as int));
        assert(mds.take(i + 1).last() == mds[i as int]);
        let m = &b.methods[i];
        let mut name = str_to_string(b.target.as_str());
        push_str(&mut name, ".");
        push_str(&mut name, m.name.as_str());
        let mut pat = str_to_string(") ");
        push_str(&mut pat, m.name.as_str());
        let from = *cursor;
        let _ = map_line_exec(g, offsets, src, m.span, "method", name, pat.as_str(), from, cursor, ms);
        let c = *cursor;
        let _ = block_exec(g, offsets, src, &m.body, c, cursor, ms);
        i = i + 1;
    }
    assert(mds.take(mds.len() as int) =~= mds);
}

fn item_exec(
    g: &Vec<char>,
    offsets: &Vec<usize>,
    src: &str,
    it: &Item,
    cursor: &mut usize,
    ms: &mut Vec<SourceMapMapping>,
)
    requires
        offsets_ok(g@, offsets@),
        *old(cursor) <= g@.len(),
    ensures
        state_of(*final(cursor), final(ms)@) == item_map(g@, src@, *it, state_of(*old(cursor), old(ms)@)),
        *final(cursor) <= g@.len(),
{
    reveal(item_map);
    let from = *cursor;
    match it {
        Item::Struct(d) => {
            let mut pat = str_to_string("type ");
            push_str(&mut pat, d.name.as_str());
            push_str(&mut pat, " struct");
            let _ = map_line_exec(
                g,
                offsets,
                src,
                d.span,
                "declaration",
                str_to_string(d.name.as_str()),
                pat.as_str(),
                from,
                cursor,
                ms,
            );
        },
        Item::Enum(d) => {
            let mut pat = str_to_string("type ");
            push_str(&mut pat, d.name.as_str());
            let _ = map_line_exec(
                g,
                offsets,
                src,
                d.span,
                "declaration",
                str_to_string(d.name.as_str()),
                pat.as_str(),
                from,
                cursor,
                ms,
            );
        },
        Item::Function(f) => {
            let mut pat = str_to_string("func ");
            let is_main_wrap = str_eq(f.name.as_str(), "main") && match f.ret {
                ReturnType::ErrorOnly => true,
                _ => false,
            };
            if is_main_wrap {
                push_str(&mut pat, "mainWarp");
            } else {
                push_str(&mut pat, f.name.as_str());
            }
            let _ = map_line_exec(
                g,
                offsets,
                src,
                f.span,
                "function",
                str_to_string(f.name.as_str()),
                pat.as_str(),
                from,
                cursor,
                ms,
            );
            let c = *cursor;
            let _ = block_exec(g, offsets, src, &f.body, c, cursor, ms);
        },
        Item::Impl(b) => {
            let _ = map_line_exec(
                g,
                offsets,
                src,
                b.span,
                "declaration",
                str_to_string(b.target.as_str()),
                "func (",
                from,
                cursor,
                ms,
            );
            methods_exec(g, offsets, src, b, cursor, ms);
        },
    }
}

/// The paths, sorted, each once.
fn sorted_sources(unit_paths: &Vec<String>) -> (r: Vec<String>)
    ensures
        views(r@) == sorted_list(views(unit_paths@).to_set()),
{
    let mut sources: Vec<String> = Vec::new();
    let mut k: usize = 0;
    proof {
        lemma_to_set_empty(views(sources@));
        assert(views(unit_paths@).take(0) =~= Seq::<Seq<char>>::empty());
        lemma_to_set_empty(views(unit_paths@).take(0));
    }
    while k < unit_paths.len()
        invariant
            0 <= k <= unit_paths@.len(),
            strictly_sorted(views(sources@)),
            views(sources@).to_set() == views(unit_paths@).take(k as int).to_set(),
        decreases unit_paths@.len() - k,
    {
        proof {
            assert(views(unit_paths@).take(k + 1) =~= views(unit_paths@).take(
                k as int,
            ).push(unit_paths@[k as int]@));
            crate::order::lemma_to_set_push(
                views(unit_paths@).take(k as int),
                unit_paths@[k as int]@,
            );
        }
        insert_sorted(&mut sources, str_to_string(unit_paths[k].as_str()));
        k = k + 1;
    }
    proof {
        assert(views(unit_paths@).take(unit_paths@.len() as int) =~= views(
            unit_paths@,
        ));
        lemma_sorted_list(views(sources@), views(unit_paths@).to_set());
    }
    sources
}

fn map_items(
    g: &Vec<char>,
    offsets: &Vec<usize>,
    program: &Program,
    item_sources: &Vec<String>,
) -> (r: Vec<SourceMapMapping>)
    requires
        item_sources@.len() == program.items@.len(),
        offsets_ok(g@, offsets@),
    ensures
        mapping_views(r@) == items_map(g@, program.items@, views(item_sources@), start_state()).mappings,
{
    let mut cursor: usize = 0;
    let mut ms: Vec<SourceMapMapping> = Vec::new();
    let ghost srcs = views(item_sources@);
    let ghost items = program.items@;
    let mut i: usize = 0;
    assert(items.take(0) =~= Seq::<Item>::empty());
    assert(mapping_views(ms@) =~= Seq::<MappingView>::empty());
    while i < program.items.len()
        invariant
            0 <= i <= items.len(),
            items == program.items@,
            srcs == views(item_sources@),
            srcs.len() == items.len(),
            offsets_ok(g@, offsets@),
            cursor <= g@.len(),
            state_of(cursor, ms@) == items_map(g@, items.take(i as int), srcs, start_state()),
        decreases items.len() - i,
    {
        proof {
            lemma_items_map_step(g@, items, srcs, start_state(), i as int);
        }
        assert(srcs[i as int] == item_sources@[i as int]@);
        item_exec(g, offsets, item_sources[i].as_str(), &program.items[i], &mut cursor, &mut ms);
        i = i + 1;
    }
    assert(items.take(items.len() as int) =~= items);
    ms
}

/// The source map of the Go text `generated` (written to `generated_name`) made from
/// `program`, whose items came from the sources `item_sources`, one path per item; the
/// map lists the paths of `unit_paths`, sorted and each once.
pub fn build_source_map(
    program: &Program,
    item_sources: &Vec<String>,
    unit_paths: &Vec<String>,
    generated_name: &str,
    generated: &str,
) -> (r: SourceMapFile)
    requires
        item_sources@.len() == program.items@.len(),
        byte_len(generated@) <= usize::MAX,
    ensures
        r.version == 1,
        r.generated@ == generated_name@,
        views(r.sources@) == sorted_list(views(unit_paths@).to_set()),
        mapping_views(r.mappings@) == items_map(
            generated@,
            program.items@,
            views(item_sources@),
            start_state(),
        ).mappings,
{
    let sources = sorted_sources(unit_paths);
    let g = to_chars(generated);
    let offsets = byte_offsets(&g);
    let mappings = map_items(&g, &offsets, program, item_sources);
    SourceMapFile { version: 1, generated: str_to_string(generated_name), sources, mappings }
}

} // verus!
