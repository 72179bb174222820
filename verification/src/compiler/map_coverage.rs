//! What the source map is sure to hold: a mapping, once made, is never dropped, and every
//! method whose Go header is in the generated text is mapped to its source span.
use vstd::prelude::*;

use crate::ast::{ElseBranch, IfStmt, Item, MatchArm, MatchStmt, MethodDecl, Span, Stmt};
use crate::compiler::source_map::{
    arms_map, block_map, first_from, if_map, item_map, items_map, line_range, map_line, match_map,
    methods_map, stmt_map, MapState, MappingView,
};
use crate::text::{contains_seq, occurs_at};

verus! {

/// `b` holds the mappings of `a`, in their places, and maybe more after them.
pub open spec fn extends(a: MapState, b: MapState) -> bool {
    &&& a.mappings.len() <= b.mappings.len()
    &&& forall|k: int| 0 <= k < a.mappings.len() ==> #[trigger] b.mappings[k] == a.mappings[k]
}

/// The state holds a mapping of the span `start..end` of the source `src`, of this kind
/// and name.
pub open spec fn has_mapping(
    st: MapState,
    src: Seq<char>,
    start: nat,
    end: nat,
    kind: Seq<char>,
    name: Seq<char>,
) -> bool {
    exists|k: int|
        0 <= k < st.mappings.len() && {
            let m = #[trigger] st.mappings[k];
            m.source == src && m.source_start == start && m.source_end == end && m.kind == kind
                && m.name == name
        }
}

proof fn lemma_extends_trans(a: MapState, b: MapState, c: MapState)
    requires
        extends(a, b),
        extends(b, c),
    ensures
        extends(a, c),
{
    assert forall|k: int| 0 <= k < a.mappings.len() implies #[trigger] c.mappings[k] == a.mappings[k] by {
        assert(c.mappings[k] == b.mappings[k]);
    }
}

proof fn lemma_has_mapping_kept(
    a: MapState,
    b: MapState,
    src: Seq<char>,
    start: nat,
    end: nat,
    kind: Seq<char>,
    name: Seq<char>,
)
    requires
        extends(a, b),
        has_mapping(a, src, start, end, kind, name),
    ensures
        has_mapping(b, src, start, end, kind, name),
{
    let k = choose|k: int|
        0 <= k < a.mappings.len() && {
            let m = #[trigger] a.mappings[k];
            m.source == src && m.source_start == start && m.source_end == end && m.kind == kind
                && m.name == name
        };
    assert(b.mappings[k] == a.mappings[k]);
}

proof fn lemma_map_line_extends(
    g: Seq<char>,
    src: Seq<char>,
    span: Span,
    kind: Seq<char>,
    name: Seq<char>,
    pat: Seq<char>,
    from: nat,
    st: MapState,
)
    ensures
        extends(st, map_line(g, src, span, kind, name, pat, from, st).state),
{
}

proof fn lemma_arms_extends(g: Seq<char>, src: Seq<char>, arms: Seq<MatchArm>, cur: nat, st: MapState)
    ensures
        extends(st, arms_map(g, src, arms, cur, st).0),
    decreases arms.len(),
{
    if arms.len() > 0 {
        lemma_arms_extends(g, src, arms.drop_last(), cur, st);
        let (s1, c1) = arms_map(g, src, arms.drop_last(), cur, st);
        let arm = arms.last();
        lemma_map_line_extends(
            g,
            src,
            arm.span,
            "match_arm"@,
            crate::compiler::source_map::arm_name(arm.pattern),
            crate::compiler::source_map::arm_pattern(arm.pattern),
            c1,
            s1,
        );
        lemma_extends_trans(st, s1, arms_map(g, src, arms, cur, st).0);
    }
}

proof fn lemma_block_extends(g: Seq<char>, src: Seq<char>, stmts: Seq<Stmt>, cur: nat, st: MapState)
    ensures
        extends(st, block_map(g, src, stmts, cur, st).0),
    decreases stmts,
{
    if stmts.len() > 0 {
        lemma_block_extends(g, src, stmts.drop_last(), cur, st);
        let (s1, c1) = block_map(g, src, stmts.drop_last(), cur, st);
        lemma_stmt_extends(g, src, stmts.last(), c1, s1);
        lemma_extends_trans(st, s1, block_map(g, src, stmts, cur, st).0);
    }
}

proof fn lemma_stmt_extends(g: Seq<char>, src: Seq<char>, s: Stmt, cur: nat, st: MapState)
    ensures
        extends(st, stmt_map(g, src, s, cur, st).state),
    decreases s,
{
    match s {
        Stmt::Match(m) => lemma_match_extends(g, src, m, cur, st),
        Stmt::If(i) => lemma_if_extends(g, src, i, cur, st),
        _ => {},
    }
}

proof fn lemma_match_extends(g: Seq<char>, src: Seq<char>, m: MatchStmt, cur: nat, st: MapState)
    ensures
        extends(st, match_map(g, src, m, cur, st).state),
    decreases m,
{
    let f = map_line(g, src, m.span, "statement"@, "match"@, "switch"@, cur, st);
    lemma_arms_extends(g, src, m.arms@, crate::compiler::source_map::or_else(f.end, cur), f.state);
    lemma_extends_trans(st, f.state, match_map(g, src, m, cur, st).state);
}

proof fn lemma_if_extends(g: Seq<char>, src: Seq<char>, i: IfStmt, cur: nat, st: MapState)
    ensures
        extends(st, if_map(g, src, i, cur, st).state),
    decreases i,
{
    let f = map_line(g, src, i.span, "statement"@, "if"@, "if "@, cur, st);
    let c = crate::compiler::source_map::or_else(f.end, cur);
    lemma_block_extends(g, src, i.then_block.stmts@, c, f.state);
    let (s1, _) = block_map(g, src, i.then_block.stmts@, c, f.state);
    lemma_extends_trans(st, f.state, s1);
    match i.else_branch {
        None => {},
        Some(ElseBranch::Block(b)) => {
            lemma_block_extends(g, src, b.stmts@, c, s1);
            lemma_extends_trans(st, s1, block_map(g, src, b.stmts@, c, s1).0);
        },
        Some(ElseBranch::If(n)) => {
            lemma_if_extends(g, src, *n, c, s1);
            lemma_extends_trans(st, s1, if_map(g, src, *n, c, s1).state);
        },
    }
}

proof fn lemma_methods_extends(
    g: Seq<char>,
    src: Seq<char>,
    target: Seq<char>,
    ms: Seq<MethodDecl>,
    st: MapState,
)
    ensures
        extends(st, methods_map(g, src, target, ms, st)),
    decreases ms.len(),
{
    if ms.len() > 0 {
        lemma_methods_extends(g, src, target, ms.drop_last(), st);
        let s1 = methods_map(g, src, target, ms.drop_last(), st);
        let m = ms.last();
        let f = map_line(g, src, m.span, "method"@, target + "."@ + m.name@, ") "@ + m.name@, s1.cursor, s1);
        lemma_block_extends(g, src, m.body.stmts@, f.state.cursor, f.state);
        lemma_extends_trans(s1, f.state, methods_map(g, src, target, ms, st));
        lemma_extends_trans(st, s1, methods_map(g, src, target, ms, st));
    }
}

proof fn lemma_item_extends(g: Seq<char>, src: Seq<char>, it: Item, st: MapState)
    ensures
        extends(st, item_map(g, src, it, st)),
{
    reveal(item_map);
    match it {
        Item::Function(f) => {
            let fd = map_line(
                g,
                src,
                f.span,
                "function"@,
                f.name@,
                "func "@ + crate::compiler::source_map::go_fn_name(f),
                st.cursor,
                st,
            );
            lemma_block_extends(g, src, f.body.stmts@, fd.state.cursor, fd.state);
            lemma_extends_trans(st, fd.state, item_map(g, src, it, st));
        },
        Item::Impl(b) => {
            let fd = map_line(g, src, b.span, "declaration"@, b.target@, "func ("@, st.cursor, st);
            lemma_methods_extends(g, src, b.target@, b.methods@, fd.state);
            lemma_extends_trans(st, fd.state, item_map(g, src, it, st));
        },
        _ => {},
    }
}

/// Where `pat` occurs in `g`, looking for it finds a line, from any position or from the
/// start.
proof fn lemma_found_somewhere(g: Seq<char>, pat: Seq<char>, from: nat)
    requires
        pat.len() > 0,
        contains_seq(g, pat),
    ensures
        (match line_range(g, pat, from as int) {
            Some(r) => Some(r),
            None => line_range(g, pat, 0),
        }) is Some,
{
    let i = choose|i: int| occurs_at(g, pat, i);
    assert(0 <= i);
    assert(first_from(g, pat, 0) is Some);
}

/// Looking for a pattern that occurs in `g` maps the span.
proof fn lemma_map_line_records(
    g: Seq<char>,
    src: Seq<char>,
    span: Span,
    kind: Seq<char>,
    name: Seq<char>,
    pat: Seq<char>,
    from: nat,
    st: MapState,
)
    requires
        pat.len() > 0,
        contains_seq(g, pat),
    ensures
        has_mapping(
            map_line(g, src, span, kind, name, pat, from, st).state,
            src,
            span.start as nat,
            span.end as nat,
            kind,
            name,
        ),
{
    lemma_found_somewhere(g, pat, from);
    let out = map_line(g, src, span, kind, name, pat, from, st).state;
    let k = st.mappings.len() as int;
    assert(out.mappings[k].source == src && out.mappings[k].kind == kind && out.mappings[k].name
        == name);
}

proof fn lemma_methods_step(g: Seq<char>, src: Seq<char>, target: Seq<char>, ms: Seq<MethodDecl>, st: MapState)
    requires
        ms.len() > 0,
    ensures
        ({
            let s1 = methods_map(g, src, target, ms.drop_last(), st);
            let m = ms.last();
            let f = map_line(g, src, m.span, "method"@, target + "."@ + m.name@, ") "@ + m.name@, s1.cursor, s1);
            extends(s1, f.state) && extends(f.state, methods_map(g, src, target, ms, st))
        }),
{
    let s1 = methods_map(g, src, target, ms.drop_last(), st);
    let m = ms.last();
    let f = map_line(g, src, m.span, "method"@, target + "."@ + m.name@, ") "@ + m.name@, s1.cursor, s1);
    lemma_map_line_extends(g, src, m.span, "method"@, target + "."@ + m.name@, ") "@ + m.name@, s1.cursor, s1);
    lemma_block_extends(g, src, m.body.stmts@, f.state.cursor, f.state);
}

/// Each method of `ms` whose Go header `) name` is in `g` is mapped, as a "method" named
/// `target.name`, to its own span of `src`.
#[verifier::spinoff_prover]
#[verifier::rlimit(100)]
proof fn lemma_methods_mapped(
    g: Seq<char>,
    src: Seq<char>,
    target: Seq<char>,
    ms: Seq<MethodDecl>,
    st: MapState,
    j: int,
)
    requires
        0 <= j < ms.len(),
        contains_seq(g, ") "@ + ms[j].name@),
    ensures
        has_mapping(
            methods_map(g, src, target, ms, st),
            src,
            ms[j].span.start as nat,
            ms[j].span.end as nat,
            "method"@,
            target + "."@ + ms[j].name@,
        ),
    decreases ms.len(),
{
    let s1 = methods_map(g, src, target, ms.drop_last(), st);
    let m = ms.last();
    let pat = ") "@ + m.name@;
    let f = map_line(g, src, m.span, "method"@, target + "."@ + m.name@, pat, s1.cursor, s1);
    let out = methods_map(g, src, target, ms, st);
    lemma_methods_step(g, src, target, ms, st);
    if j == ms.len() - 1 {
        reveal_strlit(") ");
        assert(pat.len() > 0);
        lemma_map_line_records(g, src, m.span, "method"@, target + "."@ + m.name@, pat, s1.cursor, s1);
        lemma_has_mapping_kept(
            f.state,
            out,
            src,
            m.span.start as nat,
            m.span.end as nat,
            "method"@,
            target + "."@ + m.name@,
        );
    } else {
        assert(ms.drop_last()[j] == ms[j]);
        lemma_methods_mapped(g, src, target, ms.drop_last(), st, j);
        lemma_extends_trans(s1, f.state, out);
        lemma_has_mapping_kept(
            s1,
            out,
            src,
            ms[j].span.start as nat,
            ms[j].span.end as nat,
            "method"@,
            target + "."@ + ms[j].name@,
        );
    }
}

/// In the source map of the declarations `items` (`build_source_map` starts from
/// `start_state()`), every method `m` of every `impl` block whose Go header `) m.name`
/// occurs in the generated text is mapped, as a "method" named `Target.m.name`, to the
/// span of `m` in the source of that block.
pub proof fn law_every_method_header_is_mapped(
    g: Seq<char>,
    items: Seq<Item>,
    srcs: Seq<Seq<char>>,
    st: MapState,
    i: int,
    j: int,
)
    requires
        0 <= i < items.len(),
        items[i] is Impl,
        0 <= j < items[i]->Impl_0.methods@.len(),
        contains_seq(g, ") "@ + items[i]->Impl_0.methods@[j].name@),
    ensures
        ({
            let b = items[i]->Impl_0;
            let m = b.methods@[j];
            has_mapping(
                items_map(g, items, srcs, st),
                srcs[i],
                m.span.start as nat,
                m.span.end as nat,
                "method"@,
                b.target@ + "."@ + m.name@,
            )
        }),
    decreases items.len(),
{
    let b = items[i]->Impl_0;
    let m = b.methods@[j];
    let prev = items_map(g, items.drop_last(), srcs, st);
    let out = items_map(g, items, srcs, st);
    lemma_item_extends(g, srcs[items.len() - 1], items.last(), prev);
    if i == items.len() - 1 {
        reveal(item_map);
        let fd = map_line(g, srcs[i], b.span, "declaration"@, b.target@, "func ("@, prev.cursor, prev);
        lemma_methods_mapped(g, srcs[i], b.target@, b.methods@, fd.state, j);
    } else {
        assert(items.drop_last()[i] == items[i]);
        law_every_method_header_is_mapped(g, items.drop_last(), srcs, st, i, j);
        lemma_has_mapping_kept(
            prev,
            out,
            srcs[i],
            m.span.start as nat,
            m.span.end as nat,
            "method"@,
            b.target@ + "."@ + m.name@,
        );
    }
}

/// The line a declaration is found by in the generated Go: its kind and name in the map,
/// the text looked for, and its span. A struct is found by `type Name struct`, an enum by
/// `type Name`, a function by `func ` and its Go name, an `impl` block by `func (`.
pub open spec fn declaration_header(it: Item) -> (Seq<char>, Seq<char>, Seq<char>, Span) {
    match it {
        Item::Struct(d) => ("declaration"@, d.name@, "type "@ + d.name@ + " struct"@, d.span),
        Item::Enum(d) => ("declaration"@, d.name@, "type "@ + d.name@, d.span),
        Item::Function(f) => (
            "function"@,
            f.name@,
            "func "@ + crate::compiler::source_map::go_fn_name(f),
            f.span,
        ),
        Item::Impl(b) => ("declaration"@, b.target@, "func ("@, b.span),
    }
}

proof fn lemma_item_header_mapped(g: Seq<char>, src: Seq<char>, it: Item, st: MapState)
    requires
        contains_seq(g, declaration_header(it).2),
    ensures
        ({
            let (kind, name, _, span) = declaration_header(it);
            has_mapping(item_map(g, src, it, st), src, span.start as nat, span.end as nat, kind, name)
        }),
{
    reveal(item_map);
    reveal_strlit("type ");
    reveal_strlit("func ");
    reveal_strlit("func (");
    let (kind, name, pat, span) = declaration_header(it);
    assert(pat.len() > 0);
    lemma_map_line_records(g, src, span, kind, name, pat, st.cursor, st);
    let f = map_line(g, src, span, kind, name, pat, st.cursor, st);
    match it {
        Item::Function(fd) => {
            lemma_block_extends(g, src, fd.body.stmts@, f.state.cursor, f.state);
            lemma_has_mapping_kept(f.state, item_map(g, src, it, st), src, span.start as nat, span.end as nat, kind, name);
        },
        Item::Impl(b) => {
            lemma_methods_extends(g, src, b.target@, b.methods@, f.state);
            lemma_has_mapping_kept(f.state, item_map(g, src, it, st), src, span.start as nat, span.end as nat, kind, name);
        },
        _ => {},
    }
}

/// In the source map of the declarations `items`, every declaration whose Go header
/// (`declaration_header`) occurs in the generated text is mapped, with its kind and name,
/// to its span in its own source.
pub proof fn law_every_declaration_header_is_mapped(
    g: Seq<char>,
    items: Seq<Item>,
    srcs: Seq<Seq<char>>,
    st: MapState,
    i: int,
)
    requires
        0 <= i < items.len(),
        contains_seq(g, declaration_header(items[i]).2),
    ensures
        ({
            let (kind, name, _, span) = declaration_header(items[i]);
            has_mapping(items_map(g, items, srcs, st), srcs[i], span.start as nat, span.end as nat, kind, name)
        }),
    decreases items.len(),
{
    let (kind, name, _, span) = declaration_header(items[i]);
    let prev = items_map(g, items.drop_last(), srcs, st);
    let out = items_map(g, items, srcs, st);
    if i == items.len() - 1 {
        lemma_item_header_mapped(g, srcs[i], items[i], prev);
    } else {
        assert(items.drop_last()[i] == items[i]);
        law_every_declaration_header_is_mapped(g, items.drop_last(), srcs, st, i);
        lemma_item_extends(g, srcs[items.len() - 1], items.last(), prev);
        lemma_has_mapping_kept(prev, out, srcs[i], span.start as nat, span.end as nat, kind, name);
    }
}

/// The line a simple statement is found by in the generated Go: its name in the map, the
/// text looked for, and its span. A declaration `x := v` is found by `x := `, a `return` by
/// `return`, an expression or raw statement by its first line of text.
pub open spec fn statement_header(st: Stmt) -> Option<(Seq<char>, Seq<char>, Span)> {
    match st {
        Stmt::VarDecl(v) => Some((v.name@, v.name@ + " := "@, v.span)),
        Stmt::Return(r) => Some(("return"@, "return"@, r.span)),
        Stmt::Expr(e) => Some((
            "expr"@,
            crate::compiler::source_map::first_search_line(e.expr.text@),
            e.span,
        )),
        Stmt::Raw(r) => Some((
            "raw"@,
            crate::compiler::source_map::first_search_line(r.text@),
            r.span,
        )),
        _ => None,
    }
}

#[verifier::spinoff_prover]
#[verifier::rlimit(100)]
proof fn lemma_block_statement_mapped(
    g: Seq<char>,
    src: Seq<char>,
    stmts: Seq<Stmt>,
    cur: nat,
    st: MapState,
    k: int,
)
    requires
        0 <= k < stmts.len(),
        statement_header(stmts[k]) matches Some((name, pat, span)) && pat.len() > 0
            && contains_seq(g, pat),
    ensures
        ({
            let (name, _, span) = statement_header(stmts[k])->0;
            has_mapping(
                block_map(g, src, stmts, cur, st).0,
                src,
                span.start as nat,
                span.end as nat,
                "statement"@,
                name,
            )
        }),
    decreases stmts.len(),
{
    let (name, pat, span) = statement_header(stmts[k])->0;
    let (s1, c1) = block_map(g, src, stmts.drop_last(), cur, st);
    let out = block_map(g, src, stmts, cur, st).0;
    lemma_stmt_extends(g, src, stmts.last(), c1, s1);
    if k == stmts.len() - 1 {
        lemma_map_line_records(g, src, span, "statement"@, name, pat, c1, s1);
    } else {
        assert(stmts.drop_last()[k] == stmts[k]);
        lemma_block_statement_mapped(g, src, stmts.drop_last(), cur, st, k);
        lemma_has_mapping_kept(s1, out, src, span.start as nat, span.end as nat, "statement"@, name);
    }
}

/// In the source map of the declarations `items`, every declaration, `return`, expression
/// or raw statement of a function's body whose line (`statement_header`) occurs in the
/// generated text is mapped, as a "statement" with its name, to its span in the function's
/// source.
pub proof fn law_every_function_statement_is_mapped(
    g: Seq<char>,
    items: Seq<Item>,
    srcs: Seq<Seq<char>>,
    st: MapState,
    i: int,
    k: int,
)
    requires
        0 <= i < items.len(),
        items[i] is Function,
        0 <= k < items[i]->Function_0.body.stmts@.len(),
        statement_header(items[i]->Function_0.body.stmts@[k]) matches Some((name, pat, span))
            && pat.len() > 0 && contains_seq(g, pat),
    ensures
        ({
            let (name, _, span) = statement_header(items[i]->Function_0.body.stmts@[k])->0;
            has_mapping(
                items_map(g, items, srcs, st),
                srcs[i],
                span.start as nat,
                span.end as nat,
                "statement"@,
                name,
            )
        }),
    decreases items.len(),
{
    let f = items[i]->Function_0;
    let (name, _, span) = statement_header(f.body.stmts@[k])->0;
    let prev = items_map(g, items.drop_last(), srcs, st);
    let out = items_map(g, items, srcs, st);
    if i == items.len() - 1 {
        reveal(item_map);
        let fd = map_line(
            g,
            srcs[i],
            f.span,
            "function"@,
            f.name@,
            "func "@ + crate::compiler::source_map::go_fn_name(f),
            prev.cursor,
            prev,
        );
        lemma_block_statement_mapped(g, srcs[i], f.body.stmts@, fd.state.cursor, fd.state, k);
    } else {
        assert(items.drop_last()[i] == items[i]);
        law_every_function_statement_is_mapped(g, items.drop_last(), srcs, st, i, k);
        lemma_item_extends(g, srcs[items.len() - 1], items.last(), prev);
        lemma_has_mapping_kept(prev, out, srcs[i], span.start as nat, span.end as nat, "statement"@, name);
    }
}

} // verus!
