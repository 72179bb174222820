//! What the canonical layout keeps of a program: each statement's expression, read back
//! from its line, gives back its text and whether it propagates errors with `?`, and each
//! expression statement of a function stands on a line of the formatted file.
use vstd::prelude::*;

use crate::ast::{Expr, FnDecl, Item, Program, Stmt};
use crate::codegen::fmt::{block_fmt, function_fmt, item_fmt, program_fmt, stmt_fmt, concat};
use crate::codegen::types::tabs;
use crate::text::{contains_seq, occurs_at, starts_with};

verus! {

/// How the text of an expression is read back from where the layout wrote it: a final `?`
/// marks error propagation and is not part of the expression.
pub open spec fn read_back(written: Seq<char>) -> (Seq<char>, bool) {
    if written.len() > 0 && written.last() == '?' {
        (written.drop_last(), true)
    } else {
        (written, false)
    }
}

/// An expression whose text does not itself end with `?`: a parsed one never does, since a
/// final `?` is taken off as the propagation mark.
pub open spec fn plain_text(e: Expr) -> bool {
    !(e.text@.len() > 0 && e.text@.last() == '?')
}

/// A formatted expression statement is its indentation, a text that reads back as the
/// expression with its `?`, and a newline.
pub proof fn law_expression_statement_reads_back(e: Stmt, t: Seq<char>, indent: nat)
    requires
        e is Expr,
        plain_text(e->Expr_0.expr),
    ensures
        exists|w: Seq<char>|
            #[trigger] read_back(w) == (e->Expr_0.expr.text@, e->Expr_0.expr.has_try) && stmt_fmt(
                e,
                t,
                indent,
            ) == t + w + "\n"@,
{
    let x = e->Expr_0.expr;
    let w = if x.has_try {
        x.text@ + "?"@
    } else {
        x.text@
    };
    reveal_strlit("?");
    if x.has_try {
        assert(w.drop_last() =~= x.text@);
    }
    assert(read_back(w) == (x.text@, x.has_try));
    assert(stmt_fmt(e, t, indent) == t + w + "\n"@);
}

/// A formatted variable declaration is its indentation, the name, ` := `, a text that reads
/// back as the value with its `?`, and a newline.
pub proof fn law_declaration_reads_back(v: Stmt, t: Seq<char>, indent: nat)
    requires
        v is VarDecl,
        plain_text(v->VarDecl_0.expr),
    ensures
        exists|w: Seq<char>|
            #[trigger] read_back(w) == (v->VarDecl_0.expr.text@, v->VarDecl_0.expr.has_try)
                && stmt_fmt(v, t, indent) == t + v->VarDecl_0.name@ + " := "@ + w + "\n"@,
{
    let x = v->VarDecl_0.expr;
    let w = if x.has_try {
        x.text@ + "?"@
    } else {
        x.text@
    };
    reveal_strlit("?");
    if x.has_try {
        assert(w.drop_last() =~= x.text@);
    }
    assert(read_back(w) == (x.text@, x.has_try));
    assert(stmt_fmt(v, t, indent) == t + v->VarDecl_0.name@ + " := "@ + w + "\n"@);
}

/// A formatted `return` of one value is its indentation, `return `, a text that reads back
/// as the value with its `?`, and a newline.
pub proof fn law_return_reads_back(r: Stmt, t: Seq<char>, indent: nat)
    requires
        r is Return,
        r->Return_0.exprs@.len() == 1,
        plain_text(r->Return_0.exprs@[0]),
    ensures
        exists|w: Seq<char>|
            #[trigger] read_back(w) == (r->Return_0.exprs@[0].text@, r->Return_0.exprs@[0].has_try)
                && stmt_fmt(r, t, indent) == t + "return "@ + w + "\n"@,
{
    let x = r->Return_0.exprs@[0];
    let w = if x.has_try {
        x.text@ + "?"@
    } else {
        x.text@
    };
    reveal_strlit("?");
    if x.has_try {
        assert(w.drop_last() =~= x.text@);
    }
    assert(read_back(w) == (x.text@, x.has_try));
    let parts = r->Return_0.exprs@.map_values(|e: Expr| crate::codegen::fmt::with_try(e));
    assert(parts =~= seq![w]);
    assert(stmt_fmt(r, t, indent) == t + "return "@ + w + "\n"@);
}

/// A formatted `if` begins with its indentation, `if `, a text that reads back as the
/// condition with its `?`, and ` {` ending the line.
pub proof fn law_if_condition_reads_back(st: Stmt, t: Seq<char>, indent: nat)
    requires
        st is If,
        plain_text(st->If_0.condition),
    ensures
        exists|w: Seq<char>|
            #[trigger] read_back(w) == (st->If_0.condition.text@, st->If_0.condition.has_try) && starts_with(
                stmt_fmt(st, t, indent),
                t + "if "@ + w + " {\n"@,
            ),
{
    let i = st->If_0;
    let x = i.condition;
    let w = if x.has_try {
        x.text@ + "?"@
    } else {
        x.text@
    };
    reveal_strlit("?");
    if x.has_try {
        assert(w.drop_last() =~= x.text@);
    }
    assert(read_back(w) == (x.text@, x.has_try));
    let whole = stmt_fmt(st, t, indent);
    let head = t + "if "@ + w + " {\n"@;
    assert(whole.subrange(0, head.len() as int) =~= head);
}

/// A formatted `match` starts with its indentation, `match `, a text that reads back as
/// the matched value with its `?`, and ` {` ending the line.
pub proof fn law_match_value_reads_back(st: Stmt, t: Seq<char>, indent: nat)
    requires
        st is Match,
        plain_text(st->Match_0.value),
    ensures
        exists|w: Seq<char>|
            #[trigger] read_back(w) == (st->Match_0.value.text@, st->Match_0.value.has_try) && starts_with(
                stmt_fmt(st, t, indent),
                t + "match "@ + w + " {\n"@,
            ),
{
    let m = st->Match_0;
    let x = m.value;
    let w = if x.has_try {
        x.text@ + "?"@
    } else {
        x.text@
    };
    reveal_strlit("?");
    if x.has_try {
        assert(w.drop_last() =~= x.text@);
    }
    assert(read_back(w) == (x.text@, x.has_try));
    let whole = stmt_fmt(st, t, indent);
    let head = t + "match "@ + w + " {\n"@;
    assert(whole.subrange(0, head.len() as int) =~= head);
}

proof fn lemma_contains_self(x: Seq<char>)
    ensures
        contains_seq(x, x),
{
    assert(x.subrange(0, x.len() as int) =~= x);
    assert(occurs_at(x, x, 0));
}

proof fn lemma_contains_prefixed(a: Seq<char>, x: Seq<char>, y: Seq<char>)
    requires
        contains_seq(x, y),
    ensures
        contains_seq(a + x, y),
{
    let i = choose|i: int| occurs_at(x, y, i);
    assert((a + x).subrange(a.len() + i, a.len() + i + y.len()) =~= x.subrange(i, i + y.len()));
    assert(occurs_at(a + x, y, a.len() + i));
}

proof fn lemma_contains_suffixed(x: Seq<char>, b: Seq<char>, y: Seq<char>)
    requires
        contains_seq(x, y),
    ensures
        contains_seq(x + b, y),
{
    let i = choose|i: int| occurs_at(x, y, i);
    assert((x + b).subrange(i, i + y.len()) =~= x.subrange(i, i + y.len()));
    assert(occurs_at(x + b, y, i));
}

proof fn lemma_contains_trans(x: Seq<char>, y: Seq<char>, z: Seq<char>)
    requires
        contains_seq(x, y),
        contains_seq(y, z),
    ensures
        contains_seq(x, z),
{
    let i = choose|i: int| occurs_at(x, y, i);
    let j = choose|j: int| occurs_at(y, z, j);
    assert(x.subrange(i + j, i + j + z.len()) =~= y.subrange(j, j + z.len()));
    assert(occurs_at(x, z, i + j));
}

proof fn lemma_block_contains(stmts: Seq<Stmt>, indent: nat, k: int)
    requires
        0 <= k < stmts.len(),
    ensures
        contains_seq(block_fmt(stmts, indent), stmt_fmt(stmts[k], tabs(indent), indent)),
    decreases stmts.len(),
{
    let last = stmt_fmt(stmts.last(), tabs(indent), indent);
    if k == stmts.len() - 1 {
        lemma_contains_self(last);
        lemma_contains_prefixed(block_fmt(stmts.drop_last(), indent), last, last);
    } else {
        assert(stmts.drop_last()[k] == stmts[k]);
        lemma_block_contains(stmts.drop_last(), indent, k);
        lemma_contains_suffixed(
            block_fmt(stmts.drop_last(), indent),
            last,
            stmt_fmt(stmts[k], tabs(indent), indent),
        );
    }
}

proof fn lemma_concat_contains(parts: Seq<Seq<char>>, i: int)
    requires
        0 <= i < parts.len(),
    ensures
        contains_seq(concat(parts), parts[i]),
    decreases parts.len(),
{
    if i == parts.len() - 1 {
        lemma_contains_self(parts.last());
        lemma_contains_prefixed(concat(parts.drop_last()), parts.last(), parts.last());
    } else {
        assert(parts.drop_last()[i] == parts[i]);
        lemma_concat_contains(parts.drop_last(), i);
        lemma_contains_suffixed(concat(parts.drop_last()), parts.last(), parts[i]);
    }
}

proof fn lemma_function_contains_body(f: FnDecl)
    ensures
        contains_seq(function_fmt(f), block_fmt(f.body.stmts@, 1)),
{
    let body = block_fmt(f.body.stmts@, 1);
    let head = crate::codegen::fmt::decorators_fmt(f.decorators@, Seq::empty()) + "fn "@ + f.name@
        + crate::codegen::fmt::listed(crate::text::views(f.type_params@), "<"@, ">"@) + "("@
        + crate::codegen::fmt::params_fmt(f.params@) + ")"@ + crate::codegen::fmt::ret_fmt(f.ret)
        + " {\n"@;
    assert(function_fmt(f) == head + body + "}"@);
    lemma_contains_self(body);
    lemma_contains_prefixed(head, body, body);
    lemma_contains_suffixed(head + body, "}"@, body);
}

/// Every expression statement of a function's body stands, in the formatted program, on a
/// line of its own: a tab, its text, a `?` exactly when it propagates errors, a newline.
pub proof fn law_formatted_program_keeps_statements(p: Program, i: int, k: int)
    requires
        0 <= i < p.items@.len(),
        p.items@[i] is Function,
        0 <= k < p.items@[i]->Function_0.body.stmts@.len(),
        p.items@[i]->Function_0.body.stmts@[k] is Expr,
    ensures
        ({
            let e = p.items@[i]->Function_0.body.stmts@[k]->Expr_0.expr;
            contains_seq(
                program_fmt(p),
                "\t"@ + e.text@ + (if e.has_try {
                    "?"@
                } else {
                    Seq::empty()
                }) + "\n"@,
            )
        }),
{
    let f = p.items@[i]->Function_0;
    let st = f.body.stmts@[k];
    let e = st->Expr_0.expr;
    let line = "\t"@ + e.text@ + (if e.has_try {
        "?"@
    } else {
        Seq::empty()
    }) + "\n"@;
    reveal_with_fuel(crate::text::repeat, 2);
    assert(tabs(1) =~= "\t"@);
    if e.has_try {
        assert(stmt_fmt(st, tabs(1), 1) =~= line);
    } else {
        assert(stmt_fmt(st, tabs(1), 1) =~= line);
    }
    lemma_block_contains(f.body.stmts@, 1, k);
    lemma_function_contains_body(f);
    lemma_contains_trans(function_fmt(f), block_fmt(f.body.stmts@, 1), line);
    let parts = p.items@.map_values(|it: Item| "\n"@ + item_fmt(it) + "\n"@);
    assert(item_fmt(p.items@[i]) == function_fmt(f));
    lemma_contains_prefixed("\n"@, item_fmt(p.items@[i]), line);
    lemma_contains_suffixed("\n"@ + item_fmt(p.items@[i]), "\n"@, line);
    assert(parts[i] == "\n"@ + item_fmt(p.items@[i]) + "\n"@);
    lemma_concat_contains(parts, i);
    lemma_contains_trans(concat(parts), parts[i], line);
    let head = "package "@ + p.package@ + "\n"@ + crate::codegen::fmt::imports_fmt(
        crate::text::views(p.imports@),
    );
    assert(program_fmt(p) == head + concat(parts));
    lemma_contains_prefixed(head, concat(parts), line);
}

} // verus!
