//! The rule on `?`: a function that returns neither `!` nor `T!` has no `?` anywhere in its
//! body outside the arms of a `match`, at any depth of `if`s, or analysis refuses it.
use vstd::prelude::*;

use crate::ast::{error_capable, ElseBranch, Expr, FnDecl, IfStmt, Item, Program, ReturnType, Stmt};
use crate::sema::body::{exprs_try_diags, if_diags, stmt_diags, stmts_diags, try_diags, vars_after_stmts};
use crate::sema::model::{EnumInfo, ModelView};
use crate::sema::{function_diags, item_diags, items_diags, program_diags, DiagInfo};

verus! {

/// Some expression of the list ends with `?`.
pub open spec fn exprs_use_try(es: Seq<Expr>) -> bool {
    exists|k: int| 0 <= k < es.len() && (#[trigger] es[k]).has_try
}

/// Some statement of the list uses `?` (see `stmt_uses_try`).
pub open spec fn stmts_use_try(s: Seq<Stmt>) -> bool
    decreases s,
{
    s.len() > 0 && (stmts_use_try(s.drop_last()) || stmt_uses_try(s.last()))
}

/// The statement has an expression that ends with `?`: its own (the value of a declaration,
/// of a `return`, of an expression statement, of a `match`), or, for an `if`, its
/// condition or a statement of one of its branches, at any depth. The arms of a `match`
/// are not looked into.
pub open spec fn stmt_uses_try(st: Stmt) -> bool
    decreases st,
{
    match st {
        Stmt::VarDecl(v) => v.expr.has_try,
        Stmt::Return(r) => exprs_use_try(r.exprs@),
        Stmt::Expr(e) => e.expr.has_try,
        Stmt::Match(m) => m.value.has_try,
        Stmt::If(i) => if_uses_try(i),
        Stmt::Raw(_) => false,
    }
}

pub open spec fn if_uses_try(i: IfStmt) -> bool
    decreases i,
{
    i.condition.has_try || stmts_use_try(i.then_block.stmts@) || match i.else_branch {
        None => false,
        Some(ElseBranch::Block(b)) => stmts_use_try(b.stmts@),
        Some(ElseBranch::If(n)) => if_uses_try(*n),
    }
}

/// Among the diagnostics, one has the code `code`.
pub open spec fn has_code(ds: Seq<DiagInfo>, code: Seq<char>) -> bool {
    exists|k: int| 0 <= k < ds.len() && (#[trigger] ds[k]).code == code
}

pub(crate) proof fn lemma_has_code_left(a: Seq<DiagInfo>, b: Seq<DiagInfo>, code: Seq<char>)
    requires
        has_code(a, code),
    ensures
        has_code(a + b, code),
{
    let k = choose|k: int| 0 <= k < a.len() && (#[trigger] a[k]).code == code;
    assert((a + b)[k] == a[k]);
}

pub(crate) proof fn lemma_has_code_right(a: Seq<DiagInfo>, b: Seq<DiagInfo>, code: Seq<char>)
    requires
        has_code(b, code),
    ensures
        has_code(a + b, code),
{
    let k = choose|k: int| 0 <= k < b.len() && (#[trigger] b[k]).code == code;
    assert((a + b)[a.len() + k] == b[k]);
}

proof fn lemma_try_diag(e: Expr, ret: ReturnType)
    requires
        e.has_try,
        !error_capable(ret),
    ensures
        has_code(try_diags(e, ret), "E0000"@),
{
    assert(try_diags(e, ret)[0].code == "E0000"@);
}

proof fn lemma_exprs_try(es: Seq<Expr>, ret: ReturnType)
    requires
        exprs_use_try(es),
        !error_capable(ret),
    ensures
        has_code(exprs_try_diags(es, ret), "E0000"@),
    decreases es.len(),
{
    let k = choose|k: int| 0 <= k < es.len() && (#[trigger] es[k]).has_try;
    if k == es.len() - 1 {
        lemma_try_diag(es.last(), ret);
        lemma_has_code_right(exprs_try_diags(es.drop_last(), ret), try_diags(es.last(), ret), "E0000"@);
    } else {
        assert(es.drop_last()[k] == es[k]);
        lemma_exprs_try(es.drop_last(), ret);
        lemma_has_code_left(exprs_try_diags(es.drop_last(), ret), try_diags(es.last(), ret), "E0000"@);
    }
}

proof fn lemma_stmts_try(
    s: Seq<Stmt>,
    ret: ReturnType,
    enums: Seq<EnumInfo>,
    vars: Seq<(Seq<char>, Seq<char>)>,
)
    requires
        stmts_use_try(s),
        !error_capable(ret),
    ensures
        has_code(stmts_diags(s, ret, enums, vars), "E0000"@),
    decreases s,
{
    let a = stmts_diags(s.drop_last(), ret, enums, vars);
    let b = stmt_diags(s.last(), ret, enums, vars_after_stmts(s.drop_last(), enums, vars));
    if stmts_use_try(s.drop_last()) {
        lemma_stmts_try(s.drop_last(), ret, enums, vars);
        lemma_has_code_left(a, b, "E0000"@);
    } else {
        lemma_stmt_try(s.last(), ret, enums, vars_after_stmts(s.drop_last(), enums, vars));
        lemma_has_code_right(a, b, "E0000"@);
    }
}

proof fn lemma_stmt_try(
    st: Stmt,
    ret: ReturnType,
    enums: Seq<EnumInfo>,
    vars: Seq<(Seq<char>, Seq<char>)>,
)
    requires
        stmt_uses_try(st),
        !error_capable(ret),
    ensures
        has_code(stmt_diags(st, ret, enums, vars), "E0000"@),
    decreases st,
{
    match st {
        Stmt::VarDecl(v) => {
            lemma_try_diag(v.expr, ret);
        },
        Stmt::Return(r) => {
            lemma_exprs_try(r.exprs@, ret);
        },
        Stmt::Expr(e) => {
            lemma_try_diag(e.expr, ret);
        },
        Stmt::Match(m) => {
            lemma_try_diag(m.value, ret);
            lemma_has_code_left(
                try_diags(m.value, ret),
                crate::sema::body::match_diags(m, ret, enums, vars),
                "E0000"@,
            );
        },
        Stmt::If(i) => {
            lemma_if_try(i, ret, enums, vars);
        },
        Stmt::Raw(_) => {},
    }
}

proof fn lemma_if_try(
    i: IfStmt,
    ret: ReturnType,
    enums: Seq<EnumInfo>,
    vars: Seq<(Seq<char>, Seq<char>)>,
)
    requires
        if_uses_try(i),
        !error_capable(ret),
    ensures
        has_code(if_diags(i, ret, enums, vars), "E0000"@),
    decreases i,
{
    let c = try_diags(i.condition, ret);
    let t = stmts_diags(i.then_block.stmts@, ret, enums, vars);
    let rest = match i.else_branch {
        None => Seq::<DiagInfo>::empty(),
        Some(ElseBranch::Block(b)) => stmts_diags(b.stmts@, ret, enums, vars),
        Some(ElseBranch::If(n)) => if_diags(*n, ret, enums, vars),
    };
    assert(if_diags(i, ret, enums, vars) == c + t + rest);
    if i.condition.has_try {
        lemma_try_diag(i.condition, ret);
        lemma_has_code_left(c, t, "E0000"@);
        lemma_has_code_left(c + t, rest, "E0000"@);
    } else if stmts_use_try(i.then_block.stmts@) {
        lemma_stmts_try(i.then_block.stmts@, ret, enums, vars);
        lemma_has_code_right(c, t, "E0000"@);
        lemma_has_code_left(c + t, rest, "E0000"@);
    } else {
        match i.else_branch {
            None => {},
            Some(ElseBranch::Block(b)) => {
                lemma_stmts_try(b.stmts@, ret, enums, vars);
            },
            Some(ElseBranch::If(n)) => {
                lemma_if_try(*n, ret, enums, vars);
            },
        }
        lemma_has_code_right(c + t, rest, "E0000"@);
    }
}

/// A function that returns neither `!` nor `T!` and uses `?` in its body, at any depth of
/// `if`s, gets an E0000 diagnostic.
pub proof fn law_try_needs_an_error_return(f: FnDecl, m: ModelView)
    requires
        !error_capable(f.ret),
        stmts_use_try(f.body.stmts@),
    ensures
        has_code(function_diags(f, m), "E0000"@),
{
    let vars = crate::sema::param_vars(f.params@, m.enums, Seq::empty());
    lemma_stmts_try(f.body.stmts@, f.ret, m.enums, vars);
    lemma_has_code_right(
        crate::sema::decorators::decorators_diags(f.decorators@, f.ret, f.params@, false, m.params),
        stmts_diags(f.body.stmts@, f.ret, m.enums, vars),
        "E0000"@,
    );
}

proof fn lemma_items_code(items: Seq<Item>, m: ModelView, i: int, code: Seq<char>)
    requires
        0 <= i < items.len(),
        has_code(item_diags(items[i], m), code),
    ensures
        has_code(items_diags(items, m), code),
    decreases items.len(),
{
    if i == items.len() - 1 {
        lemma_has_code_right(items_diags(items.drop_last(), m), item_diags(items.last(), m), code);
    } else {
        assert(items.drop_last()[i] == items[i]);
        lemma_items_code(items.drop_last(), m, i, code);
        lemma_has_code_left(items_diags(items.drop_last(), m), item_diags(items.last(), m), code);
    }
}

/// A program with a function that returns neither `!` nor `T!` and uses `?` in its body,
/// at any depth of `if`s, is refused with an E0000 diagnostic: `analyze` and
/// `analyze_with_model` give `Err` on it.
pub proof fn law_program_refuses_misused_try(p: Program, m: ModelView, i: int)
    requires
        0 <= i < p.items@.len(),
        p.items@[i] matches Item::Function(f) && !error_capable(f.ret) && stmts_use_try(
            f.body.stmts@,
        ),
    ensures
        has_code(program_diags(p, m), "E0000"@),
        program_diags(p, m).len() > 0,
{
    if let Item::Function(f) = p.items@[i] {
        law_try_needs_an_error_return(f, m);
        lemma_items_code(p.items@, m, i, "E0000"@);
        lemma_has_code_right(
            crate::sema::decls::decl_diags(p.items@),
            items_diags(p.items@, m),
            "E0000"@,
        );
    }
}

proof fn lemma_methods_code(ms: Seq<crate::ast::MethodDecl>, target: Seq<char>, enums: Seq<EnumInfo>, j: int)
    requires
        0 <= j < ms.len(),
        !error_capable(ms[j].ret),
        stmts_use_try(ms[j].body.stmts@),
    ensures
        has_code(crate::sema::methods_diags(ms, target, enums), "E0000"@),
    decreases ms.len(),
{
    let rest = crate::sema::methods_diags(ms.drop_last(), target, enums);
    let last = crate::sema::method_diags(ms.last(), target, enums);
    if j == ms.len() - 1 {
        let md = ms.last();
        lemma_stmts_try(md.body.stmts@, md.ret, enums, crate::sema::method_vars(md, target, enums));
        lemma_has_code_right(
            crate::sema::decorators::decorators_diags(md.decorators@, md.ret, md.params@, true, Seq::empty()),
            stmts_diags(md.body.stmts@, md.ret, enums, crate::sema::method_vars(md, target, enums)),
            "E0000"@,
        );
        lemma_has_code_right(rest, last, "E0000"@);
    } else {
        assert(ms.drop_last()[j] == ms[j]);
        lemma_methods_code(ms.drop_last(), target, enums, j);
        lemma_has_code_left(rest, last, "E0000"@);
    }
}

/// The same holds of methods: a program with a method that returns neither `!` nor `T!`
/// and uses `?` in its body, at any depth of `if`s, is refused with an E0000 diagnostic.
pub proof fn law_program_refuses_misused_try_in_method(p: Program, m: ModelView, i: int, j: int)
    requires
        0 <= i < p.items@.len(),
        p.items@[i] matches Item::Impl(b) && 0 <= j < b.methods@.len() && !error_capable(
            b.methods@[j].ret,
        ) && stmts_use_try(b.methods@[j].body.stmts@),
    ensures
        has_code(program_diags(p, m), "E0000"@),
        program_diags(p, m).len() > 0,
{
    if let Item::Impl(b) = p.items@[i] {
        lemma_methods_code(b.methods@, b.target@, m.enums, j);
        lemma_items_code(p.items@, m, i, "E0000"@);
        lemma_has_code_right(
            crate::sema::decls::decl_diags(p.items@),
            items_diags(p.items@, m),
            "E0000"@,
        );
    }
}

} // verus!
