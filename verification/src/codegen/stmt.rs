//! Statements in Go: `?` lowered to error checks, `match` to `switch`.
use vstd::prelude::*;

use crate::ast::{
    Block, ElseBranch, Expr, IfStmt, MatchArm, MatchArmBody, MatchStmt, Pattern, ReturnType,
    Stmt, VarDeclStmt,
};
use crate::codegen::types::{
    is_direct_error, is_direct_error_expr, is_error_ctor, is_error_ctor_expr, is_error_value,
    is_error_value_expr, lower_ident, map_error_ctor, map_error_ctor_expr, push_lower_ident,
    zero_value, zero_value_expr,
};
use crate::codegen::{
    after_tmp, info_tagged, tmp_name, transform, transform_expr, with_import, with_try,
    GenState, GoGenerator,
};
use crate::sema::body::{first_variant, has_wildcard};
use crate::sema::model::{enum_info, enum_infos, find_enum, lookup_enum, EnumInfo, SemanticModel};
use crate::sema::signature::{base_enum_name, base_name};
use crate::text::{
    decimal, join, push_decimal, push_range, push_str, str_eq, str_to_string, to_chars,
    trim_bounds, trim_start, trim_start_string,
};

verus! {

/// Generated text, and the state after generating it.
pub struct Emitted {
    pub text: Seq<char>,
    pub state: GenState,
}

pub open spec fn emitted(text: Seq<char>, state: GenState) -> Emitted {
    Emitted { text, state }
}

/// `return` of the error `err` from a function with return `ret`.
pub open spec fn err_return(ret: ReturnType, err: Seq<char>, ind: Seq<char>) -> Seq<char> {
    match ret {
        ReturnType::ErrorOnly => ind + "return "@ + err + "\n"@,
        ReturnType::TypeWithError(t) => ind + "return "@ + zero_value(t.raw@) + ", "@ + err + "\n"@,
        _ => ind + "return\n"@,
    }
}

/// `x := e`; with `?`, the error checked and returned.
pub open spec fn var_decl_go(
    v: VarDeclStmt,
    ret: ReturnType,
    ind: Seq<char>,
    es: Seq<EnumInfo>,
    s: GenState,
) -> Emitted {
    let e = transform(es, v.expr.text@);
    if v.expr.has_try {
        let err = tmp_name("__gp_err"@, s);
        emitted(
            ind + v.name@ + ", "@ + err + " := "@ + e + "\n"@ + ind + "if "@ + err + " != nil {\n"@
                + err_return(ret, err, ind + "\t"@) + ind + "}\n"@,
            after_tmp(s),
        )
    } else {
        emitted(ind + v.name@ + " := "@ + e + "\n"@, s)
    }
}

/// An expression statement; with `?`, its error checked and returned (through the
/// `__goplusTry` helper unless the expression is itself an error).
pub open spec fn expr_go(
    x: Expr,
    ret: ReturnType,
    ind: Seq<char>,
    es: Seq<EnumInfo>,
    s: GenState,
) -> Emitted {
    let e = transform(es, x.text@);
    if x.has_try {
        let err = tmp_name("__gp_err"@, s);
        if is_direct_error(e) {
            emitted(
                ind + "if "@ + err + " := "@ + e + "; "@ + err + " != nil {\n"@ + err_return(
                    ret,
                    err,
                    ind + "\t"@,
                ) + ind + "}\n"@,
                after_tmp(s),
            )
        } else {
            emitted(
                ind + "if "@ + err + " := __goplusTry("@ + e + "); "@ + err + " != nil {\n"@
                    + err_return(ret, err, ind + "\t"@) + ind + "}\n"@,
                after_tmp(with_try(s)),
            )
        }
    } else {
        emitted(ind + e + "\n"@, s)
    }
}

/// `return e?`.
pub open spec fn return_try_go(
    x: Expr,
    ret: ReturnType,
    ind: Seq<char>,
    es: Seq<EnumInfo>,
    s: GenState,
) -> Emitted {
    let t = transform(es, x.text@);
    match ret {
        ReturnType::TypeWithError(_) => {
            let val = tmp_name("__gp_val"@, s);
            let err = tmp_name("__gp_err"@, after_tmp(s));
            emitted(
                ind + val + ", "@ + err + " := "@ + t + "\n"@ + ind + "if "@ + err + " != nil {\n"@
                    + err_return(ret, err, ind + "\t"@) + ind + "}\n"@ + ind + "return "@ + val
                    + ", nil\n"@,
                after_tmp(after_tmp(s)),
            )
        },
        ReturnType::ErrorOnly => {
            let err = tmp_name("__gp_err"@, s);
            emitted(
                ind + "if "@ + err + " := __goplusTry("@ + t + "); "@ + err + " != nil {\n"@
                    + err_return(ret, err, ind + "\t"@) + ind + "}\n"@ + ind + "return nil\n"@,
                after_tmp(with_try(s)),
            )
        },
        _ => emitted(ind + "return "@ + t + "\n"@, s),
    }
}

pub open spec fn transformed_all(es: Seq<EnumInfo>, xs: Seq<Expr>) -> Seq<Seq<char>> {
    xs.map_values(|x: Expr| transform(es, x.text@))
}

/// `return`: `nil` added for `!` functions, `, nil` for `T!` ones, `error(..)` written
/// `errors.New(..)` and an error variable returned as the error.
pub open spec fn return_go(
    xs: Seq<Expr>,
    ret: ReturnType,
    ind: Seq<char>,
    es: Seq<EnumInfo>,
    s: GenState,
) -> Emitted {
    if xs.len() == 0 {
        match ret {
            ReturnType::ErrorOnly => emitted(ind + "return nil\n"@, s),
            _ => emitted(ind + "return\n"@, s),
        }
    } else if xs.len() == 1 && xs[0].has_try {
        return_try_go(xs[0], ret, ind, es, s)
    } else if xs.len() == 1 {
        let e = transform(es, xs[0].text@);
        if is_error_ctor(e) {
            let mapped = map_error_ctor(e);
            match ret {
                ReturnType::TypeWithError(t) => emitted(
                    ind + "return "@ + zero_value(t.raw@) + ", "@ + mapped + "\n"@,
                    with_import(s, "errors"@),
                ),
                _ => emitted(ind + "return "@ + mapped + "\n"@, with_import(s, "errors"@)),
            }
        } else {
            match ret {
                ReturnType::TypeWithError(t) => if is_error_value(e) {
                    emitted(ind + "return "@ + zero_value(t.raw@) + ", "@ + e + "\n"@, s)
                } else {
                    emitted(ind + "return "@ + e + ", nil\n"@, s)
                },
                _ => emitted(ind + "return "@ + e + "\n"@, s),
            }
        }
    } else {
        emitted(ind + "return "@ + join(transformed_all(es, xs), ", "@) + "\n"@, s)
    }
}

/// The `name := tmp.variantN` lines that bind a payload in a `case`.
pub open spec fn bindings_go(
    ed: EnumInfo,
    variant: Seq<char>,
    bindings: Seq<Seq<char>>,
    tmp: Seq<char>,
    ind: Seq<char>,
) -> Seq<char>
    decreases bindings.len(),
{
    if bindings.len() == 0 {
        Seq::empty()
    } else {
        let idx = bindings.len() - 1;
        let b = bindings.last();
        let here = match first_variant(ed.variants, variant) {
            Some(vi) => if b != "_"@ && idx < vi.payload.len() {
                ind + b + " := "@ + tmp + "."@ + lower_ident(variant) + decimal(idx as nat) + "\n"@
            } else {
                Seq::empty()
            },
            None => Seq::empty(),
        };
        bindings_go(ed, variant, bindings.drop_last(), tmp, ind) + here
    }
}

pub open spec fn arm_label(
    kind: nat,
    p: Pattern,
    ed: EnumInfo,
    tmp: Seq<char>,
    ind: Seq<char>,
) -> Seq<char> {
    match p {
        Pattern::Wildcard { .. } => ind + "default:\n"@,
        Pattern::TypedVariant { enum_name, variant, bindings, .. } => if kind == 0 {
            ind + "case "@ + base_name(enum_name@) + variant@ + ":\n"@
        } else if kind == 1 {
            ind + "case "@ + ed.name + variant@ + ":\n"@
        } else {
            ind + "case "@ + ed.name + "Tag"@ + variant@ + ":\n"@ + bindings_go(
                ed,
                variant@,
                crate::text::views(bindings@),
                tmp,
                ind + "\t"@,
            )
        },
        Pattern::Variant { variant, bindings, .. } => if kind == 0 {
            ind + "case "@ + variant@ + ":\n"@
        } else if kind == 1 {
            ind + "case "@ + ed.name + variant@ + ":\n"@
        } else {
            ind + "case "@ + ed.name + "Tag"@ + variant@ + ":\n"@ + bindings_go(
                ed,
                variant@,
                crate::text::views(bindings@),
                tmp,
                ind + "\t"@,
            )
        },
    }
}

pub open spec fn no_default(arms: Seq<MatchArm>, ind: Seq<char>) -> Seq<char> {
    if !has_wildcard(arms) {
        ind + "\t"@ + "default:\n"@ + ind + "\t\t"@ + "panic(\"unreachable\")\n"@
    } else {
        Seq::empty()
    }
}

// kind: 0 for a match over no known enum, 1 for a plain enum, 2 for an enum with payloads.
pub open spec fn arms_go(
    kind: nat,
    arms: Seq<MatchArm>,
    ed: EnumInfo,
    tmp: Seq<char>,
    ret: ReturnType,
    ind: Seq<char>,
    es: Seq<EnumInfo>,
    s: GenState,
) -> Emitted
    decreases arms,
{
    if arms.len() == 0 {
        emitted(Seq::empty(), s)
    } else {
        let prev = arms_go(kind, arms.drop_last(), ed, tmp, ret, ind, es, s);
        let arm = arms.last();
        let body = arm_body_go(arm.body, ret, ind + "\t\t"@, es, prev.state);
        emitted(
            prev.text + arm_label(kind, arm.pattern, ed, tmp, ind + "\t"@) + body.text,
            body.state,
        )
    }
}

pub open spec fn arm_body_go(
    b: MatchArmBody,
    ret: ReturnType,
    ind: Seq<char>,
    es: Seq<EnumInfo>,
    s: GenState,
) -> Emitted
    decreases b,
{
    match b {
        MatchArmBody::Expr(e) => if ret is Void {
            expr_go(e, ret, ind, es, s)
        } else {
            return_go(seq![e], ret, ind, es, s)
        },
        MatchArmBody::Block(bl) => block_go(bl.stmts@, ret, ind, es, s),
    }
}

/// The enum that analysis recorded for a `match`, if the model has it.
pub open spec fn known_enum(m: MatchStmt, es: Seq<EnumInfo>) -> Option<EnumInfo> {
    match m.resolved_enum {
        Some(n) => lookup_enum(es, n@),
        None => None,
    }
}

/// A `match` as a `switch`: over the tag of an enum with payloads, over the constants of a
/// plain enum (each with a `default` that panics where the match has no `_`), or, for a
/// `match` whose enum is not known, over the values as written.
pub open spec fn match_go(
    m: MatchStmt,
    ret: ReturnType,
    ind: Seq<char>,
    es: Seq<EnumInfo>,
    s: GenState,
) -> Emitted
    decreases m,
{
    let value = transform(es, m.value.text@);
    match known_enum(m, es) {
        Some(ed) => if info_tagged(ed) {
            let tmp = tmp_name("__gp_match"@, s);
            let body = arms_go(2, m.arms@, ed, tmp, ret, ind, es, after_tmp(s));
            emitted(
                ind + tmp + " := "@ + value + "\n"@ + ind + "switch "@ + tmp + ".tag {\n"@ + body.text
                    + no_default(m.arms@, ind) + ind + "}\n"@,
                body.state,
            )
        } else {
            let body = arms_go(1, m.arms@, ed, Seq::empty(), ret, ind, es, s);
            emitted(
                ind + "switch "@ + value + " {\n"@ + body.text + no_default(m.arms@, ind) + ind
                    + "}\n"@,
                body.state,
            )
        },
        None => {
            let body = arms_go(0, m.arms@, m_enum_placeholder(), Seq::empty(), ret, ind, es, s);
            emitted(ind + "switch "@ + value + " {\n"@ + body.text + ind + "}\n"@, body.state)
        },
    }
}

/// An enum that a `match` over no known enum never consults.
pub open spec fn m_enum_placeholder() -> EnumInfo {
    EnumInfo {
        name: Seq::empty(),
        type_params: Seq::empty(),
        variants: Seq::empty(),
        derives: Seq::empty(),
        span: crate::ast::Span { start: 0, end: 0 },
    }
}

pub open spec fn if_go(
    i: IfStmt,
    ret: ReturnType,
    ind: Seq<char>,
    es: Seq<EnumInfo>,
    s: GenState,
) -> Emitted
    decreases i,
{
    let head = ind + "if "@ + transform(es, i.condition.text@) + " {\n"@;
    let b = block_go(i.then_block.stmts@, ret, ind + "\t"@, es, s);
    let mid = head + b.text + ind + "}"@;
    match i.else_branch {
        None => emitted(mid + "\n"@, b.state),
        Some(ElseBranch::Block(eb)) => {
            let r = block_go(eb.stmts@, ret, ind + "\t"@, es, b.state);
            emitted(mid + " else {\n"@ + r.text + ind + "}\n"@, r.state)
        },
        Some(ElseBranch::If(n)) => {
            let r = if_go(*n, ret, ind, es, b.state);
            emitted(mid + " else "@ + trim_start(r.text), r.state)
        },
    }
}

pub open spec fn stmt_go(
    st: Stmt,
    ret: ReturnType,
    ind: Seq<char>,
    es: Seq<EnumInfo>,
    s: GenState,
) -> Emitted
    decreases st,
{
    match st {
        Stmt::VarDecl(v) => var_decl_go(v, ret, ind, es, s),
        Stmt::Return(r) => return_go(r.exprs@, ret, ind, es, s),
        Stmt::Expr(e) => expr_go(e.expr, ret, ind, es, s),
        Stmt::Match(m) => match_go(m, ret, ind, es, s),
        Stmt::If(i) => if_go(i, ret, ind, es, s),
        Stmt::Raw(r) => emitted(ind + transform(es, r.text@) + "\n"@, s),
    }
}

/// The statements of a block, each indented by `ind`.
pub open spec fn block_go(
    stmts: Seq<Stmt>,
    ret: ReturnType,
    ind: Seq<char>,
    es: Seq<EnumInfo>,
    s: GenState,
) -> Emitted
    decreases stmts,
{
    if stmts.len() == 0 {
        emitted(Seq::empty(), s)
    } else {
        let prev = block_go(stmts.drop_last(), ret, ind, es, s);
        let last = stmt_go(stmts.last(), ret, ind, es, prev.state);
        emitted(prev.text + last.text, last.state)
    }
}

// ----- executable generation -----

fn err_return_text(ret: &ReturnType, err: &str, ind: &str) -> (r: String)
    ensures
        r@ == err_return(*ret, err@, ind@),
{
    let mut r = str_to_string(ind);
    match ret {
        ReturnType::ErrorOnly => {
            push_str(&mut r, "return ");
            push_str(&mut r, err);
            push_str(&mut r, "\n");
        },
        ReturnType::TypeWithError(t) => {
            push_str(&mut r, "return ");
            let z = zero_value_expr(t.raw.as_str());
            push_str(&mut r, z.as_str());
            push_str(&mut r, ", ");
            push_str(&mut r, err);
            push_str(&mut r, "\n");
        },
        _ => {
            push_str(&mut r, "return\n");
        },
    }
    assert(r@ =~= err_return(*ret, err@, ind@));
    r
}

fn indented(ind: &str, extra: &str) -> (r: String)
    ensures
        r@ == ind@ + extra@,
{
    let mut r = str_to_string(ind);
    push_str(&mut r, extra);
    r
}

fn copy_expr(e: &Expr) -> (r: Expr)
    ensures
        r == *e,
{
    Expr { text: e.text.clone(), has_try: e.has_try, span: e.span }
}

/// Appends the `name := tmp.variantN` lines of a `case`.
fn push_bindings(
    out: &mut String,
    ed: &crate::ast::EnumDecl,
    variant: &str,
    bindings: &Vec<String>,
    tmp: &str,
    ind: &str,
)
    ensures
        final(out)@ == old(out)@ + bindings_go(
            enum_info(*ed),
            variant@,
            crate::text::views(bindings@),
            tmp@,
            ind@,
        ),
{
    let ghost bv = crate::text::views(bindings@);
    let found = crate::sema::body::first_variant_index(ed, variant);
    let mut i: usize = 0;
    assert(bv.take(0) =~= Seq::<Seq<char>>::empty());
    while i < bindings.len()
        invariant
            0 <= i <= bindings@.len(),
            bv == crate::text::views(bindings@),
            match first_variant(enum_info(*ed).variants, variant@) {
                None => found is None,
                Some(vi) => found matches Some(k) && k < ed.variants@.len() && vi.payload.len()
                    == ed.variants@[k as int].payload@.len(),
            },
            out@ == old(out)@ + bindings_go(
                enum_info(*ed),
                variant@,
                bv.take(i as int),
                tmp@,
                ind@,
            ),
        decreases bindings@.len() - i,
    {
        assert(bv.take(i + 1).drop_last() =~= bv.take(i as int));
        assert(bv.take(i + 1).last() == bindings@[i as int]@);
        match found {
            Some(k) => {
                let b = bindings[i].as_str();
                if !str_eq(b, "_") && i < ed.variants[k].payload.len() {
                    push_str(out, ind);
                    push_str(out, b);
                    push_str(out, " := ");
                    push_str(out, tmp);
                    push_str(out, ".");
                    push_lower_ident(out, variant);
                    push_decimal(out, i);
                    push_str(out, "\n");
                }
            },
            None => {},
        }
        i = i + 1;
    }
    assert(bv.take(bindings@.len() as int) =~= bv);
}

fn push_arm_label(
    out: &mut String,
    kind: u8,
    p: &Pattern,
    ed: &crate::ast::EnumDecl,
    tmp: &str,
    ind: &str,
)
    ensures
        final(out)@ == old(out)@ + arm_label(kind as nat, *p, enum_info(*ed), tmp@, ind@),
{
    push_str(out, ind);
    match p {
        Pattern::Wildcard { .. } => {
            push_str(out, "default:\n");
        },
        Pattern::TypedVariant { enum_name, variant, bindings, .. } => {
            push_str(out, "case ");
            if kind == 0 {
                let b = base_enum_name(enum_name.as_str());
                push_str(out, b.as_str());
                push_str(out, variant.as_str());
                push_str(out, ":\n");
            } else if kind == 1 {
                push_str(out, ed.name.as_str());
                push_str(out, variant.as_str());
                push_str(out, ":\n");
            } else {
                push_str(out, ed.name.as_str());
                push_str(out, "Tag");
                push_str(out, variant.as_str());
                push_str(out, ":\n");
                let inner = indented(ind, "\t");
                push_bindings(out, ed, variant.as_str(), bindings, tmp, inner.as_str());
            }
        },
        Pattern::Variant { variant, bindings, .. } => {
            push_str(out, "case ");
            if kind == 0 {
                push_str(out, variant.as_str());
                push_str(out, ":\n");
            } else if kind == 1 {
                push_str(out, ed.name.as_str());
                push_str(out, variant.as_str());
                push_str(out, ":\n");
            } else {
                push_str(out, ed.name.as_str());
                push_str(out, "Tag");
                push_str(out, variant.as_str());
                push_str(out, ":\n");
                let inner = indented(ind, "\t");
                push_bindings(out, ed, variant.as_str(), bindings, tmp, inner.as_str());
            }
        },
    }
    assert(final(out)@ =~= old(out)@ + arm_label(kind as nat, *p, enum_info(*ed), tmp@, ind@));
}

fn placeholder_enum() -> (e: crate::ast::EnumDecl)
    ensures
        enum_info(e) == m_enum_placeholder(),
{
    let e = crate::ast::EnumDecl {
        name: String::new(),
        type_params: Vec::new(),
        variants: Vec::new(),
        derives: Vec::new(),
        span: crate::ast::Span { start: 0, end: 0 },
    };
    assert(enum_info(e).name =~= Seq::<char>::empty());
    assert(enum_info(e).type_params =~= Seq::<Seq<char>>::empty());
    assert(enum_info(e).variants =~= Seq::<crate::sema::model::VariantInfo>::empty());
    assert(enum_info(e).derives =~= Seq::<crate::ast::DeriveKind>::empty());
    e
}

impl GoGenerator {
    fn emit_var_decl(
        &mut self,
        model: &SemanticModel,
        v: &VarDeclStmt,
        ret: &ReturnType,
        ind: &str,
    ) -> (r: String)
        requires
            old(self).wf(),
        ensures
            final(self).wf(),
            r@ == var_decl_go(*v, *ret, ind@, model@.enums, old(self).state()).text,
            final(self).state() == var_decl_go(*v, *ret, ind@, model@.enums, old(self).state()).state,
    {
        let e = transform_expr(model, v.expr.text.as_str());
        let mut out = str_to_string(ind);
        if v.expr.has_try {
            let err = self.next_tmp("__gp_err");
            push_str(&mut out, v.name.as_str());
            push_str(&mut out, ", ");
            push_str(&mut out, err.as_str());
            push_str(&mut out, " := ");
            push_str(&mut out, e.as_str());
            push_str(&mut out, "\n");
            push_str(&mut out, ind);
            push_str(&mut out, "if ");
            push_str(&mut out, err.as_str());
            push_str(&mut out, " != nil {\n");
            let inner = indented(ind, "\t");
            let er = err_return_text(ret, err.as_str(), inner.as_str());
            push_str(&mut out, er.as_str());
            push_str(&mut out, ind);
            push_str(&mut out, "}\n");
        } else {
            push_str(&mut out, v.name.as_str());
            push_str(&mut out, " := ");
            push_str(&mut out, e.as_str());
            push_str(&mut out, "\n");
        }
        assert(out@ =~= var_decl_go(*v, *ret, ind@, model@.enums, old(self).state()).text);
        out
    }

    fn emit_expr(&mut self, model: &SemanticModel, x: &Expr, ret: &ReturnType, ind: &str) -> (r:
        String)
        requires
            old(self).wf(),
        ensures
            final(self).wf(),
            r@ == expr_go(*x, *ret, ind@, model@.enums, old(self).state()).text,
            final(self).state() == expr_go(*x, *ret, ind@, model@.enums, old(self).state()).state,
    {
        let e = transform_expr(model, x.text.as_str());
        let mut out = str_to_string(ind);
        if x.has_try {
            let direct = is_direct_error_expr(e.as_str());
            if !direct {
                self.set_needs_try();
            }
            let err = self.next_tmp("__gp_err");
            push_str(&mut out, "if ");
            push_str(&mut out, err.as_str());
            if direct {
                push_str(&mut out, " := ");
                push_str(&mut out, e.as_str());
                push_str(&mut out, "; ");
            } else {
                push_str(&mut out, " := __goplusTry(");
                push_str(&mut out, e.as_str());
                push_str(&mut out, "); ");
            }
            push_str(&mut out, err.as_str());
            push_str(&mut out, " != nil {\n");
            let inner = indented(ind, "\t");
            let er = err_return_text(ret, err.as_str(), inner.as_str());
            push_str(&mut out, er.as_str());
            push_str(&mut out, ind);
            push_str(&mut out, "}\n");
        } else {
            push_str(&mut out, e.as_str());
            push_str(&mut out, "\n");
        }
        assert(out@ =~= expr_go(*x, *ret, ind@, model@.enums, old(self).state()).text);
        out
    }

    fn emit_return_try(
        &mut self,
        model: &SemanticModel,
        x: &Expr,
        ret: &ReturnType,
        ind: &str,
    ) -> (r: String)
        requires
            old(self).wf(),
        ensures
            final(self).wf(),
            r@ == return_try_go(*x, *ret, ind@, model@.enums, old(self).state()).text,
            final(self).state() == return_try_go(*x, *ret, ind@, model@.enums, old(self).state()).state,
    {
        let t = transform_expr(model, x.text.as_str());
        let mut out = str_to_string(ind);
        match ret {
            ReturnType::TypeWithError(_) => {
                let val = self.next_tmp("__gp_val");
                let err = self.next_tmp("__gp_err");
                push_str(&mut out, val.as_str());
                push_str(&mut out, ", ");
                push_str(&mut out, err.as_str());
                push_str(&mut out, " := ");
                push_str(&mut out, t.as_str());
                push_str(&mut out, "\n");
                push_str(&mut out, ind);
                push_str(&mut out, "if ");
                push_str(&mut out, err.as_str());
                push_str(&mut out, " != nil {\n");
                let inner = indented(ind, "\t");
                let er = err_return_text(ret, err.as_str(), inner.as_str());
                push_str(&mut out, er.as_str());
                push_str(&mut out, ind);
                push_str(&mut out, "}\n");
                push_str(&mut out, ind);
                push_str(&mut out, "return ");
                push_str(&mut out, val.as_str());
                push_str(&mut out, ", nil\n");
            },
            ReturnType::ErrorOnly => {
                self.set_needs_try();
                let err = self.next_tmp("__gp_err");
                push_str(&mut out, "if ");
                push_str(&mut out, err.as_str());
                push_str(&mut out, " := __goplusTry(");
                push_str(&mut out, t.as_str());
                push_str(&mut out, "); ");
                push_str(&mut out, err.as_str());
                push_str(&mut out, " != nil {\n");
                let inner = indented(ind, "\t");
                let er = err_return_text(ret, err.as_str(), inner.as_str());
                push_str(&mut out, er.as_str());
                push_str(&mut out, ind);
                push_str(&mut out, "}\n");
                push_str(&mut out, ind);
                push_str(&mut out, "return nil\n");
            },
            _ => {
                push_str(&mut out, "return ");
                push_str(&mut out, t.as_str());
                push_str(&mut out, "\n");
            },
        }
        assert(out@ =~= return_try_go(*x, *ret, ind@, model@.enums, old(self).state()).text);
        out
    }

    fn emit_return(
        &mut self,
        model: &SemanticModel,
        xs: &Vec<Expr>,
        ret: &ReturnType,
        ind: &str,
    ) -> (r: String)
        requires
            old(self).wf(),
        ensures
            final(self).wf(),
            r@ == return_go(xs@, *ret, ind@, model@.enums, old(self).state()).text,
            final(self).state() == return_go(xs@, *ret, ind@, model@.enums, old(self).state()).state,
    {
        let mut out = str_to_string(ind);
        if xs.len() == 0 {
            match ret {
                ReturnType::ErrorOnly => push_str(&mut out, "return nil\n"),
                _ => push_str(&mut out, "return\n"),
            }
            assert(out@ =~= return_go(xs@, *ret, ind@, model@.enums, old(self).state()).text);
            return out;
        }
        if xs.len() == 1 && xs[0].has_try {
            return self.emit_return_try(model, &xs[0], ret, ind);
        }
        if xs.len() == 1 {
            let e = transform_expr(model, xs[0].text.as_str());
            if is_error_ctor_expr(e.as_str()) {
                self.add_import("errors");
                let mapped = map_error_ctor_expr(e.as_str());
                push_str(&mut out, "return ");
                match ret {
                    ReturnType::TypeWithError(t) => {
                        let z = zero_value_expr(t.raw.as_str());
                        push_str(&mut out, z.as_str());
                        push_str(&mut out, ", ");
                    },
                    _ => {},
                }
                push_str(&mut out, mapped.as_str());
                push_str(&mut out, "\n");
            } else {
                push_str(&mut out, "return ");
                match ret {
                    ReturnType::TypeWithError(t) => {
                        if is_error_value_expr(e.as_str()) {
                            let z = zero_value_expr(t.raw.as_str());
                            push_str(&mut out, z.as_str());
                            push_str(&mut out, ", ");
                            push_str(&mut out, e.as_str());
                            push_str(&mut out, "\n");
                        } else {
                            push_str(&mut out, e.as_str());
                            push_str(&mut out, ", nil\n");
                        }
                    },
                    _ => {
                        push_str(&mut out, e.as_str());
                        push_str(&mut out, "\n");
                    },
                }
            }
            assert(out@ =~= return_go(xs@, *ret, ind@, model@.enums, old(self).state()).text);
            return out;
        }
        push_str(&mut out, "return ");
        let ghost texts = transformed_all(model@.enums, xs@);
        let ghost before = out@;
        let mut i: usize = 0;
        while i < xs.len()
            invariant
                0 <= i <= xs@.len(),
                texts == transformed_all(model@.enums, xs@),
                out@ == before + join(texts.take(i as int), ", "@),
            decreases xs@.len() - i,
        {
            assert(texts.take(i + 1).drop_last() =~= texts.take(i as int));
            if i > 0 {
                push_str(&mut out, ", ");
            } else {
                assert(texts.take(0) =~= Seq::<Seq<char>>::empty());
            }
            let e = transform_expr(model, xs[i].text.as_str());
            push_str(&mut out, e.as_str());
            i = i + 1;
        }
        assert(texts.take(xs@.len() as int) =~= texts);
        push_str(&mut out, "\n");
        assert(out@ =~= return_go(xs@, *ret, ind@, model@.enums, old(self).state()).text);
        out
    }

    fn emit_arm_body(
        &mut self,
        model: &SemanticModel,
        b: &MatchArmBody,
        ret: &ReturnType,
        ind: &str,
    ) -> (r: String)
        requires
            old(self).wf(),
        ensures
            final(self).wf(),
            r@ == arm_body_go(*b, *ret, ind@, model@.enums, old(self).state()).text,
            final(self).state() == arm_body_go(*b, *ret, ind@, model@.enums, old(self).state()).state,
        decreases b,
    {
        match b {
            MatchArmBody::Expr(e) => {
                match ret {
                    ReturnType::Void => self.emit_expr(model, e, ret, ind),
                    _ => {
                        let mut xs: Vec<Expr> = Vec::new();
                        xs.push(copy_expr(e));
                        assert(xs@ =~= seq![*e]);
                        self.emit_return(model, &xs, ret, ind)
                    },
                }
            },
            MatchArmBody::Block(bl) => self.emit_block(model, bl, ret, ind),
        }
    }

    fn emit_arms(
        &mut self,
        model: &SemanticModel,
        kind: u8,
        arms: &Vec<MatchArm>,
        ed: &crate::ast::EnumDecl,
        tmp: &str,
        ret: &ReturnType,
        ind: &str,
    ) -> (r: String)
        requires
            old(self).wf(),
        ensures
            final(self).wf(),
            r@ == arms_go(
                kind as nat,
                arms@,
                enum_info(*ed),
                tmp@,
                *ret,
                ind@,
                model@.enums,
                old(self).state(),
            ).text,
            final(self).state() == arms_go(
                kind as nat,
                arms@,
                enum_info(*ed),
                tmp@,
                *ret,
                ind@,
                model@.enums,
                old(self).state(),
            ).state,
        decreases arms,
    {
        let ghost s0 = self.state();
        let ghost es = model@.enums;
        let ghost edi = enum_info(*ed);
        let inner1 = indented(ind, "\t");
        let inner2 = indented(ind, "\t\t");
        let mut out = String::new();
        let mut i: usize = 0;
        assert(arms@.take(0) =~= Seq::<MatchArm>::empty());
        while i < arms.len()
            invariant
                0 <= i <= arms@.len(),
                self.wf(),
                es == model@.enums,
                edi == enum_info(*ed),
                inner1@ == ind@ + "\t"@,
                inner2@ == ind@ + "\t\t"@,
                out@ == arms_go(kind as nat, arms@.take(i as int), edi, tmp@, *ret, ind@, es, s0).text,
                self.state() == arms_go(
                    kind as nat,
                    arms@.take(i as int),
                    edi,
                    tmp@,
                    *ret,
                    ind@,
                    es,
                    s0,
                ).state,
            decreases arms@.len() - i,
        {
            assert(arms@.take(i + 1).drop_last() =~= arms@.take(i as int));
            assert(arms@.take(i + 1).last() == arms@[i as int]);
            let arm = &arms[i];
            push_arm_label(&mut out, kind, &arm.pattern, ed, tmp, inner1.as_str());
            assert(decreases_to!(arms => arms@[i as int].body));
            let body = self.emit_arm_body(model, &arm.body, ret, inner2.as_str());
            push_str(&mut out, body.as_str());
            i = i + 1;
        }
        assert(arms@.take(arms@.len() as int) =~= arms@);
        out
    }

    fn emit_match(&mut self, model: &SemanticModel, m: &MatchStmt, ret: &ReturnType, ind: &str) -> (r:
        String)
        requires
            old(self).wf(),
        ensures
            final(self).wf(),
            r@ == match_go(*m, *ret, ind@, model@.enums, old(self).state()).text,
            final(self).state() == match_go(*m, *ret, ind@, model@.enums, old(self).state()).state,
        decreases m,
    {
        let value = transform_expr(model, m.value.text.as_str());
        let ghost known = known_enum(*m, model@.enums);
        let found = match &m.resolved_enum {
            Some(n) => find_enum(&model.enums, n.as_str()),
            None => None,
        };
        assert(found is None ==> known is None);
        let wildcard = crate::sema::body::any_wildcard(&m.arms);
        let mut out = String::new();
        proof {
            reveal_strlit("");
            assert(""@ =~= Seq::<char>::empty());
        }
        match found {
            Some(k) => {
                let ed = &model.enums[k];
                assert(model@.enums[k as int] == enum_info(*ed));
                assert(known == Some(enum_info(*ed)));
                let tagged = ed.is_tagged();
                proof {
                    crate::codegen::lemma_info_tagged(*ed);
                }
                if tagged {
                    let tmp = self.next_tmp("__gp_match");
                    push_str(&mut out, ind);
                    push_str(&mut out, tmp.as_str());
                    push_str(&mut out, " := ");
                    push_str(&mut out, value.as_str());
                    push_str(&mut out, "\n");
                    push_str(&mut out, ind);
                    push_str(&mut out, "switch ");
                    push_str(&mut out, tmp.as_str());
                    push_str(&mut out, ".tag {\n");
                    let body = self.emit_arms(model, 2, &m.arms, ed, tmp.as_str(), ret, ind);
                    push_str(&mut out, body.as_str());
                } else {
                    push_str(&mut out, ind);
                    push_str(&mut out, "switch ");
                    push_str(&mut out, value.as_str());
                    push_str(&mut out, " {\n");
                    let body = self.emit_arms(model, 1, &m.arms, ed, "", ret, ind);
                    push_str(&mut out, body.as_str());
                }
                if !wildcard {
                    push_str(&mut out, ind);
                    push_str(&mut out, "\t");
                    push_str(&mut out, "default:\n");
                    push_str(&mut out, ind);
                    push_str(&mut out, "\t\t");
                    push_str(&mut out, "panic(\"unreachable\")\n");
                }
                push_str(&mut out, ind);
                push_str(&mut out, "}\n");
                assert(self.state() == match_go(*m, *ret, ind@, model@.enums, old(self).state()).state);
                assert(out@ =~= match_go(*m, *ret, ind@, model@.enums, old(self).state()).text);
            },
            None => {
                assert(known is None);
                let placeholder = placeholder_enum();
                push_str(&mut out, ind);
                push_str(&mut out, "switch ");
                push_str(&mut out, value.as_str());
                push_str(&mut out, " {\n");
                let body = self.emit_arms(model, 0, &m.arms, &placeholder, "", ret, ind);
                push_str(&mut out, body.as_str());
                push_str(&mut out, ind);
                push_str(&mut out, "}\n");
                assert(self.state() == match_go(*m, *ret, ind@, model@.enums, old(self).state()).state);
                assert(out@ =~= match_go(*m, *ret, ind@, model@.enums, old(self).state()).text);
            },
        }
        assert(out@ =~= match_go(*m, *ret, ind@, model@.enums, old(self).state()).text);
        out
    }

    fn emit_if(&mut self, model: &SemanticModel, i: &IfStmt, ret: &ReturnType, ind: &str) -> (r:
        String)
        requires
            old(self).wf(),
        ensures
            final(self).wf(),
            r@ == if_go(*i, *ret, ind@, model@.enums, old(self).state()).text,
            final(self).state() == if_go(*i, *ret, ind@, model@.enums, old(self).state()).state,
        decreases i,
    {
        let mut out = str_to_string(ind);
        push_str(&mut out, "if ");
        let c = transform_expr(model, i.condition.text.as_str());
        push_str(&mut out, c.as_str());
        push_str(&mut out, " {\n");
        let inner = indented(ind, "\t");
        let b = self.emit_block(model, &i.then_block, ret, inner.as_str());
        push_str(&mut out, b.as_str());
        push_str(&mut out, ind);
        push_str(&mut out, "}");
        match &i.else_branch {
            None => {
                push_str(&mut out, "\n");
            },
            Some(ElseBranch::Block(eb)) => {
                push_str(&mut out, " else {\n");
                let r = self.emit_block(model, eb, ret, inner.as_str());
                push_str(&mut out, r.as_str());
                push_str(&mut out, ind);
                push_str(&mut out, "}\n");
            },
            Some(ElseBranch::If(n)) => {
                push_str(&mut out, " else ");
                let r = self.emit_if(model, n, ret, ind);
                let t = trim_start_string(r.as_str());
                push_str(&mut out, t.as_str());
            },
        }
        assert(out@ =~= if_go(*i, *ret, ind@, model@.enums, old(self).state()).text);
        out
    }

    fn emit_stmt(&mut self, model: &SemanticModel, st: &Stmt, ret: &ReturnType, ind: &str) -> (r:
        String)
        requires
            old(self).wf(),
        ensures
            final(self).wf(),
            r@ == stmt_go(*st, *ret, ind@, model@.enums, old(self).state()).text,
            final(self).state() == stmt_go(*st, *ret, ind@, model@.enums, old(self).state()).state,
        decreases st,
    {
        match st {
            Stmt::VarDecl(v) => self.emit_var_decl(model, v, ret, ind),
            Stmt::Return(r) => self.emit_return(model, &r.exprs, ret, ind),
            Stmt::Expr(e) => self.emit_expr(model, &e.expr, ret, ind),
            Stmt::Match(m) => self.emit_match(model, m, ret, ind),
            Stmt::If(i) => self.emit_if(model, i, ret, ind),
            Stmt::Raw(r) => {
                let mut out = str_to_string(ind);
                let t = transform_expr(model, r.text.as_str());
                push_str(&mut out, t.as_str());
                push_str(&mut out, "\n");
                out
            },
        }
    }

    pub(crate) fn emit_block(
        &mut self,
        model: &SemanticModel,
        block: &Block,
        ret: &ReturnType,
        ind: &str,
    ) -> (r: String)
        requires
            old(self).wf(),
        ensures
            final(self).wf(),
            r@ == block_go(block.stmts@, *ret, ind@, model@.enums, old(self).state()).text,
            final(self).state() == block_go(
                block.stmts@,
                *ret,
                ind@,
                model@.enums,
                old(self).state(),
            ).state,
        decreases block,
    {
        let ghost s0 = self.state();
        let ghost es = model@.enums;
        let ghost ss = block.stmts@;
        let mut out = String::new();
        let mut i: usize = 0;
        assert(ss.take(0) =~= Seq::<Stmt>::empty());
        while i < block.stmts.len()
            invariant
                0 <= i <= ss.len(),
                ss == block.stmts@,
                self.wf(),
                es == model@.enums,
                out@ == block_go(ss.take(i as int), *ret, ind@, es, s0).text,
                self.state() == block_go(ss.take(i as int), *ret, ind@, es, s0).state,
            decreases ss.len() - i,
        {
            assert(ss.take(i + 1).drop_last() =~= ss.take(i as int));
            assert(ss.take(i + 1).last() == ss[i as int]);
            assert(decreases_to!(block => block.stmts@[i as int]));
            let t = self.emit_stmt(model, &block.stmts[i], ret, ind);
            push_str(&mut out, t.as_str());
            i = i + 1;
        }
        assert(ss.take(ss.len() as int) =~= ss);
        out
    }
}

} // verus!
