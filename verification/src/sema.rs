//! Semantic analysis: declarations, decorators, `?` and `match` exhaustiveness.
use vstd::prelude::*;

pub mod body;
pub mod decls;
pub mod decorators;
pub mod exhaustive;
pub mod laws;
pub mod model;
pub mod reanalysis;
pub mod signature;
pub mod try_usage;

pub use signature::{
    base_enum_name, count_func_params, is_comparable_type, parse_func_type_parts,
    parse_positive_int,
};

pub use body::infer_enum_type_from_expr;
pub use model::{build_model, SemanticModel};

use crate::ast::{FnDecl, Item, MethodDecl, ParamDecl, Program, Span};
use crate::diag::{Diagnostic, DiagnosticSeverity};
use crate::sema::body::{
    analyze_block, env_view, stmts_annotated, stmts_diags,
};
use crate::sema::decls::{decl_diags, validate_declarations};
use crate::sema::decorators::{decorators_diags, known_view, validate_decorators};
use crate::sema::model::{
    empty_model, enum_infos, find_enum, lookup_enum, model_items, EnumInfo, ModelView,
};
use crate::sema::signature::base_name;
use crate::text::{push_str, str_to_string};

verus! {

/// What a diagnostic says, as plain values.
pub struct DiagInfo {
    pub code: Seq<char>,
    pub message: Seq<char>,
    pub span: Option<Span>,
    pub hint: Option<Seq<char>>,
    pub severity: DiagnosticSeverity,
}

pub open spec fn opt_view(h: Option<String>) -> Option<Seq<char>> {
    match h {
        Some(s) => Some(s@),
        None => None,
    }
}

pub open spec fn info(d: Diagnostic) -> DiagInfo {
    DiagInfo {
        code: d.code@,
        message: d.message@,
        span: d.span,
        hint: opt_view(d.hint),
        severity: d.severity,
    }
}

pub open spec fn infos(ds: Seq<Diagnostic>) -> Seq<DiagInfo> {
    ds.map_values(|d: Diagnostic| info(d))
}

/// An error with the given code, message, place and hint.
pub open spec fn error_at(
    code: Seq<char>,
    message: Seq<char>,
    span: Span,
    hint: Option<Seq<char>>,
) -> DiagInfo {
    DiagInfo { code, message, span: Some(span), hint, severity: DiagnosticSeverity::Error }
}

pub proof fn lemma_infos_push(s: Seq<Diagnostic>, d: Diagnostic)
    ensures
        infos(s.push(d)) == infos(s).push(info(d)),
{
    assert(infos(s.push(d)) =~= infos(s).push(info(d)));
}

/// Appends an error diagnostic.
pub(crate) fn report(
    diags: &mut Vec<Diagnostic>,
    code: &str,
    message: String,
    span: Span,
    hint: Option<String>,
)
    ensures
        infos(final(diags)@) == infos(old(diags)@).push(
            error_at(code@, message@, span, opt_view(hint)),
        ),
{
    let d = Diagnostic {
        code: str_to_string(code),
        message,
        span: Some(span),
        hint,
        severity: DiagnosticSeverity::Error,
    };
    proof {
        lemma_infos_push(diags@, d);
    }
    diags.push(d);
}

/// `a + b + c` as a new string.
pub(crate) fn cat3(a: &str, b: &str, c: &str) -> (r: String)
    ensures
        r@ == a@ + b@ + c@,
{
    let mut r = str_to_string(a);
    push_str(&mut r, b);
    push_str(&mut r, c);
    r
}

/// `a + b + c + d + e` as a new string.
pub(crate) fn cat5(a: &str, b: &str, c: &str, d: &str, e: &str) -> (r: String)
    ensures
        r@ == a@ + b@ + c@ + d@ + e@,
{
    let mut r = str_to_string(a);
    push_str(&mut r, b);
    push_str(&mut r, c);
    push_str(&mut r, d);
    push_str(&mut r, e);
    r
}

/// The variables bound to enums on entry to a body: each parameter whose type is an enum
/// of the package, after the bindings `vars`.
pub open spec fn param_vars(
    params: Seq<ParamDecl>,
    enums: Seq<EnumInfo>,
    vars: Seq<(Seq<char>, Seq<char>)>,
) -> Seq<(Seq<char>, Seq<char>)>
    decreases params.len(),
{
    if params.len() == 0 {
        vars
    } else {
        let v = param_vars(params.drop_last(), enums, vars);
        let p = params.last();
        let b = base_name(p.ty.raw@);
        if lookup_enum(enums, b) is Some {
            v.push((p.name@, b))
        } else {
            v
        }
    }
}

pub open spec fn function_diags(f: FnDecl, m: ModelView) -> Seq<DiagInfo> {
    decorators_diags(f.decorators@, f.ret, f.params@, false, m.params) + stmts_diags(
        f.body.stmts@,
        f.ret,
        m.enums,
        param_vars(f.params@, m.enums, Seq::empty()),
    )
}

pub open spec fn method_vars(md: MethodDecl, target: Seq<char>, enums: Seq<EnumInfo>) -> Seq<
    (Seq<char>, Seq<char>),
> {
    param_vars(md.params@, enums, seq![("self"@, base_name(target))])
}

pub open spec fn method_diags(md: MethodDecl, target: Seq<char>, enums: Seq<EnumInfo>) -> Seq<
    DiagInfo,
> {
    decorators_diags(md.decorators@, md.ret, md.params@, true, Seq::empty()) + stmts_diags(
        md.body.stmts@,
        md.ret,
        enums,
        method_vars(md, target, enums),
    )
}

pub open spec fn methods_diags(ms: Seq<MethodDecl>, target: Seq<char>, enums: Seq<EnumInfo>) -> Seq<
    DiagInfo,
>
    decreases ms.len(),
{
    if ms.len() == 0 {
        Seq::empty()
    } else {
        methods_diags(ms.drop_last(), target, enums) + method_diags(ms.last(), target, enums)
    }
}

pub open spec fn item_diags(item: Item, m: ModelView) -> Seq<DiagInfo> {
    match item {
        Item::Function(f) => function_diags(f, m),
        Item::Impl(b) => methods_diags(b.methods@, b.target@, m.enums),
        _ => Seq::empty(),
    }
}

pub open spec fn items_diags(items: Seq<Item>, m: ModelView) -> Seq<DiagInfo>
    decreases items.len(),
{
    if items.len() == 0 {
        Seq::empty()
    } else {
        items_diags(items.drop_last(), m) + item_diags(items.last(), m)
    }
}

/// Every error that analysis reports on `p` against the model `m`, in order: declaration
/// errors first, then those of each function and method.
pub open spec fn program_diags(p: Program, m: ModelView) -> Seq<DiagInfo> {
    decl_diags(p.items@) + items_diags(p.items@, m)
}

pub open spec fn fn_annotated(old: FnDecl, new: FnDecl, m: ModelView) -> bool {
    &&& new.name == old.name
    &&& new.type_params == old.type_params
    &&& new.params == old.params
    &&& new.ret == old.ret
    &&& new.decorators == old.decorators
    &&& new.span == old.span
    &&& new.body.span == old.body.span
    &&& stmts_annotated(
        old.body.stmts@,
        new.body.stmts@,
        m.enums,
        param_vars(old.params@, m.enums, Seq::empty()),
        true,
    )
}

pub open spec fn method_annotated(
    old: MethodDecl,
    new: MethodDecl,
    target: Seq<char>,
    enums: Seq<EnumInfo>,
) -> bool {
    &&& new.receiver == old.receiver
    &&& new.name == old.name
    &&& new.type_params == old.type_params
    &&& new.params == old.params
    &&& new.ret == old.ret
    &&& new.decorators == old.decorators
    &&& new.span == old.span
    &&& new.body.span == old.body.span
    &&& stmts_annotated(
        old.body.stmts@,
        new.body.stmts@,
        enums,
        method_vars(old, target, enums),
        true,
    )
}

pub open spec fn item_annotated(old: Item, new: Item, m: ModelView) -> bool {
    match old {
        Item::Function(f) => new matches Item::Function(f2) && fn_annotated(f, f2, m),
        Item::Impl(b) => new matches Item::Impl(b2) && b2.target == b.target && b2.span == b.span
            && b2.methods@.len() == b.methods@.len() && forall|i: int|
            0 <= i < b.methods@.len() ==> method_annotated(
                #[trigger] b.methods@[i],
                b2.methods@[i],
                b.target@,
                m.enums,
            ),
        _ => new == old,
    }
}

/// `new` is `old` with the enum of each analysed `match` recorded in it.
pub open spec fn program_annotated(old: Program, new: Program, m: ModelView) -> bool {
    &&& new.package == old.package
    &&& new.imports == old.imports
    &&& new.span == old.span
    &&& new.items@.len() == old.items@.len()
    &&& forall|i: int|
        0 <= i < old.items@.len() ==> item_annotated(#[trigger] old.items@[i], new.items@[i], m)
}

fn bind_params(
    params: &Vec<ParamDecl>,
    enums: &Vec<crate::ast::EnumDecl>,
    vars: &mut Vec<(String, String)>,
)
    ensures
        env_view(final(vars)@) == param_vars(params@, enum_infos(enums@), env_view(old(vars)@)),
{
    let ghost v0 = env_view(vars@);
    let mut i: usize = 0;
    while i < params.len()
        invariant
            0 <= i <= params@.len(),
            env_view(vars@) == param_vars(params@.take(i as int), enum_infos(enums@), v0),
        decreases params@.len() - i,
    {
        assert(params@.take(i + 1).drop_last() =~= params@.take(i as int));
        assert(params@.take(i + 1).last() == params@[i as int]);
        let p = &params[i];
        let b = base_enum_name(p.ty.raw.as_str());
        if find_enum(enums, b.as_str()).is_some() {
            let ghost before = vars@;
            vars.push((p.name.clone(), b));
            assert(env_view(vars@) =~= env_view(before).push((p.name@, base_name(p.ty.raw@))));
        }
        i = i + 1;
    }
    assert(params@.take(params@.len() as int) =~= params@);
}

#[verifier::rlimit(50)]
#[verifier::spinoff_prover]
fn analyze_function(f: &mut FnDecl, model: &SemanticModel, diags: &mut Vec<Diagnostic>)
    ensures
        infos(final(diags)@) == infos(old(diags)@) + function_diags(*old(f), model@),
        fn_annotated(*old(f), *final(f), model@),
{
    validate_decorators(&f.decorators, &f.ret, &f.params, false, &model.function_params, diags);
    let mut vars: Vec<(String, String)> = Vec::new();
    assert(env_view(vars@) =~= Seq::<(Seq<char>, Seq<char>)>::empty());
    bind_params(&f.params, &model.enums, &mut vars);
    analyze_block(&mut f.body, &f.ret, &model.enums, diags, &mut vars, true);
}

fn analyze_method(
    md: &mut MethodDecl,
    target: &String,
    enums: &Vec<crate::ast::EnumDecl>,
    diags: &mut Vec<Diagnostic>,
)
    ensures
        infos(final(diags)@) == infos(old(diags)@) + method_diags(
            *old(md),
            target@,
            enum_infos(enums@),
        ),
        method_annotated(*old(md), *final(md), target@, enum_infos(enums@)),
{
    let no_known: Vec<(String, Vec<ParamDecl>)> = Vec::new();
    assert(known_view(no_known@) =~= Seq::<(Seq<char>, Seq<ParamDecl>)>::empty());
    validate_decorators(&md.decorators, &md.ret, &md.params, true, &no_known, diags);
    let mut vars: Vec<(String, String)> = Vec::new();
    vars.push((str_to_string("self"), base_enum_name(target.as_str())));
    assert(env_view(vars@) =~= seq![("self"@, base_name(target@))]);
    bind_params(&md.params, enums, &mut vars);
    analyze_block(&mut md.body, &md.ret, enums, diags, &mut vars, true);
}

/// Analyses `program` against `model` (of its whole package): the errors of
/// `program_diags`, if any, and else `Ok`; the enum of each analysed `match` is recorded
/// in it.
#[verifier::rlimit(50)]
#[verifier::spinoff_prover]
pub fn analyze_with_model(program: &mut Program, model: &SemanticModel) -> (r: Result<(), Vec<Diagnostic>>)
    ensures
        program_annotated(*old(program), *final(program), model@),
        r is Ok <==> program_diags(*old(program), model@).len() == 0,
        r matches Err(ds) ==> infos(ds@) == program_diags(*old(program), model@),
{
    let mut diags: Vec<Diagnostic> = Vec::new();
    assert(infos(diags@) =~= Seq::<DiagInfo>::empty());
    validate_declarations(&program.items, &mut diags);
    let ghost olds = program.items@;
    let ghost start = infos(diags@);
    let n = program.items.len();
    let mut i: usize = 0;
    assert(olds.take(0) =~= Seq::<Item>::empty());
    while i < n
        invariant
            0 <= i <= n,
            n == program.items@.len(),
            olds == old(program).items@,
            n == olds.len(),
            program.package == old(program).package,
            program.imports == old(program).imports,
            program.span == old(program).span,
            start == decl_diags(olds),
            infos(diags@) == start + items_diags(olds.take(i as int), model@),
            forall|j: int| i <= j < n ==> program.items@[j] == olds[j],
            forall|j: int|
                0 <= j < i ==> item_annotated(#[trigger] olds[j], program.items@[j], model@),
        decreases n - i,
    {
        assert(olds.take(i + 1).drop_last() =~= olds.take(i as int));
        assert(olds.take(i + 1).last() == olds[i as int]);
        let ghost before = program.items@;
        match &mut program.items[i] {
            Item::Function(f) => {
                analyze_function(f, model, &mut diags);
            },
            Item::Impl(b) => {
                let ghost b0 = *b;
                let ghost mstart = infos(diags@);
                let m = b.methods.len();
                let mut k: usize = 0;
                assert(b0.methods@.take(0) =~= Seq::<MethodDecl>::empty());
                while k < m
                    invariant
                        0 <= k <= m,
                        m == b.methods@.len(),
                        m == b0.methods@.len(),
                        b.target == b0.target,
                        b.span == b0.span,
                        infos(diags@) == mstart + methods_diags(
                            b0.methods@.take(k as int),
                            b0.target@,
                            model@.enums,
                        ),
                        forall|j: int| k <= j < m ==> b.methods@[j] == b0.methods@[j],
                        forall|j: int|
                            0 <= j < k ==> method_annotated(
                                #[trigger] b0.methods@[j],
                                b.methods@[j],
                                b0.target@,
                                model@.enums,
                            ),
                    decreases m - k,
                {
                    assert(b0.methods@.take(k + 1).drop_last() =~= b0.methods@.take(k as int));
                    assert(b0.methods@.take(k + 1).last() == b0.methods@[k as int]);
                    let ghost ms = b.methods@;
                    analyze_method(&mut b.methods[k], &b.target, &model.enums, &mut diags);
                    assert forall|j: int| 0 <= j < k + 1 implies method_annotated(
                        #[trigger] b0.methods@[j],
                        b.methods@[j],
                        b0.target@,
                        model@.enums,
                    ) by {
                        if j < k {
                            assert(b.methods@[j] == ms[j]);
                        }
                    }
                    k = k + 1;
                }
                assert(b0.methods@.take(m as int) =~= b0.methods@);
            },
            _ => {
                assert(infos(diags@) =~= infos(diags@) + Seq::<DiagInfo>::empty());
            },
        }
        assert forall|j: int| 0 <= j < i + 1 implies item_annotated(
            #[trigger] olds[j],
            program.items@[j],
            model@,
        ) by {
            if j < i {
                assert(program.items@[j] == before[j]);
            }
        }
        i = i + 1;
    }
    assert(olds.take(n as int) =~= olds);
    if diags.len() == 0 {
        Ok(())
    } else {
        Err(diags)
    }
}

/// Builds the model of `program` alone and analyses it against that model.
pub fn analyze(program: &mut Program) -> (r: Result<SemanticModel, Vec<Diagnostic>>)
    ensures
        program_annotated(
            *old(program),
            *final(program),
            model_items(empty_model(), old(program).items@),
        ),
        r matches Ok(m) ==> m@ == model_items(empty_model(), old(program).items@)
            && program_diags(*old(program), m@).len() == 0,
        r matches Err(ds) ==> infos(ds@) == program_diags(
            *old(program),
            model_items(empty_model(), old(program).items@),
        ) && ds@.len() > 0,
{
    let mut model = SemanticModel::new();
    model.record_items(&program.items);
    match analyze_with_model(program, &model) {
        Ok(()) => Ok(model),
        Err(ds) => Err(ds),
    }
}

} // verus!
