//! What a program that analysis accepts is guaranteed to satisfy.
use vstd::prelude::*;

use crate::ast::{
    error_capable, Decorator, FnDecl, Item, MatchStmt, ParamDecl, Program, ReturnType, Stmt,
};
use crate::sema::body::{
    arm_names, exhaust_diags, has_wildcard, match_diags, resolve, stmt_diags, stmts_diags,
    try_diags, variant_names, vars_after_stmts,
};
use crate::sema::decls::{decl_diags, decl_of, item_decl_diags, last_decl_span, reserved};
use crate::sema::decorators::{
    custom_diags, decorator_diags, decorators_diags, lookup_params, memoize_diags,
    memoize_param_diags, next_shape_diags, retry_arg_diags, retry_diags,
};
use crate::sema::model::{
    enum_info, lookup_enum, model_items, model_programs, model_put_item, put_enum, EnumInfo,
    ModelView, enum_pos, lemma_enum_pos, lemma_pos_in, pos_in, put, put_methods,
};
use crate::sema::signature::{comparable_type, func_type_parts, param_count, positive_int};
use crate::sema::signature::base_name;
use crate::text::{first_index, has_char, is_ws, lemma_first_index, starts_with, trim, trim_end, trim_start};
use crate::sema::{function_diags, param_vars};

verus! {

proof fn lemma_stmts_quiet(
    s: Seq<Stmt>,
    ret: ReturnType,
    enums: Seq<EnumInfo>,
    vars: Seq<(Seq<char>, Seq<char>)>,
    i: int,
)
    requires
        stmts_diags(s, ret, enums, vars).len() == 0,
        0 <= i < s.len(),
    ensures
        stmt_diags(s[i], ret, enums, vars_after_stmts(s.take(i), enums, vars)).len() == 0,
    decreases s.len(),
{
    if i < s.len() - 1 {
        assert(s.drop_last()[i] == s[i]);
        assert(s.drop_last().take(i) =~= s.take(i));
        lemma_stmts_quiet(s.drop_last(), ret, enums, vars, i);
    } else {
        assert(s.drop_last() =~= s.take(i));
    }
}

/// In a function that returns neither `!` nor `T!` and that analysis accepts, no statement
/// of the body uses `?` in its expression, its returned values, its condition or the value
/// it matches on.
pub proof fn law_try_only_where_errors_return(f: FnDecl, m: ModelView, i: int)
    requires
        function_diags(f, m).len() == 0,
        !error_capable(f.ret),
        0 <= i < f.body.stmts@.len(),
    ensures
        match f.body.stmts@[i] {
            Stmt::VarDecl(v) => !v.expr.has_try,
            Stmt::Expr(e) => !e.expr.has_try,
            Stmt::Return(r) => forall|k: int| 0 <= k < r.exprs@.len() ==> !(#[trigger] r.exprs@[k]).has_try,
            Stmt::If(c) => !c.condition.has_try,
            Stmt::Match(mt) => !mt.value.has_try,
            Stmt::Raw(_) => true,
        },
{
    let s = f.body.stmts@;
    let vars = param_vars(f.params@, m.enums, Seq::empty());
    assert(stmts_diags(s, f.ret, m.enums, vars).len() == 0);
    lemma_stmts_quiet(s, f.ret, m.enums, vars, i);
    let v = vars_after_stmts(s.take(i), m.enums, vars);
    match s[i] {
        Stmt::Return(r) => {
            assert forall|k: int| 0 <= k < r.exprs@.len() implies !(#[trigger] r.exprs@[k]).has_try by {
                lemma_exprs_quiet(r.exprs@, f.ret, k);
            }
        },
        _ => {},
    }
}

proof fn lemma_exprs_quiet(es: Seq<crate::ast::Expr>, ret: ReturnType, k: int)
    requires
        crate::sema::body::exprs_try_diags(es, ret).len() == 0,
        !error_capable(ret),
        0 <= k < es.len(),
    ensures
        !es[k].has_try,
    decreases es.len(),
{
    if k < es.len() - 1 {
        assert(es.drop_last()[k] == es[k]);
        lemma_exprs_quiet(es.drop_last(), ret, k);
    }
}

/// A `match` without `_` over an enum of the package that analysis accepts names every
/// variant of that enum.
pub proof fn law_accepted_match_is_exhaustive(
    mt: MatchStmt,
    ret: ReturnType,
    enums: Seq<EnumInfo>,
    vars: Seq<(Seq<char>, Seq<char>)>,
    name: Seq<char>,
    ed: EnumInfo,
    v: Seq<char>,
)
    requires
        match_diags(mt, ret, enums, vars).len() == 0,
        resolve(mt, enums, vars) == Some(name),
        lookup_enum(enums, name) == Some(ed),
        !has_wildcard(mt.arms@),
        variant_names(ed).contains(v),
    ensures
        arm_names(mt.arms@).contains(v),
{
    assert(exhaust_diags(mt, ed).len() == 0);
    assert(arm_names(mt.arms@).to_set() == variant_names(ed).to_set());
    assert(variant_names(ed).to_set().contains(v));
    assert(arm_names(mt.arms@).to_set().contains(v));
}

proof fn lemma_decorators_quiet(
    decs: Seq<Decorator>,
    ret: ReturnType,
    params: Seq<ParamDecl>,
    is_method: bool,
    known: Seq<(Seq<char>, Seq<ParamDecl>)>,
    i: int,
)
    requires
        decorators_diags(decs, ret, params, is_method, known).len() == 0,
        0 <= i < decs.len(),
    ensures
        decorator_diags(decs[i], ret, params, is_method, known).len() == 0,
    decreases decs.len(),
{
    if i < decs.len() - 1 {
        assert(decs.drop_last()[i] == decs[i]);
        lemma_decorators_quiet(decs.drop_last(), ret, params, is_method, known, i);
    }
}

proof fn lemma_retry_args_quiet(args: Seq<String>, span: crate::ast::Span, k: int)
    requires
        retry_arg_diags(args, span).len() == 0,
        0 <= k < args.len(),
    ensures
        positive_int(args[k]@) is Some,
    decreases args.len(),
{
    if k < args.len() - 1 {
        assert(args.drop_last()[k] == args[k]);
        lemma_retry_args_quiet(args.drop_last(), span, k);
    }
}

/// An accepted `@retry` decorates a function that returns `!` or `T!`, and has one or two
/// arguments, each a positive integer.
pub proof fn law_retry_needs_error_return(
    decs: Seq<Decorator>,
    ret: ReturnType,
    params: Seq<ParamDecl>,
    is_method: bool,
    known: Seq<(Seq<char>, Seq<ParamDecl>)>,
    i: int,
)
    requires
        decorators_diags(decs, ret, params, is_method, known).len() == 0,
        0 <= i < decs.len(),
        decs[i].name@ == "retry"@,
    ensures
        error_capable(ret),
        1 <= decs[i].args@.len() <= 2,
        forall|k: int|
            0 <= k < decs[i].args@.len() ==> positive_int(#[trigger] decs[i].args@[k]@) is Some,
{
    lemma_decorators_quiet(decs, ret, params, is_method, known, i);
    reveal_strlit("retry");
    reveal_strlit("log");
    assert(decs[i].name@ != "log"@) by {
        assert(decs[i].name@.len() != "log"@.len());
    }
    assert(retry_diags(decs[i], ret).len() == 0);
    assert forall|k: int| 0 <= k < decs[i].args@.len() implies positive_int(
        #[trigger] decs[i].args@[k]@,
    ) is Some by {
        lemma_retry_args_quiet(decs[i].args@, decs[i].span, k);
    }
}

proof fn lemma_memoize_params_quiet(params: Seq<ParamDecl>, k: int)
    requires
        memoize_param_diags(params).len() == 0,
        0 <= k < params.len(),
    ensures
        comparable_type(params[k].ty.raw@),
    decreases params.len(),
{
    if k < params.len() - 1 {
        assert(params.drop_last()[k] == params[k]);
        lemma_memoize_params_quiet(params.drop_last(), k);
    }
}

/// An accepted `@memoize` decorates a top-level function with a plain return type, each of
/// whose parameters has a type that Go can compare.
pub proof fn law_memoize_needs_plain_function(
    decs: Seq<Decorator>,
    ret: ReturnType,
    params: Seq<ParamDecl>,
    is_method: bool,
    known: Seq<(Seq<char>, Seq<ParamDecl>)>,
    i: int,
    k: int,
)
    requires
        decorators_diags(decs, ret, params, is_method, known).len() == 0,
        0 <= i < decs.len(),
        decs[i].name@ == "memoize"@,
        0 <= k < params.len(),
    ensures
        !is_method,
        ret is Type,
        comparable_type(params[k].ty.raw@),
{
    lemma_decorators_quiet(decs, ret, params, is_method, known, i);
    reveal_strlit("memoize");
    reveal_strlit("retry");
    reveal_strlit("log");
    assert(decs[i].name@ != "log"@) by {
        assert(decs[i].name@.len() != "log"@.len());
    }
    assert(decs[i].name@ != "retry"@) by {
        assert(decs[i].name@.len() != "retry"@.len());
    }
    assert(memoize_diags(decs[i], ret, params, is_method).len() == 0);
    lemma_memoize_params_quiet(params, k);
}

/// An accepted custom decorator `@f`, where `f` is a function of the package, matches its
/// target: `f` takes `next`, of a function type, and then as many parameters as the
/// decorator has arguments; and where that function type can be read, it takes as many
/// parameters as the decorated function.
pub proof fn law_custom_decorator_matches_target(
    decs: Seq<Decorator>,
    ret: ReturnType,
    params: Seq<ParamDecl>,
    is_method: bool,
    known: Seq<(Seq<char>, Seq<ParamDecl>)>,
    i: int,
    f: Seq<ParamDecl>,
)
    requires
        decorators_diags(decs, ret, params, is_method, known).len() == 0,
        0 <= i < decs.len(),
        decs[i].name@ != "log"@,
        decs[i].name@ != "retry"@,
        decs[i].name@ != "memoize"@,
        !has_char(decs[i].name@, '.'),
        lookup_params(known, decs[i].name@) == Some(f),
    ensures
        f.len() > 0,
        starts_with(trim(f[0].ty.raw@), "func("@) || starts_with(trim(f[0].ty.raw@), "(fn("@)
            || starts_with(trim(f[0].ty.raw@), "fn("@),
        decs[i].args@.len() == f.len() - 1,
        func_type_parts(trim(f[0].ty.raw@)) matches Some(parts) ==> param_count(parts.0)
            == params.len(),
{
    lemma_decorators_quiet(decs, ret, params, is_method, known, i);
    assert(custom_diags(decs[i], params, ret, known).len() == 0);
    let next_ty = trim(f[0].ty.raw@);
    if let Some(parts) = func_type_parts(next_ty) {
        assert(next_shape_diags(decs[i], next_ty, params, ret).len() == 0);
    }
}

proof fn lemma_decls_quiet(items: Seq<Item>, j: int)
    requires
        decl_diags(items).len() == 0,
        0 <= j < items.len(),
    ensures
        item_decl_diags(items.take(j), items[j]).len() == 0,
    decreases items.len(),
{
    if j < items.len() - 1 {
        assert(items.drop_last()[j] == items[j]);
        assert(items.drop_last().take(j) =~= items.take(j));
        lemma_decls_quiet(items.drop_last(), j);
    } else {
        assert(items.drop_last() =~= items.take(j));
    }
}

proof fn lemma_last_decl_found(items: Seq<Item>, i: int, name: Seq<char>)
    requires
        0 <= i < items.len(),
        decl_of(items[i]) matches Some(d) && d.1 == name,
    ensures
        last_decl_span(items, name) is Some,
    decreases items.len(),
{
    if i < items.len() - 1 {
        match decl_of(items.last()) {
            Some(d) => {
                if d.1 != name {
                    assert(items.drop_last()[i] == items[i]);
                    lemma_last_decl_found(items.drop_last(), i, name);
                }
            },
            None => {
                assert(items.drop_last()[i] == items[i]);
                lemma_last_decl_found(items.drop_last(), i, name);
            },
        }
    }
}

/// The name that an item declares (empty for an `impl`).
pub open spec fn decl_name(item: Item) -> Seq<char> {
    match decl_of(item) {
        Some(d) => d.1,
        None => Seq::empty(),
    }
}

/// In a program whose declarations analysis accepts, no two structs, enums or functions
/// share a name, and none has a name reserved for generated code.
pub proof fn law_declarations_are_unique(items: Seq<Item>, i: int, j: int)
    requires
        decl_diags(items).len() == 0,
        0 <= i < j < items.len(),
        decl_of(items[i]) is Some,
        decl_of(items[j]) is Some,
    ensures
        decl_name(items[i]) != decl_name(items[j]),
        !reserved(decl_name(items[j])),
{
    lemma_decls_quiet(items, j);
    let name = decl_name(items[j]);
    if decl_name(items[i]) == name {
        assert(items.take(j)[i] == items[i]);
        lemma_last_decl_found(items.take(j), i, name);
    }
}

/// After recording `items`, the enum that the model holds under a name is the last enum of
/// that name among them (a later declaration replaces an earlier one).
pub proof fn law_model_keeps_last_enum(m: ModelView, items: Seq<Item>, k: int)
    requires
        0 <= k < items.len(),
        items[k] is Enum,
        forall|j: int|
            k < j < items.len() ==> !(#[trigger] items[j] matches Item::Enum(e) && e.name@
                == items[k]->Enum_0.name@),
    ensures
        lookup_enum(model_items(m, items).enums, items[k]->Enum_0.name@) == Some(
            enum_info(items[k]->Enum_0),
        ),
    decreases items.len(),
{
    let e = items[k]->Enum_0;
    let name = e.name@;
    if k == items.len() - 1 {
        let before = model_items(m, items.drop_last()).enums;
        lemma_put_enum_lookup(before, enum_info(e));
    } else {
        assert(items.drop_last()[k] == items[k]);
        assert forall|j: int| k < j < items.drop_last().len() implies !(
        #[trigger] items.drop_last()[j] matches Item::Enum(e2) && e2.name@ == name) by {
            assert(items.drop_last()[j] == items[j]);
        }
        law_model_keeps_last_enum(m, items.drop_last(), k);
        let before = model_items(m, items.drop_last()).enums;
        match items.last() {
            Item::Enum(e2) => {
                assert(items[items.len() - 1] == items.last());
                lemma_put_enum_other(before, enum_info(e2), name);
            },
            _ => {},
        }
    }
}

proof fn lemma_put_enum_lookup(s: Seq<EnumInfo>, e: EnumInfo)
    ensures
        lookup_enum(put_enum(s, e), e.name) == Some(e),
{
    lemma_enum_pos(s, e.name);
    let t = put_enum(s, e);
    lemma_enum_pos(t, e.name);
    let p = enum_pos(s, e.name);
    let q = enum_pos(t, e.name);
    if p < 0 {
        assert(t[s.len() as int].name == e.name);
        if q >= 0 && q < s.len() {
            assert(t[q] == s[q]);
        }
    } else {
        assert(t[p].name == e.name);
        if q >= 0 && q < p {
            assert(t[q] == s[q]);
        }
        if q > p {
            assert(t[p].name == e.name);
        }
    }
}

proof fn lemma_put_enum_other(s: Seq<EnumInfo>, e: EnumInfo, name: Seq<char>)
    requires
        e.name != name,
    ensures
        lookup_enum(put_enum(s, e), name) == lookup_enum(s, name),
{
    lemma_enum_pos(s, e.name);
    lemma_enum_pos(s, name);
    let t = put_enum(s, e);
    lemma_enum_pos(t, name);
    let p = enum_pos(s, name);
    let q = enum_pos(t, name);
    let r = enum_pos(s, e.name);
    assert forall|j: int| 0 <= j < s.len() implies (t[j].name == name <==> s[j].name == name) by {
        if r >= 0 && j == r {
        } else {
            assert(t[j] == s[j]);
        }
    }
    if r < 0 {
        assert(t[s.len() as int].name != name);
    }
    if p >= 0 {
        if q >= 0 && q < p {
            assert(false);
        }
        if q < 0 || q > p {
            assert(t[p].name == name);
        }
        assert(q == p);
        if r >= 0 && p == r {
            assert(false);
        }
        assert(t[p] == s[p]);
    } else {
        if q >= 0 && q < s.len() {
            assert(s[q].name == name);
        }
    }
}

proof fn lemma_first_index_before(s: Seq<char>, c: char)
    ensures
        first_index(s, c) <= s.len(),
        forall|j: int| 0 <= j < first_index(s, c) ==> s[j] != c,
    decreases s.len(),
{
    if s.len() > 0 && s[0] != c {
        lemma_first_index_before(s.drop_first(), c);
        assert forall|j: int| 0 <= j < first_index(s, c) implies s[j] != c by {
            if j > 0 {
                assert(s[j] == s.drop_first()[j - 1]);
            }
        }
    }
}

proof fn lemma_trim_start_shape(s: Seq<char>)
    ensures
        trim_start(s) == s.skip(s.len() - trim_start(s).len()),
        trim_start(s).len() <= s.len(),
        trim_start(s).len() == 0 || !is_ws(trim_start(s)[0]),
    decreases s.len(),
{
    if s.len() > 0 && is_ws(s[0]) {
        lemma_trim_start_shape(s.drop_first());
        assert(s.drop_first().skip(s.drop_first().len() - trim_start(s).len()) =~= s.skip(
            s.len() - trim_start(s).len(),
        ));
    } else {
        assert(s.skip(0) =~= s);
    }
}

proof fn lemma_trim_end_shape(s: Seq<char>)
    ensures
        trim_end(s) == s.take(trim_end(s).len() as int),
        trim_end(s).len() <= s.len(),
        trim_end(s).len() == 0 || !is_ws(trim_end(s).last()),
    decreases s.len(),
{
    if s.len() > 0 && is_ws(s.last()) {
        lemma_trim_end_shape(s.drop_last());
        assert(s.drop_last().take(trim_end(s).len() as int) =~= s.take(trim_end(s).len() as int));
    } else {
        assert(s.take(s.len() as int) =~= s);
    }
}

/// Trimming twice trims no more than once, and keeps only chars of the text.
proof fn lemma_trim_settles(t: Seq<char>, c: char)
    ensures
        trim(trim(t)) == trim(t),
        (forall|j: int| 0 <= j < t.len() ==> t[j] != c) ==> forall|k: int|
            0 <= k < trim(t).len() ==> trim(t)[k] != c,
{
    let v = trim_start(t);
    let u = trim_end(v);
    lemma_trim_start_shape(t);
    lemma_trim_end_shape(v);
    if u.len() > 0 {
        assert(u[0] == v[0]);
        assert(trim_start(u) == u);
        assert(trim_end(u) == u);
    } else {
        assert(trim_start(u) == u);
        assert(trim_end(u) == u);
    }
    if forall|j: int| 0 <= j < t.len() ==> t[j] != c {
        assert forall|k: int| 0 <= k < u.len() implies u[k] != c by {
            assert(u[k] == v[k]);
            assert(v[k] == t[k + (t.len() - v.len())]);
        }
    }
}

/// The base name of an enum type holds no `<`, and taking the base name again keeps it:
/// `base_name(" Result<int> ")` is `Result`, and so is `base_name("Result")`.
pub proof fn law_base_name_settles(s: Seq<char>)
    ensures
        forall|k: int| 0 <= k < base_name(s).len() ==> base_name(s)[k] != '<',
        base_name(base_name(s)) == base_name(s),
{
    let t = s.take(first_index(s, '<') as int);
    lemma_first_index_before(s, '<');
    lemma_trim_settles(t, '<');
    let b = base_name(s);
    lemma_first_index(b, '<', b.len() as int);
    assert(b.take(b.len() as int) =~= b);
}

/// No two entries of `s` share a key.
pub open spec fn keys_unique<V>(s: Seq<(Seq<char>, V)>) -> bool {
    forall|i: int, j: int| 0 <= i < j < s.len() ==> #[trigger] s[i].0 != #[trigger] s[j].0
}

/// No two enums of `s` share a name.
pub open spec fn enum_names_unique(s: Seq<EnumInfo>) -> bool {
    forall|i: int, j: int| 0 <= i < j < s.len() ==> #[trigger] s[i].name != #[trigger] s[j].name
}

/// What the model holds by name, it holds once under each name.
pub open spec fn model_unique(m: ModelView) -> bool {
    enum_names_unique(m.enums) && keys_unique(m.returns) && keys_unique(m.params)
}

proof fn lemma_put_unique<V>(s: Seq<(Seq<char>, V)>, k: Seq<char>, v: V)
    requires
        keys_unique(s),
    ensures
        keys_unique(put(s, k, v)),
{
    let keys = s.map_values(|p: (Seq<char>, V)| p.0);
    lemma_pos_in(keys, k);
    let p = pos_in(keys, k);
    let r = put(s, k, v);
    assert forall|i: int, j: int| 0 <= i < j < r.len() implies #[trigger] r[i].0
        != #[trigger] r[j].0 by {
        if p < 0 {
            if j == s.len() {
                assert(keys[i] == s[i].0);
            }
        } else {
            if i == p {
                assert(keys[p] == k);
            }
            if j == p {
                assert(keys[p] == k);
            }
        }
    }
}

proof fn lemma_put_enum_unique(s: Seq<EnumInfo>, e: EnumInfo)
    requires
        enum_names_unique(s),
    ensures
        enum_names_unique(put_enum(s, e)),
{
    lemma_enum_pos(s, e.name);
}

proof fn lemma_put_methods_unique(
    r: Seq<(Seq<char>, ReturnType)>,
    target: Seq<char>,
    ms: Seq<crate::ast::MethodDecl>,
)
    requires
        keys_unique(r),
    ensures
        keys_unique(put_methods(r, target, ms)),
    decreases ms.len(),
{
    if ms.len() > 0 {
        lemma_put_methods_unique(r, target, ms.drop_last());
        lemma_put_unique(
            put_methods(r, target, ms.drop_last()),
            target + "."@ + ms.last().name@,
            ms.last().ret,
        );
    }
}

proof fn lemma_model_items_unique(m: ModelView, items: Seq<Item>)
    requires
        model_unique(m),
    ensures
        model_unique(model_items(m, items)),
    decreases items.len(),
{
    if items.len() > 0 {
        lemma_model_items_unique(m, items.drop_last());
        let m0 = model_items(m, items.drop_last());
        match items.last() {
            Item::Enum(e) => lemma_put_enum_unique(m0.enums, enum_info(e)),
            Item::Function(f) => {
                lemma_put_unique(m0.returns, f.name@, f.ret);
                lemma_put_unique(m0.params, f.name@, f.params@);
            },
            Item::Impl(b) => lemma_put_methods_unique(m0.returns, base_name(b.target@), b.methods@),
            Item::Struct(_) => {},
        }
    }
}

/// The model of a package holds each enum, each function's return and each function's
/// parameters under one name once: a later declaration replaces an earlier one.
pub proof fn law_model_names_unique(programs: Seq<Program>)
    ensures
        model_unique(model_programs(programs)),
    decreases programs.len(),
{
    if programs.len() > 0 {
        law_model_names_unique(programs.drop_last());
        lemma_model_items_unique(model_programs(programs.drop_last()), programs.last().items@);
    }
}

} // verus!
