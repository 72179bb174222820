//! Analysis of function bodies: `?` in functions that cannot fail, and `match` statements,
//! whose enum is resolved, recorded in the statement, and checked for exhaustiveness.
use vstd::prelude::*;

use crate::ast::{
    error_capable, pattern_span, pattern_variant, Block, ElseBranch, EnumDecl, Expr, IfStmt,
    MatchArm, MatchArmBody, MatchStmt, Pattern, ReturnType, Span, Stmt,
};
use crate::diag::Diagnostic;
use crate::order::{insert_sorted, lemma_sorted_list, sorted_list, strictly_sorted};
use crate::parser::first_occurrence;
use crate::sema::model::{
    enum_info, enum_infos, find_enum, lookup_enum, EnumInfo, VariantInfo,
};
use crate::sema::signature::{base_enum_name, base_name};
use crate::sema::{cat3, cat5, error_at, infos, report, DiagInfo};
use crate::text::{
    decimal, find_from, join, join_strings, occurs_at, push_decimal, push_str, str_eq,
    str_to_string, to_chars, trim, trim_bounds, string_of,
};

use crate::text::views;

verus! {

// ----- variables whose enum type is known -----

/// The bindings of names to enum names, the latest last.
pub open spec fn env_view(v: Seq<(String, String)>) -> Seq<(Seq<char>, Seq<char>)> {
    v.map_values(|p: (String, String)| (p.0@, p.1@))
}

/// The enum of variable `k`: its latest binding.
pub open spec fn env_get(vars: Seq<(Seq<char>, Seq<char>)>, k: Seq<char>) -> Option<Seq<char>>
    decreases vars.len(),
{
    if vars.len() == 0 {
        None
    } else if vars.last().0 == k {
        Some(vars.last().1)
    } else {
        env_get(vars.drop_last(), k)
    }
}

/// The enum named by the text before the first `::` of an expression (`Status::Done`),
/// if the package declares it.
pub open spec fn infer_enum(text: Seq<char>, enums: Seq<EnumInfo>) -> Option<Seq<char>> {
    match first_occurrence(text, "::"@) {
        None => None,
        Some(i) => {
            let cand = base_name(trim(text.take(i)));
            if lookup_enum(enums, cand) is Some {
                Some(cand)
            } else {
                None
            }
        },
    }
}

/// The bindings after a statement: `x := Status::Done` binds `x` to `Status`.
pub open spec fn vars_after(st: Stmt, enums: Seq<EnumInfo>, vars: Seq<(Seq<char>, Seq<char>)>) -> Seq<
    (Seq<char>, Seq<char>),
> {
    match st {
        Stmt::VarDecl(v) => match infer_enum(v.expr.text@, enums) {
            Some(e) => vars.push((v.name@, e)),
            None => vars,
        },
        _ => vars,
    }
}

pub open spec fn vars_after_stmts(
    s: Seq<Stmt>,
    enums: Seq<EnumInfo>,
    vars: Seq<(Seq<char>, Seq<char>)>,
) -> Seq<(Seq<char>, Seq<char>)>
    decreases s.len(),
{
    if s.len() == 0 {
        vars
    } else {
        vars_after(s.last(), enums, vars_after_stmts(s.drop_last(), enums, vars))
    }
}

// ----- `?` -----

/// `?` is allowed only in a function that returns `!` or `T!`.
pub open spec fn try_diags(e: Expr, ret: ReturnType) -> Seq<DiagInfo> {
    if e.has_try && !error_capable(ret) {
        seq![
            error_at(
                "E0000"@,
                "`?` can only be used in functions returning `!` or `T!`"@,
                e.span,
                Some("change function return type to `!` or `T!`"@),
            ),
        ]
    } else {
        Seq::empty()
    }
}

pub open spec fn exprs_try_diags(es: Seq<Expr>, ret: ReturnType) -> Seq<DiagInfo>
    decreases es.len(),
{
    if es.len() == 0 {
        Seq::empty()
    } else {
        exprs_try_diags(es.drop_last(), ret) + try_diags(es.last(), ret)
    }
}

// ----- `match` -----

/// The base name of the enum of the first `Enum::Variant` pattern.
pub open spec fn first_typed_enum(arms: Seq<MatchArm>) -> Option<Seq<char>>
    decreases arms.len(),
{
    if arms.len() == 0 {
        None
    } else {
        match first_typed_enum(arms.drop_last()) {
            Some(n) => Some(n),
            None => match arms.last().pattern {
                Pattern::TypedVariant { enum_name, .. } => Some(base_name(enum_name@)),
                _ => None,
            },
        }
    }
}

/// The variant names of the patterns that are not `_`, in order.
pub open spec fn arm_names(arms: Seq<MatchArm>) -> Seq<Seq<char>>
    decreases arms.len(),
{
    if arms.len() == 0 {
        Seq::empty()
    } else {
        match pattern_variant(arms.last().pattern) {
            Some(v) => arm_names(arms.drop_last()).push(v),
            None => arm_names(arms.drop_last()),
        }
    }
}

pub open spec fn has_wildcard(arms: Seq<MatchArm>) -> bool {
    exists|i: int| 0 <= i < arms.len() && arms[i].pattern is Wildcard
}

pub open spec fn variant_names(e: EnumInfo) -> Seq<Seq<char>> {
    e.variants.map_values(|v: VariantInfo| v.name)
}

/// Every name of `names` is a variant of `e`.
pub open spec fn covers(e: EnumInfo, names: Seq<Seq<char>>) -> bool {
    forall|i: int| 0 <= i < names.len() ==> variant_names(e).contains(names[i])
}

/// The enums that have all of `names` among their variants.
pub open spec fn covering(enums: Seq<EnumInfo>, names: Seq<Seq<char>>) -> Seq<EnumInfo>
    decreases enums.len(),
{
    if enums.len() == 0 {
        Seq::empty()
    } else if covers(enums.last(), names) {
        covering(enums.drop_last(), names).push(enums.last())
    } else {
        covering(enums.drop_last(), names)
    }
}

/// The enum a `match` is over: that of its first `Enum::Variant` pattern, else that of the
/// variable it matches on, else the one enum that has all the variants its patterns name.
pub open spec fn resolve(m: MatchStmt, enums: Seq<EnumInfo>, vars: Seq<(Seq<char>, Seq<char>)>) -> Option<
    Seq<char>,
> {
    match first_typed_enum(m.arms@) {
        Some(n) => Some(n),
        None => match env_get(vars, trim(m.value.text@)) {
            Some(n) => Some(n),
            None => {
                let c = covering(enums, arm_names(m.arms@));
                if c.len() == 1 {
                    Some(c[0].name)
                } else {
                    None
                }
            },
        },
    }
}

/// The first variant of `vs` named `name`.
pub open spec fn first_variant(vs: Seq<VariantInfo>, name: Seq<char>) -> Option<VariantInfo>
    decreases vs.len(),
{
    if vs.len() == 0 {
        None
    } else if vs[0].name == name {
        Some(vs[0])
    } else {
        first_variant(vs.drop_first(), name)
    }
}

/// A pattern binds as many values as its variant carries.
pub open spec fn payload_diags(ed: EnumInfo, v: Seq<char>, bound: nat, span: Span) -> Seq<DiagInfo> {
    match first_variant(ed.variants, v) {
        None => Seq::empty(),
        Some(vi) => if vi.payload.len() != bound {
            seq![
                error_at(
                    "E0201"@,
                    "variant `"@ + v + "` expects "@ + decimal(vi.payload.len()) + " payload binding(s), found "@
                        + decimal(bound),
                    span,
                    Some("match payload bindings must match the variant payload count"@),
                ),
            ]
        } else {
            Seq::empty()
        },
    }
}

/// Checks of a variant pattern: known variant, payload, not matched before.
pub open spec fn variant_pattern_diags(
    ed: EnumInfo,
    v: Seq<char>,
    bound: nat,
    pspan: Span,
    aspan: Span,
    seen: Set<Seq<char>>,
) -> Seq<DiagInfo> {
    let unknown = if !variant_names(ed).contains(v) {
        seq![
            error_at(
                "E0203"@,
                "unknown variant `"@ + v + "` for enum `"@ + ed.name + "`"@,
                pspan,
                Some("check the enum variant name in the declaration"@),
            ),
        ]
    } else {
        Seq::empty()
    };
    let dup = if seen.contains(v) {
        seq![
            error_at(
                "E0200"@,
                "duplicate match arm for variant `"@ + v + "`"@,
                aspan,
                None,
            ),
        ]
    } else {
        Seq::empty()
    };
    unknown + payload_diags(ed, v, bound, pspan) + dup
}

/// The checks of the pattern of `arm` in a match over `ed`, after the variants `seen`.
pub open spec fn pattern_diags(arm: MatchArm, ed: EnumInfo, seen: Set<Seq<char>>) -> Seq<DiagInfo> {
    match arm.pattern {
        Pattern::Wildcard { .. } => Seq::empty(),
        Pattern::TypedVariant { enum_name, variant, bindings, span } => {
            let other = if base_name(enum_name@) != ed.name {
                seq![
                    error_at(
                        "E0202"@,
                        "match arm uses enum `"@ + base_name(enum_name@) + "` but expected `"@
                            + ed.name + "`"@,
                        span,
                        Some("use `"@ + ed.name + "::"@ + variant@ + "`"@),
                    ),
                ]
            } else {
                Seq::empty()
            };
            other + variant_pattern_diags(
                ed,
                variant@,
                bindings@.len(),
                span,
                arm.span,
                seen,
            )
        },
        Pattern::Variant { variant, bindings, span } => variant_pattern_diags(
            ed,
            variant@,
            bindings@.len(),
            span,
            arm.span,
            seen,
        ),
    }
}

/// The variants of `ed` that no pattern names, in increasing order.
pub open spec fn missing_variants(ed: EnumInfo, names: Seq<Seq<char>>) -> Seq<Seq<char>> {
    sorted_list(variant_names(ed).to_set().difference(names.to_set()))
}

/// A `match` without `_` must name exactly the variants of its enum.
pub open spec fn exhaust_diags(m: MatchStmt, ed: EnumInfo) -> Seq<DiagInfo> {
    if !has_wildcard(m.arms@) && arm_names(m.arms@).to_set() != variant_names(ed).to_set() {
        seq![
            error_at(
                "E0204"@,
                "non-exhaustive match for enum `"@ + ed.name + "`"@,
                m.span,
                Some(
                    "missing variants: "@ + join(missing_variants(ed, arm_names(m.arms@)), ", "@),
                ),
            ),
        ]
    } else {
        Seq::empty()
    }
}

// ----- statements -----

pub open spec fn stmts_diags(
    s: Seq<Stmt>,
    ret: ReturnType,
    enums: Seq<EnumInfo>,
    vars: Seq<(Seq<char>, Seq<char>)>,
) -> Seq<DiagInfo>
    decreases s,
{
    if s.len() == 0 {
        Seq::empty()
    } else {
        stmts_diags(s.drop_last(), ret, enums, vars) + stmt_diags(
            s.last(),
            ret,
            enums,
            vars_after_stmts(s.drop_last(), enums, vars),
        )
    }
}

pub open spec fn stmt_diags(
    st: Stmt,
    ret: ReturnType,
    enums: Seq<EnumInfo>,
    vars: Seq<(Seq<char>, Seq<char>)>,
) -> Seq<DiagInfo>
    decreases st,
{
    match st {
        Stmt::VarDecl(v) => try_diags(v.expr, ret),
        Stmt::Return(r) => exprs_try_diags(r.exprs@, ret),
        Stmt::Expr(e) => try_diags(e.expr, ret),
        Stmt::Match(m) => try_diags(m.value, ret) + match_diags(m, ret, enums, vars),
        Stmt::If(i) => if_diags(i, ret, enums, vars),
        Stmt::Raw(_) => Seq::empty(),
    }
}

pub open spec fn if_diags(
    i: IfStmt,
    ret: ReturnType,
    enums: Seq<EnumInfo>,
    vars: Seq<(Seq<char>, Seq<char>)>,
) -> Seq<DiagInfo>
    decreases i,
{
    let rest = match i.else_branch {
        None => Seq::empty(),
        Some(ElseBranch::Block(b)) => stmts_diags(b.stmts@, ret, enums, vars),
        Some(ElseBranch::If(n)) => if_diags(*n, ret, enums, vars),
    };
    try_diags(i.condition, ret) + stmts_diags(i.then_block.stmts@, ret, enums, vars) + rest
}

pub open spec fn match_diags(
    m: MatchStmt,
    ret: ReturnType,
    enums: Seq<EnumInfo>,
    vars: Seq<(Seq<char>, Seq<char>)>,
) -> Seq<DiagInfo>
    decreases m,
{
    match resolve(m, enums, vars) {
        Some(name) => match lookup_enum(enums, name) {
            Some(ed) => arms_diags(m.arms@, ed, ret, enums) + exhaust_diags(m, ed),
            None => Seq::empty(),
        },
        None => if !has_wildcard(m.arms@) {
            seq![
                error_at(
                    "E0205"@,
                    "cannot resolve enum type for match expression"@,
                    m.span,
                    Some("add explicit typed patterns, e.g. `Status::Pending`"@),
                ),
            ]
        } else {
            Seq::empty()
        },
    }
}

pub open spec fn arms_diags(
    arms: Seq<MatchArm>,
    ed: EnumInfo,
    ret: ReturnType,
    enums: Seq<EnumInfo>,
) -> Seq<DiagInfo>
    decreases arms,
{
    if arms.len() == 0 {
        Seq::empty()
    } else {
        arms_diags(arms.drop_last(), ed, ret, enums) + pattern_diags(
            arms.last(),
            ed,
            arm_names(arms.drop_last()).to_set(),
        ) + body_diags(arms.last().body, ret, enums)
    }
}

pub open spec fn body_diags(b: MatchArmBody, ret: ReturnType, enums: Seq<EnumInfo>) -> Seq<DiagInfo>
    decreases b,
{
    match b {
        MatchArmBody::Expr(e) => try_diags(e, ret),
        MatchArmBody::Block(bl) => stmts_diags(bl.stmts@, ret, enums, Seq::empty()),
    }
}

// ----- what analysis records: the enum of each `match` -----

/// `new` is `old` with the enum of each `match` recorded where `record` holds, and left as
/// it was elsewhere.
pub open spec fn stmts_annotated(
    old: Seq<Stmt>,
    new: Seq<Stmt>,
    enums: Seq<EnumInfo>,
    vars: Seq<(Seq<char>, Seq<char>)>,
    record: bool,
) -> bool
    decreases old,
{
    old.len() == new.len() && (old.len() > 0 ==> stmts_annotated(
        old.drop_last(),
        new.drop_last(),
        enums,
        vars,
        record,
    ) && stmt_annotated(
        old.last(),
        new.last(),
        enums,
        vars_after_stmts(old.drop_last(), enums, vars),
        record,
    ))
}

pub open spec fn stmt_annotated(
    old: Stmt,
    new: Stmt,
    enums: Seq<EnumInfo>,
    vars: Seq<(Seq<char>, Seq<char>)>,
    record: bool,
) -> bool
    decreases old,
{
    match old {
        Stmt::Match(m) => new matches Stmt::Match(m2) && match_annotated(m, m2, enums, vars, record),
        Stmt::If(i) => new matches Stmt::If(i2) && if_annotated(i, i2, enums, vars, record),
        _ => new == old,
    }
}

pub open spec fn if_annotated(
    old: IfStmt,
    new: IfStmt,
    enums: Seq<EnumInfo>,
    vars: Seq<(Seq<char>, Seq<char>)>,
    record: bool,
) -> bool
    decreases old,
{
    &&& new.condition == old.condition
    &&& new.span == old.span
    &&& new.then_block.span == old.then_block.span
    &&& stmts_annotated(old.then_block.stmts@, new.then_block.stmts@, enums, vars, record)
    &&& match old.else_branch {
        None => new.else_branch is None,
        Some(ElseBranch::Block(b)) => new.else_branch matches Some(ElseBranch::Block(b2))
            && b2.span == b.span && stmts_annotated(b.stmts@, b2.stmts@, enums, vars, record),
        Some(ElseBranch::If(n)) => new.else_branch matches Some(ElseBranch::If(n2))
            && if_annotated(*n, *n2, enums, vars, false),
    }
}

pub open spec fn match_annotated(
    old: MatchStmt,
    new: MatchStmt,
    enums: Seq<EnumInfo>,
    vars: Seq<(Seq<char>, Seq<char>)>,
    record: bool,
) -> bool
    decreases old,
{
    &&& new.value == old.value
    &&& new.span == old.span
    &&& match resolve(old, enums, vars) {
        Some(n) => if record {
            new.resolved_enum matches Some(s) && s@ == n
        } else {
            new.resolved_enum == old.resolved_enum
        },
        None => new.resolved_enum == old.resolved_enum,
    }
    &&& if resolve(old, enums, vars) is Some && lookup_enum(
        enums,
        resolve(old, enums, vars)->0,
    ) is Some {
        arms_annotated(old.arms@, new.arms@, enums, record)
    } else {
        new.arms@ == old.arms@
    }
}

pub open spec fn arms_annotated(
    old: Seq<MatchArm>,
    new: Seq<MatchArm>,
    enums: Seq<EnumInfo>,
    record: bool,
) -> bool
    decreases old,
{
    old.len() == new.len() && (old.len() > 0 ==> arms_annotated(
        old.drop_last(),
        new.drop_last(),
        enums,
        record,
    ) && arm_annotated(old.last(), new.last(), enums, record))
}

pub open spec fn arm_annotated(old: MatchArm, new: MatchArm, enums: Seq<EnumInfo>, record: bool) -> bool
    decreases old,
{
    &&& new.pattern == old.pattern
    &&& new.span == old.span
    &&& match old.body {
        MatchArmBody::Expr(e) => new.body == old.body,
        MatchArmBody::Block(b) => new.body matches MatchArmBody::Block(b2) && b2.span == b.span
            && stmts_annotated(b.stmts@, b2.stmts@, enums, Seq::empty(), record),
    }
}

// ----- executable analysis -----

fn copy_env(v: &Vec<(String, String)>) -> (r: Vec<(String, String)>)
    ensures
        env_view(r@) == env_view(v@),
{
    let mut r: Vec<(String, String)> = Vec::new();
    let mut i: usize = 0;
    while i < v.len()
        invariant
            0 <= i <= v@.len(),
            r@.len() == i,
            env_view(r@) == env_view(v@).take(i as int),
        decreases v@.len() - i,
    {
        let a = v[i].0.clone();
        let b = v[i].1.clone();
        let ghost before = r@;
        r.push((a, b));
        assert forall|j: int| 0 <= j < i + 1 implies env_view(r@)[j] == env_view(v@).take(
            i + 1,
        )[j] by {
            if j < i {
                assert(r@[j] == before[j]);
                assert(env_view(before)[j] == env_view(v@).take(i as int)[j]);
            }
        }
        assert(env_view(r@) =~= env_view(v@).take(i + 1));
        i = i + 1;
    }
    assert(env_view(v@).take(v@.len() as int) =~= env_view(v@));
    r
}

/// Index of the latest binding of `k`.
fn env_find(vars: &Vec<(String, String)>, k: &str) -> (r: Option<usize>)
    ensures
        r matches Some(i) ==> i < vars@.len() && env_get(env_view(vars@), k@) == Some(
            vars@[i as int].1@,
        ),
        r is None ==> env_get(env_view(vars@), k@) is None,
{
    let ghost ev = env_view(vars@);
    let mut j = vars.len();
    assert(ev.take(j as int) =~= ev);
    while j > 0
        invariant
            0 <= j <= vars@.len(),
            ev == env_view(vars@),
            env_get(ev, k@) == env_get(ev.take(j as int), k@),
        decreases j,
    {
        assert(ev.take(j as int).drop_last() =~= ev.take(j - 1));
        assert(ev.take(j as int).last() == (vars@[j - 1].0@, vars@[j - 1].1@));
        if str_eq(vars[j - 1].0.as_str(), k) {
            return Some(j - 1);
        }
        j = j - 1;
    }
    None
}

pub proof fn lemma_first_occurrence(s: Seq<char>, p: Seq<char>, i: int)
    requires
        occurs_at(s, p, i),
        forall|j: int| 0 <= j < i ==> !occurs_at(s, p, j),
    ensures
        first_occurrence(s, p) == Some(i),
{
    let k = choose|k: int|
        occurs_at(s, p, k) && forall|j: int| 0 <= j < k ==> !occurs_at(s, p, j);
    assert(occurs_at(s, p, k));
    if k < i {
        assert(!occurs_at(s, p, k));
    }
    if i < k {
        assert(!occurs_at(s, p, i));
    }
}

/// The enum that an initializer names before its first `::`, if the package declares it.
pub fn infer_enum_type_from_expr(expr: &str, enums: &Vec<EnumDecl>) -> (r: Option<String>)
    ensures
        r matches Some(s) ==> infer_enum(expr@, enum_infos(enums@)) == Some(s@),
        r is None ==> infer_enum(expr@, enum_infos(enums@)) is None,
{
    let v = to_chars(expr);
    let pat = to_chars("::");
    match find_from(&v, &pat, 0) {
        None => {
            assert(!(exists|i: int| occurs_at(expr@, "::"@, i)));
            None
        },
        Some(i) => {
            proof {
                lemma_first_occurrence(expr@, "::"@, i as int);
            }
            let (a, b) = trim_bounds(&v, 0, i);
            assert(v@.subrange(0, i as int) =~= v@.take(i as int));
            let left = string_of(&v, a, b);
            let cand = base_enum_name(left.as_str());
            match find_enum(enums, cand.as_str()) {
                Some(_) => Some(cand),
                None => None,
            }
        },
    }
}

/// An error where `?` stands in a function that cannot return an error.
pub(crate) fn validate_try_usage(expr: &Expr, ret: &ReturnType, diags: &mut Vec<Diagnostic>)
    ensures
        infos(final(diags)@) == infos(old(diags)@) + try_diags(*expr, *ret),
{
    if expr.has_try && !ret.is_error_capable() {
        report(
            diags,
            "E0000",
            str_to_string("`?` can only be used in functions returning `!` or `T!`"),
            expr.span,
            Some(str_to_string("change function return type to `!` or `T!`")),
        );
    } else {
        assert(infos(diags@) =~= infos(diags@) + Seq::<DiagInfo>::empty());
    }
}

fn contains_name(v: &Vec<String>, name: &str) -> (r: bool)
    ensures
        r == views(v@).contains(name@),
{
    let mut i: usize = 0;
    while i < v.len()
        invariant
            0 <= i <= v@.len(),
            forall|j: int| 0 <= j < i ==> views(v@)[j] != name@,
        decreases v@.len() - i,
    {
        if str_eq(v[i].as_str(), name) {
            assert(views(v@)[i as int] == name@);
            return true;
        }
        i = i + 1;
    }
    false
}

/// `name` is a variant of `ed`.
fn has_variant(ed: &EnumDecl, name: &str) -> (r: bool)
    ensures
        r == variant_names(enum_info(*ed)).contains(name@),
{
    let ghost names = variant_names(enum_info(*ed));
    let mut i: usize = 0;
    while i < ed.variants.len()
        invariant
            0 <= i <= ed.variants@.len(),
            names == variant_names(enum_info(*ed)),
            names.len() == ed.variants@.len(),
            forall|j: int| 0 <= j < i ==> names[j] != name@,
        decreases ed.variants@.len() - i,
    {
        assert(names[i as int] == ed.variants@[i as int].name@);
        if str_eq(ed.variants[i].name.as_str(), name) {
            return true;
        }
        i = i + 1;
    }
    false
}

/// Index of the first variant of `ed` named `name`.
pub(crate) fn first_variant_index(ed: &EnumDecl, name: &str) -> (r: Option<usize>)
    ensures
        match first_variant(enum_info(*ed).variants, name@) {
            None => r is None,
            Some(vi) => r matches Some(i) && i < ed.variants@.len() && vi.payload.len()
                == ed.variants@[i as int].payload@.len(),
        },
{
    let ghost vs = enum_info(*ed).variants;
    let mut i: usize = 0;
    assert(vs.skip(0) =~= vs);
    while i < ed.variants.len()
        invariant
            0 <= i <= ed.variants@.len(),
            vs == enum_info(*ed).variants,
            vs.len() == ed.variants@.len(),
            first_variant(vs, name@) == first_variant(vs.skip(i as int), name@),
        decreases ed.variants@.len() - i,
    {
        assert(vs.skip(i as int)[0] == vs[i as int]);
        assert(vs.skip(i as int).drop_first() =~= vs.skip(i + 1));
        if str_eq(ed.variants[i].name.as_str(), name) {
            return Some(i);
        }
        i = i + 1;
    }
    None
}

fn check_variant_pattern(
    ed: &EnumDecl,
    v: &String,
    bound: usize,
    pspan: Span,
    aspan: Span,
    seen: &Vec<String>,
    diags: &mut Vec<Diagnostic>,
)
    ensures
        infos(final(diags)@) == infos(old(diags)@) + variant_pattern_diags(
            enum_info(*ed),
            v@,
            bound as nat,
            pspan,
            aspan,
            views(seen@).to_set(),
        ),
{
    if !has_variant(ed, v.as_str()) {
        let mut message = cat5("unknown variant `", v.as_str(), "` for enum `", ed.name.as_str(), "`");
        report(
            diags,
            "E0203",
            message,
            pspan,
            Some(str_to_string("check the enum variant name in the declaration")),
        );
    }
    match first_variant_index(ed, v.as_str()) {
        None => {},
        Some(k) => {
            let n = ed.variants[k].payload.len();
            if n != bound {
                let mut message = cat3("variant `", v.as_str(), "` expects ");
                push_decimal(&mut message, n);
                push_str(&mut message, " payload binding(s), found ");
                push_decimal(&mut message, bound);
                report(
                    diags,
                    "E0201",
                    message,
                    pspan,
                    Some(str_to_string("match payload bindings must match the variant payload count")),
                );
            }
        },
    }
    if contains_name(seen, v.as_str()) {
        report(diags, "E0200", cat3("duplicate match arm for variant `", v.as_str(), "`"), aspan, None);
    }
    proof {
        assert(views(seen@).to_set().contains(v@) == views(seen@).contains(v@));
    }
}

fn check_pattern(arm: &MatchArm, ed: &EnumDecl, seen: &Vec<String>, diags: &mut Vec<Diagnostic>)
    ensures
        infos(final(diags)@) == infos(old(diags)@) + pattern_diags(
            *arm,
            enum_info(*ed),
            views(seen@).to_set(),
        ),
{
    match &arm.pattern {
        Pattern::Wildcard { .. } => {
            assert(infos(diags@) =~= infos(diags@) + Seq::<DiagInfo>::empty());
        },
        Pattern::TypedVariant { enum_name, variant, bindings, span } => {
            let base = base_enum_name(enum_name.as_str());
            if !str_eq(base.as_str(), ed.name.as_str()) {
                let mut message = cat5(
                    "match arm uses enum `",
                    base.as_str(),
                    "` but expected `",
                    ed.name.as_str(),
                    "`",
                );
                let hint = cat5("use `", ed.name.as_str(), "::", variant.as_str(), "`");
                report(diags, "E0202", message, *span, Some(hint));
            }
            check_variant_pattern(ed, variant, bindings.len(), *span, arm.span, seen, diags);
        },
        Pattern::Variant { variant, bindings, span } => {
            check_variant_pattern(ed, variant, bindings.len(), *span, arm.span, seen, diags);
        },
    }
}

/// The patterns name exactly the variants of `ed`.
fn names_match_variants(seen: &Vec<String>, ed: &EnumDecl) -> (r: bool)
    ensures
        r == (views(seen@).to_set() == variant_names(enum_info(*ed)).to_set()),
{
    let ghost a = views(seen@);
    let ghost b = variant_names(enum_info(*ed));
    let mut i: usize = 0;
    while i < seen.len()
        invariant
            0 <= i <= seen@.len(),
            a == views(seen@),
            b == variant_names(enum_info(*ed)),
            forall|j: int| 0 <= j < i ==> b.contains(#[trigger] a[j]),
        decreases seen@.len() - i,
    {
        if !has_variant(ed, seen[i].as_str()) {
            assert(a.to_set().contains(a[i as int]));
            assert(!b.to_set().contains(a[i as int]));
            return false;
        }
        i = i + 1;
    }
    let mut k: usize = 0;
    while k < ed.variants.len()
        invariant
            0 <= k <= ed.variants@.len(),
            a == views(seen@),
            b == variant_names(enum_info(*ed)),
            b.len() == ed.variants@.len(),
            forall|j: int| 0 <= j < a.len() ==> b.contains(#[trigger] a[j]),
            forall|j: int| 0 <= j < k ==> a.contains(#[trigger] b[j]),
        decreases ed.variants@.len() - k,
    {
        assert(b[k as int] == ed.variants@[k as int].name@);
        if !contains_name(seen, ed.variants[k].name.as_str()) {
            assert(b.to_set().contains(b[k as int]));
            assert(!a.to_set().contains(b[k as int]));
            return false;
        }
        k = k + 1;
    }
    assert forall|x: Seq<char>| a.to_set().contains(x) <==> b.to_set().contains(x) by {
        if a.contains(x) {
            let j = choose|j: int| 0 <= j < a.len() && a[j] == x;
            assert(b.contains(a[j]));
        }
        if b.contains(x) {
            let j = choose|j: int| 0 <= j < b.len() && b[j] == x;
            assert(a.contains(b[j]));
        }
    }
    assert(a.to_set() =~= b.to_set());
    true
}

/// The variants of `ed` not in `seen`, sorted.
fn missing_list(seen: &Vec<String>, ed: &EnumDecl) -> (r: Vec<String>)
    ensures
        strictly_sorted(views(r@)),
        views(r@).to_set() == variant_names(enum_info(*ed)).to_set().difference(
            views(seen@).to_set(),
        ),
{
    let ghost b = variant_names(enum_info(*ed));
    let ghost s = views(seen@).to_set();
    let mut out: Vec<String> = Vec::new();
    assert(views(out@) =~= Seq::<Seq<char>>::empty());
    assert(b.take(0).to_set().difference(s) =~= Set::<Seq<char>>::empty());
    let mut k: usize = 0;
    while k < ed.variants.len()
        invariant
            0 <= k <= ed.variants@.len(),
            b == variant_names(enum_info(*ed)),
            s == views(seen@).to_set(),
            b.len() == ed.variants@.len(),
            strictly_sorted(views(out@)),
            views(out@).to_set() == b.take(k as int).to_set().difference(s),
        decreases ed.variants@.len() - k,
    {
        assert(b[k as int] == ed.variants@[k as int].name@);
        let name = ed.variants[k].name.as_str();
        let ghost before = views(out@).to_set();
        if !contains_name(seen, name) {
            insert_sorted(&mut out, ed.variants[k].name.clone());
            assert(views(seen@).to_set().contains(name@) == views(seen@).contains(
                name@,
            ));
        }
        assert(b.take(k + 1) =~= b.take(k as int).push(b[k as int]));
        assert forall|x: Seq<char>| b.take(k + 1).to_set().contains(x) <==> b.take(
            k as int,
        ).to_set().insert(b[k as int]).contains(x) by {
            if b.take(k + 1).contains(x) {
                let j = choose|j: int| 0 <= j < k + 1 && #[trigger] b.take(k + 1)[j] == x;
                if j < k {
                    assert(b.take(k as int)[j] == x);
                }
            }
            if b.take(k as int).contains(x) {
                let j = choose|j: int| 0 <= j < k && #[trigger] b.take(k as int)[j] == x;
                assert(b.take(k + 1)[j] == x);
            }
            if x == b[k as int] {
                assert(b.take(k + 1)[k as int] == x);
            }
        }
        assert(b.take(k + 1).to_set() =~= b.take(k as int).to_set().insert(b[k as int]));
        assert(b.take(k + 1).to_set().difference(s) =~= if s.contains(b[k as int]) {
            b.take(k as int).to_set().difference(s)
        } else {
            b.take(k as int).to_set().difference(s).insert(b[k as int])
        });
        k = k + 1;
    }
    assert(b.take(b.len() as int) =~= b);
    out
}

proof fn lemma_first_typed_prefix(a: Seq<MatchArm>, k: int)
    requires
        0 <= k <= a.len(),
        first_typed_enum(a.take(k)) is Some,
    ensures
        first_typed_enum(a) == first_typed_enum(a.take(k)),
    decreases a.len() - k,
{
    if k < a.len() {
        assert(a.take(k + 1).drop_last() =~= a.take(k));
        lemma_first_typed_prefix(a, k + 1);
    } else {
        assert(a.take(k) =~= a);
    }
}

/// The variant names of the arms' patterns, `_` left out.
fn collect_arm_names(arms: &Vec<MatchArm>) -> (r: Vec<String>)
    ensures
        views(r@) == arm_names(arms@),
{
    let mut r: Vec<String> = Vec::new();
    let mut i: usize = 0;
    assert(views(r@) =~= arm_names(arms@.take(0)));
    while i < arms.len()
        invariant
            0 <= i <= arms@.len(),
            views(r@) == arm_names(arms@.take(i as int)),
        decreases arms@.len() - i,
    {
        assert(arms@.take(i + 1).drop_last() =~= arms@.take(i as int));
        assert(arms@.take(i + 1).last() == arms@[i as int]);
        match &arms[i].pattern {
            Pattern::Wildcard { .. } => {},
            Pattern::TypedVariant { variant, .. } => {
                r.push(variant.clone());
                assert(views(r@) =~= arm_names(arms@.take(i + 1)));
            },
            Pattern::Variant { variant, .. } => {
                r.push(variant.clone());
                assert(views(r@) =~= arm_names(arms@.take(i + 1)));
            },
        }
        i = i + 1;
    }
    assert(arms@.take(arms@.len() as int) =~= arms@);
    r
}

pub(crate) fn any_wildcard(arms: &Vec<MatchArm>) -> (r: bool)
    ensures
        r == has_wildcard(arms@),
{
    let mut i: usize = 0;
    while i < arms.len()
        invariant
            0 <= i <= arms@.len(),
            forall|j: int| 0 <= j < i ==> !(arms@[j].pattern is Wildcard),
        decreases arms@.len() - i,
    {
        match &arms[i].pattern {
            Pattern::Wildcard { .. } => {
                return true;
            },
            _ => {},
        }
        i = i + 1;
    }
    false
}

/// Every one of `names` is a variant of `ed`.
fn covers_names(ed: &EnumDecl, names: &Vec<String>) -> (r: bool)
    ensures
        r == covers(enum_info(*ed), views(names@)),
{
    let mut i: usize = 0;
    while i < names.len()
        invariant
            0 <= i <= names@.len(),
            forall|j: int|
                0 <= j < i ==> variant_names(enum_info(*ed)).contains(
                    #[trigger] views(names@)[j],
                ),
        decreases names@.len() - i,
    {
        if !has_variant(ed, names[i].as_str()) {
            assert(!variant_names(enum_info(*ed)).contains(views(names@)[i as int]));
            return false;
        }
        i = i + 1;
    }
    true
}

/// The enum a `match` is over (see `resolve`).
fn resolve_match_enum(m: &MatchStmt, enums: &Vec<EnumDecl>, vars: &Vec<(String, String)>) -> (r:
    Option<String>)
    ensures
        r matches Some(s) ==> resolve(*m, enum_infos(enums@), env_view(vars@)) == Some(s@),
        r is None ==> resolve(*m, enum_infos(enums@), env_view(vars@)) is None,
{
    let ghost arms = m.arms@;
    let mut i: usize = 0;
    assert(arms.take(0) =~= Seq::<MatchArm>::empty());
    while i < m.arms.len()
        invariant
            0 <= i <= arms.len(),
            arms == m.arms@,
            first_typed_enum(arms.take(i as int)) is None,
        decreases arms.len() - i,
    {
        assert(arms.take(i + 1).drop_last() =~= arms.take(i as int));
        assert(arms.take(i + 1).last() == arms[i as int]);
        match &m.arms[i].pattern {
            Pattern::TypedVariant { enum_name, .. } => {
                let base = base_enum_name(enum_name.as_str());
                proof {
                    lemma_first_typed_prefix(arms, i + 1);
                }
                return Some(base);
            },
            _ => {},
        }
        i = i + 1;
    }
    assert(arms.take(arms.len() as int) =~= arms);
    let value = crate::text::trim_string(m.value.text.as_str());
    match env_find(vars, value.as_str()) {
        Some(k) => {
            return Some(vars[k].1.clone());
        },
        None => {},
    }
    let names = collect_arm_names(&m.arms);
    let ghost nv = views(names@);
    let ghost es = enum_infos(enums@);
    let mut count: usize = 0;
    let mut first: Option<usize> = None;
    let mut k: usize = 0;
    while k < enums.len()
        invariant
            0 <= k <= enums@.len(),
            es == enum_infos(enums@),
            nv == views(names@),
            count == covering(es.take(k as int), nv).len(),
            count <= k,
            count > 0 ==> (first matches Some(f) && f < enums@.len() && covering(
                es.take(k as int),
                nv,
            )[0] == es[f as int]),
        decreases enums@.len() - k,
    {
        assert(es.take(k + 1).drop_last() =~= es.take(k as int));
        assert(es.take(k + 1).last() == es[k as int]);
        assert(es[k as int] == enum_info(enums@[k as int]));
        if covers_names(&enums[k], &names) {
            if count == 0 {
                first = Some(k);
            }
            count = count + 1;
        }
        k = k + 1;
    }
    assert(es.take(enums@.len() as int) =~= es);
    if count == 1 {
        match first {
            Some(f) => Some(enums[f].name.clone()),
            None => None,
        }
    } else {
        None
    }
}

fn analyze_arm_body(
    body: &mut MatchArmBody,
    ret: &ReturnType,
    enums: &Vec<EnumDecl>,
    diags: &mut Vec<Diagnostic>,
    record: bool,
)
    ensures
        infos(final(diags)@) == infos(old(diags)@) + body_diags(*old(body), *ret, enum_infos(enums@)),
        match *old(body) {
            MatchArmBody::Expr(e) => *final(body) == *old(body),
            MatchArmBody::Block(b) => *final(body) matches MatchArmBody::Block(b2) && b2.span
                == b.span && stmts_annotated(b.stmts@, b2.stmts@, enum_infos(enums@), Seq::empty(), record),
        },
    decreases *old(body),
{
    match body {
        MatchArmBody::Expr(e) => {
            validate_try_usage(e, ret, diags);
        },
        MatchArmBody::Block(b) => {
            let mut scoped: Vec<(String, String)> = Vec::new();
            assert(env_view(scoped@) =~= Seq::<(Seq<char>, Seq<char>)>::empty());
            analyze_block(b, ret, enums, diags, &mut scoped, record);
        },
    }
}

/// Resolves the enum of a `match` (recorded in it when `record` holds), then checks its arms:
/// the patterns against the enum, `?` in the arms, and that every variant is matched.
#[verifier::rlimit(50)]
#[verifier::spinoff_prover]
fn analyze_match_stmt(
    m: &mut MatchStmt,
    ret: &ReturnType,
    enums: &Vec<EnumDecl>,
    diags: &mut Vec<Diagnostic>,
    vars: &Vec<(String, String)>,
    record: bool,
)
    ensures
        infos(final(diags)@) == infos(old(diags)@) + match_diags(
            *old(m),
            *ret,
            enum_infos(enums@),
            env_view(vars@),
        ),
        match_annotated(*old(m), *final(m), enum_infos(enums@), env_view(vars@), record),
    decreases *old(m),
{
    let ghost es = enum_infos(enums@);
    let ghost start = infos(diags@);
    let ghost old_arms = m.arms@;
    let wildcard = any_wildcard(&m.arms);
    let resolved = resolve_match_enum(m, enums, vars);
    match resolved {
        None => {
            if !wildcard {
                report(
                    diags,
                    "E0205",
                    str_to_string("cannot resolve enum type for match expression"),
                    m.span,
                    Some(str_to_string("add explicit typed patterns, e.g. `Status::Pending`")),
                );
            } else {
                assert(infos(diags@) =~= start + Seq::<DiagInfo>::empty());
            }
        },
        Some(name) => {
            let ghost rname = name@;
            let found = find_enum(enums, name.as_str());
            if record {
                m.resolved_enum = Some(name);
            }
            match found {
                None => {
                    assert(infos(diags@) =~= start + Seq::<DiagInfo>::empty());
                },
                Some(k) => {
                    let ed = &enums[k];
                    let ghost edi = enum_info(*ed);
                    assert(lookup_enum(es, resolve(*old(m), es, env_view(vars@))->0) == Some(edi));
                    let mut seen: Vec<String> = Vec::new();
                    let n = m.arms.len();
                    assert(old_arms.take(0) =~= Seq::<MatchArm>::empty());
                    assert(m.arms@.take(0) =~= Seq::<MatchArm>::empty());
                    assert(views(seen@) =~= arm_names(old_arms.take(0)));
                    let mut i: usize = 0;
                    while i < n
                        invariant
                            0 <= i <= n,
                            n == m.arms@.len(),
                            n == old_arms.len(),
                            old_arms == old(m).arms@,
                            es == enum_infos(enums@),
                            edi == enum_info(*ed),
                            m.value == old(m).value,
                            m.span == old(m).span,
                            forall|j: int| i <= j < n ==> m.arms@[j] == old_arms[j],
                            infos(diags@) == start + arms_diags(old_arms.take(i as int), edi, *ret, es),
                            views(seen@) == arm_names(old_arms.take(i as int)),
                            arms_annotated(old_arms.take(i as int), m.arms@.take(i as int), es, record),
                            record ==> (m.resolved_enum matches Some(s) && s@ == rname),
                            !record ==> m.resolved_enum == old(m).resolved_enum,
                        decreases n - i,
                    {
                        assert(old_arms.take(i + 1).drop_last() =~= old_arms.take(i as int));
                        assert(old_arms.take(i + 1).last() == old_arms[i as int]);
                        check_pattern(&m.arms[i], ed, &seen, diags);
                        match &m.arms[i].pattern {
                            Pattern::Wildcard { .. } => {},
                            Pattern::TypedVariant { variant, .. } => {
                                seen.push(variant.clone());
                            },
                            Pattern::Variant { variant, .. } => {
                                seen.push(variant.clone());
                            },
                        }
                        assert(views(seen@) =~= arm_names(old_arms.take(i + 1)));
                        let ghost before_arms = m.arms@;
                        assert(decreases_to!(*old(m) => old(m).arms@[i as int].body));
                        analyze_arm_body(&mut m.arms[i].body, ret, enums, diags, record);
                        assert(m.arms@.take(i + 1).drop_last() =~= before_arms.take(i as int));
                        assert(m.arms@[i as int].pattern == old_arms[i as int].pattern);
                        assert(m.arms@[i as int].span == old_arms[i as int].span);
                        assert(m.arms@.take(i + 1).last() == m.arms@[i as int]);
                        assert(arm_annotated(old_arms[i as int], m.arms@[i as int], es, record));
                        i = i + 1;
                    }
                    assert(old_arms.take(n as int) =~= old_arms);
                    assert(m.arms@.take(n as int) =~= m.arms@);
                    if !wildcard && !names_match_variants(&seen, ed) {
                        let missing = missing_list(&seen, ed);
                        proof {
                            lemma_sorted_list(
                                views(missing@),
                                variant_names(edi).to_set().difference(views(seen@).to_set()),
                            );
                        }
                        let mut hint = str_to_string("missing variants: ");
                        let listed = join_strings(&missing, ", ");
                        push_str(&mut hint, listed.as_str());
                        report(
                            diags,
                            "E0204",
                            cat3("non-exhaustive match for enum `", ed.name.as_str(), "`"),
                            m.span,
                            Some(hint),
                        );
                    } else {
                        assert(infos(diags@) =~= infos(diags@) + Seq::<DiagInfo>::empty());
                    }
                },
            }
        },
    }
}

/// Checks an `if`; an `else if` is checked without recording anything in it.
#[verifier::rlimit(50)]
#[verifier::spinoff_prover]
fn analyze_if(
    ifs: &mut IfStmt,
    ret: &ReturnType,
    enums: &Vec<EnumDecl>,
    diags: &mut Vec<Diagnostic>,
    vars: &Vec<(String, String)>,
    record: bool,
)
    ensures
        infos(final(diags)@) == infos(old(diags)@) + if_diags(
            *old(ifs),
            *ret,
            enum_infos(enums@),
            env_view(vars@),
        ),
        if_annotated(*old(ifs), *final(ifs), enum_infos(enums@), env_view(vars@), record),
    decreases *old(ifs),
{
    validate_try_usage(&ifs.condition, ret, diags);
    let mut then_vars = copy_env(vars);
    analyze_block(&mut ifs.then_block, ret, enums, diags, &mut then_vars, record);
    match &mut ifs.else_branch {
        None => {
            assert(infos(diags@) =~= infos(diags@) + Seq::<DiagInfo>::empty());
        },
        Some(ElseBranch::Block(b)) => {
            let mut else_vars = copy_env(vars);
            analyze_block(b, ret, enums, diags, &mut else_vars, record);
        },
        Some(ElseBranch::If(nested)) => {
            analyze_if(&mut **nested, ret, enums, diags, vars, false);
        },
    }
}

fn analyze_stmt(
    st: &mut Stmt,
    ret: &ReturnType,
    enums: &Vec<EnumDecl>,
    diags: &mut Vec<Diagnostic>,
    vars: &mut Vec<(String, String)>,
    record: bool,
)
    ensures
        infos(final(diags)@) == infos(old(diags)@) + stmt_diags(
            *old(st),
            *ret,
            enum_infos(enums@),
            env_view(old(vars)@),
        ),
        stmt_annotated(*old(st), *final(st), enum_infos(enums@), env_view(old(vars)@), record),
        env_view(final(vars)@) == vars_after(*old(st), enum_infos(enums@), env_view(old(vars)@)),
    decreases *old(st),
{
    match st {
        Stmt::VarDecl(v) => {
            validate_try_usage(&v.expr, ret, diags);
            match infer_enum_type_from_expr(v.expr.text.as_str(), enums) {
                Some(e) => {
                    let ghost before = vars@;
                    vars.push((v.name.clone(), e));
                    assert(env_view(vars@) =~= env_view(before).push((v.name@, e@)));
                },
                None => {},
            }
        },
        Stmt::Return(r) => {
            let ghost start = infos(diags@);
            let mut i: usize = 0;
            while i < r.exprs.len()
                invariant
                    0 <= i <= r.exprs@.len(),
                    infos(diags@) == start + exprs_try_diags(r.exprs@.take(i as int), *ret),
                decreases r.exprs@.len() - i,
            {
                assert(r.exprs@.take(i + 1).drop_last() =~= r.exprs@.take(i as int));
                validate_try_usage(&r.exprs[i], ret, diags);
                i = i + 1;
            }
            assert(r.exprs@.take(r.exprs@.len() as int) =~= r.exprs@);
        },
        Stmt::Expr(e) => {
            validate_try_usage(&e.expr, ret, diags);
        },
        Stmt::Match(m) => {
            validate_try_usage(&m.value, ret, diags);
            analyze_match_stmt(m, ret, enums, diags, &*vars, record);
        },
        Stmt::If(i) => {
            analyze_if(i, ret, enums, diags, &*vars, record);
        },
        Stmt::Raw(_) => {
            assert(infos(diags@) =~= infos(diags@) + Seq::<DiagInfo>::empty());
        },
    }
}

/// Checks the statements of `block` in order, the variables bound by each one in scope for
/// the next ones.
#[verifier::rlimit(50)]
#[verifier::spinoff_prover]
pub(crate) fn analyze_block(
    block: &mut Block,
    ret: &ReturnType,
    enums: &Vec<EnumDecl>,
    diags: &mut Vec<Diagnostic>,
    vars: &mut Vec<(String, String)>,
    record: bool,
)
    ensures
        infos(final(diags)@) == infos(old(diags)@) + stmts_diags(
            old(block).stmts@,
            *ret,
            enum_infos(enums@),
            env_view(old(vars)@),
        ),
        final(block).span == old(block).span,
        stmts_annotated(
            old(block).stmts@,
            final(block).stmts@,
            enum_infos(enums@),
            env_view(old(vars)@),
            record,
        ),
        env_view(final(vars)@) == vars_after_stmts(
            old(block).stmts@,
            enum_infos(enums@),
            env_view(old(vars)@),
        ),
    decreases *old(block),
{
    let ghost es = enum_infos(enums@);
    let ghost start = infos(diags@);
    let ghost vars0 = env_view(vars@);
    let ghost olds = block.stmts@;
    let n = block.stmts.len();
    assert(olds.take(0) =~= Seq::<Stmt>::empty());
    assert(block.stmts@.take(0) =~= Seq::<Stmt>::empty());
    let mut i: usize = 0;
    while i < n
        invariant
            0 <= i <= n,
            n == block.stmts@.len(),
            n == olds.len(),
            olds == old(block).stmts@,
            es == enum_infos(enums@),
            block.span == old(block).span,
            forall|j: int| i <= j < n ==> block.stmts@[j] == olds[j],
            infos(diags@) == start + stmts_diags(olds.take(i as int), *ret, es, vars0),
            env_view(vars@) == vars_after_stmts(olds.take(i as int), es, vars0),
            stmts_annotated(olds.take(i as int), block.stmts@.take(i as int), es, vars0, record),
        decreases n - i,
    {
        assert(olds.take(i + 1).drop_last() =~= olds.take(i as int));
        assert(olds.take(i + 1).last() == olds[i as int]);
        let ghost before = block.stmts@;
        assert(decreases_to!(*old(block) => old(block).stmts@[i as int]));
        analyze_stmt(&mut block.stmts[i], ret, enums, diags, vars, record);
        assert(block.stmts@.take(i + 1).drop_last() =~= before.take(i as int));
        i = i + 1;
    }
    assert(olds.take(n as int) =~= olds);
    assert(block.stmts@.take(n as int) =~= block.stmts@);
}

} // verus!
