//! The rule on `match`: a `match` whose first arm names its enum (`Enum::Variant`), has no
//! `_` arm and leaves out a variant of that enum is refused, wherever it stands among the
//! `if`s of a function's body.
use vstd::prelude::*;

use crate::ast::{pattern_variant, ElseBranch, FnDecl, IfStmt, MatchArm, MatchStmt, Pattern, Stmt};
use crate::sema::body::{
    arm_names, arms_diags, exhaust_diags, first_typed_enum, has_wildcard, if_diags, match_diags,
    resolve, stmt_diags, stmts_diags, try_diags, variant_names, vars_after_stmts,
};
use crate::sema::model::{lookup_enum, EnumInfo, ModelView};
use crate::sema::signature::base_name;
use crate::sema::try_usage::{has_code, lemma_has_code_left, lemma_has_code_right};
use crate::sema::{function_diags, DiagInfo};

verus! {

/// A `match` that is not exhaustive by its own arms: its first arm names an enum of
/// `enums`, no arm is `_`, and some variant of that enum is named by no arm.
pub open spec fn misses_a_variant(m: MatchStmt, enums: Seq<EnumInfo>) -> bool {
    &&& m.arms@.len() > 0
    &&& m.arms@[0].pattern matches Pattern::TypedVariant { enum_name, .. } && lookup_enum(
        enums,
        base_name(enum_name@),
    ) matches Some(ed) && exists|v: int|
        #![trigger ed.variants[v]]
        0 <= v < ed.variants.len() && forall|a: int|
            0 <= a < m.arms@.len() ==> pattern_variant(#[trigger] m.arms@[a].pattern) != Some(
                ed.variants[v].name,
            )
    &&& forall|a: int| 0 <= a < m.arms@.len() ==> !(#[trigger] m.arms@[a].pattern is Wildcard)
}

/// Some statement of the list, or of the branches of its `if`s at any depth, is such a
/// `match`.
pub open spec fn stmts_miss_a_variant(s: Seq<Stmt>, enums: Seq<EnumInfo>) -> bool
    decreases s,
{
    s.len() > 0 && (stmts_miss_a_variant(s.drop_last(), enums) || stmt_misses_a_variant(
        s.last(),
        enums,
    ))
}

pub open spec fn stmt_misses_a_variant(st: Stmt, enums: Seq<EnumInfo>) -> bool
    decreases st,
{
    match st {
        Stmt::Match(m) => misses_a_variant(m, enums),
        Stmt::If(i) => if_misses_a_variant(i, enums),
        _ => false,
    }
}

pub open spec fn if_misses_a_variant(i: IfStmt, enums: Seq<EnumInfo>) -> bool
    decreases i,
{
    stmts_miss_a_variant(i.then_block.stmts@, enums) || match i.else_branch {
        None => false,
        Some(ElseBranch::Block(b)) => stmts_miss_a_variant(b.stmts@, enums),
        Some(ElseBranch::If(n)) => if_misses_a_variant(*n, enums),
    }
}

proof fn lemma_first_typed(arms: Seq<MatchArm>)
    requires
        arms.len() > 0,
        arms[0].pattern is TypedVariant,
    ensures
        first_typed_enum(arms) == Some(base_name(arms[0].pattern->TypedVariant_enum_name@)),
    decreases arms.len(),
{
    if arms.len() > 1 {
        assert(arms.drop_last()[0] == arms[0]);
        lemma_first_typed(arms.drop_last());
    } else {
        assert(arms.drop_last().len() == 0);
        assert(first_typed_enum(arms.drop_last()) == None::<Seq<char>>);
        assert(arms.last() == arms[0]);
    }
}

proof fn lemma_arm_names_named(arms: Seq<MatchArm>, x: Seq<char>)
    requires
        arm_names(arms).contains(x),
    ensures
        exists|a: int| 0 <= a < arms.len() && pattern_variant(#[trigger] arms[a].pattern) == Some(x),
    decreases arms.len(),
{
    let rest = arm_names(arms.drop_last());
    if rest.contains(x) {
        lemma_arm_names_named(arms.drop_last(), x);
        let a = choose|a: int|
            0 <= a < arms.drop_last().len() && pattern_variant(#[trigger] arms.drop_last()[a].pattern)
                == Some(x);
        assert(arms[a] == arms.drop_last()[a]);
    } else {
        let k = choose|k: int| 0 <= k < arm_names(arms).len() && arm_names(arms)[k] == x;
        assert(pattern_variant(arms.last().pattern) == Some(x));
        assert(pattern_variant(arms[arms.len() - 1].pattern) == Some(x));
    }
}

proof fn lemma_match_refused(
    m: MatchStmt,
    ret: crate::ast::ReturnType,
    enums: Seq<EnumInfo>,
    vars: Seq<(Seq<char>, Seq<char>)>,
)
    requires
        misses_a_variant(m, enums),
    ensures
        has_code(match_diags(m, ret, enums, vars), "E0204"@),
{
    let arms = m.arms@;
    lemma_first_typed(arms);
    let name = base_name(arms[0].pattern->TypedVariant_enum_name@);
    assert(resolve(m, enums, vars) == Some(name));
    let ed = lookup_enum(enums, name)->0;
    let v = choose|v: int|
        #![trigger ed.variants[v]]
        0 <= v < ed.variants.len() && forall|a: int|
            0 <= a < arms.len() ==> pattern_variant(#[trigger] arms[a].pattern) != Some(
                ed.variants[v].name,
            );
    let x = ed.variants[v].name;
    assert(variant_names(ed)[v] == x);
    assert(variant_names(ed).to_set().contains(x));
    if arm_names(arms).contains(x) {
        lemma_arm_names_named(arms, x);
    }
    assert(!arm_names(arms).to_set().contains(x));
    if has_wildcard(arms) {
        let a = choose|a: int| 0 <= a < arms.len() && arms[a].pattern is Wildcard;
        assert(!(arms[a].pattern is Wildcard));
    }
    let ex = exhaust_diags(m, ed);
    assert(ex[0].code == "E0204"@);
    lemma_has_code_right(arms_diags(arms, ed, ret, enums), ex, "E0204"@);
}

proof fn lemma_stmts_refused(
    s: Seq<Stmt>,
    ret: crate::ast::ReturnType,
    enums: Seq<EnumInfo>,
    vars: Seq<(Seq<char>, Seq<char>)>,
)
    requires
        stmts_miss_a_variant(s, enums),
    ensures
        has_code(stmts_diags(s, ret, enums, vars), "E0204"@),
    decreases s,
{
    let a = stmts_diags(s.drop_last(), ret, enums, vars);
    let b = stmt_diags(s.last(), ret, enums, vars_after_stmts(s.drop_last(), enums, vars));
    if stmts_miss_a_variant(s.drop_last(), enums) {
        lemma_stmts_refused(s.drop_last(), ret, enums, vars);
        lemma_has_code_left(a, b, "E0204"@);
    } else {
        lemma_stmt_refused(s.last(), ret, enums, vars_after_stmts(s.drop_last(), enums, vars));
        lemma_has_code_right(a, b, "E0204"@);
    }
}

proof fn lemma_stmt_refused(
    st: Stmt,
    ret: crate::ast::ReturnType,
    enums: Seq<EnumInfo>,
    vars: Seq<(Seq<char>, Seq<char>)>,
)
    requires
        stmt_misses_a_variant(st, enums),
    ensures
        has_code(stmt_diags(st, ret, enums, vars), "E0204"@),
    decreases st,
{
    match st {
        Stmt::Match(m) => {
            lemma_match_refused(m, ret, enums, vars);
            lemma_has_code_right(try_diags(m.value, ret), match_diags(m, ret, enums, vars), "E0204"@);
        },
        Stmt::If(i) => {
            lemma_if_refused(i, ret, enums, vars);
        },
        _ => {},
    }
}

proof fn lemma_if_refused(
    i: IfStmt,
    ret: crate::ast::ReturnType,
    enums: Seq<EnumInfo>,
    vars: Seq<(Seq<char>, Seq<char>)>,
)
    requires
        if_misses_a_variant(i, enums),
    ensures
        has_code(if_diags(i, ret, enums, vars), "E0204"@),
    decreases i,
{
    let c = try_diags(i.condition, ret);
    let t = stmts_diags(i.then_block.stmts@, ret, enums, vars);
    let rest = match i.else_branch {
        None => Seq::<DiagInfo>::empty(),
        Some(ElseBranch::Block(b)) => stmts_diags(b.stmts@, ret, enums, vars),
        Some(ElseBranch::If(n)) => if_diags(*n, ret, enums, vars),
    };
    assert(if_diags(i, ret, enums, vars) == c + t + rest);
    if stmts_miss_a_variant(i.then_block.stmts@, enums) {
        lemma_stmts_refused(i.then_block.stmts@, ret, enums, vars);
        lemma_has_code_right(c, t, "E0204"@);
        lemma_has_code_left(c + t, rest, "E0204"@);
    } else {
        match i.else_branch {
            None => {},
            Some(ElseBranch::Block(b)) => {
                lemma_stmts_refused(b.stmts@, ret, enums, vars);
            },
            Some(ElseBranch::If(n)) => {
                lemma_if_refused(*n, ret, enums, vars);
            },
        }
        lemma_has_code_right(c + t, rest, "E0204"@);
    }
}

/// A function whose body holds, at any depth of `if`s, a `match` that names its enum in
/// its first arm, has no `_` arm and leaves out a variant of that enum gets an E0204
/// diagnostic.
pub proof fn law_non_exhaustive_match_is_refused(f: FnDecl, m: ModelView)
    requires
        stmts_miss_a_variant(f.body.stmts@, m.enums),
    ensures
        has_code(function_diags(f, m), "E0204"@),
{
    let vars = crate::sema::param_vars(f.params@, m.enums, Seq::empty());
    lemma_stmts_refused(f.body.stmts@, f.ret, m.enums, vars);
    lemma_has_code_right(
        crate::sema::decorators::decorators_diags(f.decorators@, f.ret, f.params@, false, m.params),
        stmts_diags(f.body.stmts@, f.ret, m.enums, vars),
        "E0204"@,
    );
}

} // verus!
