//! What analysis records in a program (the enum of each `match`) changes none of its
//! verdicts: analysing the updated program again reports the same errors.
use vstd::prelude::*;

use crate::ast::{ElseBranch, IfStmt, Item, MatchArm, MatchArmBody, MatchStmt, MethodDecl, Program, ReturnType, Stmt};
use crate::sema::body::{
    arm_annotated, arm_names, arms_annotated, arms_diags, body_diags, first_typed_enum,
    has_wildcard, if_annotated, if_diags, match_annotated, match_diags, resolve, stmt_annotated,
    stmt_diags, stmts_annotated, stmts_diags, vars_after, vars_after_stmts,
};
use crate::sema::decls::{decl_diags, decl_of, item_decl_diags, last_decl_span};
use crate::sema::model::{EnumInfo, ModelView};
use crate::sema::{
    fn_annotated, function_diags, item_annotated, item_diags, items_diags, method_annotated,
    method_diags, methods_diags, program_annotated, program_diags,
};

verus! {

proof fn lemma_arm_patterns_kept(old: Seq<MatchArm>, new: Seq<MatchArm>, enums: Seq<EnumInfo>, record: bool)
    requires
        arms_annotated(old, new, enums, record),
    ensures
        arm_names(new) == arm_names(old),
        first_typed_enum(new) == first_typed_enum(old),
        has_wildcard(new) == has_wildcard(old),
    decreases old.len(),
{
    if old.len() > 0 {
        lemma_arm_patterns_kept(old.drop_last(), new.drop_last(), enums, record);
        assert(arm_annotated(old.last(), new.last(), enums, record));
        assert forall|i: int| 0 <= i < old.len() implies #[trigger] new[i].pattern == old[i].pattern by {
            if i < old.len() - 1 {
                lemma_arm_pattern_at(old.drop_last(), new.drop_last(), enums, record, i);
                assert(old.drop_last()[i] == old[i]);
                assert(new.drop_last()[i] == new[i]);
            }
        }
        if has_wildcard(old) {
            let i = choose|i: int| 0 <= i < old.len() && old[i].pattern is Wildcard;
            assert(new[i].pattern is Wildcard);
        }
        if has_wildcard(new) {
            let i = choose|i: int| 0 <= i < new.len() && new[i].pattern is Wildcard;
            assert(old[i].pattern is Wildcard);
        }
    }
}

proof fn lemma_arm_pattern_at(
    old: Seq<MatchArm>,
    new: Seq<MatchArm>,
    enums: Seq<EnumInfo>,
    record: bool,
    i: int,
)
    requires
        arms_annotated(old, new, enums, record),
        0 <= i < old.len(),
    ensures
        new[i].pattern == old[i].pattern,
    decreases old.len(),
{
    if i < old.len() - 1 {
        lemma_arm_pattern_at(old.drop_last(), new.drop_last(), enums, record, i);
        assert(old.drop_last()[i] == old[i]);
        assert(new.drop_last()[i] == new[i]);
    } else {
        assert(arm_annotated(old.last(), new.last(), enums, record));
    }
}

proof fn lemma_stmts_kept(
    old: Seq<Stmt>,
    new: Seq<Stmt>,
    ret: ReturnType,
    enums: Seq<EnumInfo>,
    vars: Seq<(Seq<char>, Seq<char>)>,
    record: bool,
)
    requires
        stmts_annotated(old, new, enums, vars, record),
    ensures
        stmts_diags(new, ret, enums, vars) == stmts_diags(old, ret, enums, vars),
        vars_after_stmts(new, enums, vars) == vars_after_stmts(old, enums, vars),
    decreases old,
{
    if old.len() > 0 {
        lemma_stmts_kept(old.drop_last(), new.drop_last(), ret, enums, vars, record);
        lemma_stmt_kept(
            old.last(),
            new.last(),
            ret,
            enums,
            vars_after_stmts(old.drop_last(), enums, vars),
            record,
        );
    }
}

proof fn lemma_stmt_kept(
    old: Stmt,
    new: Stmt,
    ret: ReturnType,
    enums: Seq<EnumInfo>,
    vars: Seq<(Seq<char>, Seq<char>)>,
    record: bool,
)
    requires
        stmt_annotated(old, new, enums, vars, record),
    ensures
        stmt_diags(new, ret, enums, vars) == stmt_diags(old, ret, enums, vars),
        vars_after(new, enums, vars) == vars_after(old, enums, vars),
    decreases old,
{
    match old {
        Stmt::Match(m) => {
            let m2 = new->Match_0;
            lemma_match_kept(m, m2, ret, enums, vars, record);
        },
        Stmt::If(i) => {
            let i2 = new->If_0;
            lemma_if_kept(i, i2, ret, enums, vars, record);
        },
        _ => {},
    }
}

proof fn lemma_if_kept(
    old: IfStmt,
    new: IfStmt,
    ret: ReturnType,
    enums: Seq<EnumInfo>,
    vars: Seq<(Seq<char>, Seq<char>)>,
    record: bool,
)
    requires
        if_annotated(old, new, enums, vars, record),
    ensures
        if_diags(new, ret, enums, vars) == if_diags(old, ret, enums, vars),
    decreases old,
{
    lemma_stmts_kept(old.then_block.stmts@, new.then_block.stmts@, ret, enums, vars, record);
    match old.else_branch {
        None => {},
        Some(ElseBranch::Block(b)) => {
            let b2 = new.else_branch->Some_0->Block_0;
            lemma_stmts_kept(b.stmts@, b2.stmts@, ret, enums, vars, record);
        },
        Some(ElseBranch::If(n)) => {
            let n2 = new.else_branch->Some_0->If_0;
            lemma_if_kept(*n, *n2, ret, enums, vars, false);
        },
    }
}

proof fn lemma_match_kept(
    old: MatchStmt,
    new: MatchStmt,
    ret: ReturnType,
    enums: Seq<EnumInfo>,
    vars: Seq<(Seq<char>, Seq<char>)>,
    record: bool,
)
    requires
        match_annotated(old, new, enums, vars, record),
    ensures
        match_diags(new, ret, enums, vars) == match_diags(old, ret, enums, vars),
    decreases old,
{
    if resolve(old, enums, vars) is Some && crate::sema::model::lookup_enum(
        enums,
        resolve(old, enums, vars)->0,
    ) is Some {
        lemma_arm_patterns_kept(old.arms@, new.arms@, enums, record);
        assert(resolve(new, enums, vars) == resolve(old, enums, vars));
        let ed = crate::sema::model::lookup_enum(enums, resolve(old, enums, vars)->0)->0;
        lemma_arms_kept(old.arms@, new.arms@, ed, ret, enums, record);
    } else {
        assert(new.arms@ == old.arms@);
        assert(resolve(new, enums, vars) == resolve(old, enums, vars));
    }
}

proof fn lemma_arms_kept(
    old: Seq<MatchArm>,
    new: Seq<MatchArm>,
    ed: EnumInfo,
    ret: ReturnType,
    enums: Seq<EnumInfo>,
    record: bool,
)
    requires
        arms_annotated(old, new, enums, record),
    ensures
        arms_diags(new, ed, ret, enums) == arms_diags(old, ed, ret, enums),
    decreases old,
{
    if old.len() > 0 {
        lemma_arms_kept(old.drop_last(), new.drop_last(), ed, ret, enums, record);
        lemma_arm_patterns_kept(old.drop_last(), new.drop_last(), enums, record);
        let a = old.last();
        let a2 = new.last();
        assert(arm_annotated(a, a2, enums, record));
        match a.body {
            MatchArmBody::Expr(_) => {},
            MatchArmBody::Block(b) => {
                let b2 = a2.body->Block_0;
                lemma_stmts_kept(b.stmts@, b2.stmts@, ret, enums, Seq::empty(), record);
            },
        }
        assert(body_diags(a2.body, ret, enums) == body_diags(a.body, ret, enums));
    }
}

proof fn lemma_methods_kept(
    old: Seq<MethodDecl>,
    new: Seq<MethodDecl>,
    target: Seq<char>,
    enums: Seq<EnumInfo>,
)
    requires
        old.len() == new.len(),
        forall|i: int| 0 <= i < old.len() ==> method_annotated(#[trigger] old[i], new[i], target, enums),
    ensures
        methods_diags(new, target, enums) == methods_diags(old, target, enums),
    decreases old.len(),
{
    if old.len() > 0 {
        assert forall|i: int| 0 <= i < old.drop_last().len() implies method_annotated(
            #[trigger] old.drop_last()[i],
            new.drop_last()[i],
            target,
            enums,
        ) by {
            assert(old.drop_last()[i] == old[i]);
            assert(new.drop_last()[i] == new[i]);
        }
        lemma_methods_kept(old.drop_last(), new.drop_last(), target, enums);
        let md = old.last();
        let md2 = new.last();
        assert(method_annotated(old[old.len() - 1], new[old.len() - 1], target, enums));
        lemma_stmts_kept(
            md.body.stmts@,
            md2.body.stmts@,
            md.ret,
            enums,
            crate::sema::method_vars(md, target, enums),
            true,
        );
        assert(method_diags(md2, target, enums) == method_diags(md, target, enums));
    }
}

proof fn lemma_item_kept(old: Item, new: Item, m: ModelView)
    requires
        item_annotated(old, new, m),
    ensures
        item_diags(new, m) == item_diags(old, m),
        decl_of(new) == decl_of(old),
        new is Enum <==> old is Enum,
        old is Enum ==> new == old,
{
    match old {
        Item::Function(f) => {
            let f2 = new->Function_0;
            lemma_stmts_kept(
                f.body.stmts@,
                f2.body.stmts@,
                f.ret,
                m.enums,
                crate::sema::param_vars(f.params@, m.enums, Seq::empty()),
                true,
            );
            assert(function_diags(f2, m) == function_diags(f, m));
        },
        Item::Impl(b) => {
            let b2 = new->Impl_0;
            lemma_methods_kept(b.methods@, b2.methods@, b.target@, m.enums);
        },
        _ => {},
    }
}

/// Items with the same declarations, enums kept as they were.
spec fn same_decls(a: Seq<Item>, b: Seq<Item>, m: ModelView) -> bool {
    &&& a.len() == b.len()
    &&& forall|i: int| 0 <= i < a.len() ==> #[trigger] item_annotated(a[i], b[i], m)
}

proof fn lemma_items_kept(a: Seq<Item>, b: Seq<Item>, m: ModelView)
    requires
        same_decls(a, b, m),
    ensures
        items_diags(b, m) == items_diags(a, m),
        decl_diags(b) == decl_diags(a),
    decreases a.len(),
{
    if a.len() > 0 {
        let n = a.len() - 1;
        assert forall|i: int| 0 <= i < a.drop_last().len() implies #[trigger] item_annotated(
            a.drop_last()[i],
            b.drop_last()[i],
            m,
        ) by {
            assert(a.drop_last()[i] == a[i]);
            assert(b.drop_last()[i] == b[i]);
            assert(item_annotated(a[i], b[i], m));
        }
        lemma_items_kept(a.drop_last(), b.drop_last(), m);
        assert(item_annotated(a[n], b[n], m));
        lemma_item_kept(a.last(), b.last(), m);
        assert forall|name: Seq<char>| last_decl_span(b.drop_last(), name) == last_decl_span(
            a.drop_last(),
            name,
        ) by {
            lemma_last_decl_kept(a.drop_last(), b.drop_last(), m, name);
        }
        assert(item_decl_diags(b.drop_last(), b.last()) == item_decl_diags(a.drop_last(), a.last()));
    }
}

proof fn lemma_last_decl_kept(a: Seq<Item>, b: Seq<Item>, m: ModelView, name: Seq<char>)
    requires
        same_decls(a, b, m),
    ensures
        last_decl_span(b, name) == last_decl_span(a, name),
    decreases a.len(),
{
    if a.len() > 0 {
        let n = a.len() - 1;
        assert forall|i: int| 0 <= i < a.drop_last().len() implies #[trigger] item_annotated(
            a.drop_last()[i],
            b.drop_last()[i],
            m,
        ) by {
            assert(a.drop_last()[i] == a[i]);
            assert(b.drop_last()[i] == b[i]);
            assert(item_annotated(a[i], b[i], m));
        }
        lemma_last_decl_kept(a.drop_last(), b.drop_last(), m, name);
        assert(item_annotated(a[n], b[n], m));
        lemma_item_kept(a.last(), b.last(), m);
    }
}

/// Analysing a program again, once analysis has recorded the enums of its `match`
/// statements in it, reports the same errors against the same model: a second
/// `analyze_with_model` call on the updated program succeeds exactly when the first did,
/// with the same diagnostics.
pub proof fn law_second_analysis_agrees(old: Program, new: Program, m: ModelView)
    requires
        program_annotated(old, new, m),
    ensures
        program_diags(new, m) == program_diags(old, m),
{
    assert forall|i: int| 0 <= i < old.items@.len() implies #[trigger] item_annotated(
        old.items@[i],
        new.items@[i],
        m,
    ) by {
        assert(item_annotated(old.items@[i], new.items@[i], m));
    }
    lemma_items_kept(old.items@, new.items@, m);
}

} // verus!
