//! The canonical GoPlus layout of a parsed program (`goplus fmt`).
use vstd::prelude::*;

use crate::ast::{
    Block, DeriveKind, ElseBranch, EnumDecl, EnumVariant, Expr, FieldDecl, FnDecl, IfStmt,
    ImplBlock, Item, MatchArm, MatchArmBody, MatchStmt, MethodDecl, ParamDecl, Pattern, Program,
    ReceiverKind, ReturnType, Stmt, StructDecl, TypeRef, Decorator,
};
use crate::codegen::types::{push_tabs, tabs};
use crate::text::{join, push_str, views};

verus! {

// ----- the layout, as text -----

/// The parts one after another.
pub open spec fn concat(parts: Seq<Seq<char>>) -> Seq<char>
    decreases parts.len(),
{
    if parts.len() == 0 {
        Seq::empty()
    } else {
        concat(parts.drop_last()) + parts.last()
    }
}

/// `open` + the parts joined by `", "` + `close`, or nothing when there are no parts.
pub open spec fn listed(parts: Seq<Seq<char>>, open: Seq<char>, close: Seq<char>) -> Seq<char> {
    if parts.len() == 0 {
        Seq::empty()
    } else {
        open + join(parts, ", "@) + close
    }
}

/// An expression as written, with its `?` when it has one.
pub open spec fn with_try(e: Expr) -> Seq<char> {
    if e.has_try {
        e.text@ + "?"@
    } else {
        e.text@
    }
}

pub open spec fn derive_name(d: DeriveKind) -> Seq<char> {
    match d {
        DeriveKind::String => "String"@,
        DeriveKind::Debug => "Debug"@,
        DeriveKind::Equal => "Equal"@,
        DeriveKind::JsonMarshal => "JsonMarshal"@,
        DeriveKind::JsonUnmarshal => "JsonUnmarshal"@,
    }
}

pub open spec fn derives_fmt(ds: Seq<DeriveKind>) -> Seq<char> {
    listed(ds.map_values(|d: DeriveKind| derive_name(d)), "@derive("@, ")\n"@)
}

pub open spec fn type_raws(ts: Seq<TypeRef>) -> Seq<Seq<char>> {
    ts.map_values(|t: TypeRef| t.raw@)
}

pub open spec fn param_fmt(p: ParamDecl) -> Seq<char> {
    p.name@ + ": "@ + p.ty.raw@
}

pub open spec fn params_fmt(ps: Seq<ParamDecl>) -> Seq<char> {
    join(ps.map_values(|p: ParamDecl| param_fmt(p)), ", "@)
}

pub open spec fn ret_fmt(r: ReturnType) -> Seq<char> {
    match r {
        ReturnType::Void => Seq::empty(),
        ReturnType::Type(t) => " -> "@ + t.raw@,
        ReturnType::ErrorOnly => " -> !"@,
        ReturnType::TypeWithError(t) => " -> "@ + t.raw@ + "!"@,
    }
}

pub open spec fn decorator_fmt(d: Decorator) -> Seq<char> {
    "@"@ + d.name@ + listed(views(d.args@), "("@, ")"@)
}

pub open spec fn pattern_fmt(p: Pattern) -> Seq<char> {
    match p {
        Pattern::Wildcard { .. } => "_"@,
        Pattern::TypedVariant { enum_name, variant, bindings, .. } => enum_name@ + "::"@
            + variant@ + listed(views(bindings@), "("@, ")"@),
        Pattern::Variant { variant, bindings, .. } => variant@ + listed(
            views(bindings@),
            "("@,
            ")"@,
        ),
    }
}

pub open spec fn return_fmt(exprs: Seq<Expr>, t: Seq<char>) -> Seq<char> {
    if exprs.len() == 0 {
        t + "return\n"@
    } else {
        t + "return "@ + join(exprs.map_values(|e: Expr| with_try(e)), ", "@) + "\n"@
    }
}

/// A statement at `indent` tabs, the tabs written out being `t`.
pub open spec fn stmt_fmt(st: Stmt, t: Seq<char>, indent: nat) -> Seq<char>
    decreases st,
{
    match st {
        Stmt::VarDecl(v) => t + v.name@ + " := "@ + with_try(v.expr) + "\n"@,
        Stmt::Return(r) => return_fmt(r.exprs@, t),
        Stmt::Expr(e) => t + with_try(e.expr) + "\n"@,
        Stmt::Raw(r) => t + r.text@ + "\n"@,
        Stmt::Match(m) => match_fmt(m, t, indent),
        Stmt::If(i) => if_fmt(i, t, indent),
    }
}

/// The statements of a block, each at `indent` tabs.
pub open spec fn block_fmt(stmts: Seq<Stmt>, indent: nat) -> Seq<char>
    decreases stmts,
{
    if stmts.len() == 0 {
        Seq::empty()
    } else {
        block_fmt(stmts.drop_last(), indent) + stmt_fmt(stmts.last(), tabs(indent), indent)
    }
}

pub open spec fn arm_fmt(arm: MatchArm, t: Seq<char>, indent: nat) -> Seq<char>
    decreases arm,
{
    t + "\t"@ + pattern_fmt(arm.pattern) + " => "@ + match arm.body {
        MatchArmBody::Expr(e) => with_try(e) + "\n"@,
        MatchArmBody::Block(b) => "{\n"@ + block_fmt(b.stmts@, indent + 2) + t + "\t"@ + "}\n"@,
    }
}

pub open spec fn arms_fmt(arms: Seq<MatchArm>, t: Seq<char>, indent: nat) -> Seq<char>
    decreases arms,
{
    if arms.len() == 0 {
        Seq::empty()
    } else {
        arms_fmt(arms.drop_last(), t, indent) + arm_fmt(arms.last(), t, indent)
    }
}

pub open spec fn match_fmt(m: MatchStmt, t: Seq<char>, indent: nat) -> Seq<char>
    decreases m,
{
    t + "match "@ + with_try(m.value) + " {\n"@ + arms_fmt(m.arms@, t, indent) + t + "}\n"@
}

/// An `if`; an `else if` goes on after `else ` with no tabs of its own.
pub open spec fn if_fmt(i: IfStmt, t: Seq<char>, indent: nat) -> Seq<char>
    decreases i,
{
    t + "if "@ + with_try(i.condition) + " {\n"@ + block_fmt(i.then_block.stmts@, indent + 1) + t
        + "}"@ + match i.else_branch {
        None => "\n"@,
        Some(ElseBranch::Block(b)) => " else {\n"@ + block_fmt(b.stmts@, indent + 1) + t + "}\n"@,
        Some(ElseBranch::If(n)) => " else "@ + if_fmt(*n, Seq::empty(), indent),
    }
}

pub open spec fn field_fmt(f: FieldDecl) -> Seq<char> {
    "\t"@ + f.name@ + ": "@ + f.ty.raw@ + "\n"@
}

pub open spec fn struct_fmt(d: StructDecl) -> Seq<char> {
    derives_fmt(d.derives@) + "struct "@ + d.name@ + " {\n"@ + concat(
        d.fields@.map_values(|f: FieldDecl| field_fmt(f)),
    ) + "}"@
}

pub open spec fn variant_fmt(v: EnumVariant) -> Seq<char> {
    "\t"@ + v.name@ + listed(type_raws(v.payload@), "("@, ")"@) + "\n"@
}

pub open spec fn enum_fmt(d: EnumDecl) -> Seq<char> {
    derives_fmt(d.derives@) + "enum "@ + d.name@ + listed(views(d.type_params@), "<"@, ">"@)
        + " {\n"@ + concat(d.variants@.map_values(|v: EnumVariant| variant_fmt(v))) + "}"@
}

pub open spec fn decorators_fmt(ds: Seq<Decorator>, after: Seq<char>) -> Seq<char> {
    concat(ds.map_values(|d: Decorator| decorator_fmt(d) + "\n"@ + after))
}

pub open spec fn function_fmt(f: FnDecl) -> Seq<char> {
    decorators_fmt(f.decorators@, Seq::empty()) + "fn "@ + f.name@ + listed(
        views(f.type_params@),
        "<"@,
        ">"@,
    ) + "("@ + params_fmt(f.params@) + ")"@ + ret_fmt(f.ret) + " {\n"@ + block_fmt(
        f.body.stmts@,
        1,
    ) + "}"@
}

pub open spec fn receiver_fmt(r: ReceiverKind) -> Seq<char> {
    match r {
        ReceiverKind::Pointer => "fn mut "@,
        ReceiverKind::Value => "fn "@,
    }
}

/// A method, one tab in; its type parameters are not written.
pub open spec fn method_fmt(m: MethodDecl) -> Seq<char> {
    "\t"@ + decorators_fmt(m.decorators@, "\t"@) + receiver_fmt(m.receiver) + m.name@ + "("@
        + params_fmt(m.params@) + ")"@ + ret_fmt(m.ret) + " {\n"@ + block_fmt(m.body.stmts@, 2)
        + "\t"@ + "}\n"@
}

pub open spec fn impl_fmt(b: ImplBlock) -> Seq<char> {
    "impl "@ + b.target@ + " {\n"@ + join(b.methods@.map_values(|m: MethodDecl| method_fmt(m)), "\n"@)
        + "}"@
}

pub open spec fn item_fmt(it: Item) -> Seq<char> {
    match it {
        Item::Struct(d) => struct_fmt(d),
        Item::Enum(d) => enum_fmt(d),
        Item::Function(f) => function_fmt(f),
        Item::Impl(b) => impl_fmt(b),
    }
}

pub open spec fn quoted_import(path: Seq<char>) -> Seq<char> {
    "\""@ + path + "\""@ + "\n"@
}

/// One import on its line, several in a group, none at all.
pub open spec fn imports_fmt(imps: Seq<Seq<char>>) -> Seq<char> {
    if imps.len() == 0 {
        Seq::empty()
    } else if imps.len() == 1 {
        "\n"@ + "import "@ + quoted_import(imps[0])
    } else {
        "\n"@ + "import (\n"@ + concat(imps.map_values(|p: Seq<char>| "\t"@ + quoted_import(p))) + ")\n"@
    }
}

/// The whole program: its package clause, its imports, then each item after a blank line.
pub open spec fn program_fmt(p: Program) -> Seq<char> {
    "package "@ + p.package@ + "\n"@ + imports_fmt(views(p.imports@)) + concat(
        p.items@.map_values(|it: Item| "\n"@ + item_fmt(it) + "\n"@),
    )
}

// ----- writing the layout -----

proof fn lemma_tabs_succ(n: nat)
    ensures
        tabs(n + 1) == tabs(n) + "\t"@,
{
    reveal_with_fuel(crate::text::repeat, 2);
}

proof fn lemma_join_step(parts: Seq<Seq<char>>, sep: Seq<char>, i: int)
    requires
        0 <= i < parts.len(),
    ensures
        join(parts.take(i + 1), sep) == if i == 0 {
            parts[0]
        } else {
            join(parts.take(i), sep) + sep + parts[i]
        },
{
    assert(parts.take(i + 1).drop_last() =~= parts.take(i));
    if i == 0 {
        assert(parts.take(1).len() == 1);
    }
}

fn push_with_try(out: &mut String, e: &Expr)
    ensures
        final(out)@ == old(out)@ + with_try(*e),
{
    push_str(out, e.text.as_str());
    if e.has_try {
        push_str(out, "?");
    }
}

/// Appends the parts joined by `sep`.
fn push_joined(out: &mut String, parts: &Vec<String>, sep: &str)
    ensures
        final(out)@ == old(out)@ + join(views(parts@), sep@),
{
    let ghost ps = views(parts@);
    let mut i: usize = 0;
    while i < parts.len()
        invariant
            0 <= i <= parts@.len(),
            ps == views(parts@),
            out@ == old(out)@ + join(ps.take(i as int), sep@),
        decreases parts@.len() - i,
    {
        proof {
            lemma_join_step(ps, sep@, i as int);
        }
        if i > 0 {
            push_str(out, sep);
        } else {
            assert(ps.take(0) =~= Seq::<Seq<char>>::empty());
        }
        push_str(out, parts[i].as_str());
        i = i + 1;
    }
    assert(ps.take(parts@.len() as int) =~= ps);
}

fn push_listed(out: &mut String, parts: &Vec<String>, open: &str, close: &str)
    ensures
        final(out)@ == old(out)@ + listed(views(parts@), open@, close@),
{
    if parts.len() > 0 {
        push_str(out, open);
        push_joined(out, parts, ", ");
        push_str(out, close);
    } else {
        assert(views(parts@).len() == 0);
    }
}

fn push_pattern(out: &mut String, p: &Pattern)
    ensures
        final(out)@ == old(out)@ + pattern_fmt(*p),
{
    match p {
        Pattern::Wildcard { .. } => push_str(out, "_"),
        Pattern::TypedVariant { enum_name, variant, bindings, .. } => {
            push_str(out, enum_name.as_str());
            push_str(out, "::");
            push_str(out, variant.as_str());
            push_listed(out, bindings, "(", ")");
        },
        Pattern::Variant { variant, bindings, .. } => {
            push_str(out, variant.as_str());
            push_listed(out, bindings, "(", ")");
        },
    }
}

fn push_return(out: &mut String, exprs: &Vec<Expr>, t: &str)
    ensures
        final(out)@ == old(out)@ + return_fmt(exprs@, t@),
{
    push_str(out, t);
    if exprs.len() == 0 {
        push_str(out, "return\n");
    } else {
        push_str(out, "return ");
        let ghost ps = exprs@.map_values(|e: Expr| with_try(e));
        let ghost start = out@;
        let mut i: usize = 0;
        while i < exprs.len()
            invariant
                0 <= i <= exprs@.len(),
                ps == exprs@.map_values(|e: Expr| with_try(e)),
                out@ == start + join(ps.take(i as int), ", "@),
            decreases exprs@.len() - i,
        {
            proof {
                lemma_join_step(ps, ", "@, i as int);
            }
            if i > 0 {
                push_str(out, ", ");
            } else {
                assert(ps.take(0) =~= Seq::<Seq<char>>::empty());
            }
            push_with_try(out, &exprs[i]);
            i = i + 1;
        }
        assert(ps.take(exprs@.len() as int) =~= ps);
        push_str(out, "\n");
    }
}

/// Appends `ind` and one more tab.
fn deeper(ind: &str, Ghost(indent): Ghost<nat>) -> (r: String)
    requires
        ind@ == tabs(indent),
    ensures
        r@ == tabs(indent + 1),
{
    let mut r = String::new();
    push_str(&mut r, ind);
    push_str(&mut r, "\t");
    proof {
        lemma_tabs_succ(indent);
        assert(r@ =~= tabs(indent + 1));
    }
    r
}

fn push_stmt(out: &mut String, st: &Stmt, t: &str, ind: &str, Ghost(indent): Ghost<nat>)
    requires
        ind@ == tabs(indent),
    ensures
        final(out)@ == old(out)@ + stmt_fmt(*st, t@, indent),
    decreases st,
{
    match st {
        Stmt::VarDecl(v) => {
            push_str(out, t);
            push_str(out, v.name.as_str());
            push_str(out, " := ");
            push_with_try(out, &v.expr);
            push_str(out, "\n");
        },
        Stmt::Return(r) => push_return(out, &r.exprs, t),
        Stmt::Expr(e) => {
            push_str(out, t);
            push_with_try(out, &e.expr);
            push_str(out, "\n");
        },
        Stmt::Raw(r) => {
            push_str(out, t);
            push_str(out, r.text.as_str());
            push_str(out, "\n");
        },
        Stmt::Match(m) => push_match(out, m, t, ind, Ghost(indent)),
        Stmt::If(i) => push_if(out, i, t, ind, Ghost(indent)),
    }
    assert(final(out)@ =~= old(out)@ + stmt_fmt(*st, t@, indent));
}

fn push_block(out: &mut String, block: &Block, ind: &str, Ghost(indent): Ghost<nat>)
    requires
        ind@ == tabs(indent),
    ensures
        final(out)@ == old(out)@ + block_fmt(block.stmts@, indent),
    decreases block,
{
    let ghost ss = block.stmts@;
    let mut i: usize = 0;
    assert(ss.take(0) =~= Seq::<Stmt>::empty());
    while i < block.stmts.len()
        invariant
            0 <= i <= ss.len(),
            ss == block.stmts@,
            ind@ == tabs(indent),
            out@ == old(out)@ + block_fmt(ss.take(i as int), indent),
        decreases ss.len() - i,
    {
        assert(ss.take(i + 1).drop_last() =~= ss.take(i as int));
        assert(ss.take(i + 1).last() == ss[i as int]);
        assert(decreases_to!(block => block.stmts@[i as int]));
        push_stmt(out, &block.stmts[i], ind, ind, Ghost(indent));
        i = i + 1;
    }
    assert(ss.take(ss.len() as int) =~= ss);
}

fn push_arms(out: &mut String, arms: &Vec<MatchArm>, t: &str, ind: &str, Ghost(indent): Ghost<nat>)
    requires
        ind@ == tabs(indent),
    ensures
        final(out)@ == old(out)@ + arms_fmt(arms@, t@, indent),
    decreases arms,
{
    let mut i: usize = 0;
    assert(arms@.take(0) =~= Seq::<MatchArm>::empty());
    while i < arms.len()
        invariant
            0 <= i <= arms@.len(),
            ind@ == tabs(indent),
            out@ == old(out)@ + arms_fmt(arms@.take(i as int), t@, indent),
        decreases arms@.len() - i,
    {
        assert(arms@.take(i + 1).drop_last() =~= arms@.take(i as int));
        assert(arms@.take(i + 1).last() == arms@[i as int]);
        let arm = &arms[i];
        let ghost before = out@;
        push_str(out, t);
        push_str(out, "\t");
        push_pattern(out, &arm.pattern);
        push_str(out, " => ");
        assert(decreases_to!(arms => arms@[i as int].body));
        match &arm.body {
            MatchArmBody::Expr(e) => {
                push_with_try(out, e);
                push_str(out, "\n");
            },
            MatchArmBody::Block(b) => {
                push_str(out, "{\n");
                let ind1 = deeper(ind, Ghost(indent));
                let ind2 = deeper(ind1.as_str(), Ghost(indent + 1));
                push_block(out, b, ind2.as_str(), Ghost(indent + 2));
                push_str(out, t);
                push_str(out, "\t");
                push_str(out, "}\n");
            },
        }
        assert(out@ =~= before + arm_fmt(*arm, t@, indent));
        i = i + 1;
    }
    assert(arms@.take(arms@.len() as int) =~= arms@);
}

fn push_match(out: &mut String, m: &MatchStmt, t: &str, ind: &str, Ghost(indent): Ghost<nat>)
    requires
        ind@ == tabs(indent),
    ensures
        final(out)@ == old(out)@ + match_fmt(*m, t@, indent),
    decreases m,
{
    push_str(out, t);
    push_str(out, "match ");
    push_with_try(out, &m.value);
    push_str(out, " {\n");
    push_arms(out, &m.arms, t, ind, Ghost(indent));
    push_str(out, t);
    push_str(out, "}\n");
    assert(final(out)@ =~= old(out)@ + match_fmt(*m, t@, indent));
}

fn push_if(out: &mut String, i: &IfStmt, t: &str, ind: &str, Ghost(indent): Ghost<nat>)
    requires
        ind@ == tabs(indent),
    ensures
        final(out)@ == old(out)@ + if_fmt(*i, t@, indent),
    decreases i,
{
    push_str(out, t);
    push_str(out, "if ");
    push_with_try(out, &i.condition);
    push_str(out, " {\n");
    let inner = deeper(ind, Ghost(indent));
    push_block(out, &i.then_block, inner.as_str(), Ghost(indent + 1));
    push_str(out, t);
    push_str(out, "}");
    match &i.else_branch {
        None => push_str(out, "\n"),
        Some(ElseBranch::Block(b)) => {
            push_str(out, " else {\n");
            push_block(out, b, inner.as_str(), Ghost(indent + 1));
            push_str(out, t);
            push_str(out, "}\n");
        },
        Some(ElseBranch::If(n)) => {
            push_str(out, " else ");
            proof {
                reveal_strlit("");
                assert(""@ =~= Seq::<char>::empty());
            }
            push_if(out, n, "", ind, Ghost(indent));
        },
    }
    assert(final(out)@ =~= old(out)@ + if_fmt(*i, t@, indent));
}

proof fn lemma_concat_step(parts: Seq<Seq<char>>, i: int)
    requires
        0 <= i < parts.len(),
    ensures
        concat(parts.take(i + 1)) == concat(parts.take(i)) + parts[i],
{
    assert(parts.take(i + 1).drop_last() =~= parts.take(i));
    assert(parts.take(i + 1).last() == parts[i]);
}

fn push_params(out: &mut String, ps: &Vec<ParamDecl>)
    ensures
        final(out)@ == old(out)@ + params_fmt(ps@),
{
    let ghost parts = ps@.map_values(|p: ParamDecl| param_fmt(p));
    let ghost start = out@;
    let mut i: usize = 0;
    while i < ps.len()
        invariant
            0 <= i <= ps@.len(),
            parts == ps@.map_values(|p: ParamDecl| param_fmt(p)),
            out@ == start + join(parts.take(i as int), ", "@),
        decreases ps@.len() - i,
    {
        proof {
            lemma_join_step(parts, ", "@, i as int);
        }
        if i > 0 {
            push_str(out, ", ");
        } else {
            assert(parts.take(0) =~= Seq::<Seq<char>>::empty());
        }
        let ghost before = out@;
        push_str(out, ps[i].name.as_str());
        push_str(out, ": ");
        push_str(out, ps[i].ty.raw.as_str());
        assert(out@ =~= before + param_fmt(ps@[i as int]));
        i = i + 1;
    }
    assert(parts.take(ps@.len() as int) =~= parts);
}

fn push_ret(out: &mut String, r: &ReturnType)
    ensures
        final(out)@ == old(out)@ + ret_fmt(*r),
{
    match r {
        ReturnType::Void => {
            assert(old(out)@ + Seq::<char>::empty() =~= old(out)@);
        },
        ReturnType::Type(t) => {
            push_str(out, " -> ");
            push_str(out, t.raw.as_str());
        },
        ReturnType::ErrorOnly => push_str(out, " -> !"),
        ReturnType::TypeWithError(t) => {
            push_str(out, " -> ");
            push_str(out, t.raw.as_str());
            push_str(out, "!");
        },
    }
    assert(final(out)@ =~= old(out)@ + ret_fmt(*r));
}

fn push_derives(out: &mut String, ds: &Vec<DeriveKind>)
    ensures
        final(out)@ == old(out)@ + derives_fmt(ds@),
{
    let ghost parts = ds@.map_values(|d: DeriveKind| derive_name(d));
    if ds.len() == 0 {
        assert(parts.len() == 0);
        assert(old(out)@ + Seq::<char>::empty() =~= old(out)@);
        return;
    }
    push_str(out, "@derive(");
    let ghost start = out@;
    let mut i: usize = 0;
    while i < ds.len()
        invariant
            0 <= i <= ds@.len(),
            parts == ds@.map_values(|d: DeriveKind| derive_name(d)),
            out@ == start + join(parts.take(i as int), ", "@),
        decreases ds@.len() - i,
    {
        proof {
            lemma_join_step(parts, ", "@, i as int);
        }
        if i > 0 {
            push_str(out, ", ");
        } else {
            assert(parts.take(0) =~= Seq::<Seq<char>>::empty());
        }
        match ds[i] {
            DeriveKind::String => push_str(out, "String"),
            DeriveKind::Debug => push_str(out, "Debug"),
            DeriveKind::Equal => push_str(out, "Equal"),
            DeriveKind::JsonMarshal => push_str(out, "JsonMarshal"),
            DeriveKind::JsonUnmarshal => push_str(out, "JsonUnmarshal"),
        }
        i = i + 1;
    }
    assert(parts.take(ds@.len() as int) =~= parts);
    push_str(out, ")\n");
    assert(final(out)@ =~= old(out)@ + derives_fmt(ds@));
}

fn push_decorators(out: &mut String, ds: &Vec<Decorator>, after: &str)
    ensures
        final(out)@ == old(out)@ + decorators_fmt(ds@, after@),
{
    let ghost parts = ds@.map_values(|d: Decorator| decorator_fmt(d) + "\n"@ + after@);
    let mut i: usize = 0;
    assert(parts.take(0) =~= Seq::<Seq<char>>::empty());
    while i < ds.len()
        invariant
            0 <= i <= ds@.len(),
            parts == ds@.map_values(|d: Decorator| decorator_fmt(d) + "\n"@ + after@),
            out@ == old(out)@ + concat(parts.take(i as int)),
        decreases ds@.len() - i,
    {
        proof {
            lemma_concat_step(parts, i as int);
        }
        let ghost before = out@;
        push_str(out, "@");
        push_str(out, ds[i].name.as_str());
        push_listed(out, &ds[i].args, "(", ")");
        push_str(out, "\n");
        push_str(out, after);
        assert(out@ =~= before + parts[i as int]);
        i = i + 1;
    }
    assert(parts.take(ds@.len() as int) =~= parts);
}

fn push_struct(out: &mut String, d: &StructDecl)
    ensures
        final(out)@ == old(out)@ + struct_fmt(*d),
{
    push_derives(out, &d.derives);
    push_str(out, "struct ");
    push_str(out, d.name.as_str());
    push_str(out, " {\n");
    let ghost parts = d.fields@.map_values(|f: FieldDecl| field_fmt(f));
    let ghost start = out@;
    let mut i: usize = 0;
    assert(parts.take(0) =~= Seq::<Seq<char>>::empty());
    while i < d.fields.len()
        invariant
            0 <= i <= d.fields@.len(),
            parts == d.fields@.map_values(|f: FieldDecl| field_fmt(f)),
            out@ == start + concat(parts.take(i as int)),
        decreases d.fields@.len() - i,
    {
        proof {
            lemma_concat_step(parts, i as int);
        }
        let ghost before = out@;
        let f = &d.fields[i];
        push_str(out, "\t");
        push_str(out, f.name.as_str());
        push_str(out, ": ");
        push_str(out, f.ty.raw.as_str());
        push_str(out, "\n");
        assert(out@ =~= before + parts[i as int]);
        i = i + 1;
    }
    assert(parts.take(d.fields@.len() as int) =~= parts);
    push_str(out, "}");
    assert(final(out)@ =~= old(out)@ + struct_fmt(*d));
}

fn push_payload(out: &mut String, ts: &Vec<TypeRef>)
    ensures
        final(out)@ == old(out)@ + listed(type_raws(ts@), "("@, ")"@),
{
    let ghost parts = type_raws(ts@);
    if ts.len() == 0 {
        assert(parts.len() == 0);
        assert(old(out)@ + Seq::<char>::empty() =~= old(out)@);
        return;
    }
    push_str(out, "(");
    let ghost start = out@;
    let mut i: usize = 0;
    while i < ts.len()
        invariant
            0 <= i <= ts@.len(),
            parts == type_raws(ts@),
            out@ == start + join(parts.take(i as int), ", "@),
        decreases ts@.len() - i,
    {
        proof {
            lemma_join_step(parts, ", "@, i as int);
        }
        if i > 0 {
            push_str(out, ", ");
        } else {
            assert(parts.take(0) =~= Seq::<Seq<char>>::empty());
        }
        push_str(out, ts[i].raw.as_str());
        i = i + 1;
    }
    assert(parts.take(ts@.len() as int) =~= parts);
    push_str(out, ")");
    assert(final(out)@ =~= old(out)@ + listed(type_raws(ts@), "("@, ")"@));
}

fn push_enum(out: &mut String, d: &EnumDecl)
    ensures
        final(out)@ == old(out)@ + enum_fmt(*d),
{
    push_derives(out, &d.derives);
    push_str(out, "enum ");
    push_str(out, d.name.as_str());
    push_listed(out, &d.type_params, "<", ">");
    push_str(out, " {\n");
    let ghost parts = d.variants@.map_values(|v: EnumVariant| variant_fmt(v));
    let ghost start = out@;
    let mut i: usize = 0;
    assert(parts.take(0) =~= Seq::<Seq<char>>::empty());
    while i < d.variants.len()
        invariant
            0 <= i <= d.variants@.len(),
            parts == d.variants@.map_values(|v: EnumVariant| variant_fmt(v)),
            out@ == start + concat(parts.take(i as int)),
        decreases d.variants@.len() - i,
    {
        proof {
            lemma_concat_step(parts, i as int);
        }
        let ghost before = out@;
        let v = &d.variants[i];
        push_str(out, "\t");
        push_str(out, v.name.as_str());
        push_payload(out, &v.payload);
        push_str(out, "\n");
        assert(out@ =~= before + parts[i as int]);
        i = i + 1;
    }
    assert(parts.take(d.variants@.len() as int) =~= parts);
    push_str(out, "}");
    assert(final(out)@ =~= old(out)@ + enum_fmt(*d));
}

proof fn lemma_tabs_one()
    ensures
        tabs(1) == "\t"@,
{
    reveal_with_fuel(crate::text::repeat, 2);
    assert(tabs(1) =~= "\t"@);
}

fn push_function(out: &mut String, f: &FnDecl)
    ensures
        final(out)@ == old(out)@ + function_fmt(*f),
{
    proof {
        reveal_strlit("");
        assert(""@ =~= Seq::<char>::empty());
    }
    push_decorators(out, &f.decorators, "");
    push_str(out, "fn ");
    push_str(out, f.name.as_str());
    push_listed(out, &f.type_params, "<", ">");
    push_str(out, "(");
    push_params(out, &f.params);
    push_str(out, ")");
    push_ret(out, &f.ret);
    push_str(out, " {\n");
    proof {
        lemma_tabs_one();
    }
    push_block(out, &f.body, "\t", Ghost(1));
    push_str(out, "}");
    assert(final(out)@ =~= old(out)@ + function_fmt(*f));
}

fn push_method(out: &mut String, m: &MethodDecl)
    ensures
        final(out)@ == old(out)@ + method_fmt(*m),
{
    push_str(out, "\t");
    push_decorators(out, &m.decorators, "\t");
    match m.receiver {
        ReceiverKind::Pointer => push_str(out, "fn mut "),
        ReceiverKind::Value => push_str(out, "fn "),
    }
    push_str(out, m.name.as_str());
    push_str(out, "(");
    push_params(out, &m.params);
    push_str(out, ")");
    push_ret(out, &m.ret);
    push_str(out, " {\n");
    proof {
        lemma_tabs_one();
    }
    let ind2 = deeper("\t", Ghost(1));
    push_block(out, &m.body, ind2.as_str(), Ghost(2));
    push_str(out, "\t");
    push_str(out, "}\n");
    assert(final(out)@ =~= old(out)@ + method_fmt(*m));
}

fn push_impl(out: &mut String, b: &ImplBlock)
    ensures
        final(out)@ == old(out)@ + impl_fmt(*b),
{
    push_str(out, "impl ");
    push_str(out, b.target.as_str());
    push_str(out, " {\n");
    let ghost parts = b.methods@.map_values(|m: MethodDecl| method_fmt(m));
    let ghost start = out@;
    let mut i: usize = 0;
    while i < b.methods.len()
        invariant
            0 <= i <= b.methods@.len(),
            parts == b.methods@.map_values(|m: MethodDecl| method_fmt(m)),
            out@ == start + join(parts.take(i as int), "\n"@),
        decreases b.methods@.len() - i,
    {
        proof {
            lemma_join_step(parts, "\n"@, i as int);
        }
        if i > 0 {
            push_str(out, "\n");
        } else {
            assert(parts.take(0) =~= Seq::<Seq<char>>::empty());
        }
        push_method(out, &b.methods[i]);
        i = i + 1;
    }
    assert(parts.take(b.methods@.len() as int) =~= parts);
    push_str(out, "}");
    assert(final(out)@ =~= old(out)@ + impl_fmt(*b));
}

fn push_item(out: &mut String, it: &Item)
    ensures
        final(out)@ == old(out)@ + item_fmt(*it),
{
    match it {
        Item::Struct(d) => push_struct(out, d),
        Item::Enum(d) => push_enum(out, d),
        Item::Function(f) => push_function(out, f),
        Item::Impl(b) => push_impl(out, b),
    }
}

fn push_quoted_import(out: &mut String, path: &String)
    ensures
        final(out)@ == old(out)@ + quoted_import(path@),
{
    push_str(out, "\"");
    push_str(out, path.as_str());
    push_str(out, "\"");
    push_str(out, "\n");
    assert(final(out)@ =~= old(out)@ + quoted_import(path@));
}

fn push_imports(out: &mut String, imps: &Vec<String>)
    ensures
        final(out)@ == old(out)@ + imports_fmt(views(imps@)),
{
    let ghost vs = views(imps@);
    if imps.len() == 0 {
        assert(old(out)@ + Seq::<char>::empty() =~= old(out)@);
    } else if imps.len() == 1 {
        push_str(out, "\n");
        push_str(out, "import ");
        push_quoted_import(out, &imps[0]);
        assert(final(out)@ =~= old(out)@ + imports_fmt(vs));
    } else {
        push_str(out, "\n");
        push_str(out, "import (\n");
        let ghost parts = vs.map_values(|p: Seq<char>| "\t"@ + quoted_import(p));
        let ghost start = out@;
        let mut i: usize = 0;
        assert(parts.take(0) =~= Seq::<Seq<char>>::empty());
        while i < imps.len()
            invariant
                0 <= i <= imps@.len(),
                vs == views(imps@),
                parts == vs.map_values(|p: Seq<char>| "\t"@ + quoted_import(p)),
                out@ == start + concat(parts.take(i as int)),
            decreases imps@.len() - i,
        {
            proof {
                lemma_concat_step(parts, i as int);
            }
            let ghost before = out@;
            push_str(out, "\t");
            push_quoted_import(out, &imps[i]);
            assert(out@ =~= before + parts[i as int]);
            i = i + 1;
        }
        assert(parts.take(imps@.len() as int) =~= parts);
        push_str(out, ")\n");
        assert(final(out)@ =~= old(out)@ + imports_fmt(vs));
    }
}

/// The program in the canonical layout; the text it was parsed from is not consulted.
pub fn format_gp(program: &Program, _original_source: &str) -> (r: String)
    ensures
        r@ == program_fmt(*program),
{
    let mut out = String::new();
    push_str(&mut out, "package ");
    push_str(&mut out, program.package.as_str());
    push_str(&mut out, "\n");
    push_imports(&mut out, &program.imports);
    let ghost parts = program.items@.map_values(|it: Item| "\n"@ + item_fmt(it) + "\n"@);
    let ghost start = out@;
    let mut i: usize = 0;
    assert(parts.take(0) =~= Seq::<Seq<char>>::empty());
    while i < program.items.len()
        invariant
            0 <= i <= program.items@.len(),
            parts == program.items@.map_values(|it: Item| "\n"@ + item_fmt(it) + "\n"@),
            out@ == start + concat(parts.take(i as int)),
        decreases program.items@.len() - i,
    {
        proof {
            lemma_concat_step(parts, i as int);
        }
        let ghost before = out@;
        push_str(&mut out, "\n");
        push_item(&mut out, &program.items[i]);
        push_str(&mut out, "\n");
        assert(out@ =~= before + parts[i as int]);
        i = i + 1;
    }
    assert(parts.take(program.items@.len() as int) =~= parts);
    assert(out@ =~= program_fmt(*program));
    out
}

} // verus!
