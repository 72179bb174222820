//! Declarations in Go: structs, enums, and functions with their decorator wrappers.
use vstd::prelude::*;

use crate::ast::{
    error_capable, Block, Decorator, DeriveKind, EnumDecl, FnDecl, ImplBlock, MethodDecl,
    ParamDecl, ReceiverKind, ReturnType, Stmt, StructDecl,
};
use crate::codegen::stmt::{block_go, emitted, err_return, Emitted};
use crate::codegen::types::{
    call_target, call_text, call_value, go_type, lower_ident, param_texts, push_call,
    push_call_value, push_lower_ident, push_signature, push_type_params, render_type, sig_view,
    signature_text, type_args, type_params_any, zero_value, zero_value_expr,
    FnSignature, SigView,
};
use crate::codegen::{
    after_tmp, info_tagged, transform, transform_expr, with_import, with_main, GenState,
    GoGenerator,
};
use crate::sema::model::{enum_info, EnumInfo, SemanticModel, VariantInfo};
use crate::sema::signature::{parse_u64, without_underscores};
use crate::text::{
    decimal, join, push_decimal, push_str, repeat, str_eq, str_to_string, trim, trim_end,
    trim_string,
};

use crate::text::views;

verus! {

// ----- structs -----

pub open spec fn has_string_derive(ds: Seq<DeriveKind>) -> bool {
    exists|i: int| 0 <= i < ds.len() && ds[i] == DeriveKind::String
}

pub open spec fn field_lines(fs: Seq<crate::ast::FieldDecl>) -> Seq<char>
    decreases fs.len(),
{
    if fs.len() == 0 {
        Seq::empty()
    } else {
        field_lines(fs.drop_last()) + "\t"@ + fs.last().name@ + " "@ + go_type(fs.last().ty.raw@)
            + "\n"@
    }
}

pub open spec fn struct_string_impl(sd: StructDecl) -> Seq<char> {
    let fs = sd.fields@;
    if fs.len() == 0 {
        "func (s "@ + sd.name@ + ") String() string {\n\treturn \""@ + sd.name@ + "{}\"\n}"@
    } else {
        "func (s "@ + sd.name@ + ") String() string {\n\treturn fmt.Sprintf(\""@ + sd.name@ + "{"@
            + join(fs.map_values(|f: crate::ast::FieldDecl| f.name@ + ":%v"@), ", "@) + "}\", "@
            + join(fs.map_values(|f: crate::ast::FieldDecl| "s."@ + f.name@), ", "@) + ")\n}"@
    }
}

/// `type Name struct { ... }`, with a `String` method where `@derive(String)` asks for one.
pub open spec fn struct_go(sd: StructDecl, s: GenState) -> Emitted {
    let base = "type "@ + sd.name@ + " struct {\n"@ + field_lines(sd.fields@) + "}"@;
    if has_string_derive(sd.derives@) {
        emitted(base + "\n\n"@ + struct_string_impl(sd), with_import(s, "fmt"@))
    } else {
        emitted(base, s)
    }
}

// ----- enums -----

pub open spec fn simple_consts(name: Seq<char>, vs: Seq<VariantInfo>) -> Seq<char>
    decreases vs.len(),
{
    if vs.len() == 0 {
        Seq::empty()
    } else if vs.len() == 1 {
        "\t"@ + name + vs[0].name + " "@ + name + " = iota\n"@
    } else {
        simple_consts(name, vs.drop_last()) + "\t"@ + name + vs.last().name + "\n"@
    }
}

pub open spec fn simple_cases(name: Seq<char>, vs: Seq<VariantInfo>) -> Seq<char>
    decreases vs.len(),
{
    if vs.len() == 0 {
        Seq::empty()
    } else {
        simple_cases(name, vs.drop_last()) + "\tcase "@ + name + vs.last().name + ":\n\t\treturn \""@
            + vs.last().name + "\"\n"@
    }
}

/// An enum without payloads: an `int` type and a constant per variant.
pub open spec fn simple_enum_go(e: EnumInfo) -> Seq<char> {
    let base = "type "@ + e.name + " int\n\n"@ + "const (\n"@ + simple_consts(e.name, e.variants)
        + ")"@;
    if has_string_derive(e.derives) {
        base + "\n\n"@ + "func (e "@ + e.name + ") String() string {\n"@ + "\tswitch e {\n"@
            + simple_cases(e.name, e.variants) + "\tdefault:\n"@ + "\t\treturn \""@ + e.name
            + "(?)\"\n\t}\n}"@
    } else {
        base
    }
}

pub open spec fn tag_consts(name: Seq<char>, vs: Seq<VariantInfo>) -> Seq<char>
    decreases vs.len(),
{
    if vs.len() == 0 {
        Seq::empty()
    } else if vs.len() == 1 {
        "\t"@ + name + "Tag"@ + vs[0].name + " "@ + name + "Tag"@ + " = iota\n"@
    } else {
        tag_consts(name, vs.drop_last()) + "\t"@ + name + "Tag"@ + vs.last().name + "\n"@
    }
}

pub open spec fn payload_fields(v: VariantInfo, n: nat) -> Seq<char>
    decreases n,
{
    if n == 0 || n > v.payload.len() {
        Seq::empty()
    } else {
        payload_fields(v, (n - 1) as nat) + "\t"@ + lower_ident(v.name) + decimal((n - 1) as nat) + " "@
            + go_type(v.payload[n - 1]) + "\n"@
    }
}

pub open spec fn all_payload_fields(vs: Seq<VariantInfo>) -> Seq<char>
    decreases vs.len(),
{
    if vs.len() == 0 {
        Seq::empty()
    } else {
        all_payload_fields(vs.drop_last()) + payload_fields(vs.last(), vs.last().payload.len())
    }
}

pub open spec fn ctor_params(v: VariantInfo) -> Seq<Seq<char>> {
    Seq::new(v.payload.len(), |i: int| "v"@ + decimal(i as nat) + " "@ + go_type(v.payload[i]))
}

pub open spec fn ctor_inits(name: Seq<char>, v: VariantInfo) -> Seq<Seq<char>> {
    seq!["tag: "@ + name + "Tag"@ + v.name] + Seq::new(
        v.payload.len(),
        |i: int| lower_ident(v.name) + decimal(i as nat) + ": v"@ + decimal(i as nat),
    )
}

pub open spec fn ctor_go(e: EnumInfo, v: VariantInfo) -> Seq<char> {
    "func "@ + e.name + v.name + type_params_any(e.type_params) + "("@ + join(ctor_params(v), ", "@)
        + ") "@ + e.name + type_args(e.type_params) + " {\n\treturn "@ + e.name + type_args(
        e.type_params,
    ) + "{"@ + join(ctor_inits(e.name, v), ", "@) + "}\n}\n\n"@
}

pub open spec fn ctors_go(e: EnumInfo, vs: Seq<VariantInfo>) -> Seq<char>
    decreases vs.len(),
{
    if vs.len() == 0 {
        Seq::empty()
    } else {
        ctors_go(e, vs.drop_last()) + ctor_go(e, vs.last())
    }
}

pub open spec fn tagged_case(name: Seq<char>, v: VariantInfo) -> Seq<char> {
    "\tcase "@ + name + "Tag"@ + v.name + ":\n"@ + if v.payload.len() == 0 {
        "\t\treturn \""@ + v.name + "\"\n"@
    } else {
        "\t\treturn "@ + "fmt"@ + ".Sprintf(\""@ + v.name + "("@ + join(
            Seq::new(v.payload.len(), |i: int| "%v"@),
            ", "@,
        ) + ")\""@ + ", "@ + join(
            Seq::new(v.payload.len(), |i: int| "e."@ + lower_ident(v.name) + decimal(i as nat)),
            ", "@,
        ) + ")\n"@
    }
}

pub open spec fn tagged_cases(name: Seq<char>, vs: Seq<VariantInfo>) -> Seq<char>
    decreases vs.len(),
{
    if vs.len() == 0 {
        Seq::empty()
    } else {
        tagged_cases(name, vs.drop_last()) + tagged_case(name, vs.last())
    }
}

pub open spec fn tagged_string_impl(e: EnumInfo) -> Seq<char> {
    "func (e "@ + e.name + type_args(e.type_params) + ") String() string {\n"@
        + "\tswitch e.tag {\n"@ + tagged_cases(e.name, e.variants) + "\tdefault:\n"@
        + "\t\treturn \""@ + e.name + "(?)\"\n\t}\n}"@
}

/// The declarations of an enum with payloads: a tag type, a struct with a field per
/// payload value, a constructor per variant (generic over the enum's type parameters), and
/// the `String` method where `@derive(String)` asks for one.
pub open spec fn tagged_enum_text(e: EnumInfo) -> Seq<char> {
    let text = "type "@ + e.name + "Tag"@ + " int\n\n"@ + "const (\n"@ + tag_consts(e.name, e.variants)
        + ")\n\n"@ + "type "@ + e.name + type_params_any(e.type_params) + " struct {\n"@ + "\ttag "@
        + e.name + "Tag"@ + "\n"@ + all_payload_fields(e.variants) + "}\n\n"@ + ctors_go(e, e.variants);
    if has_string_derive(e.derives) {
        text + tagged_string_impl(e)
    } else {
        text
    }
}

pub open spec fn tagged_enum_go(e: EnumInfo, s: GenState) -> Emitted {
    if has_string_derive(e.derives) {
        emitted(trim_end(tagged_enum_text(e)), with_import(s, "fmt"@))
    } else {
        emitted(trim_end(tagged_enum_text(e)), s)
    }
}

pub open spec fn enum_go(e: EnumInfo, s: GenState) -> Emitted {
    if info_tagged(e) {
        tagged_enum_go(e, s)
    } else {
        emitted(simple_enum_go(e), s)
    }
}

// ----- executable generation of structs and enums -----

fn has_string(ds: &Vec<DeriveKind>) -> (r: bool)
    ensures
        r == has_string_derive(ds@),
{
    let mut i: usize = 0;
    while i < ds.len()
        invariant
            0 <= i <= ds@.len(),
            forall|j: int| 0 <= j < i ==> ds@[j] != DeriveKind::String,
        decreases ds@.len() - i,
    {
        match ds[i] {
            DeriveKind::String => {
                return true;
            },
            _ => {},
        }
        i = i + 1;
    }
    false
}

/// `s` without its trailing whitespace.
fn trim_end_string(s: &str) -> (r: String)
    ensures
        r@ == trim_end(s@),
{
    let v = crate::text::to_chars(s);
    let mut b = v.len();
    assert(v@.subrange(0, b as int) =~= v@);
    while b > 0 && crate::text::is_whitespace(v[b - 1])
        invariant
            0 <= b <= v@.len(),
            trim_end(s@) == trim_end(v@.subrange(0, b as int)),
            v@ == s@,
        decreases b,
    {
        assert(v@.subrange(0, b as int).drop_last() =~= v@.subrange(0, b - 1));
        b = b - 1;
    }
    crate::text::string_of(&v, 0, b)
}

fn push_joined_fields(out: &mut String, sd: &StructDecl, names: bool)
    ensures
        final(out)@ == old(out)@ + join(
            if names {
                sd.fields@.map_values(|f: crate::ast::FieldDecl| f.name@ + ":%v"@)
            } else {
                sd.fields@.map_values(|f: crate::ast::FieldDecl| "s."@ + f.name@)
            },
            ", "@,
        ),
{
    let ghost parts = if names {
        sd.fields@.map_values(|f: crate::ast::FieldDecl| f.name@ + ":%v"@)
    } else {
        sd.fields@.map_values(|f: crate::ast::FieldDecl| "s."@ + f.name@)
    };
    let ghost start = out@;
    let mut i: usize = 0;
    assert(parts.take(0) =~= Seq::<Seq<char>>::empty());
    while i < sd.fields.len()
        invariant
            0 <= i <= sd.fields@.len(),
            parts.len() == sd.fields@.len(),
            parts == (if names {
                sd.fields@.map_values(|f: crate::ast::FieldDecl| f.name@ + ":%v"@)
            } else {
                sd.fields@.map_values(|f: crate::ast::FieldDecl| "s."@ + f.name@)
            }),
            out@ == start + join(parts.take(i as int), ", "@),
        decreases sd.fields@.len() - i,
    {
        assert(parts.take(i + 1).drop_last() =~= parts.take(i as int));
        if i > 0 {
            push_str(out, ", ");
        }
        if names {
            push_str(out, sd.fields[i].name.as_str());
            push_str(out, ":%v");
        } else {
            push_str(out, "s.");
            push_str(out, sd.fields[i].name.as_str());
        }
        i = i + 1;
    }
    assert(parts.take(sd.fields@.len() as int) =~= parts);
}

fn struct_string_text(sd: &StructDecl) -> (r: String)
    ensures
        r@ == struct_string_impl(*sd),
{
    let mut out = str_to_string("func (s ");
    push_str(&mut out, sd.name.as_str());
    if sd.fields.len() == 0 {
        push_str(&mut out, ") String() string {\n\treturn \"");
        push_str(&mut out, sd.name.as_str());
        push_str(&mut out, "{}\"\n}");
    } else {
        push_str(&mut out, ") String() string {\n\treturn fmt.Sprintf(\"");
        push_str(&mut out, sd.name.as_str());
        push_str(&mut out, "{");
        push_joined_fields(&mut out, sd, true);
        push_str(&mut out, "}\", ");
        push_joined_fields(&mut out, sd, false);
        push_str(&mut out, ")\n}");
    }
    assert(out@ =~= struct_string_impl(*sd));
    out
}

fn simple_enum_text(e: &EnumDecl) -> (r: String)
    ensures
        r@ == simple_enum_go(enum_info(*e)),
{
    let ghost ei = enum_info(*e);
    let ghost vs = ei.variants;
    let mut out = str_to_string("type ");
    push_str(&mut out, e.name.as_str());
    push_str(&mut out, " int\n\n");
    push_str(&mut out, "const (\n");
    let ghost start = out@;
    let mut i: usize = 0;
    assert(vs.take(0) =~= Seq::<VariantInfo>::empty());
    while i < e.variants.len()
        invariant
            0 <= i <= e.variants@.len(),
            ei == enum_info(*e),
            vs == ei.variants,
            vs.len() == e.variants@.len(),
            out@ == start + simple_consts(ei.name, vs.take(i as int)),
        decreases e.variants@.len() - i,
    {
        assert(vs.take(i + 1).drop_last() =~= vs.take(i as int));
        assert(vs[i as int].name == e.variants@[i as int].name@);
        push_str(&mut out, "\t");
        push_str(&mut out, e.name.as_str());
        push_str(&mut out, e.variants[i].name.as_str());
        if i == 0 {
            push_str(&mut out, " ");
            push_str(&mut out, e.name.as_str());
            push_str(&mut out, " = iota\n");
        } else {
            push_str(&mut out, "\n");
        }
        i = i + 1;
    }
    assert(vs.take(vs.len() as int) =~= vs);
    push_str(&mut out, ")");
    if has_string(&e.derives) {
        push_str(&mut out, "\n\n");
        push_str(&mut out, "func (e ");
        push_str(&mut out, e.name.as_str());
        push_str(&mut out, ") String() string {\n");
        push_str(&mut out, "\tswitch e {\n");
        let ghost start2 = out@;
        let mut k: usize = 0;
        while k < e.variants.len()
            invariant
                0 <= k <= e.variants@.len(),
                ei == enum_info(*e),
                vs == ei.variants,
                vs.len() == e.variants@.len(),
                out@ == start2 + simple_cases(ei.name, vs.take(k as int)),
            decreases e.variants@.len() - k,
        {
            assert(vs.take(k + 1).drop_last() =~= vs.take(k as int));
            assert(vs[k as int].name == e.variants@[k as int].name@);
            push_str(&mut out, "\tcase ");
            push_str(&mut out, e.name.as_str());
            push_str(&mut out, e.variants[k].name.as_str());
            push_str(&mut out, ":\n\t\treturn \"");
            push_str(&mut out, e.variants[k].name.as_str());
            push_str(&mut out, "\"\n");
            k = k + 1;
        }
        push_str(&mut out, "\tdefault:\n");
        push_str(&mut out, "\t\treturn \"");
        push_str(&mut out, e.name.as_str());
        push_str(&mut out, "(?)\"\n\t}\n}");
    }
    assert(out@ =~= simple_enum_go(enum_info(*e)));
    out
}

fn push_ctor_params(out: &mut String, e: &EnumDecl, k: usize)
    requires
        k < e.variants@.len(),
    ensures
        final(out)@ == old(out)@ + join(ctor_params(enum_info(*e).variants[k as int]), ", "@),
{
    let ghost vi = enum_info(*e).variants[k as int];
    let v = &e.variants[k];
    assert(vi.payload.len() == v.payload@.len());
    let ghost ps = ctor_params(vi);
    let ghost start = out@;
    let mut i: usize = 0;
    assert(ps.take(0) =~= Seq::<Seq<char>>::empty());
    while i < v.payload.len()
        invariant
            0 <= i <= v.payload@.len(),
            vi == enum_info(*e).variants[k as int],
            vi.payload.len() == v.payload@.len(),
            vi.payload == v.payload@.map_values(|t: crate::ast::TypeRef| t.raw@),
            ps == ctor_params(vi),
            out@ == start + join(ps.take(i as int), ", "@),
        decreases v.payload@.len() - i,
    {
        assert(ps.take(i + 1).drop_last() =~= ps.take(i as int));
        if i > 0 {
            push_str(out, ", ");
        }
        push_str(out, "v");
        push_decimal(out, i);
        push_str(out, " ");
        let g = render_type(v.payload[i].raw.as_str());
        push_str(out, g.as_str());
        assert(ps[i as int] == "v"@ + decimal(i as nat) + " "@ + go_type(vi.payload[i as int]));
        i = i + 1;
    }
    assert(ps.take(v.payload@.len() as int) =~= ps);
}

fn push_ctor_inits(out: &mut String, e: &EnumDecl, k: usize)
    requires
        k < e.variants@.len(),
    ensures
        final(out)@ == old(out)@ + join(
            ctor_inits(enum_info(*e).name, enum_info(*e).variants[k as int]),
            ", "@,
        ),
{
    let ghost ei = enum_info(*e);
    let ghost vi = ei.variants[k as int];
    let v = &e.variants[k];
    assert(vi.name == v.name@);
    assert(vi.payload.len() == v.payload@.len());
    let ghost inits = ctor_inits(ei.name, vi);
    let ghost start2 = out@;
    push_str(out, "tag: ");
    push_str(out, e.name.as_str());
    push_str(out, "Tag");
    push_str(out, v.name.as_str());
    assert(inits.take(1) =~= seq![inits[0]]);
    let mut j: usize = 0;
    while j < v.payload.len()
        invariant
            0 <= j <= v.payload@.len(),
            vi == enum_info(*e).variants[k as int],
            vi.payload.len() == v.payload@.len(),
            vi.name == v.name@,
            inits == ctor_inits(ei.name, vi),
            ei == enum_info(*e),
            out@ == start2 + join(inits.take(j + 1 as int), ", "@),
        decreases v.payload@.len() - j,
    {
        assert(inits.take(j + 2).drop_last() =~= inits.take(j + 1 as int));
        push_str(out, ", ");
        push_lower_ident(out, v.name.as_str());
        push_decimal(out, j);
        push_str(out, ": v");
        push_decimal(out, j);
        assert(inits[j + 1] == lower_ident(vi.name) + decimal(j as nat) + ": v"@ + decimal(j as nat));
        j = j + 1;
    }
    assert(inits.take(v.payload@.len() + 1 as int) =~= inits);
}

#[verifier::rlimit(50)]
#[verifier::spinoff_prover]
fn push_ctor(out: &mut String, e: &EnumDecl, k: usize)
    requires
        k < e.variants@.len(),
    ensures
        final(out)@ == old(out)@ + ctor_go(enum_info(*e), enum_info(*e).variants[k as int]),
{
    let ghost ei = enum_info(*e);
    let ghost vi = ei.variants[k as int];
    let v = &e.variants[k];
    assert(vi.name == v.name@);
    push_str(out, "func ");
    push_str(out, e.name.as_str());
    push_str(out, v.name.as_str());
    push_type_params(out, &e.type_params, true);
    push_str(out, "(");
    push_ctor_params(out, e, k);
    push_str(out, ") ");
    push_str(out, e.name.as_str());
    push_type_params(out, &e.type_params, false);
    push_str(out, " {\n\treturn ");
    push_str(out, e.name.as_str());
    push_type_params(out, &e.type_params, false);
    push_str(out, "{");
    push_ctor_inits(out, e, k);
    push_str(out, "}\n}\n\n");
    assert(final(out)@ =~= old(out)@ + ctor_go(ei, vi));
}

fn push_placeholders(out: &mut String, n: usize)
    ensures
        final(out)@ == old(out)@ + join(Seq::new(n as nat, |i: int| "%v"@), ", "@),
{
    let ghost ph = Seq::new(n as nat, |i: int| "%v"@);
    let ghost s1 = out@;
    let mut i: usize = 0;
    assert(ph.take(0) =~= Seq::<Seq<char>>::empty());
    while i < n
        invariant
            0 <= i <= n,
            ph == Seq::new(n as nat, |i: int| "%v"@),
            out@ == s1 + join(ph.take(i as int), ", "@),
        decreases n - i,
    {
        assert(ph.take(i + 1).drop_last() =~= ph.take(i as int));
        if i > 0 {
            push_str(out, ", ");
        }
        push_str(out, "%v");
        i = i + 1;
    }
    assert(ph.take(n as int) =~= ph);
}

fn push_payload_refs(out: &mut String, name: &str, n: usize)
    ensures
        final(out)@ == old(out)@ + join(
            Seq::new(n as nat, |i: int| "e."@ + lower_ident(name@) + decimal(i as nat)),
            ", "@,
        ),
{
    let ghost fs = Seq::new(n as nat, |i: int| "e."@ + lower_ident(name@) + decimal(i as nat));
    let ghost s2 = out@;
    let mut j: usize = 0;
    assert(fs.take(0) =~= Seq::<Seq<char>>::empty());
    while j < n
        invariant
            0 <= j <= n,
            fs == Seq::new(n as nat, |i: int| "e."@ + lower_ident(name@) + decimal(i as nat)),
            out@ == s2 + join(fs.take(j as int), ", "@),
        decreases n - j,
    {
        assert(fs.take(j + 1).drop_last() =~= fs.take(j as int));
        if j > 0 {
            push_str(out, ", ");
        }
        push_str(out, "e.");
        push_lower_ident(out, name);
        push_decimal(out, j);
        j = j + 1;
    }
    assert(fs.take(n as int) =~= fs);
}

fn push_tagged_case(out: &mut String, e: &EnumDecl, k: usize)
    requires
        k < e.variants@.len(),
    ensures
        final(out)@ == old(out)@ + tagged_case(enum_info(*e).name, enum_info(*e).variants[k as int]),
{
    let ghost vi = enum_info(*e).variants[k as int];
    let v = &e.variants[k];
    assert(vi.name == v.name@);
    assert(vi.payload.len() == v.payload@.len());
    push_str(out, "\tcase ");
    push_str(out, e.name.as_str());
    push_str(out, "Tag");
    push_str(out, v.name.as_str());
    push_str(out, ":\n");
    let n = v.payload.len();
    if n == 0 {
        push_str(out, "\t\treturn \"");
        push_str(out, v.name.as_str());
        push_str(out, "\"\n");
    } else {
        push_str(out, "\t\treturn ");
        push_str(out, "fmt");
        push_str(out, ".Sprintf(\"");
        push_str(out, v.name.as_str());
        push_str(out, "(");
        push_placeholders(out, n);
        push_str(out, ")\"");
        push_str(out, ", ");
        push_payload_refs(out, v.name.as_str(), n);
        push_str(out, ")\n");
    }
    assert(final(out)@ =~= old(out)@ + tagged_case(enum_info(*e).name, vi));
}

fn push_tag_consts(out: &mut String, e: &EnumDecl)
    ensures
        final(out)@ == old(out)@ + tag_consts(enum_info(*e).name, enum_info(*e).variants),
{
    let ghost ei = enum_info(*e);
    let ghost vs = ei.variants;
    let ghost s1 = out@;
    let mut i: usize = 0;
    assert(vs.take(0) =~= Seq::<VariantInfo>::empty());
    while i < e.variants.len()
        invariant
            0 <= i <= e.variants@.len(),
            ei == enum_info(*e),
            vs == ei.variants,
            vs.len() == e.variants@.len(),
            out@ == s1 + tag_consts(ei.name, vs.take(i as int)),
        decreases e.variants@.len() - i,
    {
        assert(vs.take(i + 1).drop_last() =~= vs.take(i as int));
        assert(vs[i as int].name == e.variants@[i as int].name@);
        push_str(out, "\t");
        push_str(out, e.name.as_str());
        push_str(out, "Tag");
        push_str(out, e.variants[i].name.as_str());
        if i == 0 {
            push_str(out, " ");
            push_str(out, e.name.as_str());
            push_str(out, "Tag");
            push_str(out, " = iota\n");
        } else {
            push_str(out, "\n");
        }
        i = i + 1;
    }
    assert(vs.take(vs.len() as int) =~= vs);
}

fn push_payload_fields(out: &mut String, e: &EnumDecl)
    ensures
        final(out)@ == old(out)@ + all_payload_fields(enum_info(*e).variants),
{
    let ghost ei = enum_info(*e);
    let ghost vs = ei.variants;
    let ghost s2 = out@;
    let mut k: usize = 0;
    assert(vs.take(0) =~= Seq::<VariantInfo>::empty());
    while k < e.variants.len()
        invariant
            0 <= k <= e.variants@.len(),
            ei == enum_info(*e),
            vs == ei.variants,
            vs.len() == e.variants@.len(),
            out@ == s2 + all_payload_fields(vs.take(k as int)),
        decreases e.variants@.len() - k,
    {
        assert(vs.take(k + 1).drop_last() =~= vs.take(k as int));
        let v = &e.variants[k];
        let ghost vi = vs[k as int];
        assert(vi.name == v.name@);
        let ghost s3 = out@;
        let mut j: usize = 0;
        while j < v.payload.len()
            invariant
                0 <= j <= v.payload@.len(),
                vi == enum_info(*e).variants[k as int],
                vi.name == v.name@,
                vi.payload == v.payload@.map_values(|t: crate::ast::TypeRef| t.raw@),
                out@ == s3 + payload_fields(vi, j as nat),
            decreases v.payload@.len() - j,
        {
            push_str(out, "\t");
            push_lower_ident(out, v.name.as_str());
            push_decimal(out, j);
            push_str(out, " ");
            let g = render_type(v.payload[j].raw.as_str());
            push_str(out, g.as_str());
            push_str(out, "\n");
            j = j + 1;
        }
        k = k + 1;
    }
    assert(vs.take(vs.len() as int) =~= vs);
}

fn push_ctors(out: &mut String, e: &EnumDecl)
    ensures
        final(out)@ == old(out)@ + ctors_go(enum_info(*e), enum_info(*e).variants),
{
    let ghost ei = enum_info(*e);
    let ghost vs = ei.variants;
    let ghost s4 = out@;
    let mut c: usize = 0;
    assert(vs.take(0) =~= Seq::<VariantInfo>::empty());
    while c < e.variants.len()
        invariant
            0 <= c <= e.variants@.len(),
            ei == enum_info(*e),
            vs == ei.variants,
            vs.len() == e.variants@.len(),
            out@ == s4 + ctors_go(ei, vs.take(c as int)),
        decreases e.variants@.len() - c,
    {
        assert(vs.take(c + 1).drop_last() =~= vs.take(c as int));
        push_ctor(out, e, c);
        c = c + 1;
    }
    assert(vs.take(vs.len() as int) =~= vs);
}

fn push_tagged_string_impl(out: &mut String, e: &EnumDecl)
    ensures
        final(out)@ == old(out)@ + tagged_string_impl(enum_info(*e)),
{
    let ghost ei = enum_info(*e);
    let ghost vs = ei.variants;
    push_str(out, "func (e ");
    push_str(out, e.name.as_str());
    push_type_params(out, &e.type_params, false);
    push_str(out, ") String() string {\n");
    push_str(out, "\tswitch e.tag {\n");
    let ghost s5 = out@;
    let mut q: usize = 0;
    assert(vs.take(0) =~= Seq::<VariantInfo>::empty());
    while q < e.variants.len()
        invariant
            0 <= q <= e.variants@.len(),
            ei == enum_info(*e),
            vs == ei.variants,
            vs.len() == e.variants@.len(),
            out@ == s5 + tagged_cases(ei.name, vs.take(q as int)),
        decreases e.variants@.len() - q,
    {
        assert(vs.take(q + 1).drop_last() =~= vs.take(q as int));
        push_tagged_case(out, e, q);
        q = q + 1;
    }
    assert(vs.take(vs.len() as int) =~= vs);
    push_str(out, "\tdefault:\n");
    push_str(out, "\t\treturn \"");
    push_str(out, e.name.as_str());
    push_str(out, "(?)\"\n\t}\n}");
    assert(final(out)@ =~= old(out)@ + tagged_string_impl(ei));
}

fn tagged_enum_string(e: &EnumDecl) -> (r: String)
    ensures
        r@ == trim_end(tagged_enum_text(enum_info(*e))),
{
    let ghost ei = enum_info(*e);
    let mut out = str_to_string("type ");
    push_str(&mut out, e.name.as_str());
    push_str(&mut out, "Tag");
    push_str(&mut out, " int\n\n");
    push_str(&mut out, "const (\n");
    push_tag_consts(&mut out, e);
    push_str(&mut out, ")\n\n");
    push_str(&mut out, "type ");
    push_str(&mut out, e.name.as_str());
    push_type_params(&mut out, &e.type_params, true);
    push_str(&mut out, " struct {\n");
    push_str(&mut out, "\ttag ");
    push_str(&mut out, e.name.as_str());
    push_str(&mut out, "Tag");
    push_str(&mut out, "\n");
    push_payload_fields(&mut out, e);
    push_str(&mut out, "}\n\n");
    push_ctors(&mut out, e);
    if has_string(&e.derives) {
        push_tagged_string_impl(&mut out, e);
    }
    assert(out@ =~= tagged_enum_text(ei));
    let r = trim_end_string(out.as_str());
    r
}

impl GoGenerator {
    pub(crate) fn emit_struct(&mut self, sd: &StructDecl) -> (r: String)
        requires
            old(self).wf(),
        ensures
            final(self).wf(),
            r@ == struct_go(*sd, old(self).state()).text,
            final(self).state() == struct_go(*sd, old(self).state()).state,
    {
        let mut out = str_to_string("type ");
        push_str(&mut out, sd.name.as_str());
        push_str(&mut out, " struct {\n");
        let ghost start = out@;
        let mut i: usize = 0;
        assert(sd.fields@.take(0) =~= Seq::<crate::ast::FieldDecl>::empty());
        while i < sd.fields.len()
            invariant
                0 <= i <= sd.fields@.len(),
                out@ == start + field_lines(sd.fields@.take(i as int)),
            decreases sd.fields@.len() - i,
        {
            assert(sd.fields@.take(i + 1).drop_last() =~= sd.fields@.take(i as int));
            push_str(&mut out, "\t");
            push_str(&mut out, sd.fields[i].name.as_str());
            push_str(&mut out, " ");
            let g = render_type(sd.fields[i].ty.raw.as_str());
            push_str(&mut out, g.as_str());
            push_str(&mut out, "\n");
            i = i + 1;
        }
        assert(sd.fields@.take(sd.fields@.len() as int) =~= sd.fields@);
        push_str(&mut out, "}");
        if has_string(&sd.derives) {
            self.add_import("fmt");
            push_str(&mut out, "\n\n");
            let t = struct_string_text(sd);
            push_str(&mut out, t.as_str());
        }
        out
    }

    pub(crate) fn emit_enum(&mut self, e: &EnumDecl) -> (r: String)
        requires
            old(self).wf(),
        ensures
            final(self).wf(),
            r@ == enum_go(enum_info(*e), old(self).state()).text,
            final(self).state() == enum_go(enum_info(*e), old(self).state()).state,
    {
        proof {
            crate::codegen::lemma_info_tagged(*e);
        }
        if e.is_tagged() {
            if has_string(&e.derives) {
                self.add_import("fmt");
            }
            tagged_enum_string(e)
        } else {
            simple_enum_text(e)
        }
    }
}

// ----- functions and their decorators -----

/// `@log`: prints on entry, on exit and on an error.
pub open spec fn log_wrapper_go(sig: SigView, wrapper: Seq<char>, prev: Seq<char>) -> Seq<char> {
    let call = call_text(sig, prev);
    let exit = "\tfmt.Printf(\"[goplus] exit "@ + sig.name + "\\n\")\n"@;
    let errline = "\t\tfmt.Printf(\"[goplus] error "@ + sig.name + ": %v\\n\", err)\n"@;
    let body = match sig.ret {
        ReturnType::Void => "\t"@ + call + "\n"@ + exit,
        ReturnType::Type(_) => "\tresult := "@ + call + "\n"@ + exit + "\treturn result\n"@,
        ReturnType::ErrorOnly => "\terr := "@ + call + "\n"@ + "\tif err != nil {\n"@ + errline
            + "\t\treturn err\n\t}\n"@ + exit + "\treturn nil\n"@,
        ReturnType::TypeWithError(_) => "\tresult, err := "@ + call + "\n"@ + "\tif err != nil {\n"@
            + errline + "\t\treturn result, err\n\t}\n"@ + exit + "\treturn result, nil\n"@,
    };
    signature_text(sig, wrapper) + " {\n"@ + "\tfmt.Printf(\"[goplus] enter "@ + sig.name
        + "\\n\")\n"@ + body + "}"@
}

/// A `@retry` argument as a count: `usize` text with `_` allowed.
pub open spec fn parse_count(arg: Seq<char>) -> Option<nat> {
    match parse_u64(without_underscores(trim(arg))) {
        Some(v) => if v <= usize::MAX {
            Some(v)
        } else {
            None
        },
        None => None,
    }
}

pub open spec fn retry_times(d: Decorator) -> nat {
    if d.args@.len() > 0 {
        match parse_count(d.args@[0]@) {
            Some(v) => v,
            None => 1,
        }
    } else {
        1
    }
}

pub open spec fn retry_backoff(d: Decorator) -> nat {
    if d.args@.len() > 1 {
        match parse_count(d.args@[1]@) {
            Some(v) => v,
            None => 0,
        }
    } else {
        0
    }
}

pub open spec fn sleep_line(backoff: nat) -> Seq<char> {
    if backoff > 0 {
        "\t\ttime.Sleep(time.Duration("@ + decimal(backoff) + ") * time.Millisecond)\n"@
    } else {
        Seq::empty()
    }
}

/// `@retry(times, backoff_ms)`: calls again while the call fails, at most `times` times.
pub open spec fn retry_wrapper_go(sig: SigView, wrapper: Seq<char>, prev: Seq<char>, d: Decorator) -> Seq<
    char,
> {
    let call = call_text(sig, prev);
    let head = "\tvar lastErr error\n"@ + "\tfor attempt := 0; attempt < "@ + decimal(retry_times(d))
        + "; attempt++ {\n"@;
    let body = match sig.ret {
        ReturnType::ErrorOnly => head + "\t\tif err := "@ + call + "; err == nil {\n"@
            + "\t\t\treturn nil\n\t\t} else {\n\t\t\tlastErr = err\n\t\t}\n"@ + sleep_line(
            retry_backoff(d),
        ) + "\t}\n\treturn lastErr\n"@,
        ReturnType::TypeWithError(_) => head + "\t\tresult, err := "@ + call + "\n"@
            + "\t\tif err == nil {\n\t\t\treturn result, nil\n\t\t}\n"@ + "\t\tlastErr = err\n"@
            + sleep_line(retry_backoff(d)) + "\t}\n"@ + err_return(sig.ret, "lastErr"@, "\t"@),
        _ => "\treturn "@ + call + "\n"@,
    };
    signature_text(sig, wrapper) + " {\n"@ + body + "}"@
}

pub open spec fn memo_value_type(ret: ReturnType) -> Seq<char> {
    match ret {
        ReturnType::Type(t) => go_type(t.raw@),
        ReturnType::TypeWithError(t) => go_type(t.raw@),
        _ => "interface{}"@,
    }
}

pub open spec fn key_fields(ps: Seq<ParamDecl>) -> Seq<char>
    decreases ps.len(),
{
    if ps.len() == 0 {
        Seq::empty()
    } else {
        key_fields(ps.drop_last()) + "\tP"@ + decimal((ps.len() - 1) as nat) + " "@ + go_type(
            ps.last().ty.raw@,
        ) + "\n"@
    }
}

pub open spec fn key_inits(ps: Seq<ParamDecl>) -> Seq<Seq<char>> {
    Seq::new(ps.len(), |i: int| "P"@ + decimal(i as nat) + ": "@ + ps[i].name@)
}

/// `@memoize`: a cache keyed by the parameters, behind a mutex.
pub open spec fn memoize_wrapper_go(sig: SigView, wrapper: Seq<char>, prev: Seq<char>) -> Seq<char> {
    let key = wrapper + "Key"@;
    let cache = wrapper + "Cache"@;
    let mu = wrapper + "Mu"@;
    "type "@ + key + " struct {\n"@ + key_fields(sig.params) + "}\n\n"@ + "var "@ + mu
        + " sync.Mutex\n"@ + "var "@ + cache + " = map["@ + key + "]"@ + memo_value_type(sig.ret)
        + "{}\n\n"@ + signature_text(sig, wrapper) + " {\n"@ + "\tkey := "@ + key + "{"@ + join(
        key_inits(sig.params),
        ", "@,
    ) + "}\n"@ + "\t"@ + mu + ".Lock()\n"@ + "\tif cached, ok := "@ + cache + "[key]; ok {\n"@
        + "\t\t"@ + mu + ".Unlock()\n"@ + "\t\treturn cached\n\t}\n"@ + "\t"@ + mu + ".Unlock()\n"@
        + "\tresult := "@ + call_text(sig, prev) + "\n"@ + "\t"@ + mu + ".Lock()\n"@ + "\t"@ + cache
        + "[key] = result\n"@ + "\t"@ + mu + ".Unlock()\n"@ + "\treturn result\n"@ + "}"@
}

pub open spec fn factory_args(sig: SigView, prev: Seq<char>, d: Decorator, es: Seq<EnumInfo>) -> Seq<
    Seq<char>,
> {
    seq![call_target(sig, prev)] + d.args@.map_values(|a: String| transform(es, a@))
}

/// A decorator of the package: `decorated := name(next, args...)`, then a call of it.
pub open spec fn custom_wrapper_go(
    sig: SigView,
    wrapper: Seq<char>,
    prev: Seq<char>,
    d: Decorator,
    es: Seq<EnumInfo>,
) -> Seq<char> {
    let call = call_value(sig, "decorated"@);
    signature_text(sig, wrapper) + " {\n"@ + "\tdecorated := "@ + d.name@ + "("@ + join(
        factory_args(sig, prev, d, es),
        ", "@,
    ) + ")\n"@ + if sig.ret is Void {
        "\t"@ + call + "\n"@
    } else {
        "\treturn "@ + call + "\n"@
    } + "}"@
}

pub open spec fn decorator_wrapper_go(
    sig: SigView,
    wrapper: Seq<char>,
    prev: Seq<char>,
    d: Decorator,
    allow_memoize: bool,
    es: Seq<EnumInfo>,
    s: GenState,
) -> Emitted {
    if d.name@ == "log"@ {
        emitted(log_wrapper_go(sig, wrapper, prev), with_import(s, "fmt"@))
    } else if d.name@ == "retry"@ {
        emitted(
            retry_wrapper_go(sig, wrapper, prev, d),
            if retry_backoff(d) > 0 && error_capable(sig.ret) {
                with_import(s, "time"@)
            } else {
                s
            },
        )
    } else if d.name@ == "memoize"@ && allow_memoize {
        emitted(memoize_wrapper_go(sig, wrapper, prev), with_import(s, "sync"@))
    } else {
        emitted(custom_wrapper_go(sig, wrapper, prev, d, es), s)
    }
}

pub open spec fn named_function_go(
    sig: SigView,
    go_name: Seq<char>,
    body: Seq<Stmt>,
    es: Seq<EnumInfo>,
    s: GenState,
) -> Emitted {
    let b = block_go(body, sig.ret, "\t"@, es, s);
    emitted(signature_text(sig, go_name) + " {\n"@ + b.text + "}"@, b.state)
}

pub open spec fn forward_go(sig: SigView, go_name: Seq<char>, target: Seq<char>) -> Seq<char> {
    signature_text(sig, go_name) + " {\n"@ + if sig.ret is Void {
        "\t"@ + call_text(sig, target) + "\n"@
    } else {
        "\treturn "@ + call_text(sig, target) + "\n"@
    } + "}"@
}

pub open spec fn wrapper_name(sig: SigView, k: nat) -> Seq<char> {
    sig.name + "__decor"@ + decimal(k)
}

pub open spec fn prev_name(sig: SigView, k: nat) -> Seq<char> {
    if k == 0 {
        sig.name + "__inner"@
    } else {
        wrapper_name(sig, (k - 1) as nat)
    }
}

/// The first `k` wrappers, the innermost (the last decorator) first.
pub open spec fn wrappers_go(
    sig: SigView,
    decs: Seq<Decorator>,
    k: nat,
    allow_memoize: bool,
    es: Seq<EnumInfo>,
    s: GenState,
) -> Emitted
    decreases k,
{
    if k == 0 || k > decs.len() {
        emitted(Seq::empty(), s)
    } else {
        let prev = wrappers_go(sig, decs, (k - 1) as nat, allow_memoize, es, s);
        let w = decorator_wrapper_go(
            sig,
            wrapper_name(sig, (k - 1) as nat),
            prev_name(sig, (k - 1) as nat),
            decs[decs.len() - k],
            allow_memoize,
            es,
            prev.state,
        );
        emitted(prev.text + "\n\n"@ + w.text, w.state)
    }
}

/// A function: with decorators, its body as `name__inner`, a wrapper per decorator and
/// `name` calling the outermost wrapper.
pub open spec fn function_like_go(
    sig: SigView,
    body: Seq<Stmt>,
    decs: Seq<Decorator>,
    allow_memoize: bool,
    es: Seq<EnumInfo>,
    s: GenState,
) -> Emitted {
    if decs.len() == 0 {
        named_function_go(sig, sig.name, body, es, s)
    } else {
        let nf = named_function_go(sig, sig.name + "__inner"@, body, es, s);
        let ws = wrappers_go(sig, decs, decs.len(), allow_memoize, es, nf.state);
        emitted(
            nf.text + ws.text + "\n\n"@ + forward_go(sig, sig.name, prev_name(sig, decs.len())),
            ws.state,
        )
    }
}

/// `fn main() -> !` is written `mainWarp`, and a `main` that reports its error is added.
pub open spec fn is_error_main(f: FnDecl) -> bool {
    f.name@ == "main"@ && f.ret is ErrorOnly
}

pub open spec fn function_sig(f: FnDecl) -> SigView {
    SigView {
        name: if is_error_main(f) {
            "mainWarp"@
        } else {
            f.name@
        },
        type_params: views(f.type_params@),
        params: f.params@,
        ret: f.ret,
        receiver: None,
    }
}

pub open spec fn function_go(f: FnDecl, es: Seq<EnumInfo>, s: GenState) -> Emitted {
    function_like_go(
        function_sig(f),
        f.body.stmts@,
        f.decorators@,
        true,
        es,
        if is_error_main(f) {
            with_main(s)
        } else {
            s
        },
    )
}

pub open spec fn method_sig(target: Seq<char>, md: MethodDecl) -> SigView {
    SigView {
        name: md.name@,
        type_params: views(md.type_params@),
        params: md.params@,
        ret: md.ret,
        receiver: Some(
            (
                "self"@,
                match md.receiver {
                    ReceiverKind::Value => trim(target),
                    ReceiverKind::Pointer => "*"@ + trim(target),
                },
            ),
        ),
    }
}

pub open spec fn methods_go(
    target: Seq<char>,
    ms: Seq<MethodDecl>,
    es: Seq<EnumInfo>,
    s: GenState,
) -> Emitted
    decreases ms.len(),
{
    if ms.len() == 0 {
        emitted(Seq::empty(), s)
    } else {
        let prev = methods_go(target, ms.drop_last(), es, s);
        let md = ms.last();
        let m = function_like_go(
            method_sig(target, md),
            md.body.stmts@,
            md.decorators@,
            false,
            es,
            prev.state,
        );
        emitted(
            prev.text + if prev.text.len() > 0 {
                "\n\n"@
            } else {
                Seq::empty()
            } + m.text,
            m.state,
        )
    }
}

} // verus!
