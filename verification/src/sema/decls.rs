//! Names declared twice, and names that collide with the symbols that code generation adds.
use vstd::prelude::*;

use crate::ast::{EnumDecl, EnumVariant, Item, Span};
use crate::diag::Diagnostic;
use crate::sema::{cat3, error_at, infos, report, DiagInfo};
use crate::text::{
    contains_seq, decimal, push_decimal, push_str, starts_with, str_contains, str_eq,
    str_starts_with, str_to_string,
};

verus! {

/// Names that code generation uses for its own symbols.
pub open spec fn reserved(name: Seq<char>) -> bool {
    name == "mainWarp"@ || starts_with(name, "__goplus"@) || contains_seq(name, "__decor"@)
}

/// The kind, name and span of a declaration that has a name in the package scope.
pub open spec fn decl_of(item: Item) -> Option<(Seq<char>, Seq<char>, Span)> {
    match item {
        Item::Struct(d) => Some(("struct"@, d.name@, d.span)),
        Item::Enum(d) => Some(("enum"@, d.name@, d.span)),
        Item::Function(d) => Some(("function"@, d.name@, d.span)),
        Item::Impl(_) => None,
    }
}

/// The span of the last declaration of `name` among `items`.
pub open spec fn last_decl_span(items: Seq<Item>, name: Seq<char>) -> Option<Span>
    decreases items.len(),
{
    if items.len() == 0 {
        None
    } else {
        match decl_of(items.last()) {
            Some(d) => if d.1 == name {
                Some(d.2)
            } else {
                last_decl_span(items.drop_last(), name)
            },
            None => last_decl_span(items.drop_last(), name),
        }
    }
}

/// The span of the last variant named `name` among `vs`.
pub open spec fn last_variant_span(vs: Seq<EnumVariant>, name: Seq<char>) -> Option<Span>
    decreases vs.len(),
{
    if vs.len() == 0 {
        None
    } else if vs.last().name@ == name {
        Some(vs.last().span)
    } else {
        last_variant_span(vs.drop_last(), name)
    }
}

/// The errors of variant `v` of `e`, given the variants before it.
pub open spec fn variant_decl_diags(e: EnumDecl, before: Seq<EnumVariant>, v: EnumVariant) -> Seq<
    DiagInfo,
> {
    let dup = match last_variant_span(before, v.name@) {
        Some(first) => seq![
            error_at(
                "E0102"@,
                "duplicate enum variant `"@ + v.name@ + "`"@,
                v.span,
                Some("the first variant starts at byte "@ + decimal(first.start as nat)),
            ),
        ],
        None => Seq::empty(),
    };
    let ctor = e.name@ + v.name@;
    let clash = if reserved(ctor) {
        seq![
            error_at(
                "E0101"@,
                "enum variant `"@ + v.name@ + "` creates generated symbol `"@ + ctor
                    + "` that collides with GoPlus internals"@,
                v.span,
                Some("rename the enum or variant to avoid reserved generated symbols"@),
            ),
        ]
    } else {
        Seq::empty()
    };
    dup + clash
}

/// The errors of the first `n` variants of `e`.
pub open spec fn variants_decl_diags(e: EnumDecl, n: nat) -> Seq<DiagInfo>
    decreases n,
{
    if n == 0 || n > e.variants@.len() {
        Seq::empty()
    } else {
        variants_decl_diags(e, (n - 1) as nat) + variant_decl_diags(
            e,
            e.variants@.take(n - 1),
            e.variants@[n - 1],
        )
    }
}

/// The errors of one item, given the items before it.
pub open spec fn item_decl_diags(before: Seq<Item>, item: Item) -> Seq<DiagInfo> {
    match decl_of(item) {
        None => Seq::empty(),
        Some(d) => {
            let (kind, name, span) = d;
            let dup = match last_decl_span(before, name) {
                Some(first) => seq![
                    error_at(
                        "E0100"@,
                        "duplicate declaration `"@ + name + "`"@,
                        span,
                        Some("the first declaration starts at byte "@ + decimal(first.start as nat)),
                    ),
                ],
                None => Seq::empty(),
            };
            let clash = if reserved(name) {
                seq![
                    error_at(
                        "E0101"@,
                        kind + " `"@ + name + "` collides with generated GoPlus symbols"@,
                        span,
                        Some("choose a name without GoPlus reserved generated suffixes"@),
                    ),
                ]
            } else {
                Seq::empty()
            };
            let variants = match item {
                Item::Enum(e) => variants_decl_diags(e, e.variants@.len()),
                _ => Seq::empty(),
            };
            dup + clash + variants
        },
    }
}

/// The declaration errors of a list of items, in order.
pub open spec fn decl_diags(items: Seq<Item>) -> Seq<DiagInfo>
    decreases items.len(),
{
    if items.len() == 0 {
        Seq::empty()
    } else {
        decl_diags(items.drop_last()) + item_decl_diags(items.drop_last(), items.last())
    }
}

fn is_reserved(name: &str) -> (r: bool)
    ensures
        r == reserved(name@),
{
    str_eq(name, "mainWarp") || str_starts_with(name, "__goplus") || str_contains(name, "__decor")
}

fn decl_parts(item: &Item) -> (r: Option<(&'static str, &String, Span)>)
    ensures
        r matches Some(p) ==> decl_of(*item) == Some((p.0@, p.1@, p.2)),
        r is None ==> decl_of(*item) is None,
{
    match item {
        Item::Struct(d) => Some(("struct", &d.name, d.span)),
        Item::Enum(d) => Some(("enum", &d.name, d.span)),
        Item::Function(d) => Some(("function", &d.name, d.span)),
        Item::Impl(_) => None,
    }
}

/// The span of the last declaration of `name` in `items[..end]`.
fn prev_decl_span(items: &Vec<Item>, end: usize, name: &str) -> (r: Option<Span>)
    requires
        end <= items@.len(),
    ensures
        r == last_decl_span(items@.take(end as int), name@),
{
    let mut j = end;
    while j > 0
        invariant
            0 <= j <= end <= items@.len(),
            last_decl_span(items@.take(end as int), name@) == last_decl_span(
                items@.take(j as int),
                name@,
            ),
        decreases j,
    {
        assert(items@.take(j as int).drop_last() =~= items@.take(j - 1));
        assert(items@.take(j as int).last() == items@[j - 1]);
        match decl_parts(&items[j - 1]) {
            Some((_, n, sp)) => {
                if str_eq(n.as_str(), name) {
                    return Some(sp);
                }
            },
            None => {},
        }
        j = j - 1;
    }
    None
}

/// The span of the last variant named `name` in `vs[..end]`.
fn prev_variant_span(vs: &Vec<EnumVariant>, end: usize, name: &str) -> (r: Option<Span>)
    requires
        end <= vs@.len(),
    ensures
        r == last_variant_span(vs@.take(end as int), name@),
{
    let mut j = end;
    while j > 0
        invariant
            0 <= j <= end <= vs@.len(),
            last_variant_span(vs@.take(end as int), name@) == last_variant_span(
                vs@.take(j as int),
                name@,
            ),
        decreases j,
    {
        assert(vs@.take(j as int).drop_last() =~= vs@.take(j - 1));
        assert(vs@.take(j as int).last() == vs@[j - 1]);
        if str_eq(vs[j - 1].name.as_str(), name) {
            return Some(vs[j - 1].span);
        }
        j = j - 1;
    }
    None
}

/// Duplicate variants, and variants whose constructor name collides with generated symbols.
fn validate_enum_generated_names(e: &EnumDecl, diags: &mut Vec<Diagnostic>)
    ensures
        infos(final(diags)@) == infos(old(diags)@) + variants_decl_diags(*e, e.variants@.len()),
{
    let ghost start = infos(diags@);
    let mut i: usize = 0;
    while i < e.variants.len()
        invariant
            0 <= i <= e.variants@.len(),
            infos(diags@) == start + variants_decl_diags(*e, i as nat),
        decreases e.variants@.len() - i,
    {
        let v = &e.variants[i];
        match prev_variant_span(&e.variants, i, v.name.as_str()) {
            Some(first) => {
                let mut hint = str_to_string("the first variant starts at byte ");
                push_decimal(&mut hint, first.start);
                report(
                    diags,
                    "E0102",
                    cat3("duplicate enum variant `", v.name.as_str(), "`"),
                    v.span,
                    Some(hint),
                );
            },
            None => {},
        }
        let mut ctor = e.name.clone();
        push_str(&mut ctor, v.name.as_str());
        if is_reserved(ctor.as_str()) {
            let mut message = cat3("enum variant `", v.name.as_str(), "` creates generated symbol `");
            push_str(&mut message, ctor.as_str());
            push_str(&mut message, "` that collides with GoPlus internals");
            report(
                diags,
                "E0101",
                message,
                v.span,
                Some(str_to_string("rename the enum or variant to avoid reserved generated symbols")),
            );
        }
        i = i + 1;
    }
}

/// Duplicate declarations in a package scope, and names reserved for generated code.
pub(crate) fn validate_declarations(items: &Vec<Item>, diags: &mut Vec<Diagnostic>)
    ensures
        infos(final(diags)@) == infos(old(diags)@) + decl_diags(items@),
{
    let ghost start = infos(diags@);
    let mut i: usize = 0;
    while i < items.len()
        invariant
            0 <= i <= items@.len(),
            infos(diags@) == start + decl_diags(items@.take(i as int)),
        decreases items@.len() - i,
    {
        assert(items@.take(i + 1).drop_last() =~= items@.take(i as int));
        assert(items@.take(i + 1).last() == items@[i as int]);
        let item = &items[i];
        match decl_parts(item) {
            None => {},
            Some((kind, name, span)) => {
                match prev_decl_span(items, i, name.as_str()) {
                    Some(first) => {
                        let mut hint = str_to_string("the first declaration starts at byte ");
                        push_decimal(&mut hint, first.start);
                        report(
                            diags,
                            "E0100",
                            cat3("duplicate declaration `", name.as_str(), "`"),
                            span,
                            Some(hint),
                        );
                    },
                    None => {},
                }
                if is_reserved(name.as_str()) {
                    let mut message = cat3(kind, " `", name.as_str());
                    push_str(&mut message, "` collides with generated GoPlus symbols");
                    report(
                        diags,
                        "E0101",
                        message,
                        span,
                        Some(str_to_string("choose a name without GoPlus reserved generated suffixes")),
                    );
                }
                match item {
                    Item::Enum(e) => {
                        validate_enum_generated_names(e, diags);
                    },
                    _ => {},
                }
            },
        }
        i = i + 1;
    }
    assert(items@.take(items@.len() as int) =~= items@);
}

} // verus!
