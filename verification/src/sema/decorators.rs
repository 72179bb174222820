//! The rules on `@log`, `@retry`, `@memoize` and on custom decorators.
use vstd::prelude::*;

use crate::ast::{Decorator, ParamDecl, ReturnType, error_capable};
use crate::diag::Diagnostic;
use crate::sema::signature::{
    comparable_type, func_type_parts, is_comparable_type, param_count, parse_func_type_parts,
    positive_int, count_func_params, parse_positive_int,
};
use crate::sema::{cat3, cat5, error_at, infos, report, DiagInfo};
use crate::text::{
    contains_seq, decimal, has_char, starts_with, str_contains, str_eq, str_starts_with,
    str_to_string, to_chars, trim, trim_string, usize_to_string, find_char,
};

verus! {

/// The parameters of the functions of a package, by name.
pub open spec fn known_view(s: Seq<(String, Vec<ParamDecl>)>) -> Seq<(Seq<char>, Seq<ParamDecl>)> {
    s.map_values(|p: (String, Vec<ParamDecl>)| (p.0@, p.1@))
}

/// The parameters recorded first under `name`.
pub open spec fn lookup_params(known: Seq<(Seq<char>, Seq<ParamDecl>)>, name: Seq<char>) -> Option<
    Seq<ParamDecl>,
>
    decreases known.len(),
{
    if known.len() == 0 {
        None
    } else if known[0].0 == name {
        Some(known[0].1)
    } else {
        lookup_params(known.drop_first(), name)
    }
}

pub open spec fn retry_diags(d: Decorator, ret: ReturnType) -> Seq<DiagInfo> {
    let capable = if !error_capable(ret) {
        seq![
            error_at(
                "E0303"@,
                "`@retry` requires function returning `!` or `T!`"@,
                d.span,
                Some("change the return type to `!` or `T!`, or remove `@retry`"@),
            ),
        ]
    } else {
        Seq::empty()
    };
    let arity = if d.args@.len() == 0 || d.args@.len() > 2 {
        seq![
            error_at(
                "E0304"@,
                "`@retry` expects `@retry(times)` or `@retry(times, backoff_ms)`"@,
                d.span,
                Some("example: @retry(3, 100)"@),
            ),
        ]
    } else {
        Seq::empty()
    };
    capable + arity + retry_arg_diags(d.args@, d.span)
}

/// An error for each argument that is not a positive integer.
pub open spec fn retry_arg_diags(args: Seq<String>, span: crate::ast::Span) -> Seq<DiagInfo>
    decreases args.len(),
{
    if args.len() == 0 {
        Seq::empty()
    } else {
        let arg = args.last();
        let here = if positive_int(arg@) is None {
            seq![
                error_at(
                    "E0305"@,
                    "`@retry` argument `"@ + arg@ + "` must be a positive integer"@,
                    span,
                    Some("use a positive integer literal such as `3`"@),
                ),
            ]
        } else {
            Seq::empty()
        };
        retry_arg_diags(args.drop_last(), span) + here
    }
}

pub open spec fn memoize_diags(
    d: Decorator,
    ret: ReturnType,
    params: Seq<ParamDecl>,
    is_method: bool,
) -> Seq<DiagInfo> {
    let place = if is_method {
        seq![
            error_at(
                "E0306"@,
                "`@memoize` is allowed only on top-level functions"@,
                d.span,
                Some("move the function out of `impl` or remove `@memoize`"@),
            ),
        ]
    } else {
        Seq::empty()
    };
    let shape = if !(ret is Type) {
        seq![
            error_at(
                "E0307"@,
                "`@memoize` requires non-error return type `T`"@,
                d.span,
                Some("use a single non-error return value"@),
            ),
        ]
    } else {
        Seq::empty()
    };
    place + shape + memoize_param_diags(params)
}

/// An error for each parameter whose type cannot be a map key.
pub open spec fn memoize_param_diags(params: Seq<ParamDecl>) -> Seq<DiagInfo>
    decreases params.len(),
{
    if params.len() == 0 {
        Seq::empty()
    } else {
        let p = params.last();
        let here = if !comparable_type(p.ty.raw@) {
            seq![
                error_at(
                    "E0308"@,
                    "`@memoize` parameter `"@ + p.name@ + "` with type `"@ + p.ty.raw@
                        + "` is not comparable"@,
                    p.span,
                    Some("use scalar/pointer/named comparable types only"@),
                ),
            ]
        } else {
            Seq::empty()
        };
        memoize_param_diags(params.drop_last()) + here
    }
}

/// `text` without a leading `->`.
pub open spec fn strip_arrow(text: Seq<char>) -> Seq<char> {
    if starts_with(text, "->"@) {
        text.skip(2)
    } else {
        text
    }
}

/// How the return text of a `next` function type compares with the decorated function.
pub open spec fn return_shape_diags(d: Decorator, ret_part: Seq<char>, ret: ReturnType) -> Seq<
    DiagInfo,
> {
    let clean = trim(strip_arrow(ret_part));
    let has_error = contains_seq(clean, "error"@) || has_char(clean, '!');
    let has_value = clean.len() > 0 && clean != "error"@ && clean != "!"@ && clean != "(error)"@;
    match ret {
        ReturnType::Void => if ret_part.len() > 0 {
            seq![
                error_at(
                    "E0309"@,
                    "decorator `"@ + d.name@
                        + "` `next` function has return type but decorated function is void"@,
                    d.span,
                    Some("the `next` function type should have no return for void functions"@),
                ),
            ]
        } else {
            Seq::empty()
        },
        ReturnType::ErrorOnly => if !has_error {
            seq![
                error_at(
                    "E0309"@,
                    "decorator `"@ + d.name@
                        + "` `next` function should return `error` to match decorated function"@,
                    d.span,
                    None,
                ),
            ]
        } else {
            Seq::empty()
        },
        ReturnType::TypeWithError(_) => if !has_error || !has_value {
            seq![
                error_at(
                    "E0309"@,
                    "decorator `"@ + d.name@
                        + "` `next` function should return `(T, error)` to match decorated function"@,
                    d.span,
                    None,
                ),
            ]
        } else {
            Seq::empty()
        },
        ReturnType::Type(_) => if has_error {
            seq![
                error_at(
                    "E0309"@,
                    "decorator `"@ + d.name@
                        + "` `next` function return type does not match decorated function"@,
                    d.span,
                    None,
                ),
            ]
        } else {
            Seq::empty()
        },
    }
}

/// The `next` function type against the decorated function's parameters and return.
pub open spec fn next_shape_diags(
    d: Decorator,
    next_ty: Seq<char>,
    params: Seq<ParamDecl>,
    ret: ReturnType,
) -> Seq<DiagInfo> {
    match func_type_parts(next_ty) {
        None => Seq::empty(),
        Some(parts) => {
            let count = param_count(parts.0);
            let arity = if count != params.len() {
                seq![
                    error_at(
                        "E0310"@,
                        "decorator `"@ + d.name@ + "` `next` function expects "@ + decimal(count)
                            + " parameter(s), but decorated function has "@ + decimal(
                            params.len(),
                        ),
                        d.span,
                        Some(
                            "the `next` parameter's function type must match the decorated function signature"@,
                        ),
                    ),
                ]
            } else {
                Seq::empty()
            };
            arity + return_shape_diags(d, parts.1, ret)
        },
    }
}

/// A custom decorator named after a function of the package: that function takes `next`,
/// a function of the decorated function's shape, and then the decorator's arguments.
pub open spec fn custom_diags(
    d: Decorator,
    params: Seq<ParamDecl>,
    ret: ReturnType,
    known: Seq<(Seq<char>, Seq<ParamDecl>)>,
) -> Seq<DiagInfo> {
    if has_char(d.name@, '.') {
        Seq::empty()
    } else {
        match lookup_params(known, d.name@) {
            None => Seq::empty(),
            Some(ps) => if ps.len() == 0 {
                seq![
                    error_at(
                        "E0300"@,
                        "custom decorator `"@ + d.name@
                            + "` must accept `next` as its first parameter"@,
                        d.span,
                        None,
                    ),
                ]
            } else {
                let next_ty = trim(ps[0].ty.raw@);
                if !(starts_with(next_ty, "func("@) || starts_with(next_ty, "(fn("@) || starts_with(
                    next_ty,
                    "fn("@,
                )) {
                    seq![
                        error_at(
                            "E0301"@,
                            "custom decorator `"@ + d.name@
                                + "` first parameter must be a function type"@,
                            ps[0].span,
                            None,
                        ),
                    ]
                } else {
                    let expected = (ps.len() - 1) as nat;
                    let count = if expected != d.args@.len() {
                        seq![
                            error_at(
                                "E0302"@,
                                "custom decorator `"@ + d.name@ + "` expects "@ + decimal(expected)
                                    + " argument(s), found "@ + decimal(d.args@.len()),
                                d.span,
                                None,
                            ),
                        ]
                    } else {
                        Seq::empty()
                    };
                    count + next_shape_diags(d, next_ty, params, ret)
                }
            },
        }
    }
}

/// The errors of one decorator on a function with parameters `params` and return `ret`.
pub open spec fn decorator_diags(
    d: Decorator,
    ret: ReturnType,
    params: Seq<ParamDecl>,
    is_method: bool,
    known: Seq<(Seq<char>, Seq<ParamDecl>)>,
) -> Seq<DiagInfo> {
    if d.name@ == "log"@ {
        Seq::empty()
    } else if d.name@ == "retry"@ {
        retry_diags(d, ret)
    } else if d.name@ == "memoize"@ {
        memoize_diags(d, ret, params, is_method)
    } else {
        custom_diags(d, params, ret, known)
    }
}

/// The errors of the decorators, in order.
pub open spec fn decorators_diags(
    decs: Seq<Decorator>,
    ret: ReturnType,
    params: Seq<ParamDecl>,
    is_method: bool,
    known: Seq<(Seq<char>, Seq<ParamDecl>)>,
) -> Seq<DiagInfo>
    decreases decs.len(),
{
    if decs.len() == 0 {
        Seq::empty()
    } else {
        decorators_diags(decs.drop_last(), ret, params, is_method, known) + decorator_diags(
            decs.last(),
            ret,
            params,
            is_method,
            known,
        )
    }
}

fn check_retry(d: &Decorator, ret: &ReturnType, diags: &mut Vec<Diagnostic>)
    ensures
        infos(final(diags)@) == infos(old(diags)@) + retry_diags(*d, *ret),
{
    let ghost start = infos(diags@);
    if !ret.is_error_capable() {
        report(
            diags,
            "E0303",
            str_to_string("`@retry` requires function returning `!` or `T!`"),
            d.span,
            Some(str_to_string("change the return type to `!` or `T!`, or remove `@retry`")),
        );
    }
    let ghost mid1 = infos(diags@);
    if d.args.len() == 0 || d.args.len() > 2 {
        report(
            diags,
            "E0304",
            str_to_string("`@retry` expects `@retry(times)` or `@retry(times, backoff_ms)`"),
            d.span,
            Some(str_to_string("example: @retry(3, 100)")),
        );
    }
    let ghost mid2 = infos(diags@);
    let mut i: usize = 0;
    while i < d.args.len()
        invariant
            0 <= i <= d.args@.len(),
            infos(diags@) == mid2 + retry_arg_diags(d.args@.take(i as int), d.span),
        decreases d.args@.len() - i,
    {
        assert(d.args@.take(i + 1).drop_last() =~= d.args@.take(i as int));
        let arg = d.args[i].as_str();
        if parse_positive_int(arg).is_none() {
            report(
                diags,
                "E0305",
                cat3("`@retry` argument `", arg, "` must be a positive integer"),
                d.span,
                Some(str_to_string("use a positive integer literal such as `3`")),
            );
        }
        i = i + 1;
    }
    assert(d.args@.take(d.args@.len() as int) =~= d.args@);
}

fn check_memoize(
    d: &Decorator,
    ret: &ReturnType,
    params: &Vec<ParamDecl>,
    is_method: bool,
    diags: &mut Vec<Diagnostic>,
)
    ensures
        infos(final(diags)@) == infos(old(diags)@) + memoize_diags(*d, *ret, params@, is_method),
{
    if is_method {
        report(
            diags,
            "E0306",
            str_to_string("`@memoize` is allowed only on top-level functions"),
            d.span,
            Some(str_to_string("move the function out of `impl` or remove `@memoize`")),
        );
    }
    let is_plain = match ret {
        ReturnType::Type(_) => true,
        _ => false,
    };
    if !is_plain {
        report(
            diags,
            "E0307",
            str_to_string("`@memoize` requires non-error return type `T`"),
            d.span,
            Some(str_to_string("use a single non-error return value")),
        );
    }
    let ghost mid = infos(diags@);
    let mut i: usize = 0;
    while i < params.len()
        invariant
            0 <= i <= params@.len(),
            infos(diags@) == mid + memoize_param_diags(params@.take(i as int)),
        decreases params@.len() - i,
    {
        assert(params@.take(i + 1).drop_last() =~= params@.take(i as int));
        let p = &params[i];
        if !is_comparable_type(p.ty.raw.as_str()) {
            let mut message = cat5(
                "`@memoize` parameter `",
                p.name.as_str(),
                "` with type `",
                p.ty.raw.as_str(),
                "` is not comparable",
            );
            report(
                diags,
                "E0308",
                message,
                p.span,
                Some(str_to_string("use scalar/pointer/named comparable types only")),
            );
        }
        i = i + 1;
    }
    assert(params@.take(params@.len() as int) =~= params@);
}

/// Index of the first entry of `known` named `name`.
fn find_known(known: &Vec<(String, Vec<ParamDecl>)>, name: &str) -> (r: Option<usize>)
    ensures
        r matches Some(i) ==> i < known@.len() && lookup_params(known_view(known@), name@) == Some(
            known@[i as int].1@,
        ),
        r is None ==> lookup_params(known_view(known@), name@) is None,
{
    let ghost kv = known_view(known@);
    assert(kv.skip(0) =~= kv);
    let mut i: usize = 0;
    while i < known.len()
        invariant
            0 <= i <= known@.len(),
            kv == known_view(known@),
            lookup_params(kv, name@) == lookup_params(kv.skip(i as int), name@),
        decreases known@.len() - i,
    {
        assert(kv.skip(i as int)[0] == kv[i as int]);
        assert(kv.skip(i as int).drop_first() =~= kv.skip(i + 1));
        if str_eq(known[i].0.as_str(), name) {
            return Some(i);
        }
        i = i + 1;
    }
    None
}

fn check_return_shape(
    d: &Decorator,
    ret_part: &str,
    ret: &ReturnType,
    diags: &mut Vec<Diagnostic>,
)
    ensures
        infos(final(diags)@) == infos(old(diags)@) + return_shape_diags(*d, ret_part@, *ret),
{
    let cleaned: String;
    if str_starts_with(ret_part, "->") {
        let v = to_chars(ret_part);
        proof {
            reveal_strlit("->");
        }
        let mut rest = String::new();
        crate::text::push_range(&mut rest, &v, 2, v.len());
        assert(rest@ =~= strip_arrow(ret_part@));
        cleaned = trim_string(rest.as_str());
    } else {
        cleaned = trim_string(ret_part);
    }
    let c = cleaned.as_str();
    let cv = to_chars(c);
    let has_error = str_contains(c, "error") || find_char(&cv, '!', 0, cv.len()).is_some();
    proof {
        if has_char(c@, '!') {
            let k = choose|k: int| 0 <= k < c@.len() && c@[k] == '!';
            assert(cv@[k] == '!');
        }
    }
    let has_value = cv.len() > 0 && !str_eq(c, "error") && !str_eq(c, "!") && !str_eq(c, "(error)");
    match ret {
        ReturnType::Void => {
            if !ret_part.is_empty() {
                report(
                    diags,
                    "E0309",
                    cat3(
                        "decorator `",
                        d.name.as_str(),
                        "` `next` function has return type but decorated function is void",
                    ),
                    d.span,
                    Some(
                        str_to_string(
                            "the `next` function type should have no return for void functions",
                        ),
                    ),
                );
            }
        },
        ReturnType::ErrorOnly => {
            if !has_error {
                report(
                    diags,
                    "E0309",
                    cat3(
                        "decorator `",
                        d.name.as_str(),
                        "` `next` function should return `error` to match decorated function",
                    ),
                    d.span,
                    None,
                );
            }
        },
        ReturnType::TypeWithError(_) => {
            if !has_error || !has_value {
                report(
                    diags,
                    "E0309",
                    cat3(
                        "decorator `",
                        d.name.as_str(),
                        "` `next` function should return `(T, error)` to match decorated function",
                    ),
                    d.span,
                    None,
                );
            }
        },
        ReturnType::Type(_) => {
            if has_error {
                report(
                    diags,
                    "E0309",
                    cat3(
                        "decorator `",
                        d.name.as_str(),
                        "` `next` function return type does not match decorated function",
                    ),
                    d.span,
                    None,
                );
            }
        },
    }
}

fn check_next_shape(
    d: &Decorator,
    next_ty: &str,
    params: &Vec<ParamDecl>,
    ret: &ReturnType,
    diags: &mut Vec<Diagnostic>,
)
    ensures
        infos(final(diags)@) == infos(old(diags)@) + next_shape_diags(*d, next_ty@, params@, *ret),
{
    match parse_func_type_parts(next_ty) {
        None => {
            assert(infos(diags@) =~= infos(diags@) + Seq::<DiagInfo>::empty());
        },
        Some((param_part, ret_part)) => {
            let count = count_func_params(param_part.as_str());
            if count != params.len() {
                let mut message = cat3("decorator `", d.name.as_str(), "` `next` function expects ");
                crate::text::push_decimal(&mut message, count);
                crate::text::push_str(&mut message, " parameter(s), but decorated function has ");
                crate::text::push_decimal(&mut message, params.len());
                report(
                    diags,
                    "E0310",
                    message,
                    d.span,
                    Some(
                        str_to_string(
                            "the `next` parameter's function type must match the decorated function signature",
                        ),
                    ),
                );
            }
            check_return_shape(d, ret_part.as_str(), ret, diags);
        },
    }
}

fn check_custom(
    d: &Decorator,
    params: &Vec<ParamDecl>,
    ret: &ReturnType,
    known: &Vec<(String, Vec<ParamDecl>)>,
    diags: &mut Vec<Diagnostic>,
)
    ensures
        infos(final(diags)@) == infos(old(diags)@) + custom_diags(
            *d,
            params@,
            *ret,
            known_view(known@),
        ),
{
    let nv = to_chars(d.name.as_str());
    if find_char(&nv, '.', 0, nv.len()).is_some() {
        assert(infos(diags@) =~= infos(diags@) + Seq::<DiagInfo>::empty());
        return ;
    }
    proof {
        if has_char(d.name@, '.') {
            let k = choose|k: int| 0 <= k < d.name@.len() && d.name@[k] == '.';
            assert(nv@[k] == '.');
        }
    }
    let idx = match find_known(known, d.name.as_str()) {
        None => {
            assert(infos(diags@) =~= infos(diags@) + Seq::<DiagInfo>::empty());
            return ;
        },
        Some(i) => i,
    };
    let ps = &known[idx].1;
    if ps.len() == 0 {
        report(
            diags,
            "E0300",
            cat3("custom decorator `", d.name.as_str(), "` must accept `next` as its first parameter"),
            d.span,
            None,
        );
        return ;
    }
    let next_ty = trim_string(ps[0].ty.raw.as_str());
    let nt = next_ty.as_str();
    if !(str_starts_with(nt, "func(") || str_starts_with(nt, "(fn(") || str_starts_with(nt, "fn(")) {
        report(
            diags,
            "E0301",
            cat3("custom decorator `", d.name.as_str(), "` first parameter must be a function type"),
            ps[0].span,
            None,
        );
        return ;
    }
    let expected = ps.len() - 1;
    if expected != d.args.len() {
        let mut message = cat3("custom decorator `", d.name.as_str(), "` expects ");
        crate::text::push_decimal(&mut message, expected);
        crate::text::push_str(&mut message, " argument(s), found ");
        crate::text::push_decimal(&mut message, d.args.len());
        report(diags, "E0302", message, d.span, None);
    }
    check_next_shape(d, nt, params, ret, diags);
}

/// Checks each decorator of a function (or, with `is_method`, of a method).
pub(crate) fn validate_decorators(
    decorators: &Vec<Decorator>,
    ret: &ReturnType,
    params: &Vec<ParamDecl>,
    is_method: bool,
    known: &Vec<(String, Vec<ParamDecl>)>,
    diags: &mut Vec<Diagnostic>,
)
    ensures
        infos(final(diags)@) == infos(old(diags)@) + decorators_diags(
            decorators@,
            *ret,
            params@,
            is_method,
            known_view(known@),
        ),
{
    let ghost start = infos(diags@);
    let mut i: usize = 0;
    while i < decorators.len()
        invariant
            0 <= i <= decorators@.len(),
            infos(diags@) == start + decorators_diags(
                decorators@.take(i as int),
                *ret,
                params@,
                is_method,
                known_view(known@),
            ),
        decreases decorators@.len() - i,
    {
        assert(decorators@.take(i + 1).drop_last() =~= decorators@.take(i as int));
        let d = &decorators[i];
        let name = d.name.as_str();
        if str_eq(name, "log") {
        } else if str_eq(name, "retry") {
            check_retry(d, ret, diags);
        } else if str_eq(name, "memoize") {
            check_memoize(d, ret, params, is_method, diags);
        } else {
            check_custom(d, params, ret, known, diags);
        }
        i = i + 1;
    }
    assert(decorators@.take(decorators@.len() as int) =~= decorators@);
}

} // verus!
