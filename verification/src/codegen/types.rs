//! How GoPlus types, signatures and a few expression shapes are written in Go.
use vstd::prelude::*;

use crate::ast::{ParamDecl, ReturnType, TypeRef};
use crate::text::{
    ends_with, join, push_char, push_range, push_repeat, push_str, repeat, starts_with,
    str_eq, str_starts_with, str_to_string, string_of, to_chars, trim, trim_bounds,
    trim_string, find_from, occurs_at,
};
use crate::parser::first_occurrence;
use crate::sema::body::lemma_first_occurrence;

use crate::text::views;

verus! {

/// `n` tab characters.
pub open spec fn tabs(n: nat) -> Seq<char> {
    repeat("\t"@, n)
}

pub fn push_tabs(out: &mut String, n: usize)
    ensures
        final(out)@ == old(out)@ + tabs(n as nat),
{
    push_repeat(out, "\t", n);
}

pub open spec fn ascii_lower(c: char) -> char {
    if 'A' <= c && c <= 'Z' {
        (((c as u32) + 32) as u8) as char
    } else {
        c
    }
}

/// The name with its first char in ASCII lower case.
pub open spec fn lower_ident(s: Seq<char>) -> Seq<char> {
    if s.len() == 0 {
        s
    } else {
        seq![ascii_lower(s[0])] + s.drop_first()
    }
}

pub fn push_lower_ident(out: &mut String, name: &str)
    ensures
        final(out)@ == old(out)@ + lower_ident(name@),
{
    let v = to_chars(name);
    if v.len() == 0 {
        return ;
    }
    let c = v[0];
    let l = if 'A' <= c && c <= 'Z' {
        (((c as u32) + 32) as u8) as char
    } else {
        c
    };
    push_char(out, l);
    push_range(out, &v, 1, v.len());
    assert(v@.subrange(1, v@.len() as int) =~= v@.drop_first());
    assert(old(out)@.push(l) + v@.drop_first() =~= old(out)@ + lower_ident(name@));
}

pub open spec fn with_any(tps: Seq<Seq<char>>) -> Seq<Seq<char>> {
    tps.map_values(|t: Seq<char>| t + " any"@)
}

/// `[T, U]`, or nothing for no type parameters.
pub open spec fn type_args(tps: Seq<Seq<char>>) -> Seq<char> {
    if tps.len() == 0 {
        Seq::empty()
    } else {
        "["@ + join(tps, ", "@) + "]"@
    }
}

/// `[T any, U any]`, or nothing for no type parameters.
pub open spec fn type_params_any(tps: Seq<Seq<char>>) -> Seq<char> {
    type_args(with_any(tps))
}

/// Appends `[T, U]` (with `any` after each name when `any` holds).
pub fn push_type_params(out: &mut String, tps: &Vec<String>, any: bool)
    ensures
        final(out)@ == old(out)@ + if any {
            type_params_any(views(tps@))
        } else {
            type_args(views(tps@))
        },
{
    let ghost names = if any {
        with_any(views(tps@))
    } else {
        views(tps@)
    };
    if tps.len() == 0 {
        assert(old(out)@ =~= old(out)@ + Seq::<char>::empty());
        return ;
    }
    let ghost start = out@;
    push_str(out, "[");
    let mut i: usize = 0;
    while i < tps.len()
        invariant
            0 <= i <= tps@.len(),
            names.len() == tps@.len(),
            names == (if any {
                with_any(views(tps@))
            } else {
                views(tps@)
            }),
            out@ == start + "["@ + join(names.take(i as int), ", "@),
        decreases tps@.len() - i,
    {
        assert(names.take(i + 1).drop_last() =~= names.take(i as int));
        if i > 0 {
            push_str(out, ", ");
        } else {
            assert(names.take(0) =~= Seq::<Seq<char>>::empty());
        }
        push_str(out, tps[i].as_str());
        if any {
            push_str(out, " any");
        }
        assert(names[i as int] == if any {
            tps@[i as int]@ + " any"@
        } else {
            tps@[i as int]@
        });
        i = i + 1;
    }
    assert(names.take(tps@.len() as int) =~= names);
    push_str(out, "]");
}

// ----- `Name<T>` written `Name[T]` -----

pub open spec fn ident_start(c: char) -> bool {
    ('a' <= c && c <= 'z') || ('A' <= c && c <= 'Z') || c == '_'
}

pub open spec fn ident_continue(c: char) -> bool {
    ident_start(c) || ('0' <= c && c <= '9')
}

/// `u8::is_ascii_whitespace`.
pub open spec fn ascii_ws(c: char) -> bool {
    c == ' ' || c == '\t' || c == '\n' || c == '\r' || c == '\x0c'
}

/// The first index from `i` that does not continue an identifier.
pub open spec fn ident_end(s: Seq<char>, i: int) -> int
    decreases s.len() - i,
{
    if i < 0 || i >= s.len() || !ident_continue(s[i]) {
        i
    } else {
        ident_end(s, i + 1)
    }
}

/// The first index from `i` that is not ASCII whitespace.
pub open spec fn skip_ws(s: Seq<char>, i: int) -> int
    decreases s.len() - i,
{
    if i < 0 || i >= s.len() || !ascii_ws(s[i]) {
        i
    } else {
        skip_ws(s, i + 1)
    }
}

pub open spec fn sat_dec(n: nat) -> nat {
    if n > 0 {
        (n - 1) as nat
    } else {
        0
    }
}

/// From `i`, the index of the `>` that closes the `<` at the start of the scan; `(` and `[`
/// shield the angles inside them.
pub open spec fn angle_close(s: Seq<char>, i: int, depth: nat, paren: nat, bracket: nat) -> Option<
    int,
>
    decreases s.len() - i,
{
    if i < 0 || i >= s.len() {
        None
    } else {
        let c = s[i];
        if c == '(' {
            angle_close(s, i + 1, depth, paren + 1, bracket)
        } else if c == ')' {
            angle_close(s, i + 1, depth, sat_dec(paren), bracket)
        } else if c == '[' {
            angle_close(s, i + 1, depth, paren, bracket + 1)
        } else if c == ']' {
            angle_close(s, i + 1, depth, paren, sat_dec(bracket))
        } else if c == '<' && paren == 0 && bracket == 0 {
            angle_close(s, i + 1, depth + 1, paren, bracket)
        } else if c == '>' && paren == 0 && bracket == 0 {
            if sat_dec(depth) == 0 {
                Some(i)
            } else {
                angle_close(s, i + 1, sat_dec(depth), paren, bracket)
            }
        } else {
            angle_close(s, i + 1, depth, paren, bracket)
        }
    }
}

pub proof fn lemma_angle_close(s: Seq<char>, i: int, depth: nat, paren: nat, bracket: nat)
    requires
        0 <= i,
    ensures
        angle_close(s, i, depth, paren, bracket) matches Some(c) ==> i <= c < s.len(),
    decreases s.len() - i,
{
    if i < s.len() {
        let c = s[i];
        if c == '(' {
            lemma_angle_close(s, i + 1, depth, paren + 1, bracket);
        } else if c == ')' {
            lemma_angle_close(s, i + 1, depth, sat_dec(paren), bracket);
        } else if c == '[' {
            lemma_angle_close(s, i + 1, depth, paren, bracket + 1);
        } else if c == ']' {
            lemma_angle_close(s, i + 1, depth, paren, sat_dec(bracket));
        } else if c == '<' && paren == 0 && bracket == 0 {
            lemma_angle_close(s, i + 1, depth + 1, paren, bracket);
        } else if c == '>' && paren == 0 && bracket == 0 {
            if sat_dec(depth) != 0 {
                lemma_angle_close(s, i + 1, sat_dec(depth), paren, bracket);
            }
        } else {
            lemma_angle_close(s, i + 1, depth, paren, bracket);
        }
    }
}

pub proof fn lemma_ident_end(s: Seq<char>, i: int)
    requires
        0 <= i <= s.len(),
    ensures
        i <= ident_end(s, i) <= s.len(),
        forall|k: int| i <= k < ident_end(s, i) ==> ident_continue(s[k]),
        ident_end(s, i) < s.len() ==> !ident_continue(s[ident_end(s, i)]),
    decreases s.len() - i,
{
    if i < s.len() && ident_continue(s[i]) {
        lemma_ident_end(s, i + 1);
    }
}

pub proof fn lemma_skip_ws(s: Seq<char>, i: int)
    requires
        0 <= i <= s.len(),
    ensures
        i <= skip_ws(s, i) <= s.len(),
        skip_ws(s, i) < s.len() ==> !ascii_ws(s[skip_ws(s, i)]),
    decreases s.len() - i,
{
    if i < s.len() && ascii_ws(s[i]) {
        lemma_skip_ws(s, i + 1);
    }
}

pub open spec fn byte_char(b: nat) -> char {
    (b as u8) as char
}

/// The chars that pushing each UTF-8 byte of `c` as a `char` gives.
pub open spec fn byte_chars(c: char) -> Seq<char> {
    let u = c as u32 as nat;
    if u < 0x80 {
        seq![c]
    } else if u < 0x800 {
        seq![byte_char(0xc0 + u / 64), byte_char(0x80 + u % 64)]
    } else if u < 0x10000 {
        seq![byte_char(0xe0 + u / 4096), byte_char(0x80 + (u / 64) % 64), byte_char(0x80 + u % 64)]
    } else {
        seq![
            byte_char(0xf0 + u / 262144),
            byte_char(0x80 + (u / 4096) % 64),
            byte_char(0x80 + (u / 64) % 64),
            byte_char(0x80 + u % 64),
        ]
    }
}

/// `Name<Args>` (blanks allowed before `<`) written `Name[Args]`, the arguments rewritten
/// the same way; every char that is not part of a name is copied byte by byte.
pub open spec fn generic_syntax_from(s: Seq<char>, i: int) -> Seq<char>
    decreases s.len(), s.len() - i,
{
    if i < 0 || i >= s.len() {
        Seq::empty()
    } else if ident_start(s[i]) {
        let e = ident_end(s, i + 1);
        let j = skip_ws(s, e);
        proof {
            lemma_ident_end(s, i + 1);
            lemma_skip_ws(s, e);
            if j < s.len() {
                lemma_angle_close(s, j + 1, 1, 0, 0);
            }
        }
        if j < s.len() && s[j] == '<' && angle_close(s, j, 0, 0, 0) is Some {
            let close = angle_close(s, j, 0, 0, 0)->0;
            s.subrange(i, e) + "["@ + generic_syntax_from(s.subrange(j + 1, close), 0) + "]"@
                + generic_syntax_from(s, close + 1)
        } else {
            s.subrange(i, e) + generic_syntax_from(s, e)
        }
    } else {
        byte_chars(s[i]) + generic_syntax_from(s, i + 1)
    }
}

pub open spec fn generic_syntax(s: Seq<char>) -> Seq<char> {
    generic_syntax_from(s, 0)
}

/// A type as Go writes it: trimmed, its function types in Go's form, `Name<T>` as `Name[T]`.
#[verifier::opaque]
pub open spec fn go_type(raw: Seq<char>) -> Seq<char> {
    crate::codegen::fn_syntax::normalize_type(raw, usize::MAX as nat)
}

fn push_byte_chars(out: &mut String, c: char)
    ensures
        final(out)@ == old(out)@ + byte_chars(c),
{
    let u: u32 = c as u32;
    if u < 0x80 {
        push_char(out, c);
    } else if u < 0x800 {
        push_char(out, ((0xc0 + u / 64) as u8) as char);
        push_char(out, ((0x80 + u % 64) as u8) as char);
    } else if u < 0x10000 {
        push_char(out, ((0xe0 + u / 4096) as u8) as char);
        push_char(out, ((0x80 + (u / 64) % 64) as u8) as char);
        push_char(out, ((0x80 + u % 64) as u8) as char);
    } else {
        push_char(out, ((0xf0 + u / 262144) as u8) as char);
        push_char(out, ((0x80 + (u / 4096) % 64) as u8) as char);
        push_char(out, ((0x80 + (u / 64) % 64) as u8) as char);
        push_char(out, ((0x80 + u % 64) as u8) as char);
    }
    assert(final(out)@ =~= old(out)@ + byte_chars(c));
}

pub(crate) fn is_ident_char(c: char) -> (r: bool)
    ensures
        r == ident_continue(c),
{
    ('a' <= c && c <= 'z') || ('A' <= c && c <= 'Z') || c == '_' || ('0' <= c && c <= '9')
}

pub(crate) fn is_ascii_ws(c: char) -> (r: bool)
    ensures
        r == ascii_ws(c),
{
    c == ' ' || c == '\t' || c == '\n' || c == '\r' || c == '\x0c'
}

/// Index in `v[lo..hi]` of the `>` that closes the `<` at `j`.
fn find_matching_angle(v: &Vec<char>, lo: usize, hi: usize, j: usize) -> (r: Option<usize>)
    requires
        lo <= j < hi <= v@.len(),
    ensures
        r matches Some(c) ==> j <= c < hi && angle_close(v@.subrange(lo as int, hi as int), j - lo, 0, 0, 0)
            == Some(c - lo),
        r is None ==> angle_close(v@.subrange(lo as int, hi as int), j - lo, 0, 0, 0) is None,
{
    let ghost s = v@.subrange(lo as int, hi as int);
    let mut depth: usize = 0;
    let mut paren: usize = 0;
    let mut bracket: usize = 0;
    let mut i = j;
    while i < hi
        invariant
            lo <= j <= i <= hi <= v@.len(),
            s == v@.subrange(lo as int, hi as int),
            depth <= i - j,
            paren <= i - j,
            bracket <= i - j,
            angle_close(s, j - lo, 0, 0, 0) == angle_close(
                s,
                i - lo,
                depth as nat,
                paren as nat,
                bracket as nat,
            ),
        decreases hi - i,
    {
        let c = v[i];
        assert(s[i - lo] == c);
        if c == '(' {
            paren = paren + 1;
        } else if c == ')' {
            if paren > 0 {
                paren = paren - 1;
            }
        } else if c == '[' {
            bracket = bracket + 1;
        } else if c == ']' {
            if bracket > 0 {
                bracket = bracket - 1;
            }
        } else if c == '<' && paren == 0 && bracket == 0 {
            depth = depth + 1;
        } else if c == '>' && paren == 0 && bracket == 0 {
            if depth > 0 {
                depth = depth - 1;
            }
            if depth == 0 {
                return Some(i);
            }
        }
        i = i + 1;
    }
    None
}

/// Appends `generic_syntax` of `v[lo..hi]`.
pub(crate) fn push_generic_syntax(out: &mut String, v: &Vec<char>, lo: usize, hi: usize)
    requires
        lo <= hi <= v@.len(),
    ensures
        final(out)@ == old(out)@ + generic_syntax(v@.subrange(lo as int, hi as int)),
    decreases hi - lo,
{
    let ghost s = v@.subrange(lo as int, hi as int);
    let mut i = lo;
    while i < hi
        invariant
            lo <= i <= hi <= v@.len(),
            s == v@.subrange(lo as int, hi as int),
            old(out)@ + generic_syntax_from(s, 0) == out@ + generic_syntax_from(s, i - lo),
        decreases hi - i,
    {
        let c = v[i];
        assert(s[i - lo] == c);
        if ('a' <= c && c <= 'z') || ('A' <= c && c <= 'Z') || c == '_' {
            let mut e = i + 1;
            while e < hi && is_ident_char(v[e])
                invariant
                    lo <= i < e <= hi <= v@.len(),
                    s == v@.subrange(lo as int, hi as int),
                    ident_end(s, i - lo + 1) == ident_end(s, e - lo),
                decreases hi - e,
            {
                assert(s[e - lo] == v@[e as int]);
                e = e + 1;
            }
            proof {
                if e < hi {
                    assert(s[e - lo] == v@[e as int]);
                }
            }
            assert(ident_end(s, e - lo) == e - lo);
            let mut j = e;
            while j < hi && is_ascii_ws(v[j])
                invariant
                    lo <= i < e <= j <= hi <= v@.len(),
                    s == v@.subrange(lo as int, hi as int),
                    skip_ws(s, e - lo) == skip_ws(s, j - lo),
                decreases hi - j,
            {
                assert(s[j - lo] == v@[j as int]);
                j = j + 1;
            }
            proof {
                if j < hi {
                    assert(s[j - lo] == v@[j as int]);
                }
            }
            assert(skip_ws(s, j - lo) == j - lo);
            let mut done = false;
            if j < hi && v[j] == '<' {
                assert(s[j - lo] == '<');
                match find_matching_angle(v, lo, hi, j) {
                    Some(close) => {
                        proof {
                            lemma_angle_close(s, j - lo + 1, 1, 0, 0);
                        }
                        push_range(out, v, i, e);
                        push_str(out, "[");
                        push_generic_syntax(out, v, j + 1, close);
                        push_str(out, "]");
                        assert(s.subrange(i - lo, e - lo) =~= v@.subrange(i as int, e as int));
                        assert(s.subrange(j - lo + 1, close - lo) =~= v@.subrange(
                            j + 1,
                            close as int,
                        ));
                        i = close + 1;
                        done = true;
                    },
                    None => {},
                }
            }
            if !done {
                push_range(out, v, i, e);
                assert(s.subrange(i - lo, e - lo) =~= v@.subrange(i as int, e as int));
                i = e;
            }
        } else {
            push_byte_chars(out, c);
            i = i + 1;
        }
    }
}

/// A type as Go writes it (see `go_type`).
pub fn render_type(raw: &str) -> (r: String)
    ensures
        r@ == go_type(raw@),
{
    reveal(go_type);
    crate::codegen::fn_syntax::normalize_go_type(raw)
}

/// The Go text after the parameter list: nothing, ` T`, ` error` or ` (T, error)`.
pub open spec fn return_text(ret: ReturnType) -> Seq<char> {
    match ret {
        ReturnType::Void => Seq::empty(),
        ReturnType::Type(t) => " "@ + go_type(t.raw@),
        ReturnType::ErrorOnly => " error"@,
        ReturnType::TypeWithError(t) => " ("@ + go_type(t.raw@) + ", error)"@,
    }
}

pub fn push_return_type(out: &mut String, ret: &ReturnType)
    ensures
        final(out)@ == old(out)@ + return_text(*ret),
{
    match ret {
        ReturnType::Void => {
            assert(old(out)@ =~= old(out)@ + Seq::<char>::empty());
        },
        ReturnType::Type(t) => {
            push_str(out, " ");
            let g = render_type(t.raw.as_str());
            push_str(out, g.as_str());
            assert(final(out)@ =~= old(out)@ + return_text(*ret));
        },
        ReturnType::ErrorOnly => {
            push_str(out, " error");
        },
        ReturnType::TypeWithError(t) => {
            push_str(out, " (");
            let g = render_type(t.raw.as_str());
            push_str(out, g.as_str());
            push_str(out, ", error)");
            assert(final(out)@ =~= old(out)@ + return_text(*ret));
        },
    }
}

pub open spec fn is_go_number(t: Seq<char>) -> bool {
    t == "int"@ || t == "int8"@ || t == "int16"@ || t == "int32"@ || t == "int64"@ || t == "uint"@
        || t == "uint8"@ || t == "uint16"@ || t == "uint32"@ || t == "uint64"@ || t == "float32"@
        || t == "float64"@ || t == "byte"@ || t == "rune"@
}

/// The zero value of a type, as Go writes it.
pub open spec fn zero_value(ty: Seq<char>) -> Seq<char> {
    let t = trim(go_type(ty));
    if t == "string"@ {
        "\"\""@
    } else if t == "bool"@ {
        "false"@
    } else if is_go_number(t) {
        "0"@
    } else if starts_with(t, "*"@) || starts_with(t, "[]"@) || starts_with(t, "map["@)
        || starts_with(t, "func("@) || t == "error"@ {
        "nil"@
    } else {
        t + "{}"@
    }
}

fn is_number_name(t: &str) -> (r: bool)
    ensures
        r == is_go_number(t@),
{
    str_eq(t, "int") || str_eq(t, "int8") || str_eq(t, "int16") || str_eq(t, "int32") || str_eq(
        t,
        "int64",
    ) || str_eq(t, "uint") || str_eq(t, "uint8") || str_eq(t, "uint16") || str_eq(t, "uint32")
        || str_eq(t, "uint64") || str_eq(t, "float32") || str_eq(t, "float64") || str_eq(t, "byte")
        || str_eq(t, "rune")
}

pub fn zero_value_expr(ty: &str) -> (r: String)
    ensures
        r@ == zero_value(ty@),
{
    let g = render_type(ty);
    let tt = trim_string(g.as_str());
    let t = tt.as_str();
    if str_eq(t, "string") {
        str_to_string("\"\"")
    } else if str_eq(t, "bool") {
        str_to_string("false")
    } else if is_number_name(t) {
        str_to_string("0")
    } else if str_starts_with(t, "*") || str_starts_with(t, "[]") || str_starts_with(t, "map[")
        || str_starts_with(t, "func(") || str_eq(t, "error") {
        str_to_string("nil")
    } else {
        let mut r = str_to_string(t);
        push_str(&mut r, "{}");
        r
    }
}

/// `error("...")`: an error built in place.
pub open spec fn is_error_ctor(e: Seq<char>) -> bool {
    starts_with(trim(e), "error("@)
}

pub fn is_error_ctor_expr(e: &str) -> (r: bool)
    ensures
        r == is_error_ctor(e@),
{
    let t = trim_string(e);
    str_starts_with(t.as_str(), "error(")
}

/// The first `error(` written `errors.New(`.
pub open spec fn map_error_ctor(e: Seq<char>) -> Seq<char> {
    match first_occurrence(e, "error("@) {
        Some(i) => e.take(i) + "errors.New("@ + e.skip(i + 6),
        None => e,
    }
}

pub fn map_error_ctor_expr(e: &str) -> (r: String)
    ensures
        r@ == map_error_ctor(e@),
{
    let v = to_chars(e);
    let pat = to_chars("error(");
    proof {
        reveal_strlit("error(");
    }
    match find_from(&v, &pat, 0) {
        None => {
            assert(!(exists|i: int| occurs_at(e@, "error("@, i)));
            string_of(&v, 0, v.len())
        },
        Some(i) => {
            proof {
                lemma_first_occurrence(e@, "error("@, i as int);
            }
            assert(pat@.len() == 6);
            let n = v.len();
            assert(i + 6 <= n);
            let k: usize = i + 6;
            let mut r = string_of(&v, 0, i);
            push_str(&mut r, "errors.New(");
            push_range(&mut r, &v, k, n);
            assert(r@ =~= map_error_ctor(e@));
            r
        },
    }
}

pub open spec fn word_char(c: char) -> bool {
    ident_continue(c)
}

/// A plain name that holds an error: `err`, or one ending in `Err` or `Error`.
pub open spec fn is_error_value(e: Seq<char>) -> bool {
    let t = trim(e);
    (forall|i: int| 0 <= i < t.len() ==> word_char(#[trigger] t[i])) && (t == "err"@ || ends_with(
        t,
        "Err"@,
    ) || ends_with(t, "Error"@))
}

/// An expression that is itself an error: an `.Error` field, or an error variable.
pub open spec fn is_direct_error(e: Seq<char>) -> bool {
    ends_with(trim(e), ".Error"@) || is_error_value(trim(e))
}

fn all_word_chars(v: &Vec<char>) -> (r: bool)
    ensures
        r == forall|i: int| 0 <= i < v@.len() ==> word_char(#[trigger] v@[i]),
{
    let mut i: usize = 0;
    while i < v.len()
        invariant
            0 <= i <= v@.len(),
            forall|k: int| 0 <= k < i ==> word_char(#[trigger] v@[k]),
        decreases v@.len() - i,
    {
        if !is_ident_char(v[i]) {
            return false;
        }
        i = i + 1;
    }
    true
}

fn str_ends_with(s: &str, p: &str) -> (r: bool)
    ensures
        r == ends_with(s@, p@),
{
    let v = to_chars(s);
    let pv = to_chars(p);
    if pv.len() > v.len() {
        return false;
    }
    let r = crate::text::matches_at(&v, v.len() - pv.len(), &pv);
    assert(r == ends_with(s@, p@)) by {
        assert(v@.subrange(v@.len() - pv@.len(), v@.len() - pv@.len() + pv@.len()) =~= v@.subrange(
            v@.len() - pv@.len(),
            v@.len() as int,
        ));
    }
    r
}

pub fn is_error_value_expr(e: &str) -> (r: bool)
    ensures
        r == is_error_value(e@),
{
    let t = trim_string(e);
    let tv = to_chars(t.as_str());
    all_word_chars(&tv) && (str_eq(t.as_str(), "err") || str_ends_with(t.as_str(), "Err")
        || str_ends_with(t.as_str(), "Error"))
}

pub fn is_direct_error_expr(e: &str) -> (r: bool)
    ensures
        r == is_direct_error(e@),
{
    let t = trim_string(e);
    str_ends_with(t.as_str(), ".Error") || is_error_value_expr(t.as_str())
}

// ----- signatures -----

/// A function or method as code generation writes it.
pub struct FnSignature {
    pub name: String,
    pub type_params: Vec<String>,
    pub params: Vec<ParamDecl>,
    pub ret: ReturnType,
    pub receiver: Option<(String, String)>,
}

pub open spec fn receiver_view(r: Option<(String, String)>) -> Option<(Seq<char>, Seq<char>)> {
    match r {
        Some(p) => Some((p.0@, p.1@)),
        None => None,
    }
}

/// A signature as plain values.
pub struct SigView {
    pub name: Seq<char>,
    pub type_params: Seq<Seq<char>>,
    pub params: Seq<ParamDecl>,
    pub ret: ReturnType,
    pub receiver: Option<(Seq<char>, Seq<char>)>,
}

pub open spec fn sig_view(sig: FnSignature) -> SigView {
    SigView {
        name: sig.name@,
        type_params: views(sig.type_params@),
        params: sig.params@,
        ret: sig.ret,
        receiver: receiver_view(sig.receiver),
    }
}

pub open spec fn param_text(p: ParamDecl) -> Seq<char> {
    p.name@ + " "@ + go_type(p.ty.raw@)
}

pub open spec fn param_texts(ps: Seq<ParamDecl>) -> Seq<Seq<char>> {
    ps.map_values(|p: ParamDecl| param_text(p))
}

pub open spec fn param_names(ps: Seq<ParamDecl>) -> Seq<Seq<char>> {
    ps.map_values(|p: ParamDecl| p.name@)
}

/// `func (recv T) name[T any](p T, ...) RET`.
pub open spec fn signature_text(sig: SigView, go_name: Seq<char>) -> Seq<char> {
    let recv = match sig.receiver {
        Some(r) => "("@ + r.0 + " "@ + r.1 + ") "@,
        None => Seq::empty(),
    };
    let tps = if sig.receiver is Some {
        Seq::empty()
    } else {
        type_params_any(sig.type_params)
    };
    "func "@ + recv + go_name + tps + "("@ + join(param_texts(sig.params), ", "@) + ")"@
        + return_text(sig.ret)
}

/// `self.target` for a method, `target` for a function.
pub open spec fn call_target(sig: SigView, target: Seq<char>) -> Seq<char> {
    if sig.receiver is Some {
        "self."@ + target
    } else {
        target
    }
}

/// `callee(p1, p2)`: a call forwarding the parameters.
pub open spec fn call_value(sig: SigView, callee: Seq<char>) -> Seq<char> {
    callee + "("@ + join(param_names(sig.params), ", "@) + ")"@
}

pub open spec fn call_text(sig: SigView, target: Seq<char>) -> Seq<char> {
    call_value(sig, call_target(sig, target))
}

pub fn push_signature(out: &mut String, sig: &FnSignature, go_name: &str)
    ensures
        final(out)@ == old(out)@ + signature_text(sig_view(*sig), go_name@),
{
    let ghost start = out@;
    push_str(out, "func ");
    match &sig.receiver {
        Some((n, t)) => {
            push_str(out, "(");
            push_str(out, n.as_str());
            push_str(out, " ");
            push_str(out, t.as_str());
            push_str(out, ") ");
        },
        None => {},
    }
    push_str(out, go_name);
    let ghost mid = out@;
    if sig.receiver.is_none() {
        push_type_params(out, &sig.type_params, true);
    }
    push_str(out, "(");
    let ghost before_params = out@;
    let ghost texts = param_texts(sig.params@);
    let mut i: usize = 0;
    while i < sig.params.len()
        invariant
            0 <= i <= sig.params@.len(),
            texts == param_texts(sig.params@),
            out@ == before_params + join(texts.take(i as int), ", "@),
        decreases sig.params@.len() - i,
    {
        assert(texts.take(i + 1).drop_last() =~= texts.take(i as int));
        if i > 0 {
            push_str(out, ", ");
        } else {
            assert(texts.take(0) =~= Seq::<Seq<char>>::empty());
        }
        let p = &sig.params[i];
        push_str(out, p.name.as_str());
        push_str(out, " ");
        let g = render_type(p.ty.raw.as_str());
        push_str(out, g.as_str());
        i = i + 1;
    }
    assert(texts.take(sig.params@.len() as int) =~= texts);
    push_str(out, ")");
    push_return_type(out, &sig.ret);
    assert(final(out)@ =~= old(out)@ + signature_text(sig_view(*sig), go_name@));
}

/// Appends `callee(p1, p2)`.
pub fn push_call_value(out: &mut String, sig: &FnSignature, callee: &str)
    ensures
        final(out)@ == old(out)@ + call_value(sig_view(*sig), callee@),
{
    push_str(out, callee);
    push_str(out, "(");
    let ghost before = out@;
    let ghost names = param_names(sig.params@);
    let mut i: usize = 0;
    while i < sig.params.len()
        invariant
            0 <= i <= sig.params@.len(),
            names == param_names(sig.params@),
            out@ == before + join(names.take(i as int), ", "@),
        decreases sig.params@.len() - i,
    {
        assert(names.take(i + 1).drop_last() =~= names.take(i as int));
        if i > 0 {
            push_str(out, ", ");
        } else {
            assert(names.take(0) =~= Seq::<Seq<char>>::empty());
        }
        push_str(out, sig.params[i].name.as_str());
        i = i + 1;
    }
    assert(names.take(sig.params@.len() as int) =~= names);
    push_str(out, ")");
    assert(final(out)@ =~= old(out)@ + call_value(sig_view(*sig), callee@));
}

pub fn call_target_expr(sig: &FnSignature, target: &str) -> (r: String)
    ensures
        r@ == call_target(sig_view(*sig), target@),
{
    if sig.receiver.is_some() {
        let mut r = str_to_string("self.");
        push_str(&mut r, target);
        r
    } else {
        str_to_string(target)
    }
}

/// Appends a call of `target` (on `self` for a method) forwarding the parameters.
pub fn push_call(out: &mut String, sig: &FnSignature, target: &str)
    ensures
        final(out)@ == old(out)@ + call_text(sig_view(*sig), target@),
{
    let t = call_target_expr(sig, target);
    push_call_value(out, sig, t.as_str());
}

} // verus!
