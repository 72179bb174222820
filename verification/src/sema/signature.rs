//! Text-level checks on the types and arguments that decorators are written with.
use vstd::prelude::*;

use crate::text::{
    contains_seq, ends_with, first_index, lemma_first_index, starts_with, string_of, to_chars,
    trim, trim_bounds, trim_end, trim_start,
};

verus! {

/// The part of `t` after the opening `func(`, `fn(` or `(fn(`, tried in that order.
pub open spec fn strip_fn_prefix(t: Seq<char>) -> Option<Seq<char>> {
    if starts_with(t, "func("@) {
        Some(t.skip(5))
    } else if starts_with(t, "fn("@) {
        Some(t.skip(3))
    } else if starts_with(t, "(fn("@) {
        Some(t.skip(4))
    } else {
        None
    }
}

/// From position `i`, with `depth` parentheses open, the index of the `)` that closes
/// the outermost one.
pub open spec fn close_paren(s: Seq<char>, i: int, depth: nat) -> Option<int>
    decreases s.len() - i,
{
    if i < 0 || i >= s.len() {
        None
    } else if s[i] == '(' {
        close_paren(s, i + 1, depth + 1)
    } else if s[i] == ')' {
        if depth <= 1 {
            Some(i)
        } else {
            close_paren(s, i + 1, (depth - 1) as nat)
        }
    } else {
        close_paren(s, i + 1, depth)
    }
}

/// `func(PARAMS) RET` split into `PARAMS` and `RET`, a closing `)` of a `(fn(..) ..)`
/// taken off `RET`.
pub open spec fn func_type_parts(ty: Seq<char>) -> Option<(Seq<char>, Seq<char>)> {
    let t = trim(ty);
    match strip_fn_prefix(t) {
        None => None,
        Some(s) => match close_paren(s, 0, 1) {
            None => None,
            Some(e) => {
                let rest = trim(s.skip(e + 1));
                let rest2 = if ends_with(rest, ")"@) {
                    trim(rest.drop_last())
                } else {
                    rest
                };
                Some((s.take(e), rest2))
            },
        },
    }
}

pub open spec fn is_open_bracket(c: char) -> bool {
    c == '(' || c == '[' || c == '{' || c == '<'
}

pub open spec fn is_close_bracket(c: char) -> bool {
    c == ')' || c == ']' || c == '}' || c == '>'
}

/// Commas of `s[i..]` outside any bracket, `depth` brackets being open at `i`
/// (a closing bracket never takes the depth below zero).
pub open spec fn top_commas(s: Seq<char>, i: int, depth: nat) -> nat
    decreases s.len() - i,
{
    if i < 0 || i >= s.len() {
        0
    } else if is_open_bracket(s[i]) {
        top_commas(s, i + 1, depth + 1)
    } else if is_close_bracket(s[i]) {
        top_commas(s, i + 1, if depth > 0 { (depth - 1) as nat } else { 0 })
    } else if s[i] == ',' && depth == 0 {
        1 + top_commas(s, i + 1, depth)
    } else {
        top_commas(s, i + 1, depth)
    }
}

/// Number of parameters in the text between the parentheses of a function type.
pub open spec fn param_count(params: Seq<char>) -> nat {
    let t = trim(params);
    if t.len() == 0 {
        0
    } else {
        1 + top_commas(t, 0, 0)
    }
}

proof fn lemma_close_paren_bound(s: Seq<char>, i: int, depth: nat)
    requires
        0 <= i,
    ensures
        close_paren(s, i, depth) matches Some(e) ==> i <= e < s.len() && s[e] == ')',
    decreases s.len() - i,
{
    if i < s.len() {
        if s[i] == '(' {
            lemma_close_paren_bound(s, i + 1, depth + 1);
        } else if s[i] == ')' {
            if depth > 1 {
                lemma_close_paren_bound(s, i + 1, (depth - 1) as nat);
            }
        } else {
            lemma_close_paren_bound(s, i + 1, depth);
        }
    }
}

/// Length of the `func(`, `fn(` or `(fn(` that `v[a..b]` begins with, or zero.
fn fn_prefix_len(v: &Vec<char>, a: usize, b: usize) -> (k: usize)
    requires
        a <= b <= v@.len(),
    ensures
        k == 0 ==> strip_fn_prefix(v@.subrange(a as int, b as int)) is None,
        k > 0 ==> 3 <= k <= 5 && k <= b - a && strip_fn_prefix(v@.subrange(a as int, b as int))
            == Some(v@.subrange(a as int, b as int).skip(k as int)),
{
    let ghost t = v@.subrange(a as int, b as int);
    let n = b - a;
    proof {
        reveal_strlit("func(");
        reveal_strlit("fn(");
        reveal_strlit("(fn(");
    }
    if n >= 5 && v[a] == 'f' && v[a + 1] == 'u' && v[a + 2] == 'n' && v[a + 3] == 'c' && v[a
        + 4] == '(' {
        assert(t.subrange(0, 5) =~= "func("@);
        return 5;
    }
    proof {
        if starts_with(t, "func("@) {
            assert(t.subrange(0, 5)[0] == 'f' && t.subrange(0, 5)[1] == 'u' && t.subrange(0, 5)[2]
                == 'n' && t.subrange(0, 5)[3] == 'c' && t.subrange(0, 5)[4] == '(');
        }
    }
    if n >= 3 && v[a] == 'f' && v[a + 1] == 'n' && v[a + 2] == '(' {
        assert(t.subrange(0, 3) =~= "fn("@);
        return 3;
    }
    proof {
        if starts_with(t, "fn("@) {
            assert(t.subrange(0, 3)[0] == 'f' && t.subrange(0, 3)[1] == 'n' && t.subrange(0, 3)[2]
                == '(');
        }
    }
    if n >= 4 && v[a] == '(' && v[a + 1] == 'f' && v[a + 2] == 'n' && v[a + 3] == '(' {
        assert(t.subrange(0, 4) =~= "(fn("@);
        return 4;
    }
    proof {
        if starts_with(t, "(fn("@) {
            assert(t.subrange(0, 4)[0] == '(' && t.subrange(0, 4)[1] == 'f' && t.subrange(0, 4)[2]
                == 'n' && t.subrange(0, 4)[3] == '(');
        }
    }
    0
}

/// Index in `v[start..b]` of the `)` that closes a parenthesis open before `start`.
fn find_close_paren(v: &Vec<char>, start: usize, b: usize) -> (r: Option<usize>)
    requires
        1 <= start <= b <= v@.len(),
    ensures
        r matches Some(i) ==> start <= i < b && close_paren(
            v@.subrange(start as int, b as int),
            0,
            1,
        ) == Some(i - start),
        r is None ==> close_paren(v@.subrange(start as int, b as int), 0, 1) is None,
{
    let ghost s = v@.subrange(start as int, b as int);
    let mut depth: usize = 1;
    let mut i = start;
    while i < b
        invariant
            1 <= start <= i <= b <= v@.len(),
            s == v@.subrange(start as int, b as int),
            1 <= depth <= i - start + 1,
            close_paren(s, 0, 1) == close_paren(s, i - start, depth as nat),
        decreases b - i,
    {
        let c = v[i];
        assert(s[i - start] == c);
        if c == '(' {
            depth = depth + 1;
        } else if c == ')' {
            if depth <= 1 {
                return Some(i);
            }
            depth = depth - 1;
        }
        i = i + 1;
    }
    None
}

/// Parses a function type written `func(...) ...`, `fn(...) ...` or `(fn(...) ...)` into
/// its parameter text and its return text.
pub fn parse_func_type_parts(ty: &str) -> (r: Option<(String, String)>)
    ensures
        r matches Some(p) ==> func_type_parts(ty@) == Some((p.0@, p.1@)) && p.0@.len()
            < usize::MAX,
        r is None ==> func_type_parts(ty@) is None,
{
    let v = to_chars(ty);
    let (a, b) = trim_bounds(&v, 0, v.len());
    assert(v@.subrange(0, v@.len() as int) =~= v@);
    let ghost t = v@.subrange(a as int, b as int);
    let skip = fn_prefix_len(&v, a, b);
    if skip == 0 {
        return None;
    }
    let ghost s = t.skip(skip as int);
    let start = a + skip;
    assert(s =~= v@.subrange(start as int, b as int));
    let i = match find_close_paren(&v, start, b) {
        None => {
            return None;
        },
        Some(i) => i,
    };
    let e = i - start;
    let params = string_of(&v, start, i);
    assert(params@ =~= s.take(e as int));
    let (ra, rb) = trim_bounds(&v, i + 1, b);
    assert(v@.subrange(i + 1, b as int) =~= s.skip(e + 1));
    let ghost rest = v@.subrange(ra as int, rb as int);
    proof {
        reveal_strlit(")");
    }
    if rb > ra && v[rb - 1] == ')' {
        assert(rest.subrange(rest.len() - 1, rest.len() as int) =~= ")"@);
        assert(rest.drop_last() =~= v@.subrange(ra as int, rb - 1));
        let (qa, qb) = trim_bounds(&v, ra, rb - 1);
        let ret = string_of(&v, qa, qb);
        Some((params, ret))
    } else {
        proof {
            if ends_with(rest, ")"@) {
                assert(rest.subrange(rest.len() - 1, rest.len() as int)[0] == ')');
            }
        }
        let ret = string_of(&v, ra, rb);
        Some((params, ret))
    }
}

/// Number of parameters in the text between the parentheses of a function type: zero for
/// blank text, else one more than the commas outside brackets.
pub fn count_func_params(params: &str) -> (r: usize)
    requires
        params@.len() < usize::MAX,
    ensures
        r == param_count(params@),
{
    let v = to_chars(params);
    let (a, b) = trim_bounds(&v, 0, v.len());
    assert(v@.subrange(0, v@.len() as int) =~= v@);
    let ghost t = v@.subrange(a as int, b as int);
    if a == b {
        return 0;
    }
    let mut commas: usize = 0;
    let mut depth: usize = 0;
    let mut i = a;
    while i < b
        invariant
            a <= i <= b <= v@.len(),
            t == v@.subrange(a as int, b as int),
            commas <= i - a,
            depth <= i - a,
            top_commas(t, 0, 0) == commas + top_commas(t, i - a, depth as nat),
        decreases b - i,
    {
        let c = v[i];
        assert(t[i - a] == c);
        if c == '(' || c == '[' || c == '{' || c == '<' {
            depth = depth + 1;
        } else if c == ')' || c == ']' || c == '}' || c == '>' {
            if depth > 0 {
                depth = depth - 1;
            }
        } else if c == ',' && depth == 0 {
            commas = commas + 1;
        }
        i = i + 1;
    }
    commas + 1
}

/// `s` with every `_` taken out.
pub open spec fn without_underscores(s: Seq<char>) -> Seq<char>
    decreases s.len(),
{
    if s.len() == 0 {
        s
    } else if s.last() == '_' {
        without_underscores(s.drop_last())
    } else {
        without_underscores(s.drop_last()).push(s.last())
    }
}

pub open spec fn is_ascii_digit(c: char) -> bool {
    '0' <= c && c <= '9'
}

/// The value of a run of decimal digits.
pub open spec fn digits_value(s: Seq<char>) -> nat
    decreases s.len(),
{
    if s.len() == 0 {
        0
    } else {
        digits_value(s.drop_last()) * 10 + ((s.last() as u32 - '0' as u32) as nat)
    }
}

/// The digits of an unsigned number: the text after a leading `+`.
pub open spec fn unsigned_digits(s: Seq<char>) -> Seq<char> {
    if s.len() > 0 && s[0] == '+' {
        s.drop_first()
    } else {
        s
    }
}

pub open spec fn all_ascii_digits(d: Seq<char>) -> bool {
    forall|i: int| 0 <= i < d.len() ==> is_ascii_digit(#[trigger] d[i])
}

/// `str::parse::<u64>`: an optional `+`, then one or more ASCII digits whose value fits.
pub open spec fn parse_u64(s: Seq<char>) -> Option<nat> {
    if unsigned_digits(s).len() == 0 || !all_ascii_digits(unsigned_digits(s)) {
        None
    } else if digits_value(unsigned_digits(s)) > u64::MAX {
        None
    } else {
        Some(digits_value(unsigned_digits(s)))
    }
}

/// The positive integer written by `text` (blanks around it and `_` inside it ignored).
pub open spec fn positive_int(text: Seq<char>) -> Option<nat> {
    match parse_u64(without_underscores(trim(text))) {
        Some(v) => if v > 0 {
            Some(v)
        } else {
            None
        },
        None => None,
    }
}

proof fn lemma_digits_value_grows(s: Seq<char>, i: int)
    requires
        0 <= i <= s.len(),
        forall|k: int| 0 <= k < s.len() ==> is_ascii_digit(s[k]),
    ensures
        digits_value(s.take(i)) <= digits_value(s),
    decreases s.len() - i,
{
    if i < s.len() {
        lemma_digits_value_grows(s, i + 1);
        assert(s.take(i + 1).drop_last() =~= s.take(i));
        assert(digits_value(s.take(i + 1)) >= digits_value(s.take(i))) by (nonlinear_arith)
            requires
                digits_value(s.take(i + 1)) == digits_value(s.take(i)) * 10 + ((s.take(
                    i + 1,
                ).last() as u32 - '0' as u32) as nat),
        ;
    } else {
        assert(s.take(i) =~= s);
    }
}

/// `str::parse::<u64>` on the chars of `c`.
fn parse_u64_chars(cleaned: &Vec<char>) -> (r: Option<u64>)
    ensures
        r matches Some(x) ==> parse_u64(cleaned@) == Some(x as nat),
        r is None ==> parse_u64(cleaned@) is None,
{
    let ghost c = cleaned@;
    let n = cleaned.len();
    let mut k: usize = 0;
    if n > 0 && cleaned[0] == '+' {
        k = 1;
    }
    let ghost d = unsigned_digits(c);
    assert(d =~= c.skip(k as int));
    if k == n {
        return None;
    }
    let mut value: u64 = 0;
    let mut j = k;
    while j < n
        invariant
            k <= j <= n,
            n == c.len(),
            c == cleaned@,
            d == c.skip(k as int),
            d == unsigned_digits(c),
            forall|q: int| 0 <= q < j - k ==> is_ascii_digit(d[q]),
            value == digits_value(d.take(j - k)),
        decreases n - j,
    {
        let ch = cleaned[j];
        assert(d[j - k] == ch);
        if !('0' <= ch && ch <= '9') {
            assert(!is_ascii_digit(d[j - k]));
            assert(!all_ascii_digits(d));
            return None;
        }
        let digit: u64 = (ch as u32 - '0' as u32) as u64;
        assert(d.take(j - k + 1).drop_last() =~= d.take(j - k));
        assert(d.take(j - k + 1).last() == ch);
        assert(digits_value(d.take(j - k + 1)) == value * 10 + digit);
        let next = match value.checked_mul(10) {
            None => None,
            Some(m) => m.checked_add(digit),
        };
        match next {
            None => {
                if forall_digits(cleaned, j + 1) {
                    proof {
                        assert forall|q: int| 0 <= q < d.len() implies is_ascii_digit(d[q]) by {
                            if q >= j - k {
                                assert(d[q] == c[q + k]);
                            }
                        }
                        lemma_digits_value_grows(d, j - k + 1);
                    }
                } else {
                    proof {
                        let q = choose|q: int| j + 1 <= q < cleaned@.len() && !is_ascii_digit(
                            cleaned@[q],
                        );
                        assert(d[q - k] == c[q]);
                        assert(!is_ascii_digit(d[q - k]));
                        assert(!all_ascii_digits(d));
                    }
                }
                return None;
            },
            Some(s) => {
                value = s;
            },
        }
        j = j + 1;
    }
    assert(d.take(n - k) =~= d);
    Some(value)
}

/// `text.trim().replace('_', "").parse::<u64>()`.
pub(crate) fn parse_u64_text(text: &str) -> (r: Option<u64>)
    ensures
        r matches Some(v) ==> parse_u64(without_underscores(trim(text@))) == Some(v as nat),
        r is None ==> parse_u64(without_underscores(trim(text@))) is None,
{
    let v = to_chars(text);
    let (a, b) = trim_bounds(&v, 0, v.len());
    assert(v@.subrange(0, v@.len() as int) =~= v@);
    let ghost t = v@.subrange(a as int, b as int);
    let mut cleaned: Vec<char> = Vec::new();
    let mut i = a;
    while i < b
        invariant
            a <= i <= b <= v@.len(),
            t == v@.subrange(a as int, b as int),
            cleaned@ == without_underscores(t.take(i - a)),
        decreases b - i,
    {
        assert(t.take(i - a + 1).drop_last() =~= t.take(i - a));
        assert(t.take(i - a + 1).last() == v@[i as int]);
        if v[i] != '_' {
            cleaned.push(v[i]);
        }
        i = i + 1;
    }
    assert(t.take(b - a) =~= t);
    parse_u64_chars(&cleaned)
}

/// `text.trim().replace('_', "").parse::<u64>()`, kept only when positive.
pub fn parse_positive_int(text: &str) -> (r: Option<u64>)
    ensures
        r matches Some(v) ==> positive_int(text@) == Some(v as nat),
        r is None ==> positive_int(text@) is None,
{
    match parse_u64_text(text) {
        Some(x) => {
            if x == 0 {
                None
            } else {
                Some(x)
            }
        },
        None => None,
    }
}

/// Every char of `v[from..]` is an ASCII digit.
fn forall_digits(v: &Vec<char>, from: usize) -> (r: bool)
    requires
        from <= v@.len(),
    ensures
        r == forall|q: int| from <= q < v@.len() ==> is_ascii_digit(v@[q]),
{
    let mut i = from;
    while i < v.len()
        invariant
            from <= i <= v@.len(),
            forall|q: int| from <= q < i ==> is_ascii_digit(v@[q]),
        decreases v@.len() - i,
    {
        if !('0' <= v[i] && v[i] <= '9') {
            return false;
        }
        i = i + 1;
    }
    true
}

/// A type that Go can compare with `==`: not a slice, map or function, holding no `[]`.
pub open spec fn comparable_type(ty: Seq<char>) -> bool {
    let t = trim(ty);
    !starts_with(t, "[]"@) && !starts_with(t, "map["@) && !starts_with(t, "func("@)
        && !starts_with(t, "fn("@) && !starts_with(t, "(fn("@) && !contains_seq(t, "[]"@)
}

/// Whether a `@memoize` parameter of type `ty` can be a map key.
pub fn is_comparable_type(ty: &str) -> (r: bool)
    ensures
        r == comparable_type(ty@),
{
    let t = crate::text::trim_string(ty);
    let ts = t.as_str();
    !crate::text::str_starts_with(ts, "[]") && !crate::text::str_starts_with(ts, "map[")
        && !crate::text::str_starts_with(ts, "func(") && !crate::text::str_starts_with(ts, "fn(")
        && !crate::text::str_starts_with(ts, "(fn(") && !crate::text::str_contains(ts, "[]")
}

/// The text before the first `<`, trimmed: the name of a generic type.
pub open spec fn base_name(s: Seq<char>) -> Seq<char> {
    trim(s.take(first_index(s, '<') as int))
}

/// `Result<int>` gives `Result`.
pub fn base_enum_name(input: &str) -> (r: String)
    ensures
        r@ == base_name(input@),
{
    let v = to_chars(input);
    let mut k: usize = 0;
    while k < v.len() && v[k] != '<'
        invariant
            0 <= k <= v@.len(),
            forall|j: int| 0 <= j < k ==> v@[j] != '<',
        decreases v@.len() - k,
    {
        k = k + 1;
    }
    proof {
        lemma_first_index(v@, '<', k as int);
    }
    let (a, b) = trim_bounds(&v, 0, k);
    assert(v@.subrange(0, k as int) =~= v@.take(k as int));
    string_of(&v, a, b)
}

} // verus!
