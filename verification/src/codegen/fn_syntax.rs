//! GoPlus function types and literals, `fn(name: T, ...) -> R`, written as Go writes them:
//! `func(name T, ...) R`, with `-> !` as `error` and `-> R!` as `(R, error)`.
use vstd::prelude::*;

use crate::codegen::types::{
    ascii_ws, generic_syntax, ident_continue, is_ascii_ws, is_ident_char, lemma_skip_ws,
    push_generic_syntax, sat_dec, skip_ws,
};
use crate::text::{
    ends_with, join, push_range, push_str, str_to_string, string_of, to_chars, trim, trim_bounds,
    views,
};

verus! {

// ----- finding `fn(...) -> R` -----

/// No identifier char just before `i`.
pub open spec fn boundary_before(s: Seq<char>, i: int) -> bool {
    i == 0 || !ident_continue(s[i - 1])
}

/// No identifier char at `i`.
pub open spec fn boundary_after(s: Seq<char>, i: int) -> bool {
    i >= s.len() || !ident_continue(s[i])
}

/// Scanning from `i` with `depth` parentheses open: where the count first falls back to none.
pub open spec fn paren_close(s: Seq<char>, i: int, depth: nat) -> Option<int>
    decreases s.len() - i,
{
    if i < 0 || i >= s.len() {
        None
    } else if s[i] == '(' {
        paren_close(s, i + 1, depth + 1)
    } else if s[i] == ')' {
        if sat_dec(depth) == 0 {
            Some(i)
        } else {
            paren_close(s, i + 1, sat_dec(depth))
        }
    } else {
        paren_close(s, i + 1, depth)
    }
}

/// The depths of `(`, `[`, `{` and `<` while scanning a type.
pub struct Depths {
    pub paren: nat,
    pub bracket: nat,
    pub brace: nat,
    pub angle: nat,
}

pub open spec fn at_top(d: Depths) -> bool {
    d.paren == 0 && d.bracket == 0 && d.brace == 0 && d.angle == 0
}

/// Where a type that starts at `i` ends: at an unmatched `)`, or, outside all brackets, at
/// `{`, `,`, `;` or a line break; else at the end of the text.
pub open spec fn segment_end(s: Seq<char>, i: int, d: Depths) -> int
    decreases s.len() - i,
{
    if i < 0 || i >= s.len() {
        i
    } else {
        let c = s[i];
        if c == '(' {
            segment_end(s, i + 1, Depths { paren: d.paren + 1, ..d })
        } else if c == ')' {
            if d.paren > 0 {
                segment_end(s, i + 1, Depths { paren: (d.paren - 1) as nat, ..d })
            } else if d.bracket == 0 && d.brace == 0 && d.angle == 0 {
                i
            } else {
                segment_end(s, i + 1, d)
            }
        } else if c == '[' {
            segment_end(s, i + 1, Depths { bracket: d.bracket + 1, ..d })
        } else if c == ']' {
            segment_end(s, i + 1, Depths { bracket: sat_dec(d.bracket), ..d })
        } else if c == '{' {
            if at_top(d) {
                i
            } else {
                segment_end(s, i + 1, Depths { brace: d.brace + 1, ..d })
            }
        } else if c == '}' {
            segment_end(s, i + 1, Depths { brace: sat_dec(d.brace), ..d })
        } else if c == '<' {
            segment_end(s, i + 1, Depths { angle: d.angle + 1, ..d })
        } else if c == '>' {
            segment_end(s, i + 1, Depths { angle: sat_dec(d.angle), ..d })
        } else if c == ',' || c == ';' || c == '\n' || c == '\r' {
            if at_top(d) {
                i
            } else {
                segment_end(s, i + 1, d)
            }
        } else {
            segment_end(s, i + 1, d)
        }
    }
}

pub open spec fn no_depth() -> Depths {
    Depths { paren: 0, bracket: 0, brace: 0, angle: 0 }
}

/// Where the parts of a `fn(...) -> R` lie.
pub struct Site {
    pub params_start: int,
    pub params_end: int,
    pub ret_start: int,
    pub ret_end: int,
}

/// A `fn` at `i` (a word of its own) followed by `(params)`, `->` and a return type.
pub open spec fn site_at(s: Seq<char>, i: int) -> Option<Site> {
    if !(0 <= i && i + 1 < s.len() && s[i] == 'f' && s[i + 1] == 'n' && boundary_before(s, i)
        && boundary_after(s, i + 2)) {
        None
    } else {
        let j = skip_ws(s, i + 2);
        if j >= s.len() || s[j] != '(' {
            None
        } else {
            match paren_close(s, j, 0) {
                None => None,
                Some(pe) => {
                    let k = skip_ws(s, pe + 1);
                    if k + 1 >= s.len() || !(s[k] == '-' && s[k + 1] == '>') {
                        None
                    } else {
                        let rs = skip_ws(s, k + 2);
                        Some(
                            Site {
                                params_start: j + 1,
                                params_end: pe,
                                ret_start: rs,
                                ret_end: segment_end(s, rs, no_depth()),
                            },
                        )
                    }
                },
            }
        }
    }
}

/// The first such function type from `i` on.
pub open spec fn first_site(s: Seq<char>, i: int) -> Option<(int, Site)>
    decreases s.len() - i,
{
    if i < 0 || i + 1 >= s.len() {
        None
    } else {
        match site_at(s, i) {
            Some(x) => Some((i, x)),
            None => first_site(s, i + 1),
        }
    }
}

// ----- splitting a parameter list -----

pub open spec fn step_depths(c: char, d: Depths) -> Depths {
    if c == '(' {
        Depths { paren: d.paren + 1, ..d }
    } else if c == ')' {
        Depths { paren: sat_dec(d.paren), ..d }
    } else if c == '[' {
        Depths { bracket: d.bracket + 1, ..d }
    } else if c == ']' {
        Depths { bracket: sat_dec(d.bracket), ..d }
    } else if c == '{' {
        Depths { brace: d.brace + 1, ..d }
    } else if c == '}' {
        Depths { brace: sat_dec(d.brace), ..d }
    } else if c == '<' {
        Depths { angle: d.angle + 1, ..d }
    } else if c == '>' {
        Depths { angle: sat_dec(d.angle), ..d }
    } else {
        d
    }
}

/// The depths after reading `s`.
pub open spec fn depths_of(s: Seq<char>) -> Depths
    decreases s.len(),
{
    if s.len() == 0 {
        no_depth()
    } else {
        step_depths(s.last(), depths_of(s.drop_last()))
    }
}

/// `c` at `i` lies outside every bracket.
pub open spec fn top_level_at(s: Seq<char>, i: int, c: char) -> bool {
    s[i] == c && at_top(depths_of(s.take(i + 1)))
}

/// `s` cut at each top-level `delim` (the pieces between them, the last one included).
pub open spec fn split_top(s: Seq<char>, delim: char) -> Seq<Seq<char>>
    decreases s.len(),
{
    if s.len() == 0 {
        seq![Seq::empty()]
    } else {
        let prev = split_top(s.drop_last(), delim);
        if top_level_at(s, s.len() - 1, delim) {
            prev.push(Seq::empty())
        } else {
            prev.update(prev.len() - 1, prev.last().push(s.last()))
        }
    }
}

/// The first top-level `c` in `s`.
pub open spec fn first_top_level(s: Seq<char>, c: char) -> Option<int> {
    if exists|i: int| 0 <= i < s.len() && top_level_at(s, i, c) {
        Some(
            choose|i: int|
                0 <= i < s.len() && top_level_at(s, i, c) && forall|j: int|
                    0 <= j < i ==> !top_level_at(s, j, c),
        )
    } else {
        None
    }
}

// ----- rewriting -----

/// A type with its function types rewritten, then `Name<T>` written `Name[T]`.
pub open spec fn normalize_type(raw: Seq<char>, fuel: nat) -> Seq<char>
    decreases fuel, 1nat, 0nat,
{
    generic_syntax(fn_fix(trim(raw), fuel))
}

/// One parameter: `name: T` as `name T'`, `: T` and `T` as `T'`; a blank one is dropped.
pub open spec fn param_piece(seg: Seq<char>, fuel: nat) -> Option<Seq<char>>
    decreases fuel, 2nat, 0nat,
{
    let t = trim(seg);
    if t.len() == 0 {
        None
    } else {
        match first_top_level(t, ':') {
            Some(c) => {
                let name = trim(t.take(c));
                let ty = trim(t.skip(c + 1));
                if name.len() == 0 {
                    Some(normalize_type(ty, fuel))
                } else {
                    Some(name + " "@ + normalize_type(ty, fuel))
                }
            },
            None => Some(normalize_type(t, fuel)),
        }
    }
}

pub open spec fn param_pieces(segs: Seq<Seq<char>>, fuel: nat) -> Seq<Seq<char>>
    decreases fuel, 3nat, segs.len(),
{
    if segs.len() == 0 {
        Seq::empty()
    } else {
        let prev = param_pieces(segs.drop_last(), fuel);
        match param_piece(segs.last(), fuel) {
            Some(p) => prev.push(p),
            None => prev,
        }
    }
}

pub open spec fn params_go(raw: Seq<char>, fuel: nat) -> Seq<char>
    decreases fuel, 4nat, 0nat,
{
    join(param_pieces(split_top(raw, ','), fuel), ", "@)
}

/// The result part: `!` as `error`, `R!` as `(R', error)`, `R` as `R'`.
pub open spec fn ret_go(raw: Seq<char>, fuel: nat) -> Seq<char>
    decreases fuel, 2nat, 0nat,
{
    let t = trim(raw);
    if t =~= seq!['!'] {
        "error"@
    } else if t.len() > 0 && t.last() == '!' {
        let v = trim(t.drop_last());
        if v.len() == 0 {
            "error"@
        } else {
            "("@ + normalize_type(v, fuel) + ", error)"@
        }
    } else {
        normalize_type(t, fuel)
    }
}

pub open spec fn rewrite_site(s: Seq<char>, i: int, x: Site, fuel: nat) -> Seq<char>
    decreases fuel, 5nat, 0nat,
{
    s.take(i) + "func("@ + params_go(s.subrange(x.params_start, x.params_end), fuel) + ") "@
        + ret_go(s.subrange(x.ret_start, x.ret_end), fuel) + s.skip(x.ret_end)
}

/// Rewrites the first function type, then the next, while there is one (at most `fuel`
/// times).
pub open spec fn fn_fix(s: Seq<char>, fuel: nat) -> Seq<char>
    decreases fuel, 0nat, 0nat,
{
    if fuel == 0 {
        s
    } else {
        match first_site(s, 0) {
            None => s,
            Some((i, x)) => fn_fix(rewrite_site(s, i, x, (fuel - 1) as nat), (fuel - 1) as nat),
        }
    }
}

/// The rewriting, repeated until nothing changes; the bound is one that no text reaches.
pub open spec fn fn_syntax(s: Seq<char>) -> Seq<char> {
    fn_fix(s, usize::MAX as nat)
}

// ----- scanning -----

fn skip_ascii_ws(v: &Vec<char>, i: usize) -> (r: usize)
    requires
        i <= v@.len(),
    ensures
        r == skip_ws(v@, i as int),
        i <= r <= v@.len(),
{
    proof {
        lemma_skip_ws(v@, i as int);
    }
    let mut j = i;
    while j < v.len() && is_ascii_ws(v[j])
        invariant
            i <= j <= v@.len(),
            skip_ws(v@, i as int) == skip_ws(v@, j as int),
        decreases v@.len() - j,
    {
        j = j + 1;
    }
    j
}

fn paren_close_exec(v: &Vec<char>, open: usize) -> (r: Option<usize>)
    requires
        open < v@.len(),
        v@[open as int] == '(',
    ensures
        match r {
            Some(c) => paren_close(v@, open as int, 0) == Some(c as int) && open < c < v@.len(),
            None => paren_close(v@, open as int, 0) is None,
        },
{
    let mut i = open;
    let mut depth: usize = 0;
    while i < v.len()
        invariant
            open <= i <= v@.len(),
            v@[open as int] == '(',
            depth <= i - open,
            paren_close(v@, open as int, 0) == paren_close(v@, i as int, depth as nat),
        decreases v@.len() - i,
    {
        let c = v[i];
        if c == '(' {
            depth = depth + 1;
        } else if c == ')' {
            let d = if depth > 0 {
                depth - 1
            } else {
                0
            };
            if d == 0 {
                return Some(i);
            }
            depth = d;
        }
        i = i + 1;
    }
    None
}

fn segment_end_exec(v: &Vec<char>, start: usize) -> (r: usize)
    requires
        start <= v@.len(),
    ensures
        r == segment_end(v@, start as int, no_depth()),
        start <= r <= v@.len(),
{
    let mut i = start;
    let mut paren: usize = 0;
    let mut bracket: usize = 0;
    let mut brace: usize = 0;
    let mut angle: usize = 0;
    while i < v.len()
        invariant
            start <= i <= v@.len(),
            paren <= i - start,
            bracket <= i - start,
            brace <= i - start,
            angle <= i - start,
            segment_end(v@, start as int, no_depth()) == segment_end(
                v@,
                i as int,
                Depths {
                    paren: paren as nat,
                    bracket: bracket as nat,
                    brace: brace as nat,
                    angle: angle as nat,
                },
            ),
        decreases v@.len() - i,
    {
        let c = v[i];
        let top = paren == 0 && bracket == 0 && brace == 0 && angle == 0;
        if c == '(' {
            paren = paren + 1;
        } else if c == ')' {
            if paren > 0 {
                paren = paren - 1;
            } else if bracket == 0 && brace == 0 && angle == 0 {
                return i;
            }
        } else if c == '[' {
            bracket = bracket + 1;
        } else if c == ']' {
            if bracket > 0 {
                bracket = bracket - 1;
            }
        } else if c == '{' {
            if top {
                return i;
            }
            brace = brace + 1;
        } else if c == '}' {
            if brace > 0 {
                brace = brace - 1;
            }
        } else if c == '<' {
            angle = angle + 1;
        } else if c == '>' {
            if angle > 0 {
                angle = angle - 1;
            }
        } else if c == ',' || c == ';' || c == '\n' || c == '\r' {
            if top {
                return i;
            }
        }
        i = i + 1;
    }
    i
}

/// The function type at `i`, if one starts there: where its parameters and its result lie.
fn site_at_exec(v: &Vec<char>, i: usize) -> (r: Option<(usize, usize, usize, usize)>)
    requires
        i < v@.len(),
    ensures
        match r {
            Some((a, b, c, d)) => site_at(v@, i as int) == Some(
                Site { params_start: a as int, params_end: b as int, ret_start: c as int, ret_end: d as int },
            ) && a <= b <= v@.len() && c <= d <= v@.len() && i < a && b < c,
            None => site_at(v@, i as int) is None,
        },
{
    if !(v.len() - i > 1 && v[i] == 'f' && v[i + 1] == 'n') {
        return None;
    }
    let before = i == 0 || !is_ident_char(v[i - 1]);
    let after = i + 2 >= v.len() || !is_ident_char(v[i + 2]);
    if !(before && after) {
        return None;
    }
    let j = skip_ascii_ws(v, i + 2);
    if j >= v.len() || v[j] != '(' {
        return None;
    }
    let pe = match paren_close_exec(v, j) {
        Some(pe) => pe,
        None => {
            return None;
        },
    };
    let k = skip_ascii_ws(v, pe + 1);
    if v.len() - k < 2 || !(v[k] == '-' && v[k + 1] == '>') {
        return None;
    }
    let rs = skip_ascii_ws(v, k + 2);
    let re = segment_end_exec(v, rs);
    Some((j + 1, pe, rs, re))
}

fn first_site_exec(v: &Vec<char>) -> (r: Option<(usize, (usize, usize, usize, usize))>)
    ensures
        match r {
            Some((i, (a, b, c, d))) => first_site(v@, 0) == Some(
                (
                    i as int,
                    Site {
                        params_start: a as int,
                        params_end: b as int,
                        ret_start: c as int,
                        ret_end: d as int,
                    },
                ),
            ) && i < a <= b < c <= d <= v@.len(),
            None => first_site(v@, 0) is None,
        },
{
    let mut i: usize = 0;
    while v.len() - i > 1
        invariant
            0 <= i <= v@.len(),
            first_site(v@, 0) == first_site(v@, i as int),
        decreases v@.len() - i,
    {
        match site_at_exec(v, i) {
            Some(x) => {
                return Some((i, x));
            },
            None => {},
        }
        i = i + 1;
    }
    None
}

pub open spec fn depths_view(p: usize, b: usize, br: usize, a: usize) -> Depths {
    Depths { paren: p as nat, bracket: b as nat, brace: br as nat, angle: a as nat }
}

/// The depth counters after one more char, as `step_depths` has them.
fn step_exec(c: char, p: usize, b: usize, br: usize, a: usize, Ghost(bound): Ghost<nat>) -> (r: (
    usize,
    usize,
    usize,
    usize,
))
    requires
        p <= bound,
        b <= bound,
        br <= bound,
        a <= bound,
        bound < usize::MAX,
    ensures
        depths_view(r.0, r.1, r.2, r.3) == step_depths(c, depths_view(p, b, br, a)),
        r.0 <= bound + 1,
        r.1 <= bound + 1,
        r.2 <= bound + 1,
        r.3 <= bound + 1,
{
    if c == '(' {
        (p + 1, b, br, a)
    } else if c == ')' {
        (if p > 0 {
            p - 1
        } else {
            0
        }, b, br, a)
    } else if c == '[' {
        (p, b + 1, br, a)
    } else if c == ']' {
        (p, if b > 0 {
            b - 1
        } else {
            0
        }, br, a)
    } else if c == '{' {
        (p, b, br + 1, a)
    } else if c == '}' {
        (p, b, if br > 0 {
            br - 1
        } else {
            0
        }, a)
    } else if c == '<' {
        (p, b, br, a + 1)
    } else if c == '>' {
        (p, b, br, if a > 0 {
            a - 1
        } else {
            0
        })
    } else {
        (p, b, br, a)
    }
}

proof fn lemma_depths_take(s: Seq<char>, i: int)
    requires
        0 <= i < s.len(),
    ensures
        depths_of(s.take(i + 1)) == step_depths(s[i], depths_of(s.take(i))),
{
    assert(s.take(i + 1).drop_last() =~= s.take(i));
}

/// The pieces of `v` between its top-level `delim`s.
fn split_top_exec(v: &Vec<char>, delim: char) -> (r: Vec<String>)
    ensures
        views(r@) == split_top(v@, delim),
{
    let mut parts: Vec<String> = Vec::new();
    let mut cur = String::new();
    let (mut p, mut b, mut br, mut a): (usize, usize, usize, usize) = (0, 0, 0, 0);
    let mut i: usize = 0;
    assert(v@.take(0) =~= Seq::<char>::empty());
    assert(views(parts@).push(cur@) =~= split_top(v@.take(0), delim));
    while i < v.len()
        invariant
            0 <= i <= v@.len(),
            p <= i && b <= i && br <= i && a <= i,
            depths_view(p, b, br, a) == depths_of(v@.take(i as int)),
            views(parts@).push(cur@) == split_top(v@.take(i as int), delim),
        decreases v@.len() - i,
    {
        let c = v[i];
        proof {
            lemma_depths_take(v@, i as int);
            assert(v@.take(i + 1).drop_last() =~= v@.take(i as int));
            assert(v@.take(i + 1).last() == c);
            assert(v@.take(i + 1).take(i + 1) =~= v@.take(i + 1));
        }
        let (p2, b2, br2, a2) = step_exec(c, p, b, br, a, Ghost(i as nat));
        p = p2;
        b = b2;
        br = br2;
        a = a2;
        let ghost prev = views(parts@);
        if c == delim && p == 0 && b == 0 && br == 0 && a == 0 {
            let done = cur;
            parts.push(done);
            cur = String::new();
            assert(views(parts@) =~= prev.push(done@));
            assert(views(parts@).push(cur@) =~= split_top(v@.take(i + 1), delim));
        } else {
            crate::text::push_char(&mut cur, c);
            assert(views(parts@).push(cur@) =~= split_top(v@.take(i + 1), delim));
        }
        i = i + 1;
    }
    assert(v@.take(v@.len() as int) =~= v@);
    let ghost prev = views(parts@);
    parts.push(cur);
    assert(views(parts@) =~= prev.push(parts@.last()@));
    parts
}

proof fn lemma_first_top_level(s: Seq<char>, c: char, i: int)
    requires
        0 <= i < s.len(),
        top_level_at(s, i, c),
        forall|j: int| 0 <= j < i ==> !top_level_at(s, j, c),
    ensures
        first_top_level(s, c) == Some(i),
{
    let k = choose|k: int|
        0 <= k < s.len() && top_level_at(s, k, c) && forall|j: int|
            0 <= j < k ==> !top_level_at(s, j, c);
    assert(0 <= k < s.len() && top_level_at(s, k, c));
    if k < i {
        assert(!top_level_at(s, k, c));
    }
    if i < k {
        assert(!top_level_at(s, i, c));
    }
}

fn first_top_level_exec(v: &Vec<char>, c: char) -> (r: Option<usize>)
    ensures
        match r {
            Some(i) => first_top_level(v@, c) == Some(i as int) && i < v@.len(),
            None => first_top_level(v@, c) is None,
        },
{
    let (mut p, mut b, mut br, mut a): (usize, usize, usize, usize) = (0, 0, 0, 0);
    let mut i: usize = 0;
    assert(v@.take(0) =~= Seq::<char>::empty());
    while i < v.len()
        invariant
            0 <= i <= v@.len(),
            p <= i && b <= i && br <= i && a <= i,
            depths_view(p, b, br, a) == depths_of(v@.take(i as int)),
            forall|j: int| 0 <= j < i ==> !top_level_at(v@, j, c),
        decreases v@.len() - i,
    {
        let ch = v[i];
        proof {
            lemma_depths_take(v@, i as int);
        }
        let (p2, b2, br2, a2) = step_exec(ch, p, b, br, a, Ghost(i as nat));
        p = p2;
        b = b2;
        br = br2;
        a = a2;
        if ch == c && p == 0 && b == 0 && br == 0 && a == 0 {
            proof {
                lemma_first_top_level(v@, c, i as int);
            }
            return Some(i);
        }
        i = i + 1;
    }
    None
}

// ----- rewriting, executed -----

fn normalize_exec(raw: &str, fuel: usize) -> (r: String)
    ensures
        r@ == normalize_type(raw@, fuel as nat),
    decreases fuel, 1nat, 0nat,
{
    let t = crate::text::trim_string(raw);
    let f = fn_fix_exec(t, fuel);
    let v = to_chars(f.as_str());
    let mut out = String::new();
    push_generic_syntax(&mut out, &v, 0, v.len());
    assert(v@.subrange(0, v@.len() as int) =~= v@);
    out
}

#[verifier::rlimit(40)]
fn param_piece_exec(seg: &str, fuel: usize) -> (r: Option<String>)
    ensures
        match r {
            Some(p) => param_piece(seg@, fuel as nat) == Some(p@),
            None => param_piece(seg@, fuel as nat) is None,
        },
    decreases fuel, 2nat, 0nat,
{
    let t = crate::text::trim_string(seg);
    if t.as_str().is_empty() {
        return None;
    }
    let tv = to_chars(t.as_str());
    match first_top_level_exec(&tv, ':') {
        Some(c) => {
            let name_raw = string_of(&tv, 0, c);
            let ty_raw = string_of(&tv, c + 1, tv.len());
            assert(name_raw@ =~= t@.take(c as int));
            assert(ty_raw@ =~= t@.skip(c + 1));
            let name = crate::text::trim_string(name_raw.as_str());
            let ty = crate::text::trim_string(ty_raw.as_str());
            let norm = normalize_exec(ty.as_str(), fuel);
            if name.as_str().is_empty() {
                Some(norm)
            } else {
                let mut out = name;
                push_str(&mut out, " ");
                push_str(&mut out, norm.as_str());
                Some(out)
            }
        },
        None => Some(normalize_exec(t.as_str(), fuel)),
    }
}

fn param_pieces_exec(segs: &Vec<String>, fuel: usize) -> (r: Vec<String>)
    ensures
        views(r@) == param_pieces(views(segs@), fuel as nat),
    decreases fuel, 3nat, segs@.len(),
{
    let ghost ss = views(segs@);
    let mut out: Vec<String> = Vec::new();
    let mut i: usize = 0;
    assert(ss.take(0) =~= Seq::<Seq<char>>::empty());
    assert(views(out@) =~= Seq::<Seq<char>>::empty());
    while i < segs.len()
        invariant
            0 <= i <= ss.len(),
            ss == views(segs@),
            views(out@) == param_pieces(ss.take(i as int), fuel as nat),
        decreases ss.len() - i,
    {
        assert(ss.take(i + 1).drop_last() =~= ss.take(i as int));
        assert(ss.take(i + 1).last() == segs@[i as int]@);
        let ghost prev = views(out@);
        match param_piece_exec(segs[i].as_str(), fuel) {
            Some(p) => {
                out.push(p);
                assert(views(out@) =~= prev.push(out@.last()@));
            },
            None => {},
        }
        i = i + 1;
    }
    assert(ss.take(ss.len() as int) =~= ss);
    out
}

fn params_go_exec(raw: &str, fuel: usize) -> (r: String)
    ensures
        r@ == params_go(raw@, fuel as nat),
    decreases fuel, 4nat, 0nat,
{
    let v = to_chars(raw);
    let segs = split_top_exec(&v, ',');
    let pieces = param_pieces_exec(&segs, fuel);
    crate::text::join_strings(&pieces, ", ")
}

fn ret_go_exec(raw: &str, fuel: usize) -> (r: String)
    ensures
        r@ == ret_go(raw@, fuel as nat),
    decreases fuel, 2nat, 0nat,
{
    let t = crate::text::trim_string(raw);
    let tv = to_chars(t.as_str());
    if tv.len() == 1 && tv[0] == '!' {
        assert(t@ =~= seq!['!']);
        return str_to_string("error");
    }
    assert(!(t@ =~= seq!['!']));
    if tv.len() > 0 && tv[tv.len() - 1] == '!' {
        let vraw = string_of(&tv, 0, tv.len() - 1);
        assert(vraw@ =~= t@.drop_last());
        let v = crate::text::trim_string(vraw.as_str());
        if v.as_str().is_empty() {
            return str_to_string("error");
        }
        let mut out = str_to_string("(");
        let norm = normalize_exec(v.as_str(), fuel);
        push_str(&mut out, norm.as_str());
        push_str(&mut out, ", error)");
        out
    } else {
        normalize_exec(t.as_str(), fuel)
    }
}

fn rewrite_site_exec(
    v: &Vec<char>,
    i: usize,
    a: usize,
    b: usize,
    c: usize,
    d: usize,
    fuel: usize,
) -> (r: String)
    requires
        i < a <= b < c <= d <= v@.len(),
    ensures
        r@ == rewrite_site(
            v@,
            i as int,
            Site { params_start: a as int, params_end: b as int, ret_start: c as int, ret_end: d as int },
            fuel as nat,
        ),
    decreases fuel, 5nat, 0nat,
{
    let params_raw = string_of(v, a, b);
    let ret_raw = string_of(v, c, d);
    let params = params_go_exec(params_raw.as_str(), fuel);
    let ret = ret_go_exec(ret_raw.as_str(), fuel);
    let mut out = string_of(v, 0, i);
    push_str(&mut out, "func(");
    push_str(&mut out, params.as_str());
    push_str(&mut out, ") ");
    push_str(&mut out, ret.as_str());
    push_range(&mut out, v, d, v.len());
    assert(v@.subrange(0, i as int) =~= v@.take(i as int));
    assert(v@.subrange(d as int, v@.len() as int) =~= v@.skip(d as int));
    out
}

fn fn_fix_exec(s: String, fuel: usize) -> (r: String)
    ensures
        r@ == fn_fix(s@, fuel as nat),
    decreases fuel, 0nat, 0nat,
{
    let mut cur = s;
    let mut f = fuel;
    while f > 0
        invariant
            f <= fuel,
            fn_fix(s@, fuel as nat) == fn_fix(cur@, f as nat),
        decreases f,
    {
        let v = to_chars(cur.as_str());
        match first_site_exec(&v) {
            None => {
                return cur;
            },
            Some((i, (a, b, c, d))) => {
                let next = rewrite_site_exec(&v, i, a, b, c, d, f - 1);
                cur = next;
                f = f - 1;
            },
        }
    }
    cur
}

/// `fn(...) -> R` types and literals in `text` written the Go way (see `fn_syntax`).
pub fn rewrite_fn_syntax(text: &str) -> (r: String)
    ensures
        r@ == fn_syntax(text@),
{
    fn_fix_exec(str_to_string(text), usize::MAX)
}

/// A type as Go writes it: trimmed, function types rewritten, `Name<T>` as `Name[T]`.
pub fn normalize_go_type(raw: &str) -> (r: String)
    ensures
        r@ == normalize_type(raw@, usize::MAX as nat),
{
    normalize_exec(raw, usize::MAX)
}

} // verus!
