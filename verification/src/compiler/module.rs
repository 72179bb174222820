//! What the compiler reads off a Go module: its name in `go.mod`, which imports are
//! packages of the module itself, and how `go` is pointed at a package.
use vstd::prelude::*;

use crate::compiler::navigate::normalized;
use crate::text::{
    push_char, push_str, starts_with, str_eq, str_starts_with, str_to_string, string_of, to_chars,
    trim, trim_string, views,
};

verus! {

/// `s` cut at each `c`: `str::split` with a char.
pub open spec fn split_on(s: Seq<char>, c: char) -> Seq<Seq<char>>
    decreases s.len(),
{
    if s.len() == 0 {
        seq![Seq::empty()]
    } else {
        let prev = split_on(s.drop_last(), c);
        if s.last() == c {
            prev.push(Seq::empty())
        } else {
            prev.update(prev.len() - 1, prev.last().push(s.last()))
        }
    }
}

pub proof fn lemma_split_on_len(s: Seq<char>, c: char)
    ensures
        split_on(s, c).len() >= 1,
    decreases s.len(),
{
    if s.len() > 0 {
        lemma_split_on_len(s.drop_last(), c);
    }
}

/// The pieces of `s` between the occurrences of `c`.
pub fn split_string(s: &str, c: char) -> (r: Vec<String>)
    ensures
        views(r@) == split_on(s@, c),
{
    let v = to_chars(s);
    let mut parts: Vec<String> = Vec::new();
    let mut cur = String::new();
    let mut i: usize = 0;
    assert(v@.take(0) =~= Seq::<char>::empty());
    assert(views(parts@).push(cur@) =~= split_on(v@.take(0), c));
    while i < v.len()
        invariant
            0 <= i <= v@.len(),
            v@ == s@,
            views(parts@).push(cur@) == split_on(v@.take(i as int), c),
        decreases v@.len() - i,
    {
        assert(v@.take(i + 1).drop_last() =~= v@.take(i as int));
        assert(v@.take(i + 1).last() == v@[i as int]);
        let ghost prev = views(parts@);
        let ch = v[i];
        if ch == c {
            let done = cur;
            parts.push(done);
            cur = String::new();
            assert(views(parts@) =~= prev.push(done@));
            assert(views(parts@).push(cur@) =~= split_on(v@.take(i + 1), c));
        } else {
            push_char(&mut cur, ch);
            assert(views(parts@).push(cur@) =~= split_on(v@.take(i + 1), c));
        }
        i = i + 1;
    }
    assert(v@.take(v@.len() as int) =~= v@);
    let ghost prev = views(parts@);
    parts.push(cur);
    assert(views(parts@) =~= prev.push(parts@.last()@));
    parts
}

// ----- go.mod -----

/// The module a `go.mod` line declares: `module <name>`, trimmed, with a name.
pub open spec fn module_decl(line: Seq<char>) -> Option<Seq<char>> {
    let t = trim(line);
    let name = trim(t.skip("module "@.len() as int));
    if starts_with(t, "module "@) && name.len() > 0 {
        Some(name)
    } else {
        None
    }
}

/// The module declared by the first line that declares one.
pub open spec fn first_module_decl(lines: Seq<Seq<char>>) -> Option<Seq<char>>
    decreases lines.len(),
{
    if lines.len() == 0 {
        None
    } else {
        match first_module_decl(lines.drop_last()) {
            Some(n) => Some(n),
            None => module_decl(lines.last()),
        }
    }
}

fn line_module(line: &str) -> (r: Option<String>)
    ensures
        match r {
            Some(n) => module_decl(line@) == Some(n@),
            None => module_decl(line@) is None,
        },
{
    let t = trim_string(line);
    if !str_starts_with(t.as_str(), "module ") {
        return None;
    }
    proof {
        reveal_strlit("module ");
    }
    let v = to_chars(t.as_str());
    let rest = string_of(&v, 7, v.len());
    assert(rest@ =~= t@.skip("module "@.len() as int));
    let name = trim_string(rest.as_str());
    if name.as_str().is_empty() {
        None
    } else {
        Some(name)
    }
}

/// The module name that `go.mod` text declares.
pub fn module_name_from_go_mod(content: &str) -> (r: Option<String>)
    ensures
        match r {
            Some(n) => first_module_decl(split_on(content@, '\n')) == Some(n@),
            None => first_module_decl(split_on(content@, '\n')) is None,
        },
{
    let lines = split_string(content, '\n');
    let ghost ls = split_on(content@, '\n');
    let mut i: usize = 0;
    assert(ls.take(0) =~= Seq::<Seq<char>>::empty());
    while i < lines.len()
        invariant
            0 <= i <= lines@.len(),
            views(lines@) == ls,
            ls == split_on(content@, '\n'),
            first_module_decl(ls.take(i as int)) is None,
        decreases lines@.len() - i,
    {
        assert(ls.take(i + 1).drop_last() =~= ls.take(i as int));
        assert(ls.take(i + 1).last() == lines@[i as int]@);
        match line_module(lines[i].as_str()) {
            Some(n) => {
                assert(first_module_decl(ls.take(i + 1)) == Some(n@));
                proof {
                    lemma_first_decl_prefix(ls, i + 1);
                }
                return Some(n);
            },
            None => {},
        }
        i = i + 1;
    }
    assert(ls.take(lines@.len() as int) =~= ls);
    None
}

proof fn lemma_first_decl_prefix(ls: Seq<Seq<char>>, k: int)
    requires
        0 <= k <= ls.len(),
        first_module_decl(ls.take(k)) is Some,
    ensures
        first_module_decl(ls) == first_module_decl(ls.take(k)),
    decreases ls.len() - k,
{
    if k < ls.len() {
        assert(ls.take(k + 1).drop_last() =~= ls.take(k));
        lemma_first_decl_prefix(ls, k + 1);
    } else {
        assert(ls.take(k) =~= ls);
    }
}

// ----- imports of the module's own packages -----

/// For an import of the module itself or of a package under it, the path segments below
/// the module root; `None` for any other import.
pub open spec fn local_import_segments(import: Seq<char>, module: Seq<char>) -> Option<
    Seq<Seq<char>>,
> {
    if import == module {
        Some(Seq::empty())
    } else if starts_with(import, module.push('/')) {
        Some(split_on(import.skip(module.len() as int + 1), '/'))
    } else {
        None
    }
}

pub fn import_segments(import: &str, module_name: &str) -> (r: Option<Vec<String>>)
    ensures
        match r {
            Some(v) => local_import_segments(import@, module_name@) == Some(views(v@)),
            None => local_import_segments(import@, module_name@) is None,
        },
{
    if str_eq(import, module_name) {
        let v: Vec<String> = Vec::new();
        assert(views(v@) =~= Seq::<Seq<char>>::empty());
        return Some(v);
    }
    let mut prefix = str_to_string(module_name);
    push_char(&mut prefix, '/');
    if !str_starts_with(import, prefix.as_str()) {
        return None;
    }
    let v = to_chars(import);
    let pv = to_chars(prefix.as_str());
    let suffix = string_of(&v, pv.len(), v.len());
    assert(suffix@ =~= import@.skip(module_name@.len() as int + 1));
    Some(split_string(suffix.as_str(), '/'))
}

// ----- running go -----

/// `s` with every leading copy of `p` taken off (`str::trim_start_matches`).
pub open spec fn strip_all_prefix(s: Seq<char>, p: Seq<char>) -> Seq<char>
    decreases s.len(),
{
    if p.len() > 0 && starts_with(s, p) {
        strip_all_prefix(s.skip(p.len() as int), p)
    } else {
        s
    }
}

/// What `go` is given to build the package at `rel` below the module root: `.` for the
/// root, else `./` and the path with slashes and no leading `./`.
pub open spec fn go_run_target_spec(rel: Seq<char>) -> Seq<char> {
    let r = normalized(rel);
    if r.len() == 0 {
        "."@
    } else {
        "./"@ + strip_all_prefix(r, "./"@)
    }
}

pub fn go_run_target(rel: &str) -> (r: String)
    ensures
        r@ == go_run_target_spec(rel@),
{
    let norm = crate::compiler::navigate::normalize_path(rel);
    if norm.as_str().is_empty() {
        return str_to_string(".");
    }
    proof {
        reveal_strlit("./");
        assert("./"@ =~= seq!['.', '/']);
    }
    let v = to_chars(norm.as_str());
    let ghost r = v@;
    let mut a: usize = 0;
    assert(r.skip(0) =~= r);
    while v.len() - a >= 2 && v[a] == '.' && v[a + 1] == '/'
        invariant
            0 <= a <= v@.len(),
            r == v@,
            "./"@ == seq!['.', '/'],
            strip_all_prefix(r, "./"@) == strip_all_prefix(r.skip(a as int), "./"@),
        decreases v@.len() - a,
    {
        assert(r.skip(a as int).subrange(0, 2) =~= "./"@);
        assert(r.skip(a as int).skip(2) =~= r.skip(a + 2));
        a = a + 2;
    }
    proof {
        if starts_with(r.skip(a as int), "./"@) {
            assert(r.skip(a as int).subrange(0, 2)[0] == r[a as int]);
            assert(r.skip(a as int).subrange(0, 2)[1] == r[a + 1]);
        }
        assert(r.skip(a as int) =~= r.subrange(a as int, r.len() as int));
    }
    let mut out = str_to_string("./");
    let rest = string_of(&v, a, v.len());
    push_str(&mut out, rest.as_str());
    out
}

/// The directories that copying a module's Go files leaves out.
pub fn skips_output_dir(name: &str) -> (r: bool)
    ensures
        r == (name@ == ".goplusgen"@ || name@ == ".gocache"@ || name@ == ".gotmp"@ || name@
            == ".git"@),
{
    str_eq(name, ".goplusgen") || str_eq(name, ".gocache") || str_eq(name, ".gotmp") || str_eq(
        name,
        ".git",
    )
}

} // verus!
