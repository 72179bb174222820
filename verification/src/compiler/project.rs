//! A package: the `.gp` files of one directory, parsed, checked to agree on their package,
//! analysed against one model, and merged into the program that code generation writes.
use vstd::prelude::*;

use crate::ast::{Item, Program, Span};
use crate::diag::{Diagnostic, DiagnosticSeverity, render_json_spec, render_spec};
use crate::sema::model::{model_items, model_programs, ModelView, SemanticModel};
use crate::sema::{analyze_with_model, infos, program_annotated, program_diags, DiagInfo};
use crate::compiler::module::{split_on, split_string};
use crate::order::{insert_sorted, lemma_sorted_list, lemma_to_set_push, sorted_list, strictly_sorted};
use crate::text::{
    join, push_str, starts_with, str_eq, str_starts_with, str_to_string, trim, trim_start,
    trim_start_string, trim_string, views, to_chars, matches_at, copy_string, ends_with,
};

verus! {

/// A `.gp` file as read, with what parsing it gave.
pub struct ParsedFile {
    pub path: String,
    pub source: String,
    pub parsed: Result<Program, Vec<Diagnostic>>,
}

/// A `.gp` file of a package, parsed.
pub struct SourceUnit {
    pub path: String,
    pub source: String,
    pub program: Program,
}

/// The diagnostics of one file, with the text they point into.
pub struct UnitDiagnostics {
    pub path: String,
    pub source: String,
    pub diagnostics: Vec<Diagnostic>,
}

/// The files of a package, all of one package name.
pub struct Package {
    pub package_name: String,
    pub units: Vec<SourceUnit>,
}

/// How diagnostics are written out.
#[derive(Debug, Clone, Copy, PartialEq, Eq, Structural)]
pub enum DiagnosticFormat {
    Human,
    Json,
}

/// A file's diagnostics as plain values: its path, its text and what each says.
pub type UnitView = (Seq<char>, Seq<char>, Seq<DiagInfo>);

pub open spec fn unit_view(u: UnitDiagnostics) -> UnitView {
    (u.path@, u.source@, infos(u.diagnostics@))
}

pub open spec fn unit_views(us: Seq<UnitDiagnostics>) -> Seq<UnitView> {
    us.map_values(|u: UnitDiagnostics| unit_view(u))
}

// ----- gathering the parsed files -----

/// The package of the first file that parsed.
pub open spec fn first_package(fs: Seq<ParsedFile>) -> Option<Seq<char>>
    decreases fs.len(),
{
    if fs.len() == 0 {
        None
    } else {
        match first_package(fs.drop_last()) {
            Some(n) => Some(n),
            None => match fs.last().parsed {
                Ok(p) => Some(p.package@),
                Err(_) => None,
            },
        }
    }
}

pub open spec fn mismatch_info(found: Seq<char>, expected: Seq<char>) -> DiagInfo {
    DiagInfo {
        code: "E0400"@,
        message: "package `"@ + found + "` does not match package `"@ + expected + "`"@,
        span: Some(Span { start: 0, end: 0 }),
        hint: Some("all `.gp` files in a package directory must use the same package name"@),
        severity: DiagnosticSeverity::Error,
    }
}

/// Each file that did not parse, with its parse diagnostics, and each file that parsed
/// with a package other than the first one, with a diagnostic saying so; in file order.
pub open spec fn gather_failures(fs: Seq<ParsedFile>) -> Seq<UnitView>
    decreases fs.len(),
{
    if fs.len() == 0 {
        Seq::empty()
    } else {
        let prev = gather_failures(fs.drop_last());
        let f = fs.last();
        match f.parsed {
            Err(ds) => prev.push((f.path@, f.source@, infos(ds@))),
            Ok(p) => match first_package(fs.drop_last()) {
                Some(e) => if p.package@ != e {
                    prev.push((f.path@, f.source@, seq![mismatch_info(p.package@, e)]))
                } else {
                    prev
                },
                None => prev,
            },
        }
    }
}

/// The files as units of one package, when every file parsed and all agree on the package;
/// else the diagnostics of the files at fault. A package of no files is `main`.
pub fn gather_package(files: Vec<ParsedFile>) -> (r: Result<Package, Vec<UnitDiagnostics>>)
    ensures
        r is Err <==> gather_failures(files@).len() > 0,
        r matches Err(ds) ==> unit_views(ds@) == gather_failures(files@),
        r matches Ok(p) ==> {
            &&& p.package_name@ == match first_package(files@) {
                Some(n) => n,
                None => "main"@,
            }
            &&& p.units@.len() == files@.len()
            &&& forall|i: int|
                0 <= i < files@.len() ==> {
                    &&& (#[trigger] p.units@[i]).path@ == files@[i].path@
                    &&& p.units@[i].source@ == files@[i].source@
                    &&& files@[i].parsed == Ok::<Program, Vec<Diagnostic>>(p.units@[i].program)
                }
        },
{
    let ghost fs = files@;
    let mut files = files;
    let mut units: Vec<SourceUnit> = Vec::new();
    let mut failures: Vec<UnitDiagnostics> = Vec::new();
    let mut package_name: Option<String> = None;
    let n = files.len();
    let mut k: usize = 0;
    assert(fs.take(0) =~= Seq::<ParsedFile>::empty());
    assert(unit_views(failures@) =~= Seq::<UnitView>::empty());
    while k < n
        invariant
            0 <= k <= n,
            n == fs.len(),
            files@ == fs.skip(k as int),
            unit_views(failures@) == gather_failures(fs.take(k as int)),
            match package_name {
                Some(s) => first_package(fs.take(k as int)) == Some(s@),
                None => first_package(fs.take(k as int)) is None,
            },
            failures@.len() == 0 ==> units@.len() == k,
            failures@.len() == 0 ==> forall|i: int|
                0 <= i < k ==> {
                    &&& (#[trigger] units@[i]).path@ == fs[i].path@
                    &&& units@[i].source@ == fs[i].source@
                    &&& fs[i].parsed == Ok::<Program, Vec<Diagnostic>>(units@[i].program)
                },
        decreases n - k,
    {
        assert(fs.take(k + 1).drop_last() =~= fs.take(k as int));
        assert(fs.take(k + 1).last() == fs[k as int]);
        let f = files.remove(0);
        assert(f == fs[k as int]);
        assert(files@ =~= fs.skip(k + 1));
        let ghost before = unit_views(failures@);
        let ParsedFile { path, source, parsed } = f;
        match parsed {
            Ok(program) => {
                match &package_name {
                    Some(expected) => {
                        if !str_eq(program.package.as_str(), expected.as_str()) {
                            let mut message = str_to_string("package `");
                            push_str(&mut message, program.package.as_str());
                            push_str(&mut message, "` does not match package `");
                            push_str(&mut message, expected.as_str());
                            push_str(&mut message, "`");
                            let d = Diagnostic::new(message, Some(Span { start: 0, end: 0 })).with_code(
                                str_to_string("E0400"),
                            ).with_hint(
                                str_to_string(
                                    "all `.gp` files in a package directory must use the same package name",
                                ),
                            );
                            let mut ds: Vec<Diagnostic> = Vec::new();
                            ds.push(d);
                            assert(infos(ds@) =~= seq![mismatch_info(program.package@, expected@)]);
                            failures.push(
                                UnitDiagnostics {
                                    path: str_to_string(path.as_str()),
                                    source: str_to_string(source.as_str()),
                                    diagnostics: ds,
                                },
                            );
                            assert(unit_views(failures@) =~= before.push(
                                (path@, source@, seq![mismatch_info(program.package@, expected@)]),
                            ));
                        }
                    },
                    None => {
                        package_name = Some(str_to_string(program.package.as_str()));
                    },
                }
                units.push(SourceUnit { path, source, program });
            },
            Err(ds) => {
                failures.push(UnitDiagnostics { path, source, diagnostics: ds });
                assert(unit_views(failures@) =~= before.push(unit_view(failures@.last())));
            },
        }
        k = k + 1;
    }
    assert(fs.take(n as int) =~= fs);
    if failures.len() > 0 {
        Err(failures)
    } else {
        let name = match package_name {
            Some(s) => s,
            None => str_to_string("main"),
        };
        Ok(Package { package_name: name, units })
    }
}

/// A package is gathered only when every file parsed and every file declares the package
/// of the first one: all `.gp` files of a directory share one package name.
pub proof fn law_gathered_files_share_one_package(fs: Seq<ParsedFile>)
    requires
        gather_failures(fs).len() == 0,
    ensures
        forall|i: int|
            0 <= i < fs.len() ==> (#[trigger] fs[i].parsed matches Ok(p) && first_package(fs)
                == Some(p.package@)),
    decreases fs.len(),
{
    if fs.len() > 0 {
        let prev = fs.drop_last();
        let f = fs.last();
        assert(gather_failures(prev).len() == 0) by {
            if gather_failures(prev).len() > 0 {
                assert(gather_failures(fs).len() >= gather_failures(prev).len());
            }
        }
        law_gathered_files_share_one_package(prev);
        assert forall|i: int| 0 <= i < fs.len() implies (#[trigger] fs[i].parsed matches Ok(p)
            && first_package(fs) == Some(p.package@)) by {
            if i < fs.len() - 1 {
                assert(fs[i] == prev[i]);
            }
        }
    }
}

// ----- analysing a package -----

pub open spec fn unit_programs(us: Seq<SourceUnit>) -> Seq<Program> {
    us.map_values(|u: SourceUnit| u.program)
}

/// The model of all the files of a package, recorded in file order.
pub open spec fn package_model(p: Package) -> ModelView {
    model_programs(unit_programs(p.units@))
}

/// Each file whose analysis against `m` reports something, with what it reports.
pub open spec fn analysis_failures(us: Seq<SourceUnit>, m: ModelView) -> Seq<UnitView>
    decreases us.len(),
{
    if us.len() == 0 {
        Seq::empty()
    } else {
        let prev = analysis_failures(us.drop_last(), m);
        let u = us.last();
        if program_diags(u.program, m).len() > 0 {
            prev.push((u.path@, u.source@, program_diags(u.program, m)))
        } else {
            prev
        }
    }
}

/// Analyses one file: its diagnostics, if it has any.
fn analyze_unit(u: &mut SourceUnit, model: &SemanticModel) -> (r: Option<UnitDiagnostics>)
    ensures
        final(u).path == old(u).path,
        final(u).source == old(u).source,
        program_annotated(old(u).program, final(u).program, model@),
        r is Some <==> program_diags(old(u).program, model@).len() > 0,
        r matches Some(d) ==> unit_view(d) == (old(u).path@, old(u).source@, program_diags(
            old(u).program,
            model@,
        )),
{
    match analyze_with_model(&mut u.program, model) {
        Ok(()) => None,
        Err(ds) => Some(
            UnitDiagnostics {
                path: str_to_string(u.path.as_str()),
                source: str_to_string(u.source.as_str()),
                diagnostics: ds,
            },
        ),
    }
}

/// Builds the model of the whole package, then analyses each file against it: the model
/// when no file has anything to report, else each file's diagnostics.
pub fn analyze_package(pkg: &mut Package) -> (r: Result<SemanticModel, Vec<UnitDiagnostics>>)
    ensures
        final(pkg).package_name == old(pkg).package_name,
        final(pkg).units@.len() == old(pkg).units@.len(),
        forall|i: int|
            0 <= i < old(pkg).units@.len() ==> {
                &&& (#[trigger] final(pkg).units@[i]).path == old(pkg).units@[i].path
                &&& final(pkg).units@[i].source == old(pkg).units@[i].source
                &&& program_annotated(
                    old(pkg).units@[i].program,
                    final(pkg).units@[i].program,
                    package_model(*old(pkg)),
                )
            },
        r is Err <==> analysis_failures(old(pkg).units@, package_model(*old(pkg))).len() > 0,
        r matches Err(ds) ==> unit_views(ds@) == analysis_failures(
            old(pkg).units@,
            package_model(*old(pkg)),
        ),
        r matches Ok(m) ==> m@ == package_model(*old(pkg)),
{
    let ghost us = pkg.units@;
    let ghost ps = unit_programs(us);
    let n = pkg.units.len();
    let mut model = SemanticModel::new();
    let mut i: usize = 0;
    assert(ps.take(0) =~= Seq::<Program>::empty());
    while i < n
        invariant
            0 <= i <= n,
            n == us.len(),
            us == pkg.units@,
            ps == unit_programs(us),
            model@ == model_programs(ps.take(i as int)),
        decreases n - i,
    {
        assert(ps.take(i + 1).drop_last() =~= ps.take(i as int));
        assert(ps.take(i + 1).last() == us[i as int].program);
        model.record_items(&pkg.units[i].program.items);
        i = i + 1;
    }
    assert(ps.take(n as int) =~= ps);
    let ghost m = model@;
    assert(m == package_model(*old(pkg)));
    let mut failures: Vec<UnitDiagnostics> = Vec::new();
    assert(us.take(0) =~= Seq::<SourceUnit>::empty());
    assert(unit_views(failures@) =~= Seq::<UnitView>::empty());
    let mut k: usize = 0;
    while k < n
        invariant
            0 <= k <= n,
            n == us.len(),
            n == pkg.units@.len(),
            us == old(pkg).units@,
            pkg.package_name == old(pkg).package_name,
            m == model@,
            m == package_model(*old(pkg)),
            unit_views(failures@) == analysis_failures(us.take(k as int), m),
            forall|j: int| k <= j < n ==> pkg.units@[j] == us[j],
            forall|j: int|
                0 <= j < k ==> {
                    &&& (#[trigger] pkg.units@[j]).path == us[j].path
                    &&& pkg.units@[j].source == us[j].source
                    &&& program_annotated(us[j].program, pkg.units@[j].program, m)
                },
        decreases n - k,
    {
        assert(us.take(k + 1).drop_last() =~= us.take(k as int));
        assert(us.take(k + 1).last() == us[k as int]);
        let ghost before = pkg.units@;
        let ghost fails = unit_views(failures@);
        let found = analyze_unit(&mut pkg.units[k], &model);
        assert forall|j: int| 0 <= j < n && j != k implies pkg.units@[j] == before[j] by {}
        match found {
            None => {},
            Some(f) => {
                failures.push(f);
                assert(unit_views(failures@) =~= fails.push(unit_view(failures@.last())));
            },
        }
        k = k + 1;
    }
    assert(us.take(n as int) =~= us);
    if failures.len() > 0 {
        Err(failures)
    } else {
        Ok(model)
    }
}

// ----- merging -----

/// The imports of the programs, one program after another.
pub open spec fn merged_imports(ps: Seq<Program>) -> Seq<Seq<char>>
    decreases ps.len(),
{
    if ps.len() == 0 {
        Seq::empty()
    } else {
        merged_imports(ps.drop_last()) + views(ps.last().imports@)
    }
}

/// The items of the programs, one program after another.
pub open spec fn merged_items(ps: Seq<Program>) -> Seq<Item>
    decreases ps.len(),
{
    if ps.len() == 0 {
        Seq::empty()
    } else {
        merged_items(ps.drop_last()) + ps.last().items@
    }
}

/// One program of the given package with the imports and the items of all `programs`, in order.
pub fn merge_programs(package_name: &str, programs: Vec<Program>) -> (r: Program)
    ensures
        r.package@ == package_name@,
        views(r.imports@) == merged_imports(programs@),
        r.items@ == merged_items(programs@),
        r.span == (Span { start: 0, end: 0 }),
{
    let ghost ps = programs@;
    let mut programs = programs;
    let mut imports: Vec<String> = Vec::new();
    let mut items: Vec<Item> = Vec::new();
    let n = programs.len();
    let mut k: usize = 0;
    assert(ps.take(0) =~= Seq::<Program>::empty());
    assert(views(imports@) =~= Seq::<Seq<char>>::empty());
    while k < n
        invariant
            0 <= k <= n,
            n == ps.len(),
            programs@ == ps.skip(k as int),
            views(imports@) == merged_imports(ps.take(k as int)),
            items@ == merged_items(ps.take(k as int)),
        decreases n - k,
    {
        assert(ps.take(k + 1).drop_last() =~= ps.take(k as int));
        assert(ps.take(k + 1).last() == ps[k as int]);
        let mut p = programs.remove(0);
        assert(p == ps[k as int]);
        assert(programs@ =~= ps.skip(k + 1));
        let ghost before = imports@;
        let ghost added = p.imports@;
        imports.append(&mut p.imports);
        assert(views(imports@) =~= views(before) + views(added));
        items.append(&mut p.items);
        k = k + 1;
    }
    assert(ps.take(n as int) =~= ps);
    Program { package: str_to_string(package_name), imports, items, span: Span { start: 0, end: 0 } }
}

/// For each item of the merged program, the path of the file it came from.
pub open spec fn unit_item_sources(us: Seq<SourceUnit>) -> Seq<Seq<char>>
    decreases us.len(),
{
    if us.len() == 0 {
        Seq::empty()
    } else {
        let u = us.last();
        unit_item_sources(us.drop_last()) + Seq::new(u.program.items@.len(), |k: int| u.path@)
    }
}

pub proof fn lemma_item_sources_len(us: Seq<SourceUnit>)
    ensures
        unit_item_sources(us).len() == merged_items(unit_programs(us)).len(),
    decreases us.len(),
{
    if us.len() > 0 {
        lemma_item_sources_len(us.drop_last());
        assert(unit_programs(us).drop_last() =~= unit_programs(us.drop_last()));
    }
}

/// The path of each unit, once for each of its items, in order.
pub fn item_sources(units: &Vec<SourceUnit>) -> (r: Vec<String>)
    ensures
        views(r@) == unit_item_sources(units@),
{
    let mut r: Vec<String> = Vec::new();
    let ghost us = units@;
    let mut i: usize = 0;
    assert(us.take(0) =~= Seq::<SourceUnit>::empty());
    assert(views(r@) =~= Seq::<Seq<char>>::empty());
    while i < units.len()
        invariant
            0 <= i <= us.len(),
            us == units@,
            views(r@) == unit_item_sources(us.take(i as int)),
        decreases us.len() - i,
    {
        assert(us.take(i + 1).drop_last() =~= us.take(i as int));
        assert(us.take(i + 1).last() == us[i as int]);
        let u = &units[i];
        let ghost start = views(r@);
        let mut k: usize = 0;
        while k < u.program.items.len()
            invariant
                0 <= k <= u.program.items@.len(),
                views(r@) == start + Seq::new(k as nat, |j: int| u.path@),
            decreases u.program.items@.len() - k,
        {
            let ghost before = views(r@);
            r.push(str_to_string(u.path.as_str()));
            assert(views(r@) =~= before.push(u.path@));
            assert(start + Seq::new((k + 1) as nat, |j: int| u.path@) =~= (start + Seq::new(
                k as nat,
                |j: int| u.path@,
            )).push(u.path@));
            k = k + 1;
        }
        i = i + 1;
    }
    assert(us.take(us.len() as int) =~= us);
    r
}

// ----- writing diagnostics out -----

/// Each diagnostic of each file, rendered for a reader, in order.
pub open spec fn human_renders(us: Seq<UnitDiagnostics>) -> Seq<Seq<char>>
    decreases us.len(),
{
    if us.len() == 0 {
        Seq::empty()
    } else {
        let u = us.last();
        human_renders(us.drop_last()) + u.diagnostics@.map_values(
            |d: Diagnostic| render_spec(d, u.path@, u.source@),
        )
    }
}

/// Each diagnostic of each file, as a JSON object, in order.
pub open spec fn json_renders(us: Seq<UnitDiagnostics>) -> Seq<Seq<char>>
    decreases us.len(),
{
    if us.len() == 0 {
        Seq::empty()
    } else {
        let u = us.last();
        json_renders(us.drop_last()) + u.diagnostics@.map_values(
            |d: Diagnostic| render_json_spec(d, u.path@, u.source@),
        )
    }
}

pub open spec fn sources_fit(us: Seq<UnitDiagnostics>) -> bool {
    forall|i: int| 0 <= i < us.len() ==> (#[trigger] us[i]).source@.len() < usize::MAX
}

fn rendered_all(items: &Vec<UnitDiagnostics>, json: bool) -> (r: Vec<String>)
    requires
        sources_fit(items@),
    ensures
        views(r@) == if json {
            json_renders(items@)
        } else {
            human_renders(items@)
        },
{
    let ghost us = items@;
    let ghost want = |t: Seq<UnitDiagnostics>| if json {
        json_renders(t)
    } else {
        human_renders(t)
    };
    let mut out: Vec<String> = Vec::new();
    let mut i: usize = 0;
    assert(us.take(0) =~= Seq::<UnitDiagnostics>::empty());
    assert(views(out@) =~= Seq::<Seq<char>>::empty());
    while i < items.len()
        invariant
            0 <= i <= us.len(),
            us == items@,
            sources_fit(us),
            want == (|t: Seq<UnitDiagnostics>| if json {
                json_renders(t)
            } else {
                human_renders(t)
            }),
            views(out@) == want(us.take(i as int)),
        decreases us.len() - i,
    {
        assert(us.take(i + 1).drop_last() =~= us.take(i as int));
        assert(us.take(i + 1).last() == us[i as int]);
        let u = &items[i];
        assert(u.source@.len() < usize::MAX);
        let ghost start = views(out@);
        let ghost rs = if json {
            u.diagnostics@.map_values(|d: Diagnostic| render_json_spec(d, u.path@, u.source@))
        } else {
            u.diagnostics@.map_values(|d: Diagnostic| render_spec(d, u.path@, u.source@))
        };
        let mut j: usize = 0;
        while j < u.diagnostics.len()
            invariant
                0 <= j <= u.diagnostics@.len(),
                u.source@.len() < usize::MAX,
                rs == if json {
                    u.diagnostics@.map_values(|d: Diagnostic| render_json_spec(d, u.path@, u.source@))
                } else {
                    u.diagnostics@.map_values(|d: Diagnostic| render_spec(d, u.path@, u.source@))
                },
                views(out@) == start + rs.take(j as int),
            decreases u.diagnostics@.len() - j,
        {
            let d = &u.diagnostics[j];
            let t = if json {
                d.render_json(u.path.as_str(), u.source.as_str())
            } else {
                d.render(u.path.as_str(), u.source.as_str())
            };
            let ghost prev = out@;
            out.push(t);
            assert(views(out@) =~= views(prev).push(t@));
            assert(rs.take(j + 1) =~= rs.take(j as int).push(rs[j as int]));
            j = j + 1;
        }
        assert(rs.take(u.diagnostics@.len() as int) =~= rs);
        i = i + 1;
    }
    assert(us.take(us.len() as int) =~= us);
    out
}

/// Every diagnostic rendered for a reader, one after another, a newline between two.
pub fn render_unit_diagnostics(items: &Vec<UnitDiagnostics>) -> (r: String)
    requires
        sources_fit(items@),
    ensures
        r@ == join(human_renders(items@), "\n"@),
{
    let parts = rendered_all(items, false);
    crate::text::join_strings(&parts, "\n")
}

/// Every diagnostic as JSON: `{"diagnostics":[...]}`.
pub fn render_unit_diagnostics_json(items: &Vec<UnitDiagnostics>) -> (r: String)
    requires
        sources_fit(items@),
    ensures
        r@ == "{\"diagnostics\":["@ + join(json_renders(items@), ","@) + "]}"@,
{
    let parts = rendered_all(items, true);
    let mut r = str_to_string("{\"diagnostics\":[");
    let inner = crate::text::join_strings(&parts, ",");
    push_str(&mut r, inner.as_str());
    push_str(&mut r, "]}");
    r
}

pub fn render_unit_diagnostics_with_format(items: &Vec<UnitDiagnostics>, format: DiagnosticFormat) -> (r:
    String)
    requires
        sources_fit(items@),
    ensures
        r@ == match format {
            DiagnosticFormat::Human => join(human_renders(items@), "\n"@),
            DiagnosticFormat::Json => "{\"diagnostics\":["@ + join(json_renders(items@), ","@)
                + "]}"@,
        },
{
    match format {
        DiagnosticFormat::Human => render_unit_diagnostics(items),
        DiagnosticFormat::Json => render_unit_diagnostics_json(items),
    }
}

// ----- standalone programs -----

/// Some line of `source`, trimmed, is `package main`.
pub open spec fn declares_main_package(source: Seq<char>) -> bool {
    exists|i: int|
        0 <= i < split_on(source, '\n').len() && trim(#[trigger] split_on(source, '\n')[i])
            == "package main"@
}

/// Some line of `source`, without its leading blanks, starts with `fn main(`.
pub open spec fn declares_main_function(source: Seq<char>) -> bool {
    exists|i: int|
        0 <= i < split_on(source, '\n').len() && starts_with(
            trim_start(#[trigger] split_on(source, '\n')[i]),
            "fn main("@,
        )
}

/// A file that is a program of its own: `package main` with a `fn main(`.
pub open spec fn executable_entry(source: Seq<char>) -> bool {
    declares_main_package(source) && declares_main_function(source)
}

pub open spec fn entry_count(sources: Seq<Seq<char>>) -> nat
    decreases sources.len(),
{
    if sources.len() == 0 {
        0
    } else {
        entry_count(sources.drop_last()) + if executable_entry(sources.last()) {
            1nat
        } else {
            0nat
        }
    }
}

/// Whether `source` is a program of its own.
pub fn is_executable_entry(source: &str) -> (r: bool)
    ensures
        r == executable_entry(source@),
{
    let lines = split_string(source, '\n');
    let ghost ls = split_on(source@, '\n');
    let mut has_package = false;
    let mut has_main = false;
    let mut i: usize = 0;
    while i < lines.len()
        invariant
            0 <= i <= lines@.len(),
            views(lines@) == ls,
            ls == split_on(source@, '\n'),
            has_package <==> exists|j: int| 0 <= j < i && trim(#[trigger] ls[j]) == "package main"@,
            has_main <==> exists|j: int|
                0 <= j < i && starts_with(trim_start(#[trigger] ls[j]), "fn main("@),
        decreases lines@.len() - i,
    {
        assert(ls[i as int] == lines@[i as int]@);
        let t = trim_string(lines[i].as_str());
        if str_eq(t.as_str(), "package main") {
            has_package = true;
        }
        let lead = trim_start_string(lines[i].as_str());
        if str_starts_with(lead.as_str(), "fn main(") {
            has_main = true;
        }
        i = i + 1;
    }
    has_package && has_main
}

/// More than one of the sources is a program of its own.
pub fn has_multiple_executable_entries(sources: &Vec<String>) -> (r: bool)
    ensures
        r == (entry_count(views(sources@)) > 1),
{
    let ghost vs = views(sources@);
    let mut count: usize = 0;
    let mut i: usize = 0;
    assert(vs.take(0) =~= Seq::<Seq<char>>::empty());
    while i < sources.len()
        invariant
            0 <= i <= vs.len(),
            vs == views(sources@),
            count == entry_count(vs.take(i as int)),
            count <= 1,
        decreases vs.len() - i,
    {
        assert(vs.take(i + 1).drop_last() =~= vs.take(i as int));
        assert(vs.take(i + 1).last() == sources@[i as int]@);
        if is_executable_entry(sources[i].as_str()) {
            if count == 1 {
                proof {
                    lemma_entry_count_mono(vs, i + 1);
                }
                return true;
            }
            count = count + 1;
        }
        i = i + 1;
    }
    assert(vs.take(vs.len() as int) =~= vs);
    false
}

proof fn lemma_entry_count_mono(vs: Seq<Seq<char>>, k: int)
    requires
        0 <= k <= vs.len(),
    ensures
        entry_count(vs.take(k)) <= entry_count(vs),
    decreases vs.len() - k,
{
    if k < vs.len() {
        assert(vs.take(k + 1).drop_last() =~= vs.take(k));
        lemma_entry_count_mono(vs, k + 1);
    } else {
        assert(vs.take(k) =~= vs);
    }
}


/// A file name with the extension `ext`: it ends in a dot and `ext`, with something before
/// the dot (`.gp` alone is a hidden file without one).
pub open spec fn has_extension(name: Seq<char>, ext: Seq<char>) -> bool {
    name.len() > ext.len() + 1 && ends_with(name, seq!['.'] + ext)
}

/// The names of `names` that have the extension `ext`.
pub open spec fn names_with_extension(names: Seq<Seq<char>>, ext: Seq<char>) -> Set<Seq<char>> {
    names.to_set().filter(|n: Seq<char>| has_extension(n, ext))
}

/// Whether the file name `name` has the extension `ext`.
pub fn file_has_extension(name: &str, ext: &str) -> (r: bool)
    ensures
        r == has_extension(name@, ext@),
{
    let v = to_chars(name);
    let p = to_chars(ext);
    if v.len() <= p.len() || v.len() - p.len() <= 1 {
        return false;
    }
    let at = v.len() - p.len() - 1;
    let dot = v[at] == '.';
    let rest = matches_at(&v, at + 1, &p);
    proof {
        let tail = v@.subrange(at as int, v@.len() as int);
        assert(tail =~= seq![v@[at as int]] + v@.subrange(at + 1, v@.len() as int));
        if ends_with(v@, seq!['.'] + p@) {
            assert(tail[0] == '.');
            assert(v@.subrange(at + 1, v@.len() as int) =~= tail.drop_first());
            assert((seq!['.'] + p@).drop_first() =~= p@);
        }
        if dot && rest {
            assert(tail =~= seq!['.'] + p@);
        }
    }
    dot && rest
}

/// The source files of a directory: its `.gp` files and its `.go` files, each list in
/// name order.
pub struct SourceFiles {
    pub gp_files: Vec<String>,
    pub go_files: Vec<String>,
}

/// Picks the `.gp` and `.go` files out of the names of a directory's files, each list
/// sorted and without repeats; `None` when there is no `.gp` file.
pub fn select_source_files(names: &Vec<String>) -> (r: Option<SourceFiles>)
    ensures
        r is None <==> forall|i: int|
            0 <= i < names@.len() ==> !has_extension(#[trigger] names@[i]@, seq!['g', 'p']),
        r matches Some(f) ==> {
            &&& views(f.gp_files@) == sorted_list(names_with_extension(views(names@), seq!['g', 'p']))
            &&& views(f.go_files@) == sorted_list(names_with_extension(views(names@), seq!['g', 'o']))
        },
{
    let ghost gp = seq!['g', 'p'];
    let ghost go = seq!['g', 'o'];
    proof {
        reveal_strlit("gp");
        reveal_strlit("go");
    }
    let ghost vn = views(names@);
    let mut gp_files: Vec<String> = Vec::new();
    let mut go_files: Vec<String> = Vec::new();
    let mut i: usize = 0;
    assert(vn.take(0).to_set() =~= Set::<Seq<char>>::empty());
    assert(views(gp_files@).to_set() =~= names_with_extension(vn.take(0), gp));
    assert(views(go_files@).to_set() =~= names_with_extension(vn.take(0), go));
    while i < names.len()
        invariant
            0 <= i <= names@.len(),
            vn == views(names@),
            "gp"@ == gp,
            "go"@ == go,
            gp == seq!['g', 'p'],
            go == seq!['g', 'o'],
            strictly_sorted(views(gp_files@)),
            strictly_sorted(views(go_files@)),
            views(gp_files@).to_set() == names_with_extension(vn.take(i as int), gp),
            views(go_files@).to_set() == names_with_extension(vn.take(i as int), go),
        decreases names@.len() - i,
    {
        let ghost x = names@[i as int]@;
        proof {
            assert(vn.take(i + 1) =~= vn.take(i as int).push(x));
            lemma_to_set_push(vn.take(i as int), x);
            assert(names_with_extension(vn.take(i + 1), gp) =~= if has_extension(x, gp) {
                names_with_extension(vn.take(i as int), gp).insert(x)
            } else {
                names_with_extension(vn.take(i as int), gp)
            });
            assert(names_with_extension(vn.take(i + 1), go) =~= if has_extension(x, go) {
                names_with_extension(vn.take(i as int), go).insert(x)
            } else {
                names_with_extension(vn.take(i as int), go)
            });
        }
        if file_has_extension(names[i].as_str(), "gp") {
            insert_sorted(&mut gp_files, copy_string(&names[i]));
        }
        if file_has_extension(names[i].as_str(), "go") {
            insert_sorted(&mut go_files, copy_string(&names[i]));
        }
        i = i + 1;
    }
    assert(vn.take(names@.len() as int) =~= vn);
    proof {
        lemma_sorted_list(views(gp_files@), names_with_extension(vn, gp));
        lemma_sorted_list(views(go_files@), names_with_extension(vn, go));
    }
    if gp_files.len() == 0 {
        assert forall|i: int| 0 <= i < names@.len() implies !has_extension(
            #[trigger] names@[i]@,
            seq!['g', 'p'],
        ) by {
            assert(vn[i] == names@[i]@);
            assert(vn.to_set().contains(vn[i]));
            if has_extension(vn[i], gp) {
                assert(names_with_extension(vn, gp).contains(vn[i]));
                assert(views(gp_files@).to_set().contains(vn[i]));
            }
        }
        None
    } else {
        proof {
            assert(views(gp_files@).to_set().contains(views(gp_files@)[0]));
            let w = views(gp_files@)[0];
            assert(names_with_extension(vn, gp).contains(w));
            let k = choose|k: int| 0 <= k < vn.len() && vn[k] == w;
            assert(has_extension(names@[k]@, seq!['g', 'p']));
        }
        Some(SourceFiles { gp_files, go_files })
    }
}

} // verus!
