//! Go code generation.
use vstd::prelude::*;

pub mod decl;
pub mod fmt;
pub mod fmt_laws;
pub mod fn_syntax;
pub mod pattern;
pub mod stmt;
pub mod types;
pub mod wrappers;
pub mod zero_laws;

use crate::ast::{EnumDecl, Item, Program};
use crate::order::{insert_sorted, lemma_to_set_empty, lemma_to_set_push, strictly_sorted};
use crate::sema::model::{enum_info, enum_infos, EnumInfo, SemanticModel, VariantInfo};
use crate::text::{decimal, increment_decimal, push_str, str_to_string};
use pattern::{escaped, regex_escape, replace_matches, replaced};

use crate::text::views;

verus! {

/// What code generation has gathered so far: the imports, the number of temporaries
/// named, and whether the `?` helper and the `main` wrapper are needed.
pub struct GenState {
    pub imports: Set<Seq<char>>,
    pub tmp: nat,
    pub needs_try: bool,
    pub needs_main: bool,
}

pub open spec fn with_import(s: GenState, path: Seq<char>) -> GenState {
    GenState { imports: s.imports.insert(path), tmp: s.tmp, needs_try: s.needs_try, needs_main: s.needs_main }
}

pub open spec fn with_try(s: GenState) -> GenState {
    GenState { imports: s.imports, tmp: s.tmp, needs_try: true, needs_main: s.needs_main }
}

pub open spec fn with_main(s: GenState) -> GenState {
    GenState { imports: s.imports, tmp: s.tmp, needs_try: s.needs_try, needs_main: true }
}

/// The name of the next temporary: `prefix` and a number that no earlier one used.
pub open spec fn tmp_name(prefix: Seq<char>, s: GenState) -> Seq<char> {
    prefix + decimal(s.tmp)
}

pub open spec fn after_tmp(s: GenState) -> GenState {
    GenState { imports: s.imports, tmp: s.tmp + 1, needs_try: s.needs_try, needs_main: s.needs_main }
}

pub(crate) struct GoGenerator {
    imports: Vec<String>,
    tmp_digits: Vec<char>,
    tmp: Ghost<nat>,
    needs_try_helper: bool,
    needs_main_wrapper: bool,
}

impl GoGenerator {
    pub(crate) closed spec fn state(&self) -> GenState {
        GenState {
            imports: views(self.imports@).to_set(),
            tmp: self.tmp@,
            needs_try: self.needs_try_helper,
            needs_main: self.needs_main_wrapper,
        }
    }

    pub(crate) closed spec fn wf(&self) -> bool {
        strictly_sorted(views(self.imports@)) && self.tmp_digits@ == decimal(self.tmp@)
    }

    pub(crate) closed spec fn import_list(&self) -> Seq<Seq<char>> {
        views(self.imports@)
    }

    pub(crate) proof fn lemma_import_list(&self)
        requires
            self.wf(),
        ensures
            strictly_sorted(self.import_list()),
            self.import_list().to_set() == self.state().imports,
    {
    }

    pub(crate) fn imports_vec(&self) -> (r: &Vec<String>)
        ensures
            views(r@) == self.import_list(),
    {
        &self.imports
    }

    pub(crate) fn needs_try(&self) -> (r: bool)
        ensures
            r == self.state().needs_try,
    {
        self.needs_try_helper
    }

    pub(crate) fn needs_main(&self) -> (r: bool)
        ensures
            r == self.state().needs_main,
    {
        self.needs_main_wrapper
    }

    pub(crate) fn new(initial: &Vec<String>) -> (g: GoGenerator)
        ensures
            g.wf(),
            g.state() == (GenState {
                imports: views(initial@).to_set(),
                tmp: 0,
                needs_try: false,
                needs_main: false,
            }),
    {
        let mut g = GoGenerator {
            imports: Vec::new(),
            tmp_digits: Vec::new(),
            tmp: Ghost(0),
            needs_try_helper: false,
            needs_main_wrapper: false,
        };
        g.tmp_digits.push('0');
        assert(g.tmp_digits@ =~= decimal(0));
        assert(views(g.imports@) =~= Seq::<Seq<char>>::empty());
        proof {
            lemma_to_set_empty(views(g.imports@));
            lemma_to_set_empty(views(initial@).take(0));
        }
        let mut i: usize = 0;
        while i < initial.len()
            invariant
                0 <= i <= initial@.len(),
                g.wf(),
                g.state() == (GenState {
                    imports: views(initial@).take(i as int).to_set(),
                    tmp: 0,
                    needs_try: false,
                    needs_main: false,
                }),
            decreases initial@.len() - i,
        {
            g.add_import(initial[i].as_str());
            assert(views(initial@).take(i + 1) =~= views(initial@).take(i as int).push(
                initial@[i as int]@,
            ));
            proof {
                lemma_to_set_push(views(initial@).take(i as int), initial@[i as int]@);
            }
            i = i + 1;
        }
        assert(views(initial@).take(initial@.len() as int) =~= views(initial@));
        g
    }

    /// Records an import (a set: a second one changes nothing).
    pub(crate) fn add_import(&mut self, path: &str)
        requires
            old(self).wf(),
        ensures
            final(self).wf(),
            final(self).state() == with_import(old(self).state(), path@),
    {
        insert_sorted(&mut self.imports, str_to_string(path));
    }

    pub(crate) fn set_needs_try(&mut self)
        requires
            old(self).wf(),
        ensures
            final(self).wf(),
            final(self).state() == with_try(old(self).state()),
    {
        self.needs_try_helper = true;
    }

    pub(crate) fn set_needs_main(&mut self)
        requires
            old(self).wf(),
        ensures
            final(self).wf(),
            final(self).state() == with_main(old(self).state()),
    {
        self.needs_main_wrapper = true;
    }

    /// A fresh temporary name.
    pub(crate) fn next_tmp(&mut self, prefix: &str) -> (r: String)
        requires
            old(self).wf(),
        ensures
            final(self).wf(),
            r@ == tmp_name(prefix@, old(self).state()),
            final(self).state() == after_tmp(old(self).state()),
    {
        let mut r = str_to_string(prefix);
        let mut k: usize = 0;
        while k < self.tmp_digits.len()
            invariant
                0 <= k <= self.tmp_digits@.len(),
                r@ == prefix@ + self.tmp_digits@.take(k as int),
            decreases self.tmp_digits@.len() - k,
        {
            crate::text::push_char(&mut r, self.tmp_digits[k]);
            assert(self.tmp_digits@.take(k + 1) =~= self.tmp_digits@.take(k as int).push(
                self.tmp_digits@[k as int],
            ));
            k = k + 1;
        }
        assert(self.tmp_digits@.take(self.tmp_digits@.len() as int) =~= self.tmp_digits@);
        let ghost n = self.tmp@;
        increment_decimal(&mut self.tmp_digits, Ghost(n));
        self.tmp = Ghost(n + 1);
        r
    }
}

// ----- enum paths in expressions -----

/// Some variant of the enum carries a payload.
pub open spec fn info_tagged(e: EnumInfo) -> bool {
    exists|i: int| 0 <= i < e.variants.len() && e.variants[i].payload.len() > 0
}

pub open spec fn generic_ctor_pattern(en: Seq<char>, vn: Seq<char>) -> Seq<char> {
    "\\b"@ + escaped(en) + "\\s*<([^>]*)>\\s*::\\s*"@ + escaped(vn) + "\\s*\\("@
}

pub open spec fn plain_ctor_pattern(en: Seq<char>, vn: Seq<char>) -> Seq<char> {
    "\\b"@ + escaped(en) + "\\s*::\\s*"@ + escaped(vn) + "\\s*\\("@
}

pub open spec fn plain_path_pattern(en: Seq<char>, vn: Seq<char>) -> Seq<char> {
    "\\b"@ + escaped(en) + "\\s*::\\s*"@ + escaped(vn) + "\\b"@
}

/// `E<T>::V(` becomes `EV[T](` and `E::V(` becomes `EV(` for an enum with payloads;
/// `E::V` becomes `EV` for a plain enum.
pub open spec fn rewrite_variant(tagged: bool, en: Seq<char>, vn: Seq<char>, text: Seq<char>) -> Seq<
    char,
> {
    if tagged {
        replaced(
            plain_ctor_pattern(en, vn),
            replaced(generic_ctor_pattern(en, vn), text, en + vn + "[$1]("@),
            en + vn + "("@,
        )
    } else {
        replaced(plain_path_pattern(en, vn), text, en + vn)
    }
}

pub open spec fn rewrite_variants(e: EnumInfo, n: nat, text: Seq<char>) -> Seq<char>
    decreases n,
{
    if n == 0 || n > e.variants.len() {
        text
    } else {
        rewrite_variant(
            info_tagged(e),
            e.name,
            e.variants[n - 1].name,
            rewrite_variants(e, (n - 1) as nat, text),
        )
    }
}

/// An expression with the paths to the variants of the enums `es` written as Go names,
/// enum by enum and variant by variant in order.
pub open spec fn transform_variants(es: Seq<EnumInfo>, text: Seq<char>) -> Seq<char>
    decreases es.len(),
{
    if es.len() == 0 {
        text
    } else {
        rewrite_variants(
            es.last(),
            es.last().variants.len(),
            transform_variants(es.drop_last(), text),
        )
    }
}

/// An expression as Go writes it: the constructors and variants of the model's enums
/// rewritten, then its function types and literals in Go's form.
#[verifier::opaque]
pub open spec fn transform(es: Seq<EnumInfo>, text: Seq<char>) -> Seq<char> {
    crate::codegen::fn_syntax::fn_syntax(transform_variants(es, text))
}

pub(crate) proof fn lemma_info_tagged(e: EnumDecl)
    ensures
        info_tagged(enum_info(e)) == crate::ast::tagged(e.variants@),
{
    let info = enum_info(e);
    if crate::ast::tagged(e.variants@) {
        let i = choose|i: int| 0 <= i < e.variants@.len() && e.variants@[i].payload@.len() > 0;
        assert(info.variants[i].payload.len() == e.variants@[i].payload@.len());
    }
    if info_tagged(info) {
        let i = choose|i: int| 0 <= i < info.variants.len() && info.variants[i].payload.len() > 0;
        assert(info.variants[i].payload.len() == e.variants@[i].payload@.len());
    }
}

fn rewrite_one(tagged: bool, en: &str, vn: &str, text: String) -> (r: String)
    ensures
        r@ == rewrite_variant(tagged, en@, vn@, text@),
{
    let een = regex_escape(en);
    let evn = regex_escape(vn);
    let mut name = str_to_string(en);
    push_str(&mut name, vn);
    if tagged {
        let mut p1 = str_to_string("\\b");
        push_str(&mut p1, een.as_str());
        push_str(&mut p1, "\\s*<([^>]*)>\\s*::\\s*");
        push_str(&mut p1, evn.as_str());
        push_str(&mut p1, "\\s*\\(");
        let mut r1 = name.clone();
        push_str(&mut r1, "[$1](");
        let t1 = replace_matches(p1, text, r1.as_str());
        let mut p2 = str_to_string("\\b");
        push_str(&mut p2, een.as_str());
        push_str(&mut p2, "\\s*::\\s*");
        push_str(&mut p2, evn.as_str());
        push_str(&mut p2, "\\s*\\(");
        let mut r2 = name;
        push_str(&mut r2, "(");
        replace_matches(p2, t1, r2.as_str())
    } else {
        let mut p = str_to_string("\\b");
        push_str(&mut p, een.as_str());
        push_str(&mut p, "\\s*::\\s*");
        push_str(&mut p, evn.as_str());
        push_str(&mut p, "\\b");
        replace_matches(p, text, name.as_str())
    }
}

/// Writes the paths to enum variants in an expression as the Go names of the variants,
/// and its function types and literals in Go's form.
pub fn transform_expr(model: &SemanticModel, text: &str) -> (r: String)
    ensures
        r@ == transform(model@.enums, text@),
{
    let ghost es = model@.enums;
    let mut out = str_to_string(text);
    let mut i: usize = 0;
    assert(es.take(0) =~= Seq::<EnumInfo>::empty());
    while i < model.enums.len()
        invariant
            0 <= i <= model.enums@.len(),
            es == model@.enums,
            es == enum_infos(model.enums@),
            out@ == transform_variants(es.take(i as int), text@),
        decreases model.enums@.len() - i,
    {
        let e = &model.enums[i];
        assert(es[i as int] == enum_info(*e));
        let tagged = e.is_tagged();
        proof {
            lemma_info_tagged(*e);
        }
        let ghost before = out@;
        let mut k: usize = 0;
        while k < e.variants.len()
            invariant
                0 <= k <= e.variants@.len(),
                es[i as int] == enum_info(*e),
                tagged == info_tagged(enum_info(*e)),
                out@ == rewrite_variants(enum_info(*e), k as nat, before),
            decreases e.variants@.len() - k,
        {
            assert(enum_info(*e).variants[k as int].name == e.variants@[k as int].name@);
            out = rewrite_one(tagged, e.name.as_str(), e.variants[k].name.as_str(), out);
            k = k + 1;
        }
        assert(es.take(i + 1).drop_last() =~= es.take(i as int));
        assert(es.take(i + 1).last() == es[i as int]);
        i = i + 1;
    }
    assert(es.take(model.enums@.len() as int) =~= es);
    reveal(transform);
    crate::codegen::fn_syntax::rewrite_fn_syntax(out.as_str())
}

// ----- a whole program -----

/// The Go text of one item.
pub open spec fn item_go(item: Item, es: Seq<EnumInfo>, s: GenState) -> stmt::Emitted {
    match item {
        Item::Struct(sd) => decl::struct_go(sd, s),
        Item::Enum(e) => decl::enum_go(enum_info(e), s),
        Item::Function(f) => decl::function_go(f, es, s),
        Item::Impl(b) => decl::methods_go(b.target@, b.methods@, es, s),
    }
}

/// The sections of a file, and the state after them.
pub struct Sections {
    pub texts: Seq<Seq<char>>,
    pub state: GenState,
}

pub open spec fn items_go(items: Seq<Item>, es: Seq<EnumInfo>, s: GenState) -> Sections
    decreases items.len(),
{
    if items.len() == 0 {
        Sections { texts: Seq::empty(), state: s }
    } else {
        let prev = items_go(items.drop_last(), es, s);
        let r = item_go(items.last(), es, prev.state);
        Sections { texts: prev.texts.push(r.text), state: r.state }
    }
}

pub open spec fn try_helper_text() -> Seq<char> {
    "func __goplusTry(values ...any) error {\n\tif len(values) == 0 {\n\t\treturn nil\n\t}\n\tlast := values[len(values)-1]\n\tif last == nil {\n\t\treturn nil\n\t}\n\tif err, ok := last.(error); ok {\n\t\treturn err\n\t}\n\treturn fmt.Errorf(\"try expression must end with error\")\n}"@
}

pub open spec fn main_wrapper_text() -> Seq<char> {
    "func main() {\n\tif err := mainWarp(); err != nil {\n\t\tfmt.Fprintln(os.Stderr, err)\n\t\tos.Exit(1)\n\t}\n}"@
}

pub open spec fn initial_state(p: Program) -> GenState {
    GenState {
        imports: views(p.imports@).to_set(),
        tmp: 0,
        needs_try: false,
        needs_main: false,
    }
}

/// The sections of a program: its items, then the `?` helper and the `main` wrapper where
/// they are needed.
pub open spec fn program_sections(p: Program, es: Seq<EnumInfo>) -> Sections {
    let base = items_go(p.items@, es, initial_state(p));
    let with_helper = if base.state.needs_try {
        Sections {
            texts: base.texts.push(try_helper_text()),
            state: with_import(base.state, "fmt"@),
        }
    } else {
        base
    };
    if with_helper.state.needs_main {
        Sections {
            texts: with_helper.texts.push(main_wrapper_text()),
            state: with_import(with_import(with_helper.state, "fmt"@), "os"@),
        }
    } else {
        with_helper
    }
}

pub open spec fn import_lines(l: Seq<Seq<char>>) -> Seq<char>
    decreases l.len(),
{
    if l.len() == 0 {
        Seq::empty()
    } else {
        import_lines(l.drop_last()) + "\t\""@ + l.last() + "\"\n"@
    }
}

/// `import ( ... )` with the imports in increasing order, or nothing for none.
pub open spec fn import_block(imports: Set<Seq<char>>) -> Seq<char> {
    let l = crate::order::sorted_list(imports);
    if l.len() == 0 {
        Seq::empty()
    } else {
        "import (\n"@ + import_lines(l) + ")\n\n"@
    }
}

/// The Go file of a program: its package, its imports and its sections.
pub open spec fn program_go(p: Program, es: Seq<EnumInfo>) -> Seq<char> {
    let r = program_sections(p, es);
    "package "@ + p.package@ + "\n\n"@ + import_block(r.state.imports) + crate::text::join(
        r.texts,
        "\n\n"@,
    ) + "\n"@
}

impl GoGenerator {
    fn emit_item(&mut self, model: &SemanticModel, item: &Item) -> (r: String)
        requires
            old(self).wf(),
        ensures
            final(self).wf(),
            r@ == item_go(*item, model@.enums, old(self).state()).text,
            final(self).state() == item_go(*item, model@.enums, old(self).state()).state,
    {
        match item {
            Item::Struct(sd) => self.emit_struct(sd),
            Item::Enum(e) => self.emit_enum(e),
            Item::Function(f) => self.emit_function(model, f),
            Item::Impl(b) => self.emit_impl_block(model, b),
        }
    }
}

/// The Go source of `program` (the model being that of its package): see `program_go`.
#[verifier::rlimit(50)]
#[verifier::spinoff_prover]
pub fn generate_go(program: &Program, model: &SemanticModel) -> (r: String)
    ensures
        r@ == program_go(*program, model@.enums),
{
    let ghost es = model@.enums;
    let mut g = GoGenerator::new(&program.imports);
    let ghost s0 = g.state();
    assert(s0 == initial_state(*program));
    let mut sections: Vec<String> = Vec::new();
    let mut i: usize = 0;
    assert(program.items@.take(0) =~= Seq::<Item>::empty());
    while i < program.items.len()
        invariant
            0 <= i <= program.items@.len(),
            g.wf(),
            es == model@.enums,
            s0 == initial_state(*program),
            views(sections@) == items_go(program.items@.take(i as int), es, s0).texts,
            g.state() == items_go(program.items@.take(i as int), es, s0).state,
        decreases program.items@.len() - i,
    {
        assert(program.items@.take(i + 1).drop_last() =~= program.items@.take(i as int));
        assert(program.items@.take(i + 1).last() == program.items@[i as int]);
        let t = g.emit_item(model, &program.items[i]);
        let ghost before = sections@;
        sections.push(t);
        assert(views(sections@) =~= views(before).push(sections@.last()@));
        i = i + 1;
    }
    assert(program.items@.take(program.items@.len() as int) =~= program.items@);
    if g.needs_try() {
        g.add_import("fmt");
        let ghost before = sections@;
        sections.push(str_to_string("func __goplusTry(values ...any) error {\n\tif len(values) == 0 {\n\t\treturn nil\n\t}\n\tlast := values[len(values)-1]\n\tif last == nil {\n\t\treturn nil\n\t}\n\tif err, ok := last.(error); ok {\n\t\treturn err\n\t}\n\treturn fmt.Errorf(\"try expression must end with error\")\n}"));
        assert(views(sections@) =~= views(before).push(try_helper_text()));
    }
    if g.needs_main() {
        g.add_import("fmt");
        g.add_import("os");
        let ghost before = sections@;
        sections.push(str_to_string("func main() {\n\tif err := mainWarp(); err != nil {\n\t\tfmt.Fprintln(os.Stderr, err)\n\t\tos.Exit(1)\n\t}\n}"));
        assert(views(sections@) =~= views(before).push(main_wrapper_text()));
    }
    let ghost fin = program_sections(*program, es);
    assert(views(sections@) == fin.texts);
    assert(g.state() == fin.state);
    let mut out = str_to_string("package ");
    push_str(&mut out, program.package.as_str());
    push_str(&mut out, "\n\n");
    let imports = g.imports_vec();
    proof {
        g.lemma_import_list();
        crate::order::lemma_sorted_list(views(imports@), fin.state.imports);
    }
    if imports.len() > 0 {
        push_str(&mut out, "import (\n");
        let ghost l = views(imports@);
        let ghost start = out@;
        let mut k: usize = 0;
        assert(l.take(0) =~= Seq::<Seq<char>>::empty());
        while k < imports.len()
            invariant
                0 <= k <= imports@.len(),
                l == views(imports@),
                out@ == start + import_lines(l.take(k as int)),
            decreases imports@.len() - k,
        {
            assert(l.take(k + 1).drop_last() =~= l.take(k as int));
            push_str(&mut out, "\t\"");
            push_str(&mut out, imports[k].as_str());
            push_str(&mut out, "\"\n");
            k = k + 1;
        }
        assert(l.take(imports@.len() as int) =~= l);
        push_str(&mut out, ")\n\n");
    }
    let joined = crate::text::join_strings(&sections, "\n\n");
    push_str(&mut out, joined.as_str());
    push_str(&mut out, "\n");
    assert(crate::text::views(sections@) =~= views(sections@));
    assert(out@ =~= program_go(*program, es));
    out
}

} // verus!
