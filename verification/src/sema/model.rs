//! What analysis records of a package: its enums and the signatures of its functions.
use vstd::prelude::*;

use crate::ast::{
    DeriveKind, EnumDecl, EnumVariant, Item, ParamDecl, Program, ReturnType, Span, TypeRef,
};
use crate::sema::signature::{base_enum_name, base_name};
use crate::text::{copy_string, push_str, str_eq, str_to_string};

verus! {

/// A variant as analysis and code generation see it: its name and payload types.
pub struct VariantInfo {
    pub name: Seq<char>,
    pub payload: Seq<Seq<char>>,
}

/// An enum declaration as plain values.
pub struct EnumInfo {
    pub name: Seq<char>,
    pub type_params: Seq<Seq<char>>,
    pub variants: Seq<VariantInfo>,
    pub derives: Seq<DeriveKind>,
    pub span: Span,
}

pub open spec fn variant_info(v: EnumVariant) -> VariantInfo {
    VariantInfo { name: v.name@, payload: v.payload@.map_values(|t: TypeRef| t.raw@) }
}

pub open spec fn enum_info(e: EnumDecl) -> EnumInfo {
    EnumInfo {
        name: e.name@,
        type_params: e.type_params@.map_values(|s: String| s@),
        variants: e.variants@.map_values(|v: EnumVariant| variant_info(v)),
        derives: e.derives@,
        span: e.span,
    }
}

pub open spec fn enum_infos(s: Seq<EnumDecl>) -> Seq<EnumInfo> {
    s.map_values(|e: EnumDecl| enum_info(e))
}

/// Position of the first enum named `name`, or -1.
pub open spec fn enum_pos(s: Seq<EnumInfo>, name: Seq<char>) -> int
    decreases s.len(),
{
    if s.len() == 0 {
        -1
    } else if s[0].name == name {
        0
    } else {
        let r = enum_pos(s.drop_first(), name);
        if r < 0 {
            -1
        } else {
            r + 1
        }
    }
}

/// The enum recorded under `name`.
pub open spec fn lookup_enum(s: Seq<EnumInfo>, name: Seq<char>) -> Option<EnumInfo> {
    let p = enum_pos(s, name);
    if p < 0 {
        None
    } else {
        Some(s[p])
    }
}

/// Records `e`, replacing an enum of the same name.
pub open spec fn put_enum(s: Seq<EnumInfo>, e: EnumInfo) -> Seq<EnumInfo> {
    let p = enum_pos(s, e.name);
    if p < 0 {
        s.push(e)
    } else {
        s.update(p, e)
    }
}

/// Position of the first occurrence of `k` in `keys`, or -1.
pub open spec fn pos_in(keys: Seq<Seq<char>>, k: Seq<char>) -> int
    decreases keys.len(),
{
    if keys.len() == 0 {
        -1
    } else if keys[0] == k {
        0
    } else {
        let r = pos_in(keys.drop_first(), k);
        if r < 0 {
            -1
        } else {
            r + 1
        }
    }
}

/// Position of the first entry with key `k`, or -1.
pub open spec fn key_pos<V>(s: Seq<(Seq<char>, V)>, k: Seq<char>) -> int {
    pos_in(s.map_values(|p: (Seq<char>, V)| p.0), k)
}

/// Records `v` under `k`, replacing an entry with the same key.
pub open spec fn put<V>(s: Seq<(Seq<char>, V)>, k: Seq<char>, v: V) -> Seq<(Seq<char>, V)> {
    let p = key_pos(s, k);
    if p < 0 {
        s.push((k, v))
    } else {
        s.update(p, (k, v))
    }
}

pub proof fn lemma_enum_pos(s: Seq<EnumInfo>, name: Seq<char>)
    ensures
        -1 <= enum_pos(s, name) < s.len(),
        enum_pos(s, name) >= 0 ==> s[enum_pos(s, name)].name == name,
        enum_pos(s, name) >= 0 ==> forall|j: int|
            0 <= j < enum_pos(s, name) ==> s[j].name != name,
        enum_pos(s, name) < 0 ==> forall|j: int| 0 <= j < s.len() ==> s[j].name != name,
    decreases s.len(),
{
    if s.len() > 0 && s[0].name != name {
        lemma_enum_pos(s.drop_first(), name);
        assert forall|j: int| 1 <= j < s.len() implies s[j] == s.drop_first()[j - 1] by {}
    }
}

pub proof fn lemma_pos_in(keys: Seq<Seq<char>>, k: Seq<char>)
    ensures
        -1 <= pos_in(keys, k) < keys.len(),
        pos_in(keys, k) >= 0 ==> keys[pos_in(keys, k)] == k,
        pos_in(keys, k) >= 0 ==> forall|j: int| 0 <= j < pos_in(keys, k) ==> keys[j] != k,
        pos_in(keys, k) < 0 ==> forall|j: int| 0 <= j < keys.len() ==> keys[j] != k,
    decreases keys.len(),
{
    if keys.len() > 0 && keys[0] != k {
        lemma_pos_in(keys.drop_first(), k);
        assert forall|j: int| 1 <= j < keys.len() implies keys[j] == keys.drop_first()[j - 1] by {}
    }
}

/// The facts of a package that analysis and code generation look up by name.
#[derive(Debug)]
pub struct SemanticModel {
    pub enums: Vec<EnumDecl>,
    pub function_returns: Vec<(String, ReturnType)>,
    pub function_params: Vec<(String, Vec<ParamDecl>)>,
}

pub struct ModelView {
    pub enums: Seq<EnumInfo>,
    pub returns: Seq<(Seq<char>, ReturnType)>,
    pub params: Seq<(Seq<char>, Seq<ParamDecl>)>,
}

impl View for SemanticModel {
    type V = ModelView;

    open spec fn view(&self) -> ModelView {
        ModelView {
            enums: enum_infos(self.enums@),
            returns: self.function_returns@.map_values(
                |p: (String, ReturnType)| (p.0@, p.1),
            ),
            params: crate::sema::decorators::known_view(self.function_params@),
        }
    }
}

pub open spec fn empty_model() -> ModelView {
    ModelView { enums: Seq::empty(), returns: Seq::empty(), params: Seq::empty() }
}

/// The returns recorded for the methods `ms` of `target`, under `Target.method`.
pub open spec fn put_methods(
    r: Seq<(Seq<char>, ReturnType)>,
    target: Seq<char>,
    ms: Seq<crate::ast::MethodDecl>,
) -> Seq<(Seq<char>, ReturnType)>
    decreases ms.len(),
{
    if ms.len() == 0 {
        r
    } else {
        put(
            put_methods(r, target, ms.drop_last()),
            target + "."@ + ms.last().name@,
            ms.last().ret,
        )
    }
}

/// What one item adds to the model.
pub open spec fn model_put_item(m: ModelView, item: Item) -> ModelView {
    match item {
        Item::Enum(e) => ModelView {
            enums: put_enum(m.enums, enum_info(e)),
            returns: m.returns,
            params: m.params,
        },
        Item::Function(f) => ModelView {
            enums: m.enums,
            returns: put(m.returns, f.name@, f.ret),
            params: put(m.params, f.name@, f.params@),
        },
        Item::Impl(b) => ModelView {
            enums: m.enums,
            returns: put_methods(m.returns, base_name(b.target@), b.methods@),
            params: m.params,
        },
        Item::Struct(_) => m,
    }
}

/// The model after recording `items` in order.
pub open spec fn model_items(m: ModelView, items: Seq<Item>) -> ModelView
    decreases items.len(),
{
    if items.len() == 0 {
        m
    } else {
        model_put_item(model_items(m, items.drop_last()), items.last())
    }
}

/// The model of the programs of a package, recorded in order.
pub open spec fn model_programs(programs: Seq<Program>) -> ModelView
    decreases programs.len(),
{
    if programs.len() == 0 {
        empty_model()
    } else {
        model_items(model_programs(programs.drop_last()), programs.last().items@)
    }
}

pub fn copy_type_ref(t: &TypeRef) -> (r: TypeRef)
    ensures
        r == *t,
{
    TypeRef { raw: t.raw.clone(), span: t.span }
}

pub fn copy_return(r: &ReturnType) -> (c: ReturnType)
    ensures
        c == *r,
{
    match r {
        ReturnType::Void => ReturnType::Void,
        ReturnType::Type(t) => ReturnType::Type(copy_type_ref(t)),
        ReturnType::ErrorOnly => ReturnType::ErrorOnly,
        ReturnType::TypeWithError(t) => ReturnType::TypeWithError(copy_type_ref(t)),
    }
}

pub fn copy_params(v: &Vec<ParamDecl>) -> (r: Vec<ParamDecl>)
    ensures
        r@ == v@,
{
    let mut r: Vec<ParamDecl> = Vec::new();
    let mut i: usize = 0;
    while i < v.len()
        invariant
            0 <= i <= v@.len(),
            r@ == v@.take(i as int),
        decreases v@.len() - i,
    {
        let p = &v[i];
        r.push(ParamDecl { name: p.name.clone(), ty: copy_type_ref(&p.ty), span: p.span });
        assert(v@.take(i + 1) =~= v@.take(i as int).push(v@[i as int]));
        i = i + 1;
    }
    assert(v@.take(v@.len() as int) =~= v@);
    r
}

pub fn copy_strings(v: &Vec<String>) -> (r: Vec<String>)
    ensures
        r@ == v@,
{
    let mut r: Vec<String> = Vec::new();
    let mut i: usize = 0;
    while i < v.len()
        invariant
            0 <= i <= v@.len(),
            r@ == v@.take(i as int),
        decreases v@.len() - i,
    {
        r.push(v[i].clone());
        assert(v@.take(i + 1) =~= v@.take(i as int).push(v@[i as int]));
        i = i + 1;
    }
    assert(v@.take(v@.len() as int) =~= v@);
    r
}

fn copy_type_refs(v: &Vec<TypeRef>) -> (r: Vec<TypeRef>)
    ensures
        r@ == v@,
{
    let mut r: Vec<TypeRef> = Vec::new();
    let mut i: usize = 0;
    while i < v.len()
        invariant
            0 <= i <= v@.len(),
            r@ == v@.take(i as int),
        decreases v@.len() - i,
    {
        r.push(copy_type_ref(&v[i]));
        assert(v@.take(i + 1) =~= v@.take(i as int).push(v@[i as int]));
        i = i + 1;
    }
    assert(v@.take(v@.len() as int) =~= v@);
    r
}

fn copy_derives(v: &Vec<DeriveKind>) -> (r: Vec<DeriveKind>)
    ensures
        r@ == v@,
{
    let mut r: Vec<DeriveKind> = Vec::new();
    let mut i: usize = 0;
    while i < v.len()
        invariant
            0 <= i <= v@.len(),
            r@ == v@.take(i as int),
        decreases v@.len() - i,
    {
        r.push(v[i]);
        assert(v@.take(i + 1) =~= v@.take(i as int).push(v@[i as int]));
        i = i + 1;
    }
    assert(v@.take(v@.len() as int) =~= v@);
    r
}

pub fn copy_enum(e: &EnumDecl) -> (r: EnumDecl)
    ensures
        enum_info(r) == enum_info(*e),
{
    let mut variants: Vec<EnumVariant> = Vec::new();
    let mut i: usize = 0;
    while i < e.variants.len()
        invariant
            0 <= i <= e.variants@.len(),
            variants@.len() == i,
            forall|j: int| 0 <= j < i ==> variant_info(#[trigger] variants@[j]) == variant_info(
                e.variants@[j],
            ),
        decreases e.variants@.len() - i,
    {
        let v = &e.variants[i];
        let c = EnumVariant { name: v.name.clone(), payload: copy_type_refs(&v.payload), span: v.span };
        assert(variant_info(c) == variant_info(*v));
        variants.push(c);
        i = i + 1;
    }
    let r = EnumDecl {
        name: e.name.clone(),
        type_params: copy_strings(&e.type_params),
        variants,
        derives: copy_derives(&e.derives),
        span: e.span,
    };
    assert(enum_info(r).variants =~= enum_info(*e).variants);
    assert(enum_info(r).type_params =~= enum_info(*e).type_params);
    r
}

/// Index of the first enum of `enums` named `name`.
pub fn find_enum(enums: &Vec<EnumDecl>, name: &str) -> (r: Option<usize>)
    ensures
        r matches Some(i) ==> i < enums@.len() && i == enum_pos(enum_infos(enums@), name@),
        r is None ==> enum_pos(enum_infos(enums@), name@) < 0,
{
    let ghost s = enum_infos(enums@);
    proof {
        lemma_enum_pos(s, name@);
    }
    let mut i: usize = 0;
    while i < enums.len()
        invariant
            0 <= i <= enums@.len(),
            s == enum_infos(enums@),
            forall|j: int| 0 <= j < i ==> s[j].name != name@,
            -1 <= enum_pos(s, name@) < s.len(),
            enum_pos(s, name@) >= 0 ==> s[enum_pos(s, name@)].name == name@,
            enum_pos(s, name@) >= 0 ==> forall|j: int|
                0 <= j < enum_pos(s, name@) ==> s[j].name != name@,
            enum_pos(s, name@) < 0 ==> forall|j: int| 0 <= j < s.len() ==> s[j].name != name@,
        decreases enums@.len() - i,
    {
        assert(s[i as int] == enum_info(enums@[i as int]));
        if str_eq(enums[i].name.as_str(), name) {
            assert(s[i as int].name == name@);
            return Some(i);
        }
        i = i + 1;
    }
    None
}

/// Index of the first entry of `s` with key `k`.
fn find_key<V>(s: &Vec<(String, V)>, k: &str) -> (r: Option<usize>)
    ensures
        r matches Some(i) ==> i < s@.len() && i == pos_in(
            s@.map_values(|p: (String, V)| p.0@),
            k@,
        ),
        r is None ==> pos_in(s@.map_values(|p: (String, V)| p.0@), k@) < 0,
{
    let ghost m = s@.map_values(|p: (String, V)| p.0@);
    proof {
        lemma_pos_in(m, k@);
    }
    let mut i: usize = 0;
    while i < s.len()
        invariant
            0 <= i <= s@.len(),
            m == s@.map_values(|p: (String, V)| p.0@),
            forall|j: int| 0 <= j < i ==> m[j] != k@,
            -1 <= pos_in(m, k@) < m.len(),
            pos_in(m, k@) >= 0 ==> m[pos_in(m, k@)] == k@,
            pos_in(m, k@) >= 0 ==> forall|j: int| 0 <= j < pos_in(m, k@) ==> m[j] != k@,
            pos_in(m, k@) < 0 ==> forall|j: int| 0 <= j < m.len() ==> m[j] != k@,
        decreases s@.len() - i,
    {
        assert(m[i as int] == s@[i as int].0@);
        if str_eq(s[i].0.as_str(), k) {
            return Some(i);
        }
        i = i + 1;
    }
    None
}

impl SemanticModel {
    pub fn new() -> (m: SemanticModel)
        ensures
            m@ == empty_model(),
    {
        let m = SemanticModel {
            enums: Vec::new(),
            function_returns: Vec::new(),
            function_params: Vec::new(),
        };
        assert(m@.enums =~= Seq::<EnumInfo>::empty());
        assert(m@.returns =~= Seq::<(Seq<char>, ReturnType)>::empty());
        assert(m@.params =~= Seq::<(Seq<char>, Seq<ParamDecl>)>::empty());
        m
    }

    fn put_enum(&mut self, e: &EnumDecl)
        ensures
            final(self)@ == (ModelView {
                enums: put_enum(old(self)@.enums, enum_info(*e)),
                returns: old(self)@.returns,
                params: old(self)@.params,
            }),
    {
        let c = copy_enum(e);
        match find_enum(&self.enums, e.name.as_str()) {
            Some(i) => {
                self.enums.set(i, c);
                assert(self@.enums =~= put_enum(old(self)@.enums, enum_info(*e)));
            },
            None => {
                self.enums.push(c);
                assert(self@.enums =~= put_enum(old(self)@.enums, enum_info(*e)));
            },
        }
    }

    fn put_return(&mut self, k: String, ret: ReturnType)
        ensures
            final(self)@ == (ModelView {
                enums: old(self)@.enums,
                returns: put(old(self)@.returns, k@, ret),
                params: old(self)@.params,
            }),
    {
        let ghost kv = k@;
        assert(old(self)@.returns.map_values(|p: (Seq<char>, ReturnType)| p.0)
            =~= self.function_returns@.map_values(|p: (String, ReturnType)| p.0@));
        match find_key(&self.function_returns, k.as_str()) {
            Some(i) => {
                self.function_returns.set(i, (k, ret));
            },
            None => {
                self.function_returns.push((k, ret));
            },
        }
        assert(self@.returns =~= put(old(self)@.returns, kv, ret));
    }

    fn put_params(&mut self, k: String, ps: Vec<ParamDecl>)
        ensures
            final(self)@ == (ModelView {
                enums: old(self)@.enums,
                returns: old(self)@.returns,
                params: put(old(self)@.params, k@, ps@),
            }),
    {
        let ghost kv = k@;
        let ghost pv = ps@;
        let ghost before = old(self)@.params;
        assert(before.map_values(|p: (Seq<char>, Seq<ParamDecl>)| p.0)
            =~= self.function_params@.map_values(|p: (String, Vec<ParamDecl>)| p.0@));
        match find_key(&self.function_params, k.as_str()) {
            Some(i) => {
                self.function_params.set(i, (k, ps));
                assert forall|j: int| 0 <= j < self@.params.len() implies self@.params[j] == put(
                    before,
                    kv,
                    pv,
                )[j] by {
                    if j != i {
                        assert(self.function_params@[j] == old(self).function_params@[j]);
                    }
                }
            },
            None => {
                self.function_params.push((k, ps));
                assert forall|j: int| 0 <= j < self@.params.len() implies self@.params[j] == put(
                    before,
                    kv,
                    pv,
                )[j] by {
                    if j < before.len() {
                        assert(self.function_params@[j] == old(self).function_params@[j]);
                    }
                }
            },
        }
        assert(self@.params =~= put(before, kv, pv));
    }

    /// Records what `item` declares.
    pub fn record_item(&mut self, item: &Item)
        ensures
            final(self)@ == model_put_item(old(self)@, *item),
    {
        match item {
            Item::Enum(e) => {
                self.put_enum(e);
            },
            Item::Function(f) => {
                self.put_return(f.name.clone(), copy_return(&f.ret));
                self.put_params(f.name.clone(), copy_params(&f.params));
            },
            Item::Impl(b) => {
                let target = base_enum_name(b.target.as_str());
                let ghost start = self@;
                let mut i: usize = 0;
                while i < b.methods.len()
                    invariant
                        0 <= i <= b.methods@.len(),
                        target@ == base_name(b.target@),
                        self@ == (ModelView {
                            enums: start.enums,
                            returns: put_methods(start.returns, target@, b.methods@.take(i as int)),
                            params: start.params,
                        }),
                    decreases b.methods@.len() - i,
                {
                    assert(b.methods@.take(i + 1).drop_last() =~= b.methods@.take(i as int));
                    let m = &b.methods[i];
                    let mut key = target.clone();
                    push_str(&mut key, ".");
                    push_str(&mut key, m.name.as_str());
                    self.put_return(key, copy_return(&m.ret));
                    i = i + 1;
                }
                assert(b.methods@.take(b.methods@.len() as int) =~= b.methods@);
            },
            Item::Struct(_) => {},
        }
    }

    /// Records every item of `items`, in order.
    pub fn record_items(&mut self, items: &Vec<Item>)
        ensures
            final(self)@ == model_items(old(self)@, items@),
    {
        let mut i: usize = 0;
        while i < items.len()
            invariant
                0 <= i <= items@.len(),
                self@ == model_items(old(self)@, items@.take(i as int)),
            decreases items@.len() - i,
        {
            assert(items@.take(i + 1).drop_last() =~= items@.take(i as int));
            self.record_item(&items[i]);
            i = i + 1;
        }
        assert(items@.take(items@.len() as int) =~= items@);
    }
}

/// The model of a package made of `programs`: each enum by name, and each function's
/// (and each method's, under `Target.method`) return and parameters; a later declaration
/// of a name replaces an earlier one.
pub fn build_model(programs: &[Program]) -> (m: SemanticModel)
    ensures
        m@ == model_programs(programs@),
{
    let mut m = SemanticModel::new();
    let mut i: usize = 0;
    while i < programs.len()
        invariant
            0 <= i <= programs@.len(),
            m@ == model_programs(programs@.take(i as int)),
        decreases programs@.len() - i,
    {
        assert(programs@.take(i + 1).drop_last() =~= programs@.take(i as int));
        m.record_items(&programs[i].items);
        i = i + 1;
    }
    assert(programs@.take(programs@.len() as int) =~= programs@);
    m
}

} // verus!
