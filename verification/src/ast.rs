//! The JavaScript-object AST that code generation produces.
//!
//! Nodes are interned in an [`AstBuilder`]: a node is stored once and named by
//! an [`AstKey`], and nodes refer to earlier nodes by key.  The meaning of a key
//! is the fully expanded [`Tree`] that it stands for.
use vstd::prelude::*;

verus! {

/// The index of an interned node in an [`AstBuilder`].
#[derive(Clone, Copy, PartialEq, Eq, Structural, Debug, Hash)]
pub struct AstKey(pub usize);

/// How a dynamically imported module is loaded at runtime.
#[derive(Clone, Debug, PartialEq)]
pub enum DynamicModuleProvider {
    JSResource,
    Custom { pattern: String },
}

/// An import of a JavaScript module.
#[derive(Clone, Debug, PartialEq)]
pub struct JSModuleDependency {
    pub path: String,
    pub named_import: Option<String>,
    pub import_as: Option<String>,
}

/// A value inside an AST node.
#[derive(Debug, PartialEq)]
pub enum Primitive {
    Key(AstKey),
    Variable(String),
    String(String),
    RawString(String),
    GraphQLModuleDependency(String),
    JSModuleDependency(JSModuleDependency),
    Bool(bool),
    Int(i64),
    /// The bits of an IEEE double.
    Float(u64),
    Null,
    /// A null that the printer leaves out together with its key.
    SkippableNull,
    StorageKey(String, AstKey),
    RelayResolverModel {
        graphql_module: String,
        js_module: JSModuleDependency,
        injected_field_name_details: Option<(String, bool)>,
    },
    RelayResolverWeakObjectWrapper { resolver: Box<Primitive>, key: String, plural: bool, live: bool },
    DynamicImport { provider: DynamicModuleProvider, module: String },
}

/// A key/value pair of an object node.
#[derive(Debug, PartialEq)]
pub struct ObjectEntry {
    pub key: String,
    pub value: Primitive,
}

/// An AST node: an object or an array.
#[derive(Debug, PartialEq)]
pub enum Ast {
    Object(Vec<ObjectEntry>),
    Array(Vec<Primitive>),
}

/// The mathematical value of a module dependency.
pub struct JSModV {
    pub path: Seq<char>,
    pub named_import: Option<Seq<char>>,
    pub import_as: Option<Seq<char>>,
}

/// The mathematical value of a module provider.
pub enum ProviderV {
    JSResource,
    Custom(Seq<char>),
}

/// The fully expanded meaning of a primitive: every key replaced by the node it names.
pub enum Tree {
    Object(Seq<(Seq<char>, Tree)>),
    Array(Seq<Tree>),
    Variable(Seq<char>),
    Str(Seq<char>),
    RawStr(Seq<char>),
    GraphQLModule(Seq<char>),
    JSModule(JSModV),
    Bool(bool),
    Int(int),
    Float(u64),
    Null,
    SkippableNull,
    StorageKey(Seq<char>, Box<Tree>),
    ResolverModel { graphql_module: Seq<char>, js_module: JSModV, injected: Option<(Seq<char>, bool)> },
    WeakWrapper { resolver: Box<Tree>, key: Seq<char>, plural: bool, live: bool },
    DynamicImport { provider: ProviderV, module: Seq<char> },
}

pub open spec fn opt_str_view(o: Option<String>) -> Option<Seq<char>> {
    match o {
        Some(s) => Some(s@),
        None => None,
    }
}

pub open spec fn js_view(d: JSModuleDependency) -> JSModV {
    JSModV { path: d.path@, named_import: opt_str_view(d.named_import), import_as: opt_str_view(d.import_as) }
}

pub open spec fn provider_view(p: DynamicModuleProvider) -> ProviderV {
    match p {
        DynamicModuleProvider::JSResource => ProviderV::JSResource,
        DynamicModuleProvider::Custom { pattern } => ProviderV::Custom(pattern@),
    }
}

pub open spec fn injected_view(o: Option<(String, bool)>) -> Option<(Seq<char>, bool)> {
    match o {
        Some((s, b)) => Some((s@, b)),
        None => None,
    }
}

/// The nesting depth of resolver wrappers in `p`.
pub open spec fn prim_height(p: Primitive) -> nat
    decreases p,
{
    match p {
        Primitive::RelayResolverWeakObjectWrapper { resolver, .. } => 1 + prim_height(*resolver),
        _ => 0,
    }
}

/// Every key that `p` mentions is below `b`.
pub open spec fn prim_keys_below(p: Primitive, b: nat) -> bool
    decreases p,
{
    match p {
        Primitive::Key(k) => k.0 < b,
        Primitive::StorageKey(_, k) => k.0 < b,
        Primitive::RelayResolverWeakObjectWrapper { resolver, .. } => prim_keys_below(*resolver, b),
        _ => true,
    }
}

pub open spec fn entries_keys_below(es: Seq<ObjectEntry>, b: nat) -> bool {
    forall|i: int| 0 <= i < es.len() ==> prim_keys_below(#[trigger] es[i].value, b)
}

pub open spec fn prims_keys_below(ps: Seq<Primitive>, b: nat) -> bool {
    forall|i: int| 0 <= i < ps.len() ==> prim_keys_below(#[trigger] ps[i], b)
}

pub open spec fn ast_keys_below(x: Ast, b: nat) -> bool {
    match x {
        Ast::Object(es) => entries_keys_below(es@, b),
        Ast::Array(ps) => prims_keys_below(ps@, b),
    }
}

/// Every node refers only to nodes interned before it.
pub open spec fn arena_wf(a: Seq<Ast>) -> bool {
    forall|i: int| 0 <= i < a.len() ==> ast_keys_below(#[trigger] a[i], i as nat)
}

/// `a2` keeps every node of `a1` at its index.
pub open spec fn extends(a1: Seq<Ast>, a2: Seq<Ast>) -> bool {
    &&& a1.len() <= a2.len()
    &&& forall|i: int| 0 <= i < a1.len() ==> #[trigger] a2[i] == a1[i]
}

/// The tree that key `k` names in arena `a`.
pub open spec fn key_tree(a: Seq<Ast>, k: nat) -> Tree
    decreases k, 3nat, 0nat,
{
    if k < a.len() {
        ast_tree(a, a[k as int], k)
    } else {
        Tree::Null
    }
}

/// The tree of node `x`, expanding only keys below `b`.
pub open spec fn ast_tree(a: Seq<Ast>, x: Ast, b: nat) -> Tree
    decreases b, 2nat, 0nat,
{
    match x {
        Ast::Object(es) => Tree::Object(entries_tree(a, es@, b)),
        Ast::Array(ps) => Tree::Array(prims_tree(a, ps@, b)),
    }
}

pub open spec fn entries_tree(a: Seq<Ast>, es: Seq<ObjectEntry>, b: nat) -> Seq<(Seq<char>, Tree)>
    decreases b, 1nat, es.len(),
{
    if es.len() == 0 {
        Seq::empty()
    } else {
        entries_tree(a, es.drop_last(), b).push((es.last().key@, prim_tree(a, es.last().value, b)))
    }
}

pub open spec fn prims_tree(a: Seq<Ast>, ps: Seq<Primitive>, b: nat) -> Seq<Tree>
    decreases b, 1nat, ps.len(),
{
    if ps.len() == 0 {
        Seq::empty()
    } else {
        prims_tree(a, ps.drop_last(), b).push(prim_tree(a, ps.last(), b))
    }
}

pub open spec fn prim_tree(a: Seq<Ast>, p: Primitive, b: nat) -> Tree
    decreases b, 0nat, prim_height(p),
{
    match p {
        Primitive::Key(k) => if k.0 < b {
            key_tree(a, k.0 as nat)
        } else {
            Tree::Null
        },
        Primitive::Variable(s) => Tree::Variable(s@),
        Primitive::String(s) => Tree::Str(s@),
        Primitive::RawString(s) => Tree::RawStr(s@),
        Primitive::GraphQLModuleDependency(s) => Tree::GraphQLModule(s@),
        Primitive::JSModuleDependency(d) => Tree::JSModule(js_view(d)),
        Primitive::Bool(v) => Tree::Bool(v),
        Primitive::Int(v) => Tree::Int(v as int),
        Primitive::Float(v) => Tree::Float(v),
        Primitive::Null => Tree::Null,
        Primitive::SkippableNull => Tree::SkippableNull,
        Primitive::StorageKey(s, k) => Tree::StorageKey(
            s@,
            Box::new(
                if k.0 < b {
                    key_tree(a, k.0 as nat)
                } else {
                    Tree::Null
                },
            ),
        ),
        Primitive::RelayResolverModel { graphql_module, js_module, injected_field_name_details } =>
            Tree::ResolverModel {
            graphql_module: graphql_module@,
            js_module: js_view(js_module),
            injected: injected_view(injected_field_name_details),
        },
        Primitive::RelayResolverWeakObjectWrapper { resolver, key, plural, live } => Tree::WeakWrapper {
            resolver: Box::new(prim_tree(a, *resolver, b)),
            key: key@,
            plural,
            live,
        },
        Primitive::DynamicImport { provider, module } => Tree::DynamicImport {
            provider: provider_view(provider),
            module: module@,
        },
    }
}

/// What primitive `p` means in arena `a`.
pub open spec fn denote(a: Seq<Ast>, p: Primitive) -> Tree {
    prim_tree(a, p, a.len())
}

/// What node `x` would mean if it were interned into arena `a`.
pub open spec fn ast_denote(a: Seq<Ast>, x: Ast) -> Tree {
    ast_tree(a, x, a.len())
}

/// What a list of entries means in arena `a`.
pub open spec fn entries_denote(a: Seq<Ast>, es: Seq<ObjectEntry>) -> Seq<(Seq<char>, Tree)> {
    Seq::new(es.len(), |i: int| (es[i].key@, denote(a, es[i].value)))
}

/// What a list of primitives means in arena `a`.
pub open spec fn prims_denote(a: Seq<Ast>, ps: Seq<Primitive>) -> Seq<Tree> {
    Seq::new(ps.len(), |i: int| denote(a, ps[i]))
}

// ---------------------------------------------------------------------------
// Structural sameness, as computed by `prim_eq` and `ast_eq`.
pub open spec fn opt_same(x: Option<String>, y: Option<String>) -> bool {
    opt_str_view(x) == opt_str_view(y)
}

pub open spec fn prim_same(p: Primitive, q: Primitive) -> bool
    decreases p,
{
    match p {
        Primitive::Key(k) => q is Key && q->Key_0.0 == k.0,
        Primitive::Variable(s) => q is Variable && q->Variable_0@ == s@,
        Primitive::String(s) => q is String && q->String_0@ == s@,
        Primitive::RawString(s) => q is RawString && q->RawString_0@ == s@,
        Primitive::GraphQLModuleDependency(s) => q is GraphQLModuleDependency
            && q->GraphQLModuleDependency_0@ == s@,
        Primitive::JSModuleDependency(d) => q is JSModuleDependency && js_view(q->JSModuleDependency_0)
            == js_view(d),
        Primitive::Bool(v) => q is Bool && q->Bool_0 == v,
        Primitive::Int(v) => q is Int && q->Int_0 == v,
        Primitive::Float(v) => q is Float && q->Float_0 == v,
        Primitive::Null => q is Null,
        Primitive::SkippableNull => q is SkippableNull,
        Primitive::StorageKey(s, k) => q is StorageKey && q->StorageKey_0@ == s@ && q->StorageKey_1.0
            == k.0,
        Primitive::RelayResolverModel { graphql_module, js_module, injected_field_name_details } => {
            &&& q is RelayResolverModel
            &&& q->RelayResolverModel_graphql_module@ == graphql_module@
            &&& js_view(q->RelayResolverModel_js_module) == js_view(js_module)
            &&& injected_view(q->injected_field_name_details) == injected_view(
                injected_field_name_details,
            )
        },
        Primitive::RelayResolverWeakObjectWrapper { resolver, key, plural, live } => {
            &&& q is RelayResolverWeakObjectWrapper
            &&& prim_same(*resolver, *q->resolver)
            &&& q->RelayResolverWeakObjectWrapper_key@ == key@
            &&& q->RelayResolverWeakObjectWrapper_plural == plural
            &&& q->RelayResolverWeakObjectWrapper_live == live
        },
        Primitive::DynamicImport { provider, module } => {
            &&& q is DynamicImport
            &&& provider_view(q->provider) == provider_view(provider)
            &&& q->DynamicImport_module@ == module@
        },
    }
}

pub open spec fn entry_same(e: ObjectEntry, f: ObjectEntry) -> bool {
    e.key@ == f.key@ && prim_same(e.value, f.value)
}

pub open spec fn ast_same(x: Ast, y: Ast) -> bool {
    match x {
        Ast::Object(es) => y is Object && {
            let fs = y->Object_0@;
            &&& fs.len() == es@.len()
            &&& forall|i: int| 0 <= i < fs.len() ==> #[trigger] entry_same(es@[i], fs[i])
        },
        Ast::Array(ps) => y is Array && {
            let qs = y->Array_0@;
            &&& qs.len() == ps@.len()
            &&& forall|i: int| 0 <= i < qs.len() ==> #[trigger] prim_same(ps@[i], qs[i])
        },
    }
}

// ---------------------------------------------------------------------------
// Lemmas on the meaning of keys.
pub proof fn lemma_entries_closed(a: Seq<Ast>, es: Seq<ObjectEntry>, b: nat)
    ensures
        entries_tree(a, es, b) =~= Seq::new(
            es.len(),
            |i: int| (es[i].key@, prim_tree(a, es[i].value, b)),
        ),
    decreases es.len(),
{
    if es.len() > 0 {
        lemma_entries_closed(a, es.drop_last(), b);
    }
}

pub proof fn lemma_prims_closed(a: Seq<Ast>, ps: Seq<Primitive>, b: nat)
    ensures
        prims_tree(a, ps, b) =~= Seq::new(ps.len(), |i: int| prim_tree(a, ps[i], b)),
    decreases ps.len(),
{
    if ps.len() > 0 {
        lemma_prims_closed(a, ps.drop_last(), b);
    }
}

proof fn lemma_prim_bound(a: Seq<Ast>, p: Primitive, b1: nat, b2: nat)
    requires
        prim_keys_below(p, b1),
        b1 <= b2,
    ensures
        prim_tree(a, p, b1) == prim_tree(a, p, b2),
        prim_keys_below(p, b2),
    decreases p,
{
    if let Primitive::RelayResolverWeakObjectWrapper { resolver, .. } = p {
        lemma_prim_bound(a, *resolver, b1, b2);
    }
}

proof fn lemma_ast_bound(a: Seq<Ast>, x: Ast, b1: nat, b2: nat)
    requires
        ast_keys_below(x, b1),
        b1 <= b2,
    ensures
        ast_tree(a, x, b1) == ast_tree(a, x, b2),
        ast_keys_below(x, b2),
{
    match x {
        Ast::Object(es) => {
            lemma_entries_closed(a, es@, b1);
            lemma_entries_closed(a, es@, b2);
            assert forall|i: int| 0 <= i < es@.len() implies prim_tree(a, es@[i].value, b1)
                == prim_tree(a, es@[i].value, b2) && prim_keys_below(es@[i].value, b2) by {
                lemma_prim_bound(a, es@[i].value, b1, b2);
            }
            assert(entries_tree(a, es@, b1) =~= entries_tree(a, es@, b2));
        },
        Ast::Array(ps) => {
            lemma_prims_closed(a, ps@, b1);
            lemma_prims_closed(a, ps@, b2);
            assert forall|i: int| 0 <= i < ps@.len() implies prim_tree(a, ps@[i], b1) == prim_tree(
                a,
                ps@[i],
                b2,
            ) && prim_keys_below(ps@[i], b2) by {
                lemma_prim_bound(a, ps@[i], b1, b2);
            }
            assert(prims_tree(a, ps@, b1) =~= prims_tree(a, ps@, b2));
        },
    }
}

proof fn lemma_key_ext(a1: Seq<Ast>, a2: Seq<Ast>, k: nat)
    requires
        arena_wf(a1),
        extends(a1, a2),
        k < a1.len(),
    ensures
        key_tree(a2, k) == key_tree(a1, k),
    decreases k, 3nat, 0nat,
{
    assert(a2[k as int] == a1[k as int]);
    lemma_ast_ext(a1, a2, a1[k as int], k);
}

proof fn lemma_ast_ext(a1: Seq<Ast>, a2: Seq<Ast>, x: Ast, b: nat)
    requires
        arena_wf(a1),
        extends(a1, a2),
        b <= a1.len(),
        ast_keys_below(x, b),
    ensures
        ast_tree(a2, x, b) == ast_tree(a1, x, b),
    decreases b, 2nat, 0nat,
{
    match x {
        Ast::Object(es) => {
            lemma_entries_ext(a1, a2, es@, b);
        },
        Ast::Array(ps) => {
            lemma_prims_ext(a1, a2, ps@, b);
        },
    }
}

proof fn lemma_entries_ext(a1: Seq<Ast>, a2: Seq<Ast>, es: Seq<ObjectEntry>, b: nat)
    requires
        arena_wf(a1),
        extends(a1, a2),
        b <= a1.len(),
        entries_keys_below(es, b),
    ensures
        entries_tree(a2, es, b) == entries_tree(a1, es, b),
    decreases b, 1nat, es.len(),
{
    if es.len() > 0 {
        assert(prim_keys_below(es[es.len() - 1].value, b));
        lemma_entries_ext(a1, a2, es.drop_last(), b);
        lemma_prim_ext(a1, a2, es.last().value, b);
    }
}

proof fn lemma_prims_ext(a1: Seq<Ast>, a2: Seq<Ast>, ps: Seq<Primitive>, b: nat)
    requires
        arena_wf(a1),
        extends(a1, a2),
        b <= a1.len(),
        prims_keys_below(ps, b),
    ensures
        prims_tree(a2, ps, b) == prims_tree(a1, ps, b),
    decreases b, 1nat, ps.len(),
{
    if ps.len() > 0 {
        assert(prim_keys_below(ps[ps.len() - 1], b));
        lemma_prims_ext(a1, a2, ps.drop_last(), b);
        lemma_prim_ext(a1, a2, ps.last(), b);
    }
}

proof fn lemma_prim_ext(a1: Seq<Ast>, a2: Seq<Ast>, p: Primitive, b: nat)
    requires
        arena_wf(a1),
        extends(a1, a2),
        b <= a1.len(),
        prim_keys_below(p, b),
    ensures
        prim_tree(a2, p, b) == prim_tree(a1, p, b),
    decreases b, 0nat, prim_height(p),
{
    match p {
        Primitive::Key(k) => {
            lemma_key_ext(a1, a2, k.0 as nat);
        },
        Primitive::StorageKey(_, k) => {
            lemma_key_ext(a1, a2, k.0 as nat);
        },
        Primitive::RelayResolverWeakObjectWrapper { resolver, .. } => {
            lemma_prim_ext(a1, a2, *resolver, b);
        },
        _ => {},
    }
}

/// A primitive keeps its meaning when the arena grows.
pub proof fn lemma_denote_stable(a1: Seq<Ast>, a2: Seq<Ast>, p: Primitive)
    requires
        arena_wf(a1),
        extends(a1, a2),
        prim_keys_below(p, a1.len()),
    ensures
        denote(a2, p) == denote(a1, p),
        prim_keys_below(p, a2.len()),
{
    lemma_prim_bound(a2, p, a1.len(), a2.len());
    lemma_prim_ext(a1, a2, p, a1.len());
}

/// A key keeps its meaning when the arena grows.
pub proof fn lemma_key_stable(a1: Seq<Ast>, a2: Seq<Ast>, k: nat)
    requires
        arena_wf(a1),
        extends(a1, a2),
        k < a1.len(),
    ensures
        key_tree(a2, k) == key_tree(a1, k),
{
    lemma_key_ext(a1, a2, k);
}

/// The meaning of a list of entries, element by element.
pub proof fn lemma_entries_denote(a: Seq<Ast>, es: Seq<ObjectEntry>)
    ensures
        entries_tree(a, es, a.len()) == entries_denote(a, es),
{
    lemma_entries_closed(a, es, a.len());
    assert(entries_tree(a, es, a.len()) =~= entries_denote(a, es));
}

/// The meaning of a list of primitives, element by element.
pub proof fn lemma_prims_denote(a: Seq<Ast>, ps: Seq<Primitive>)
    ensures
        prims_tree(a, ps, a.len()) == prims_denote(a, ps),
{
    lemma_prims_closed(a, ps, a.len());
    assert(prims_tree(a, ps, a.len()) =~= prims_denote(a, ps));
}

proof fn lemma_prim_same(a: Seq<Ast>, p: Primitive, q: Primitive, b: nat)
    requires
        prim_same(p, q),
    ensures
        prim_tree(a, p, b) == prim_tree(a, q, b),
        prim_keys_below(p, b) == prim_keys_below(q, b),
    decreases p,
{
    if let Primitive::RelayResolverWeakObjectWrapper { resolver, .. } = p {
        lemma_prim_same(a, *resolver, *q->resolver, b);
    }
}

proof fn lemma_ast_same(a: Seq<Ast>, x: Ast, y: Ast, b: nat)
    requires
        ast_same(x, y),
    ensures
        ast_tree(a, x, b) == ast_tree(a, y, b),
        ast_keys_below(x, b) == ast_keys_below(y, b),
{
    match x {
        Ast::Object(es) => {
            let fs = y->Object_0@;
            lemma_entries_closed(a, es@, b);
            lemma_entries_closed(a, fs, b);
            assert forall|i: int| 0 <= i < fs.len() implies es@[i].key@ == fs[i].key@ && prim_tree(a, es@[i].value, b)
                == prim_tree(a, fs[i].value, b) && prim_keys_below(es@[i].value, b)
                == prim_keys_below(fs[i].value, b) by {
                assert(entry_same(es@[i], fs[i]));
                lemma_prim_same(a, es@[i].value, fs[i].value, b);
            }
            assert(entries_keys_below(es@, b) == entries_keys_below(fs, b)) by {
                if entries_keys_below(es@, b) {
                    assert forall|i: int| 0 <= i < fs.len() implies prim_keys_below(#[trigger] fs[i].value, b) by {
                        assert(entry_same(es@[i], fs[i]));
                        lemma_prim_same(a, es@[i].value, fs[i].value, b);
                    }
                }
                if entries_keys_below(fs, b) {
                    assert forall|i: int| 0 <= i < es@.len() implies prim_keys_below(#[trigger] es@[i].value, b) by {
                        assert(entry_same(es@[i], fs[i]));
                        lemma_prim_same(a, es@[i].value, fs[i].value, b);
                    }
                }
            }
            assert(entries_tree(a, es@, b) =~= entries_tree(a, fs, b));
        },
        Ast::Array(ps) => {
            let qs = y->Array_0@;
            lemma_prims_closed(a, ps@, b);
            lemma_prims_closed(a, qs, b);
            assert forall|i: int| 0 <= i < qs.len() implies prim_tree(a, ps@[i], b) == prim_tree(
                a,
                qs[i],
                b,
            ) && prim_keys_below(ps@[i], b) == prim_keys_below(qs[i], b) by {
                assert(prim_same(ps@[i], qs[i]));
                lemma_prim_same(a, ps@[i], qs[i], b);
            }
            assert(prims_keys_below(ps@, b) == prims_keys_below(qs, b)) by {
                if prims_keys_below(ps@, b) {
                    assert forall|i: int| 0 <= i < qs.len() implies prim_keys_below(#[trigger] qs[i], b) by {
                        assert(prim_same(ps@[i], qs[i]));
                        lemma_prim_same(a, ps@[i], qs[i], b);
                    }
                }
                if prims_keys_below(qs, b) {
                    assert forall|i: int| 0 <= i < ps@.len() implies prim_keys_below(#[trigger] ps@[i], b) by {
                        assert(prim_same(ps@[i], qs[i]));
                        lemma_prim_same(a, ps@[i], qs[i], b);
                    }
                }
            }
            assert(prims_tree(a, ps@, b) =~= prims_tree(a, qs, b));
        },
    }
}

// ---------------------------------------------------------------------------
// Executable structural comparison.
fn opt_eq(x: &Option<String>, y: &Option<String>) -> (r: bool)
    ensures
        r == opt_same(*x, *y),
{
    match (x, y) {
        (Some(a), Some(b)) => *a == *b,
        (None, None) => true,
        _ => false,
    }
}

fn js_eq(x: &JSModuleDependency, y: &JSModuleDependency) -> (r: bool)
    ensures
        r == (js_view(*x) == js_view(*y)),
{
    x.path == y.path && opt_eq(&x.named_import, &y.named_import) && opt_eq(
        &x.import_as,
        &y.import_as,
    )
}

fn provider_eq(x: &DynamicModuleProvider, y: &DynamicModuleProvider) -> (r: bool)
    ensures
        r == (provider_view(*x) == provider_view(*y)),
{
    match (x, y) {
        (DynamicModuleProvider::JSResource, DynamicModuleProvider::JSResource) => true,
        (DynamicModuleProvider::Custom { pattern: a }, DynamicModuleProvider::Custom { pattern: b }) =>
            *a == *b,
        _ => false,
    }
}

fn injected_eq(x: &Option<(String, bool)>, y: &Option<(String, bool)>) -> (r: bool)
    ensures
        r == (injected_view(*x) == injected_view(*y)),
{
    match (x, y) {
        (Some((a, b)), Some((c, d))) => *a == *c && *b == *d,
        (None, None) => true,
        _ => false,
    }
}

/// Whether two primitives are the same value.
pub fn prim_eq(p: &Primitive, q: &Primitive) -> (r: bool)
    ensures
        r == prim_same(*p, *q),
    decreases p,
{
    match (p, q) {
        (Primitive::Key(a), Primitive::Key(b)) => a.0 == b.0,
        (Primitive::Variable(a), Primitive::Variable(b)) => *a == *b,
        (Primitive::String(a), Primitive::String(b)) => *a == *b,
        (Primitive::RawString(a), Primitive::RawString(b)) => *a == *b,
        (Primitive::GraphQLModuleDependency(a), Primitive::GraphQLModuleDependency(b)) => *a == *b,
        (Primitive::JSModuleDependency(a), Primitive::JSModuleDependency(b)) => js_eq(a, b),
        (Primitive::Bool(a), Primitive::Bool(b)) => *a == *b,
        (Primitive::Int(a), Primitive::Int(b)) => *a == *b,
        (Primitive::Float(a), Primitive::Float(b)) => *a == *b,
        (Primitive::Null, Primitive::Null) => true,
        (Primitive::SkippableNull, Primitive::SkippableNull) => true,
        (Primitive::StorageKey(a, k), Primitive::StorageKey(b, l)) => *a == *b && k.0 == l.0,
        (
            Primitive::RelayResolverModel {
                graphql_module: g1,
                js_module: j1,
                injected_field_name_details: i1,
            },
            Primitive::RelayResolverModel {
                graphql_module: g2,
                js_module: j2,
                injected_field_name_details: i2,
            },
        ) => *g1 == *g2 && js_eq(j1, j2) && injected_eq(i1, i2),
        (
            Primitive::RelayResolverWeakObjectWrapper { resolver: r1, key: k1, plural: p1, live: l1 },
            Primitive::RelayResolverWeakObjectWrapper { resolver: r2, key: k2, plural: p2, live: l2 },
        ) => {
            proof {
                assert(decreases_to!(*p => p->resolver));
            }
            *k1 == *k2 && *p1 == *p2 && *l1 == *l2 && prim_eq(&**r1, &**r2)
        },
        (
            Primitive::DynamicImport { provider: v1, module: m1 },
            Primitive::DynamicImport { provider: v2, module: m2 },
        ) => provider_eq(v1, v2) && *m1 == *m2,
        _ => false,
    }
}

/// Whether two nodes are the same value.
pub fn ast_eq(x: &Ast, y: &Ast) -> (r: bool)
    ensures
        r == ast_same(*x, *y),
{
    match (x, y) {
        (Ast::Object(es), Ast::Object(fs)) => {
            if es.len() != fs.len() {
                return false;
            }
            let mut i: usize = 0;
            while i < es.len()
                invariant
                    *x == Ast::Object(*es),
                    *y == Ast::Object(*fs),
                    es.len() == fs.len(),
                    i <= es.len(),
                    forall|j: int| 0 <= j < i ==> #[trigger] entry_same(es@[j], fs@[j]),
                decreases es.len() - i,
            {
                if !(es[i].key == fs[i].key) || !prim_eq(&es[i].value, &fs[i].value) {
                    assert(!entry_same(es@[i as int], fs@[i as int]));
                    return false;
                }
                i = i + 1;
            }
            true
        },
        (Ast::Array(ps), Ast::Array(qs)) => {
            if ps.len() != qs.len() {
                return false;
            }
            let mut i: usize = 0;
            while i < ps.len()
                invariant
                    *x == Ast::Array(*ps),
                    *y == Ast::Array(*qs),
                    ps.len() == qs.len(),
                    i <= ps.len(),
                    forall|j: int| 0 <= j < i ==> #[trigger] prim_same(ps@[j], qs@[j]),
                decreases ps.len() - i,
            {
                if !prim_eq(&ps[i], &qs[i]) {
                    assert(!prim_same(ps@[i as int], qs@[i as int]));
                    return false;
                }
                i = i + 1;
            }
            true
        },
        _ => false,
    }
}

// ---------------------------------------------------------------------------
/// Interning `x` into arena `a0` gave arena `a1` and key `k`: `k` names the
/// first node of `a0` that is the same value as `x`, and the arena is
/// unchanged; or, when there is none, `x` is appended and `k` names it.
pub open spec fn interned(a0: Seq<Ast>, x: Ast, a1: Seq<Ast>, k: AstKey) -> bool {
    &&& arena_wf(a1)
    &&& extends(a0, a1)
    &&& k.0 < a1.len()
    &&& key_tree(a1, k.0 as nat) == ast_denote(a0, x)
    &&& (exists|j: int| 0 <= j < a0.len() && ast_same(a0[j], x)) ==> {
        &&& a1 == a0
        &&& ast_same(a0[k.0 as int], x)
        &&& forall|j: int| 0 <= j < k.0 ==> !ast_same(#[trigger] a0[j], x)
    }
    &&& (forall|j: int| 0 <= j < a0.len() ==> !ast_same(#[trigger] a0[j], x)) ==> {
        &&& a1 == a0.push(x)
        &&& k.0 == a0.len()
    }
}

/// An arena of interned AST nodes.
pub struct AstBuilder {
    asts: Vec<Ast>,
}

impl View for AstBuilder {
    type V = Seq<Ast>;

    closed spec fn view(&self) -> Seq<Ast> {
        self.asts@
    }
}

impl AstBuilder {
    #[verifier::type_invariant]
    closed spec fn inv(self) -> bool {
        arena_wf(self.asts@)
    }

    /// An empty arena.
    pub fn new() -> (r: AstBuilder)
        ensures
            r@ == Seq::<Ast>::empty(),
    {
        AstBuilder { asts: Vec::new() }
    }

    /// The number of interned nodes.
    pub fn len(&self) -> (n: usize)
        ensures
            n == self@.len(),
    {
        self.asts.len()
    }

    /// Every node of the arena refers only to earlier nodes.
    pub fn check_wf(&self)
        ensures
            arena_wf(self@),
    {
        proof {
            use_type_invariant(self);
        }
    }

    /// Interns `ast`: returns the key of an interned node that is the same
    /// value, or appends `ast` and returns its new key.
    pub fn intern(&mut self, ast: Ast) -> (k: AstKey)
        requires
            ast_keys_below(ast, old(self)@.len()),
        ensures
            interned(old(self)@, ast, final(self)@, k),
    {
        proof {
            use_type_invariant(&*self);
        }
        let ghost a = self.asts@;
        let mut i: usize = 0;
        while i < self.asts.len()
            invariant
                a == self.asts@,
                arena_wf(a),
                i <= a.len(),
                ast_keys_below(ast, a.len()),
                forall|j: int| 0 <= j < i ==> !ast_same(#[trigger] a[j], ast),
            decreases a.len() - i,
        {
            if ast_eq(&self.asts[i], &ast) {
                proof {
                    let x = a[i as int];
                    assert(ast_keys_below(x, i as nat));
                    lemma_ast_same(a, x, ast, i as nat);
                    lemma_ast_bound(a, ast, i as nat, a.len());
                }
                return AstKey(i);
            }
            i = i + 1;
        }
        let k = self.asts.len();
        let mut v: Vec<Ast> = Vec::new();
        std::mem::swap(&mut v, &mut self.asts);
        v.push(ast);
        proof {
            assert(v@ == a.push(ast));
            assert forall|j: int| 0 <= j < v@.len() implies ast_keys_below(
                #[trigger] v@[j],
                j as nat,
            ) by {
                if j < a.len() {
                    assert(v@[j] == a[j]);
                }
            }
            lemma_ast_ext(a, v@, ast, k as nat);
        }
        self.asts = v;
        AstKey(k)
    }

    /// The node that `key` names.
    pub fn lookup(&self, key: AstKey) -> (r: &Ast)
        requires
            key.0 < self@.len(),
        ensures
            *r == self@[key.0 as int],
    {
        &self.asts[key.0]
    }
}

} // verus!
