//! The code generator's state: which AST it builds, for which project, and the
//! arena that it interns nodes into.
use vstd::prelude::*;
use crate::ast::{
    arena_wf, ast_denote, denote, entries_denote, entries_keys_below, extends, key_tree,
    lemma_denote_stable, lemma_entries_denote, lemma_prims_denote, prim_keys_below,
    prims_denote, prims_keys_below, Ast, AstBuilder, AstKey, DynamicModuleProvider, ObjectEntry,
    Primitive, Tree,
};

verus! {

/// Which of the two ASTs is generated: the one that reads data for a
/// component, or the one that normalizes a server response.
#[derive(PartialEq, Eq, Structural, Clone, Copy, Debug)]
pub enum CodegenVariant {
    Reader,
    Normalization,
}

/// How generated modules import each other.
#[derive(PartialEq, Eq, Structural, Clone, Copy, Debug)]
pub enum JsModuleFormat {
    CommonJS,
    Haste,
}

/// The parts of a project's configuration that code generation reads.
#[derive(Debug, PartialEq)]
pub struct ProjectConfig {
    pub js_module_format: JsModuleFormat,
    pub dynamic_module_provider: Option<DynamicModuleProvider>,
}

/// The name of the definition being generated and its source file.
#[derive(Debug, PartialEq)]
pub struct DefinitionLocation {
    pub name: String,
    pub source_path: String,
}

/// Transitive properties of the output collected during traversal.
pub struct ContextualMetadata {
    pub has_client_edges: bool,
}

/// What an AST is generated for: the variant, the project, and the definition.
pub struct CodegenSettings<'a> {
    pub variant: CodegenVariant,
    pub project_config: &'a ProjectConfig,
    pub definition_source_location: &'a DefinitionLocation,
}

/// Builds the AST of one definition into an arena.
pub struct CodegenBuilder<'a> {
    pub settings: CodegenSettings<'a>,
    pub ast_builder: AstBuilder,
}

/// The nodes interned so far.
pub open spec fn arena(b: CodegenBuilder) -> Seq<Ast> {
    b.ast_builder@
}

/// `b1` is `b0` after building more nodes: same settings, and every node of
/// `b0` still there.
pub open spec fn evolves(b0: CodegenBuilder, b1: CodegenBuilder) -> bool {
    &&& b1.settings == b0.settings
    &&& extends(arena(b0), arena(b1))
    &&& arena_wf(arena(b1))
}

/// `p` is valid in `b`'s arena and means `t`.
pub open spec fn means(b: CodegenBuilder, p: Primitive, t: Tree) -> bool {
    prim_keys_below(p, arena(b).len()) && denote(arena(b), p) == t
}

/// `k` names a node of `b`'s arena that means `t`.
pub open spec fn key_means(b: CodegenBuilder, k: AstKey, t: Tree) -> bool {
    k.0 < arena(b).len() && key_tree(arena(b), k.0 as nat) == t
}

/// A copy of a module provider.
pub fn copy_provider(p: &DynamicModuleProvider) -> (r: DynamicModuleProvider)
    ensures
        r == *p || (r is Custom && p is Custom && r->pattern@ == p->pattern@),
        crate::ast::provider_view(r) == crate::ast::provider_view(*p),
{
    match p {
        DynamicModuleProvider::JSResource => DynamicModuleProvider::JSResource,
        DynamicModuleProvider::Custom { pattern } => DynamicModuleProvider::Custom {
            pattern: crate::strings::copy_string(pattern),
        },
    }
}

impl<'a> CodegenBuilder<'a> {
    /// A builder for `variant` that interns into `ast_builder`.
    pub fn new(
        variant: CodegenVariant,
        ast_builder: AstBuilder,
        project_config: &'a ProjectConfig,
        definition_source_location: &'a DefinitionLocation,
    ) -> (r: CodegenBuilder<'a>)
        ensures
            r.settings.variant == variant,
            r.ast_builder@ == ast_builder@,
            r.settings.project_config == project_config,
            r.settings.definition_source_location == definition_source_location,
            arena_wf(arena(r)),
    {
        ast_builder.check_wf();
        CodegenBuilder {
            settings: CodegenSettings { variant, project_config, definition_source_location },
            ast_builder,
        }
    }

    /// Hands back the arena.
    pub fn into_ast_builder(self) -> (r: AstBuilder)
        ensures
            r@ == arena(self),
    {
        self.ast_builder
    }

    /// The arena is well formed.
    pub fn check(&self)
        ensures
            arena_wf(arena(*self)),
    {
        self.ast_builder.check_wf();
    }

    /// Interns an object node.
    pub fn object(&mut self, entries: Vec<ObjectEntry>) -> (k: AstKey)
        requires
            entries_keys_below(entries@, arena(*old(self)).len()),
        ensures
            evolves(*old(self), *final(self)),
            key_means(*final(self), k, Tree::Object(entries_denote(arena(*old(self)), entries@))),
    {
        let ghost a = arena(*self);
        proof {
            lemma_entries_denote(a, entries@);
        }
        self.ast_builder.intern(Ast::Object(entries))
    }

    /// Interns an array node.
    pub fn array(&mut self, items: Vec<Primitive>) -> (k: AstKey)
        requires
            prims_keys_below(items@, arena(*old(self)).len()),
        ensures
            evolves(*old(self), *final(self)),
            key_means(*final(self), k, Tree::Array(prims_denote(arena(*old(self)), items@))),
    {
        let ghost a = arena(*self);
        proof {
            lemma_prims_denote(a, items@);
        }
        self.ast_builder.intern(Ast::Array(items))
    }
}

/// A primitive built earlier keeps its meaning as the builder evolves.
pub proof fn lemma_means_stable(b0: CodegenBuilder, b1: CodegenBuilder, p: Primitive, t: Tree)
    requires
        arena_wf(arena(b0)),
        evolves(b0, b1),
        means(b0, p, t),
    ensures
        means(b1, p, t),
{
    lemma_denote_stable(arena(b0), arena(b1), p);
}

/// A key built earlier keeps its meaning as the builder evolves.
pub proof fn lemma_key_means_stable(b0: CodegenBuilder, b1: CodegenBuilder, k: AstKey, t: Tree)
    requires
        arena_wf(arena(b0)),
        evolves(b0, b1),
        key_means(b0, k, t),
    ensures
        key_means(b1, k, t),
{
    crate::ast::lemma_key_stable(arena(b0), arena(b1), k.0 as nat);
}

/// A list of primitives built earlier keeps its meaning as the builder evolves.
pub proof fn lemma_prims_stable(b0: CodegenBuilder, b1: CodegenBuilder, ps: Seq<Primitive>)
    requires
        arena_wf(arena(b0)),
        evolves(b0, b1),
        prims_keys_below(ps, arena(b0).len()),
    ensures
        prims_keys_below(ps, arena(b1).len()),
        prims_denote(arena(b1), ps) == prims_denote(arena(b0), ps),
{
    assert forall|i: int| 0 <= i < ps.len() implies prim_keys_below(#[trigger] ps[i], arena(b1).len())
        && denote(arena(b1), ps[i]) == denote(arena(b0), ps[i]) by {
        lemma_denote_stable(arena(b0), arena(b1), ps[i]);
    }
    assert(prims_denote(arena(b1), ps) =~= prims_denote(arena(b0), ps));
}

/// A list of entries built earlier keeps its meaning as the builder evolves.
pub proof fn lemma_entries_stable(b0: CodegenBuilder, b1: CodegenBuilder, es: Seq<ObjectEntry>)
    requires
        arena_wf(arena(b0)),
        evolves(b0, b1),
        entries_keys_below(es, arena(b0).len()),
    ensures
        entries_keys_below(es, arena(b1).len()),
        entries_denote(arena(b1), es) == entries_denote(arena(b0), es),
{
    assert forall|i: int| 0 <= i < es.len() implies prim_keys_below(
        #[trigger] es[i].value,
        arena(b1).len(),
    ) && denote(arena(b1), es[i].value) == denote(arena(b0), es[i].value) by {
        lemma_denote_stable(arena(b0), arena(b1), es[i].value);
    }
    assert(entries_denote(arena(b1), es) =~= entries_denote(arena(b0), es));
}

/// An entry whose key is `key` and whose value is `value`.
pub fn entry(key: &str, value: Primitive) -> (e: ObjectEntry)
    ensures
        e.key@ == key@,
        e.value == value,
{
    ObjectEntry { key: String::from_str(key), value }
}

/// A string primitive with the characters of `s`.
pub fn str_prim(s: &str) -> (p: Primitive)
    ensures
        p is String,
        p->String_0@ == s@,
{
    Primitive::String(String::from_str(s))
}

} // verus!
