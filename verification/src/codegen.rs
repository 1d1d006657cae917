//! The entry points: build the AST of an operation, a fragment, a request or
//! its parameters into a shared arena.
use vstd::prelude::*;
use crate::ast::{arena_wf, extends, key_tree, lemma_key_stable, AstBuilder, AstKey, ObjectEntry, Primitive, Tree};
use crate::builder::{
    arena, entry, evolves, key_means, lemma_key_means_stable, str_prim, CodegenBuilder, CodegenVariant,
    DefinitionLocation, ProjectConfig,
};
use crate::constants::{FRAGMENT, KIND, OPERATION, PARAMS, REQUEST};
use crate::definition_trees::{
    cache_id_of, fragment_out, internal_metadata_ok, operation_out, provided_variables_tree,
    request_parameters_tree, settings_for, RequestParameters, TopLevelStatements,
};
use crate::ir::{OperationDefinition, FragmentDefinition};
use crate::strings::copy_string;

verus! {

/// The arena went from `a0` to `a1`, keeping every node, and `k` names a node
/// of `a1` that means `t`.
pub open spec fn built_into(a0: Seq<crate::ast::Ast>, a1: Seq<crate::ast::Ast>, k: AstKey, t: Tree) -> bool {
    &&& extends(a0, a1)
    &&& arena_wf(a1)
    &&& k.0 < a1.len()
    &&& key_tree(a1, k.0 as nat) == t
}

/// The tree of a request: its reader fragment, its normalization operation,
/// and its parameters.
pub open spec fn request_tree(fragment: Tree, operation: Tree, params: Tree) -> Tree {
    Tree::Object(
        seq![
            (FRAGMENT@, fragment),
            (KIND@, Tree::Str(REQUEST@)),
            (OPERATION@, operation),
            (PARAMS@, params),
        ],
    )
}

/// Moves the arena out of `ast_builder`, leaving an empty one.
fn take_arena(ast_builder: &mut AstBuilder) -> (r: AstBuilder)
    ensures
        r@ == old(ast_builder)@,
        final(ast_builder)@ == Seq::<crate::ast::Ast>::empty(),
{
    let mut nodes = AstBuilder::new();
    std::mem::swap(&mut nodes, ast_builder);
    nodes
}

/// The request parameters of an operation, built into `ast_builder`.
pub fn build_request_params_ast_key(
    request_parameters: RequestParameters,
    ast_builder: &mut AstBuilder,
    operation: &OperationDefinition,
    top_level_statements: &TopLevelStatements,
    definition_source_location: &DefinitionLocation,
    project_config: &ProjectConfig,
) -> (k: AstKey)
    requires
        internal_metadata_ok(operation.directives@),
    ensures
        built_into(
            old(ast_builder)@,
            final(ast_builder)@,
            k,
            request_parameters_tree(
                *project_config,
                *operation,
                request_parameters,
                *top_level_statements,
                cache_id_of(request_parameters, operation.name@),
            ),
        ),
{
    let nodes = take_arena(ast_builder);
    let mut operation_builder = CodegenBuilder::new(
        CodegenVariant::Normalization,
        nodes,
        project_config,
        definition_source_location,
    );
    let k = operation_builder.build_request_parameters(
        operation,
        request_parameters,
        top_level_statements,
    );
    *ast_builder = operation_builder.into_ast_builder();
    k
}

/// The provided variables of an operation, if it has any, built into `ast_builder`.
pub fn build_provided_variables(
    ast_builder: &mut AstBuilder,
    operation: &OperationDefinition,
    definition_source_location: &DefinitionLocation,
    project_config: &ProjectConfig,
) -> (r: Option<AstKey>)
    ensures
        extends(old(ast_builder)@, final(ast_builder)@),
        arena_wf(final(ast_builder)@),
        match provided_variables_tree(*project_config, *operation) {
            Some(t) => r is Some && built_into(old(ast_builder)@, final(ast_builder)@, r->0, t),
            None => r is None,
        },
{
    let nodes = take_arena(ast_builder);
    let mut operation_builder = CodegenBuilder::new(
        CodegenVariant::Normalization,
        nodes,
        project_config,
        definition_source_location,
    );
    let r = operation_builder.build_operation_provided_variables(operation);
    *ast_builder = operation_builder.into_ast_builder();
    r
}

/// The request of an operation: its normalization AST, the reader AST of
/// its fragment, and the parameters already built at `request_parameters`.
pub fn build_request(
    ast_builder: &mut AstBuilder,
    operation: &OperationDefinition,
    fragment: &FragmentDefinition,
    request_parameters: AstKey,
    definition_source_location: &DefinitionLocation,
    project_config: &ProjectConfig,
) -> (k: AstKey)
    requires
        operation_out(
            settings_for(CodegenVariant::Normalization, project_config, definition_source_location),
            *operation,
        ).ok,
        fragment_out(
            settings_for(CodegenVariant::Reader, project_config, definition_source_location),
            *fragment,
            true,
        ).ok,
        request_parameters.0 < old(ast_builder)@.len(),
    ensures
        built_into(
            old(ast_builder)@,
            final(ast_builder)@,
            k,
            request_tree(
                fragment_out(
                    settings_for(CodegenVariant::Reader, project_config, definition_source_location),
                    *fragment,
                    true,
                ).tree,
                operation_out(
                    settings_for(
                        CodegenVariant::Normalization,
                        project_config,
                        definition_source_location,
                    ),
                    *operation,
                ).tree,
                key_tree(old(ast_builder)@, request_parameters.0 as nat),
            ),
        ),
{
    let ghost a0 = ast_builder@;
    let ghost params_tree = key_tree(a0, request_parameters.0 as nat);
    let nodes = take_arena(ast_builder);
    nodes.check_wf();
    let mut operation_builder = CodegenBuilder::new(
        CodegenVariant::Normalization,
        nodes,
        project_config,
        definition_source_location,
    );
    let operation_key = operation_builder.build_operation(operation);
    let ghost b1 = operation_builder;
    let nodes = operation_builder.into_ast_builder();
    let mut fragment_builder = CodegenBuilder::new(
        CodegenVariant::Reader,
        nodes,
        project_config,
        definition_source_location,
    );
    let ghost b2 = fragment_builder;
    let fragment_key = fragment_builder.build_fragment(fragment, true);
    let ghost b3 = fragment_builder;
    proof {
        lemma_key_stable(a0, arena(b3), request_parameters.0 as nat);
        lemma_key_stable(arena(b1), arena(b3), operation_key.0 as nat);
    }
    let mut es: Vec<ObjectEntry> = Vec::new();
    es.push(entry(FRAGMENT, Primitive::Key(fragment_key)));
    es.push(entry(KIND, str_prim(REQUEST)));
    es.push(entry(OPERATION, Primitive::Key(operation_key)));
    es.push(entry(PARAMS, Primitive::Key(request_parameters)));
    let ghost a3 = arena(b3);
    assert(crate::ast::entries_denote(a3, es@) =~= request_tree(
        fragment_out(b2.settings, *fragment, true).tree,
        operation_out(b1.settings, *operation).tree,
        params_tree,
    )->Object_0);
    let k = fragment_builder.object(es);
    *ast_builder = fragment_builder.into_ast_builder();
    k
}

/// The parameters of a request whose text and id are not known yet.
pub fn build_request_params(operation: &OperationDefinition) -> (r: RequestParameters)
    ensures
        r.name@ == operation.name@,
        r.operation_kind == operation.kind,
        r.id is None,
        r.text is None,
{
    RequestParameters {
        name: copy_string(&operation.name),
        operation_kind: operation.kind,
        id: None,
        text: None,
    }
}

/// The normalization AST of an operation, built into `ast_builder`.
pub fn build_operation(
    ast_builder: &mut AstBuilder,
    operation: &OperationDefinition,
    definition_source_location: &DefinitionLocation,
    project_config: &ProjectConfig,
) -> (k: AstKey)
    requires
        operation_out(
            settings_for(CodegenVariant::Normalization, project_config, definition_source_location),
            *operation,
        ).ok,
    ensures
        built_into(
            old(ast_builder)@,
            final(ast_builder)@,
            k,
            operation_out(
                settings_for(
                    CodegenVariant::Normalization,
                    project_config,
                    definition_source_location,
                ),
                *operation,
            ).tree,
        ),
{
    let nodes = take_arena(ast_builder);
    let mut builder = CodegenBuilder::new(
        CodegenVariant::Normalization,
        nodes,
        project_config,
        definition_source_location,
    );
    let k = builder.build_operation(operation);
    *ast_builder = builder.into_ast_builder();
    k
}

/// The reader AST of a fragment, with its metadata, built into `ast_builder`.
pub fn build_fragment(
    ast_builder: &mut AstBuilder,
    fragment: &FragmentDefinition,
    definition_source_location: &DefinitionLocation,
    project_config: &ProjectConfig,
) -> (k: AstKey)
    requires
        fragment_out(
            settings_for(CodegenVariant::Reader, project_config, definition_source_location),
            *fragment,
            false,
        ).ok,
    ensures
        built_into(
            old(ast_builder)@,
            final(ast_builder)@,
            k,
            fragment_out(
                settings_for(CodegenVariant::Reader, project_config, definition_source_location),
                *fragment,
                false,
            ).tree,
        ),
{
    let nodes = take_arena(ast_builder);
    let mut builder = CodegenBuilder::new(
        CodegenVariant::Reader,
        nodes,
        project_config,
        definition_source_location,
    );
    let k = builder.build_fragment(fragment, false);
    *ast_builder = builder.into_ast_builder();
    k
}

} // verus!
