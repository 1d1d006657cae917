//! What code generation produces for whole definitions (operations,
//! fragments, request parameters), as trees.
use vstd::prelude::*;
use crate::arguments::{
    constant_tree, fragment_variable_definitions_tree, operation_variable_definitions_tree,
};
use crate::ast::{opt_str_view, JSModV, Tree};
use crate::builder::{CodegenSettings, DefinitionLocation, JsModuleFormat, ProjectConfig};
use crate::constants::{
    ABSTRACT_KEY, ARGUMENT_DEFINITIONS, BACKWARD, CACHE_ID, CLIENT_ABSTRACT_TYPES, CONNECTION,
    COUNT, CURSOR, DIRECTION, DIRECTION_BACKWARD, DIRECTION_FORWARD, FORWARD, FRAGMENT_PATH_IN_RESULT,
    FRAGMENT_VALUE, HAS_CLIENT_EDGES, ID, IDENTIFIER_FIELD, INLINE_DATA_FRAGMENT, KIND, MASK,
    METADATA, MUTATION, NAME, OPERATION, OPERATION_KIND, OPERATION_VALUE, PATH, PLURAL,
    PROVIDED_VARIABLES, PROVIDED_VARIABLES_DEFINITION, QUERY, REFETCH, SELECTIONS,
    SPLIT_OPERATION, STREAM_NAME, SUBSCRIPTION, TEXT, TYPE,
};
use crate::hashing::md5_hex;
use crate::ir::{
    filter_tag, find_kind, has_tag, kind_tag, AbstractTypeInfo, ConnectionMetadata, Directive, DirectiveKind,
    FragmentDefinition, OperationDefinition, OperationKind, ProvidedVariableMetadata,
    RefetchableMetadata, RelayDirective, Value, VariableDefinition, TAG_CLIENT_ABSTRACT_TYPES,
    TAG_CONNECTION, TAG_INLINE, TAG_INTERNAL_METADATA, TAG_PROVIDED_VARIABLE, TAG_REFETCHABLE,
    TAG_RELAY, TAG_SPLIT_OPERATION,
};
use crate::paths::import_path;
use crate::selection_trees::{abstract_type_key, selections_out, str_or_null, Built};
use crate::strings::{name_order, strs_view};

verus! {

/// How a request is identified to the server when its text is not sent.
pub enum QueryID {
    /// An id that the persisting step produced.
    Persisted { id: String, text_hash: String },
    /// An id exported by the named module.
    External(String),
}

/// What the request parameters of an operation are built from.
pub struct RequestParameters {
    pub name: String,
    pub operation_kind: OperationKind,
    pub id: Option<QueryID>,
    pub text: Option<String>,
}

/// The names of the statements that an artifact declares before its AST.
pub struct TopLevelStatements {
    pub names: Vec<String>,
}

// ---------------------------------------------------------------------------
// The metadata that a definition's directives carry.
pub open spec fn find_connection(ds: Seq<Directive>) -> Option<Vec<ConnectionMetadata>> {
    match find_kind(ds, TAG_CONNECTION) {
        Some(DirectiveKind::Connection(m)) => Some(m),
        _ => None,
    }
}

pub open spec fn find_relay(ds: Seq<Directive>) -> Option<RelayDirective> {
    match find_kind(ds, TAG_RELAY) {
        Some(DirectiveKind::Relay(m)) => Some(m),
        _ => None,
    }
}

pub open spec fn find_refetchable(ds: Seq<Directive>) -> Option<RefetchableMetadata> {
    match find_kind(ds, TAG_REFETCHABLE) {
        Some(DirectiveKind::Refetchable(m)) => Some(m),
        _ => None,
    }
}

pub open spec fn find_client_abstract_types(ds: Seq<Directive>) -> Option<Vec<AbstractTypeInfo>> {
    match find_kind(ds, TAG_CLIENT_ABSTRACT_TYPES) {
        Some(DirectiveKind::ClientAbstractTypes(m)) => Some(m),
        _ => None,
    }
}

pub open spec fn find_provided(ds: Seq<Directive>) -> Option<ProvidedVariableMetadata> {
    match find_kind(ds, TAG_PROVIDED_VARIABLE) {
        Some(DirectiveKind::ProvidedVariable(m)) => Some(m),
        _ => None,
    }
}

/// An array of strings.
pub open spec fn strs_tree(v: Seq<Seq<char>>) -> Tree {
    Tree::Array(Seq::new(v.len(), |i: int| Tree::Str(v[i])))
}

/// `[e]` when `b`, else nothing.
pub open spec fn opt_entry(b: bool, e: (Seq<char>, Tree)) -> Seq<(Seq<char>, Tree)> {
    if b {
        seq![e]
    } else {
        Seq::empty()
    }
}

// ---------------------------------------------------------------------------
// Connections.
/// The count and cursor variables of a connection, by its direction.
pub open spec fn count_and_cursor(m: ConnectionMetadata) -> (Option<String>, Option<String>) {
    if m.direction@ == DIRECTION_FORWARD@ {
        (m.first, m.after)
    } else if m.direction@ == DIRECTION_BACKWARD@ {
        (m.last, m.before)
    } else {
        (None, None)
    }
}

/// `{count, cursor, direction, path}`, with `stream: true` for a streamed connection.
pub open spec fn connection_tree(m: ConnectionMetadata) -> Tree {
    let cc = count_and_cursor(m);
    let base = seq![
        (COUNT@, str_or_null(opt_str_view(cc.0))),
        (CURSOR@, str_or_null(opt_str_view(cc.1))),
        (DIRECTION@, Tree::Str(m.direction@)),
        (
            PATH@,
            match m.path {
                Some(p) => strs_tree(strs_view(p@)),
                None => Tree::SkippableNull,
            },
        ),
    ];
    Tree::Object(
        if m.is_stream_connection {
            base.push((STREAM_NAME@, Tree::Bool(true)))
        } else {
            base
        },
    )
}

/// The `connection` entry: one object per connection.
pub open spec fn connection_entry(ms: Seq<ConnectionMetadata>) -> (Seq<char>, Tree) {
    (CONNECTION@, Tree::Array(Seq::new(ms.len(), |i: int| connection_tree(ms[i]))))
}

// ---------------------------------------------------------------------------
// Fragments.
/// `{count, cursor}` of one direction of pagination, or null.
pub open spec fn page_tree(count: Option<String>, cursor: Option<String>) -> Tree {
    match count {
        Some(c) => Tree::Object(
            seq![(COUNT@, Tree::Str(c@)), (CURSOR@, str_or_null(opt_str_view(cursor)))],
        ),
        None => Tree::Null,
    }
}

/// The `connection` of a refetchable fragment: how its first connection pages.
pub open spec fn refetch_connection_tree(c: Option<Vec<ConnectionMetadata>>) -> Tree {
    match c {
        Some(ms) => Tree::Object(
            seq![
                (FORWARD@, page_tree(ms@[0].first, ms@[0].after)),
                (BACKWARD@, page_tree(ms@[0].last, ms@[0].before)),
                (PATH@, strs_tree(strs_view(ms@[0].path->0@))),
            ],
        ),
        None => Tree::SkippableNull,
    }
}

/// A refetchable fragment with connections has a first connection with a path.
pub open spec fn refetch_connection_ok(c: Option<Vec<ConnectionMetadata>>) -> bool {
    match c {
        Some(ms) => ms@.len() > 0 && ms@[0].path is Some,
        None => true,
    }
}

/// `{connection, fragmentPathInResult, operation, identifierField?}`.
pub open spec fn refetch_tree(c: Option<Vec<ConnectionMetadata>>, r: RefetchableMetadata) -> Tree {
    let base = seq![
        (CONNECTION@, refetch_connection_tree(c)),
        (FRAGMENT_PATH_IN_RESULT@, strs_tree(strs_view(r.path@))),
        (OPERATION@, Tree::GraphQLModule(r.operation_name@)),
    ];
    Tree::Object(
        match r.identifier_field {
            Some(f) => base.push((IDENTIFIER_FIELD@, Tree::Str(f@))),
            None => base,
        },
    )
}

/// The entries of a fragment's `metadata`, in order.
pub open spec fn fragment_metadata_entries(has_client_edges: bool, ds: Seq<Directive>) -> Seq<
    (Seq<char>, Tree),
> {
    let c = find_connection(ds);
    let plural = find_relay(ds) is Some && find_relay(ds)->0.plural;
    let unmask = find_relay(ds) is Some && find_relay(ds)->0.unmask;
    opt_entry(c is Some, connection_entry(c->0@)) + opt_entry(unmask, (MASK@, Tree::Bool(false)))
        + opt_entry(plural, (PLURAL@, Tree::Bool(true))) + opt_entry(
        has_client_edges,
        (HAS_CLIENT_EDGES@, Tree::Bool(true)),
    ) + match find_refetchable(ds) {
        Some(r) => seq![(REFETCH@, refetch_tree(c, r))],
        None => Seq::empty(),
    }
}

/// A fragment's `metadata`: an object, or left out when it would be empty.
pub open spec fn fragment_metadata_tree(has_client_edges: bool, ds: Seq<Directive>) -> Tree {
    let es = fragment_metadata_entries(has_client_edges, ds);
    if es.len() == 0 {
        Tree::SkippableNull
    } else {
        Tree::Object(es)
    }
}

/// A fragment's metadata can be built.
pub open spec fn fragment_metadata_ok(ds: Seq<Directive>) -> bool {
    find_refetchable(ds) is Some ==> refetch_connection_ok(find_connection(ds))
}

/// `{kind: "InlineDataFragment", name}`.
pub open spec fn inline_data_fragment_tree(f: FragmentDefinition) -> Tree {
    Tree::Object(seq![(KIND@, Tree::Str(INLINE_DATA_FRAGMENT@)), (NAME@, Tree::Str(f.name@))])
}

/// The reader AST of a fragment; its metadata is left out when
/// `skip_metadata` and no client edge was generated.
pub open spec fn fragment_out(s: CodegenSettings, f: FragmentDefinition, skip_metadata: bool) -> Built {
    if has_tag(f.directives@, TAG_INLINE) {
        Built { ok: true, tree: inline_data_fragment_tree(f), edges: false }
    } else {
        let sel = selections_out(s, f.selections@, None);
        let skip = skip_metadata && !sel.edges;
        Built {
            ok: sel.ok && (skip || fragment_metadata_ok(f.directives@)),
            tree: Tree::Object(
                seq![
                    (
                        ARGUMENT_DEFINITIONS@,
                        fragment_variable_definitions_tree(
                            f.variable_definitions@,
                            f.used_global_variables@,
                        ),
                    ),
                    (KIND@, Tree::Str(FRAGMENT_VALUE@)),
                    (
                        METADATA@,
                        if skip {
                            Tree::SkippableNull
                        } else {
                            fragment_metadata_tree(sel.edges, f.directives@)
                        },
                    ),
                    (NAME@, Tree::Str(f.name@)),
                    (SELECTIONS@, Tree::Array(sel.trees)),
                    (TYPE@, Tree::Str(f.type_condition.name@)),
                    (
                        ABSTRACT_KEY@,
                        if f.type_condition.is_abstract {
                            Tree::Str(abstract_type_key(f.type_condition.name@))
                        } else {
                            Tree::SkippableNull
                        },
                    ),
                ],
            ),
            edges: sel.edges,
        }
    }
}

// ---------------------------------------------------------------------------
// Operations.
/// The `clientAbstractTypes` entry: each abstract type with its concrete types.
pub open spec fn client_abstract_types_entry(ts: Seq<AbstractTypeInfo>) -> (Seq<char>, Tree) {
    (
        CLIENT_ABSTRACT_TYPES@,
        Tree::Object(
            Seq::new(ts.len(), |i: int| (ts[i].name@, strs_tree(strs_view(ts[i].concrete@)))),
        ),
    )
}

/// The normalization AST of an operation.
pub open spec fn operation_out(s: CodegenSettings, op: OperationDefinition) -> Built {
    let sel = selections_out(s, op.selections@, None);
    let defs = (ARGUMENT_DEFINITIONS@, operation_variable_definitions_tree(op.variable_definitions@));
    if has_tag(op.directives@, TAG_SPLIT_OPERATION) {
        let base = seq![
            (KIND@, Tree::Str(SPLIT_OPERATION@)),
            (METADATA@, Tree::Object(Seq::empty())),
            (NAME@, Tree::Str(op.name@)),
            (SELECTIONS@, Tree::Array(sel.trees)),
        ];
        Built {
            ok: sel.ok,
            tree: Tree::Object(opt_entry(op.variable_definitions@.len() > 0, defs) + base),
            edges: sel.edges,
        }
    } else {
        let base = seq![
            defs,
            (KIND@, Tree::Str(OPERATION_VALUE@)),
            (NAME@, Tree::Str(op.name@)),
            (SELECTIONS@, Tree::Array(sel.trees)),
        ];
        Built {
            ok: sel.ok,
            tree: Tree::Object(
                match find_client_abstract_types(op.directives@) {
                    Some(ts) => base.push(client_abstract_types_entry(ts@)),
                    None => base,
                },
            ),
            edges: sel.edges,
        }
    }
}

// ---------------------------------------------------------------------------
// Provided variables.
/// The module that provides a variable's value, as imported from the
/// operation's artifact.
pub open spec fn provider_module(config: ProjectConfig, op_source: Seq<char>, p: ProvidedVariableMetadata) -> Seq<char> {
    match config.js_module_format {
        JsModuleFormat::Haste => p.module_name@,
        JsModuleFormat::CommonJS => import_path(config, op_source, p.provider_path@),
    }
}

/// One entry per provided variable: its name and the import of its provider.
pub open spec fn provided_entries(
    config: ProjectConfig,
    op_source: Seq<char>,
    defs: Seq<VariableDefinition>,
) -> Seq<(Seq<char>, Tree)>
    decreases defs.len(),
{
    if defs.len() == 0 {
        Seq::empty()
    } else {
        let rest = provided_entries(config, op_source, defs.drop_last());
        match find_provided(defs.last().directives@) {
            Some(p) => rest.push(
                (
                    defs.last().name@,
                    Tree::JSModule(
                        JSModV {
                            path: provider_module(config, op_source, p),
                            named_import: None,
                            import_as: None,
                        },
                    ),
                ),
            ),
            None => rest,
        }
    }
}

/// The object of an operation's provided variables, if it has any.
pub open spec fn provided_variables_tree(config: ProjectConfig, op: OperationDefinition) -> Option<Tree> {
    let es = provided_entries(config, op.source_path@, op.variable_definitions@);
    if es.len() == 0 {
        None
    } else {
        Some(Tree::Object(es))
    }
}

// ---------------------------------------------------------------------------
// Request parameters.
/// The `@__metadata` directives are well formed: one argument each, a literal.
pub open spec fn internal_metadata_ok(ds: Seq<Directive>) -> bool {
    forall|i: int|
        0 <= i < ds.len() && kind_tag(#[trigger] ds[i].kind) == TAG_INTERNAL_METADATA ==> ds[i].arguments@.len()
            == 1 && ds[i].arguments@[0].value is Constant
}

/// The entry of one `@__metadata` directive.
pub open spec fn internal_metadata_entry(d: Directive) -> (Seq<char>, Tree) {
    (d.arguments@[0].name@, constant_tree(d.arguments@[0].value->Constant_0))
}

/// The metadata entries of an operation before sorting: its `@__metadata`
/// arguments, then its connections.
pub open spec fn unsorted_metadata(ds: Seq<Directive>) -> Seq<(Seq<char>, Tree)> {
    let ms = filter_tag(ds, TAG_INTERNAL_METADATA);
    let c = find_connection(ds);
    Seq::new(ms.len(), |i: int| internal_metadata_entry(ms[i])) + opt_entry(
        c is Some,
        connection_entry(c->0@),
    )
}

/// Entries sorted by key; entries with equal keys keep their order.
pub open spec fn sort_entries(es: Seq<(Seq<char>, Tree)>) -> Seq<(Seq<char>, Tree)> {
    let order = name_order(Seq::new(es.len(), |i: int| es[i].0));
    Seq::new(order.len(), |i: int| es[order[i] as int])
}

pub open spec fn operation_kind_str(k: OperationKind) -> Seq<char> {
    match k {
        OperationKind::Query => QUERY@,
        OperationKind::Mutation => MUTATION@,
        OperationKind::Subscription => SUBSCRIPTION@,
    }
}

/// The `id` of a request.
pub open spec fn id_tree(id: Option<QueryID>) -> Tree {
    match id {
        Some(QueryID::Persisted { id, .. }) => Tree::RawStr(id@),
        Some(QueryID::External(m)) => Tree::JSModule(
            JSModV { path: m@, named_import: None, import_as: None },
        ),
        None => Tree::Null,
    }
}

/// The `cacheID` of a request: the hash of its text, or, when it has neither
/// text nor id, of the operation's name.
pub open spec fn cache_id_of(rp: RequestParameters, op_name: Seq<char>) -> Option<Seq<char>> {
    match rp.text {
        Some(t) => Some(md5_hex(t@)),
        None => if rp.id is Some {
            None
        } else {
            Some(md5_hex(op_name))
        },
    }
}

/// Whether the statements declare `name`.
pub open spec fn declares(tls: TopLevelStatements, name: Seq<char>) -> bool {
    exists|i: int| 0 <= i < tls.names@.len() && tls.names@[i]@ == name
}

/// The `providedVariables` entry: the declared statement when there is one,
/// else the operation's provided variables, if any.
pub open spec fn provided_variables_entry(
    config: ProjectConfig,
    op: OperationDefinition,
    tls: TopLevelStatements,
) -> Seq<(Seq<char>, Tree)> {
    if declares(tls, PROVIDED_VARIABLES_DEFINITION@) {
        seq![(PROVIDED_VARIABLES@, Tree::Variable(PROVIDED_VARIABLES_DEFINITION@))]
    } else {
        match provided_variables_tree(config, op) {
            Some(t) => seq![(PROVIDED_VARIABLES@, t)],
            None => Seq::empty(),
        }
    }
}

/// The request parameters object, given its `cacheID`.
pub open spec fn request_parameters_tree(
    config: ProjectConfig,
    op: OperationDefinition,
    rp: RequestParameters,
    tls: TopLevelStatements,
    cache_id: Option<Seq<char>>,
) -> Tree {
    let head = match cache_id {
        Some(c) => seq![(CACHE_ID@, Tree::RawStr(c))],
        None => Seq::empty(),
    };
    let body = seq![
        (ID@, id_tree(rp.id)),
        (METADATA@, Tree::Object(sort_entries(unsorted_metadata(op.directives@)))),
        (NAME@, Tree::Str(rp.name@)),
        (OPERATION_KIND@, Tree::Str(operation_kind_str(rp.operation_kind))),
        (
            TEXT@,
            match rp.text {
                Some(t) => Tree::RawStr(t@),
                None => Tree::Null,
            },
        ),
    ];
    Tree::Object(head + body + provided_variables_entry(config, op, tls))
}

/// Settings for generating `variant` for a project and a definition.
pub open spec fn settings_for<'a>(
    variant: crate::builder::CodegenVariant,
    config: &'a ProjectConfig,
    loc: &'a DefinitionLocation,
) -> CodegenSettings<'a> {
    CodegenSettings { variant, project_config: config, definition_source_location: loc }
}

} // verus!
