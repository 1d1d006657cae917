//! What code generation produces for each kind of selection, as trees.
//!
//! Each function gives the tree of the node that is generated, whether
//! generation succeeds (`ok`: it fails exactly where the IR breaks an
//! invariant that earlier transforms establish), and whether a client edge
//! was generated along the way (`edges`).
use vstd::prelude::*;
use crate::arguments::{
    alias_tree, args_value_tree, argument_tree, arguments_tree, fragment_variable_definitions_tree,
    storage_key_tree,
};
use crate::ast::{opt_str_view, provider_view, JSModV, Tree};
use crate::builder::{CodegenSettings, CodegenVariant};
use crate::constants::{ABSTRACT_KEY_PREFIX};
use crate::ir::{
    find_kind, find_tag, has_tag, kind_tag, Argument, ClientEdgeMetadataDirective, Condition,
    ConditionValue, ConstantValue, Directive, DirectiveKind, FragmentAliasMetadata,
    FragmentSpread, HandleFieldDirective, InlineDirectiveMetadata, InlineFragment, LinkedField,
    ModuleMetadata, NoInlineMetadata, RelayResolverMetadata, RequiredAction, RequiredMetadata,
    ResolverNormalizationInfo, ResolverOutputTypeInfo, ScalarField, Selection, Value, TAG_ACTOR_CHANGE, TAG_CLIENT_COMPONENT_SERVER,
    TAG_CLIENT_EDGE, TAG_CLIENT_EXTENSION, TAG_DEFER, TAG_FRAGMENT_ALIAS, TAG_HANDLE, TAG_INLINE_DATA,
    TAG_MODULE, TAG_NO_INLINE, TAG_REACT_FLIGHT, TAG_REQUIRED, TAG_RESOLVER, TAG_STREAM,
    TAG_TYPE_DISCRIMINATOR,
};
use crate::paths::{artifact_path, import_path};
use crate::strings::{first_index_of, trim_suffixes};

verus! {

/// A generated node, whether generation succeeded, and whether it generated a client edge.
pub struct Built {
    pub ok: bool,
    pub tree: Tree,
    pub edges: bool,
}

/// Generated nodes, whether generation succeeded, and whether it generated a client edge.
pub struct BuiltSeq {
    pub ok: bool,
    pub trees: Seq<Tree>,
    pub edges: bool,
}

pub open spec fn done(t: Tree) -> Built {
    Built { ok: true, tree: t, edges: false }
}

pub open spec fn failed() -> Built {
    Built { ok: false, tree: Tree::Null, edges: false }
}

pub open spec fn one(b: Built) -> BuiltSeq {
    BuiltSeq { ok: b.ok, trees: seq![b.tree], edges: b.edges }
}

pub open spec fn str_or_null(o: Option<Seq<char>>) -> Tree {
    match o {
        Some(s) => Tree::Str(s),
        None => Tree::Null,
    }
}

pub open spec fn or_skip(o: Option<Tree>) -> Tree {
    match o {
        Some(t) => t,
        None => Tree::SkippableNull,
    }
}

/// The key by which the runtime checks that a record is of abstract type `name`.
pub open spec fn abstract_type_key(name: Seq<char>) -> Seq<char> {
    ABSTRACT_KEY_PREFIX@ + name
}

pub open spec fn required_action_str(a: RequiredAction) -> Seq<char> {
    match a {
        RequiredAction::Nothing => crate::constants::ACTION_NONE@,
        RequiredAction::Log => crate::constants::ACTION_LOG@,
        RequiredAction::Throw => crate::constants::ACTION_THROW@,
    }
}

/// `{kind: "RequiredField", field, action, path}`.
pub open spec fn required_tree(md: RequiredMetadata, field: Tree) -> Tree {
    Tree::Object(
        seq![
            (crate::constants::KIND@, Tree::Str(crate::constants::REQUIRED_FIELD@)),
            (crate::constants::FIELD@, field),
            (crate::constants::ACTION@, Tree::Str(required_action_str(md.action))),
            (crate::constants::PATH@, Tree::Str(md.path@)),
        ],
    )
}

// ---------------------------------------------------------------------------
// The metadata that a list of directives carries.
pub open spec fn find_required(ds: Seq<Directive>) -> Option<RequiredMetadata> {
    match find_kind(ds, TAG_REQUIRED) {
        Some(DirectiveKind::Required(m)) => Some(m),
        _ => None,
    }
}

pub open spec fn find_resolver(ds: Seq<Directive>) -> Option<RelayResolverMetadata> {
    match find_kind(ds, TAG_RESOLVER) {
        Some(DirectiveKind::Resolver(m)) => Some(m),
        _ => None,
    }
}

pub open spec fn find_alias(ds: Seq<Directive>) -> Option<FragmentAliasMetadata> {
    match find_kind(ds, TAG_FRAGMENT_ALIAS) {
        Some(DirectiveKind::FragmentAlias(m)) => Some(m),
        _ => None,
    }
}

pub open spec fn find_no_inline(ds: Seq<Directive>) -> Option<NoInlineMetadata> {
    match find_kind(ds, TAG_NO_INLINE) {
        Some(DirectiveKind::NoInline(m)) => Some(m),
        _ => None,
    }
}

pub open spec fn find_inline_data(ds: Seq<Directive>) -> Option<InlineDirectiveMetadata> {
    match find_kind(ds, TAG_INLINE_DATA) {
        Some(DirectiveKind::InlineData(m)) => Some(m),
        _ => None,
    }
}

pub open spec fn find_module(ds: Seq<Directive>) -> Option<ModuleMetadata> {
    match find_kind(ds, TAG_MODULE) {
        Some(DirectiveKind::Module(m)) => Some(m),
        _ => None,
    }
}

pub open spec fn find_client_edge(ds: Seq<Directive>) -> Option<ClientEdgeMetadataDirective> {
    match find_kind(ds, TAG_CLIENT_EDGE) {
        Some(DirectiveKind::ClientEdge(m)) => Some(m),
        _ => None,
    }
}

/// The first directive of kind `t`.
pub open spec fn first_directive(ds: Seq<Directive>, t: u8) -> Option<Directive> {
    match find_tag(ds, t) {
        Some(i) => Some(ds[i]),
        None => None,
    }
}

/// The handle directives, in order.
pub open spec fn handle_directives(ds: Seq<Directive>) -> Seq<HandleFieldDirective>
    decreases ds.len(),
{
    if ds.len() == 0 {
        Seq::empty()
    } else {
        let rest = handle_directives(ds.drop_last());
        match ds.last().kind {
            DirectiveKind::Handle(h) => rest.push(h),
            _ => rest,
        }
    }
}

/// The first argument called `name`.
pub open spec fn named_argument(args: Seq<Argument>, name: Seq<char>) -> Option<Argument>
    decreases args.len(),
{
    if args.len() == 0 {
        None
    } else if args[0].name@ == name {
        Some(args[0])
    } else {
        named_argument(args.drop_first(), name)
    }
}

/// The string of a string literal.
pub open spec fn string_literal(v: Value) -> Option<Seq<char>> {
    match v {
        Value::Constant(ConstantValue::String(s)) => Some(s@),
        _ => None,
    }
}

/// The variable that a `@defer`/`@stream` `if` argument names: none for `true`
/// or no argument, and a failure for anything but a variable.
pub open spec fn if_variable(d: Directive) -> Option<Option<Seq<char>>> {
    match named_argument(d.arguments@, crate::constants::IF_ARGUMENT@) {
        None => Some(None),
        Some(a) => match a.value {
            Value::Constant(ConstantValue::Boolean(b)) => if b {
                Some(None)
            } else {
                None
            },
            Value::Variable(v) => Some(Some(v@)),
            _ => None,
        },
    }
}

/// The label of a `@defer`/`@stream`, which must be a string literal.
pub open spec fn label_of(d: Directive) -> Option<Seq<char>> {
    match named_argument(d.arguments@, crate::constants::LABEL_ARGUMENT@) {
        Some(a) => string_literal(a.value),
        None => None,
    }
}

// ---------------------------------------------------------------------------
/// The name and alias of a field node.  In the reader AST a field with a
/// handle is read from the handle's storage: its name becomes
/// `__<key or name>_<handle>` and its alias defaults to the schema name.  At
/// most one handle is allowed there.
pub open spec fn field_name_and_alias(
    s: CodegenSettings,
    name: Seq<char>,
    alias: Option<Seq<char>>,
    ds: Seq<Directive>,
) -> Option<(Seq<char>, Option<Seq<char>>)> {
    let hs = handle_directives(ds);
    if s.variant == CodegenVariant::Reader && hs.len() > 0 {
        if hs.len() > 1 {
            None
        } else {
            let h = hs[0];
            let new_alias = match alias {
                Some(a) => Some(a),
                None => Some(name),
            };
            let new_name = if h.key@ == crate::constants::DEFAULT_HANDLE_KEY@ {
                seq!['_', '_'] + name + seq!['_'] + h.handle@
            } else {
                seq!['_', '_'] + h.key@ + seq!['_'] + h.handle@
            };
            Some((new_name, new_alias))
        }
    } else {
        Some((name, alias))
    }
}

pub open spec fn filters_tree(f: Option<Vec<String>>) -> Tree {
    match f {
        None => Tree::SkippableNull,
        Some(v) => Tree::Array(Seq::new(v@.len(), |i: int| Tree::Str(v@[i]@))),
    }
}

pub open spec fn handle_args_entries(h: HandleFieldDirective) -> Seq<(Seq<char>, Tree)> {
    match h.handle_args {
        Some(ha) => match arguments_tree(ha@) {
            Some(t) => seq![(crate::constants::HANDLE_ARGS@, t)],
            None => Seq::empty(),
        },
        None => Seq::empty(),
    }
}

pub open spec fn dynamic_key_entries(h: HandleFieldDirective) -> Seq<(Seq<char>, Tree)> {
    match h.dynamic_key {
        Some(v) => match argument_tree(crate::constants::DYNAMIC_KEY_ARGUMENT@, v) {
            Some(t) => seq![(crate::constants::DYNAMIC_KEY@, t)],
            None => Seq::empty(),
        },
        None => Seq::empty(),
    }
}

/// The entries common to scalar and linked handle nodes.
pub open spec fn handle_entries(
    alias: Option<Seq<char>>,
    field_name: Seq<char>,
    args: Seq<Argument>,
    h: HandleFieldDirective,
    kind: Seq<char>,
) -> Seq<(Seq<char>, Tree)> {
    seq![
        (crate::constants::ALIAS@, alias_tree(alias, field_name)),
        (crate::constants::ARGS@, args_value_tree(args)),
        (crate::constants::FILTERS@, filters_tree(h.filters)),
        (crate::constants::HANDLE@, Tree::Str(h.handle@)),
        (crate::constants::KEY@, Tree::Str(h.key@)),
        (crate::constants::KIND@, Tree::Str(kind)),
        (crate::constants::NAME@, Tree::Str(field_name)),
    ]
}

/// The `ScalarHandle` node of one handle of a scalar field.
pub open spec fn scalar_handle_tree(f: ScalarField, h: HandleFieldDirective) -> Tree {
    Tree::Object(
        handle_entries(
            opt_str_view(f.alias),
            f.definition.name@,
            f.arguments@,
            h,
            crate::constants::SCALAR_HANDLE@,
        ) + handle_args_entries(h),
    )
}

/// The `LinkedHandle` node of one handle of a linked field.
pub open spec fn linked_handle_tree(f: LinkedField, h: HandleFieldDirective) -> Tree {
    Tree::Object(
        handle_entries(
            opt_str_view(f.alias),
            f.definition.name@,
            f.arguments@,
            h,
            crate::constants::LINKED_HANDLE@,
        ) + dynamic_key_entries(h) + handle_args_entries(h),
    )
}

/// `{kind: "TypeDiscriminator", abstractKey}`; the field must have an alias.
pub open spec fn type_discriminator_out(f: ScalarField) -> Built {
    match f.alias {
        Some(a) => done(
            Tree::Object(
                seq![
                    (crate::constants::KIND@, Tree::Str(crate::constants::TYPE_DISCRIMINATOR@)),
                    (crate::constants::ABSTRACT_KEY@, Tree::Str(a@)),
                ],
            ),
        ),
        None => failed(),
    }
}

/// The `RelayResolver` node of the normalization AST.
pub open spec fn normalization_resolver_tree(md: RelayResolverMetadata, fragment: Option<Tree>) -> Tree {
    Tree::Object(
        seq![
            (crate::constants::NAME@, Tree::Str(md.field_name@)),
            (crate::constants::ARGS@, args_value_tree(md.field_arguments@)),
            (crate::constants::FRAGMENT@, or_skip(fragment)),
            (crate::constants::KIND@, Tree::Str(crate::constants::RELAY_RESOLVER@)),
            (
                crate::constants::STORAGE_KEY@,
                storage_key_tree(md.field_name@, md.field_arguments@),
            ),
        ],
    )
}

/// The import of the artifact `name` of a definition in `source`.
pub open spec fn artifact_import(s: CodegenSettings, source: Seq<char>, name: Seq<char>) -> Seq<char> {
    import_path(
        *s.project_config,
        s.definition_source_location.source_path@,
        artifact_path(source, name),
    )
}

/// The import of a resolver, with the fragment whose data it receives.
pub open spec fn resolver_base_tree(s: CodegenSettings, md: RelayResolverMetadata) -> Tree {
    let js = JSModV {
        path: import_path(
            *s.project_config,
            s.definition_source_location.source_path@,
            md.import_path@,
        ),
        named_import: opt_str_view(md.import_name),
        import_as: Some(md.local_resolver_name@),
    };
    match md.fragment_data_injection {
        Some(inj) => Tree::ResolverModel {
            graphql_module: artifact_import(s, inj.fragment_source_path@, inj.fragment_name@),
            js_module: js,
            injected: Some((inj.field_name@, inj.is_required)),
        },
        None => Tree::JSModule(js),
    }
}

/// The module that reads a resolver's value: its import, wrapped when the
/// resolver returns a weak object.
pub open spec fn resolver_module_tree(s: CodegenSettings, md: RelayResolverMetadata) -> Tree {
    let module = resolver_base_tree(s, md);
    match md.output_type_info {
        Some(ResolverOutputTypeInfo::Composite(info)) => match info.weak_object_instance_field {
            Some(key) => Tree::WeakWrapper {
                resolver: Box::new(module),
                key: key@,
                plural: info.plural,
                live: md.live,
            },
            None => module,
        },
        _ => module,
    }
}

/// The `RelayResolver`/`RelayLiveResolver` node of the reader AST.
pub open spec fn reader_resolver_tree(
    s: CodegenSettings,
    md: RelayResolverMetadata,
    fragment: Option<Tree>,
) -> Tree {
    let kind = if md.live {
        crate::constants::RELAY_LIVE_RESOLVER@
    } else {
        crate::constants::RELAY_RESOLVER@
    };
    let base = seq![
        (
            crate::constants::ALIAS@,
            alias_tree(opt_str_view(md.field_alias), md.field_name@),
        ),
        (crate::constants::ARGS@, args_value_tree(md.field_arguments@)),
        (crate::constants::FRAGMENT@, or_skip(fragment)),
        (crate::constants::KIND@, Tree::Str(kind)),
        (crate::constants::NAME@, Tree::Str(md.field_name@)),
        (crate::constants::RESOLVER_MODULE@, resolver_module_tree(s, md)),
        (crate::constants::PATH@, Tree::Str(md.field_path@)),
    ];
    Tree::Object(
        match md.output_type_info {
            Some(ResolverOutputTypeInfo::Composite(info)) => base.push(
                (
                    crate::constants::RELAY_RESOLVER_NORMALIZATION_INFO@,
                    normalization_info_tree(s, info),
                ),
            ),
            _ => base,
        },
    )
}

/// `{concreteType, plural, normalizationNode}` of a resolver returning a server-like object.
pub open spec fn normalization_info_tree(s: CodegenSettings, info: ResolverNormalizationInfo) -> Tree {
    Tree::Object(
        seq![
            (crate::constants::CONCRETE_TYPE@, Tree::Str(info.concrete_type@)),
            (crate::constants::PLURAL@, Tree::Bool(info.plural)),
            (
                crate::constants::NORMALIZATION_NODE@,
                Tree::GraphQLModule(
                    artifact_import(
                        s,
                        info.normalization_source_path@,
                        info.normalization_operation@,
                    ),
                ),
            ),
        ],
    )
}

/// The resolver node of a scalar field backed by a resolver.
pub open spec fn scalar_backed_resolver_tree(
    s: CodegenSettings,
    f: ScalarField,
    md: RelayResolverMetadata,
) -> Tree {
    let r = match s.variant {
        CodegenVariant::Reader => reader_resolver_tree(s, md, None),
        CodegenVariant::Normalization => normalization_resolver_tree(md, None),
    };
    match find_required(f.directives@) {
        Some(req) => required_tree(req, r),
        None => r,
    }
}

/// The `ScalarField`/`FlightField` node.
pub open spec fn scalar_field_out(s: CodegenSettings, f: ScalarField) -> Built {
    match field_name_and_alias(s, f.definition.name@, opt_str_view(f.alias), f.directives@) {
        None => failed(),
        Some((name, alias)) => {
            let kind = if has_tag(f.directives@, TAG_REACT_FLIGHT) {
                crate::constants::FLIGHT_FIELD@
            } else {
                crate::constants::SCALAR_FIELD@
            };
            let t = Tree::Object(
                seq![
                    (crate::constants::ALIAS@, alias_tree(alias, name)),
                    (crate::constants::ARGS@, args_value_tree(f.arguments@)),
                    (crate::constants::KIND@, Tree::Str(kind)),
                    (crate::constants::NAME@, Tree::Str(name)),
                    (crate::constants::STORAGE_KEY@, storage_key_tree(name, f.arguments@)),
                ],
            );
            done(
                match find_required(f.directives@) {
                    Some(req) => required_tree(req, t),
                    None => t,
                },
            )
        },
    }
}

/// The nodes of a scalar field: its resolver, or the field and (in the
/// normalization AST) its handles.
pub open spec fn scalar_field_and_handles_out(s: CodegenSettings, f: ScalarField) -> BuiltSeq {
    match find_resolver(f.directives@) {
        Some(md) => one(done(scalar_backed_resolver_tree(s, f, md))),
        None => {
            let field = scalar_field_out(s, f);
            match s.variant {
                CodegenVariant::Reader => one(field),
                CodegenVariant::Normalization => BuiltSeq {
                    ok: field.ok,
                    trees: seq![field.tree] + handle_directives(f.directives@).map_values(
                        |h: HandleFieldDirective| scalar_handle_tree(f, h),
                    ),
                    edges: false,
                },
            }
        },
    }
}

/// The `ClientComponent` node of a spread of a server component.
pub open spec fn client_component_out(f: FragmentSpread) -> Built {
    match first_directive(f.directives@, TAG_CLIENT_COMPONENT_SERVER) {
        Some(d) => match named_argument(d.arguments@, crate::constants::MODULE_ID_ARGUMENT@) {
            Some(a) => match string_literal(a.value) {
                Some(id) => done(
                    Tree::Object(
                        seq![
                            (
                                crate::constants::FRAGMENT@,
                                Tree::GraphQLModule(
                                    trim_suffixes(id, crate::constants::GRAPHQL_EXTENSION@),
                                ),
                            ),
                            (crate::constants::KIND@, Tree::Str(crate::constants::CLIENT_COMPONENT@)),
                        ],
                    ),
                ),
                None => failed(),
            },
            None => failed(),
        },
        None => failed(),
    }
}

/// The node of a fragment spread.
pub open spec fn fragment_spread_out(s: CodegenSettings, f: FragmentSpread) -> Built {
    match find_no_inline(f.directives@) {
        Some(md) => done(
            Tree::Object(
                seq![
                    (crate::constants::ARGS@, args_value_tree(f.arguments@)),
                    (
                        crate::constants::FRAGMENT@,
                        Tree::GraphQLModule(artifact_import(s, md.source_path@, f.fragment@)),
                    ),
                    (
                        crate::constants::KIND@,
                        Tree::Str(
                            if has_tag(f.directives@, TAG_CLIENT_COMPONENT_SERVER) {
                                crate::constants::CLIENT_COMPONENT@
                            } else {
                                crate::constants::FRAGMENT_SPREAD@
                            },
                        ),
                    ),
                ],
            ),
        ),
        None => if s.variant == CodegenVariant::Normalization && has_tag(
            f.directives@,
            TAG_CLIENT_COMPONENT_SERVER,
        ) {
            client_component_out(f)
        } else {
            let spread = Tree::Object(
                seq![
                    (crate::constants::ARGS@, args_value_tree(f.arguments@)),
                    (crate::constants::KIND@, Tree::Str(crate::constants::FRAGMENT_SPREAD@)),
                    (crate::constants::NAME@, Tree::Str(f.fragment@)),
                ],
            );
            match find_alias(f.directives@) {
                Some(md) => done(
                    Tree::Object(
                        seq![
                            (crate::constants::FRAGMENT@, spread),
                            (
                                crate::constants::KIND@,
                                Tree::Str(crate::constants::ALIASED_FRAGMENT_SPREAD@),
                            ),
                            (crate::constants::NAME@, Tree::Str(md.alias@)),
                            (
                                crate::constants::TYPE@,
                                match md.type_condition {
                                    Some(t) => Tree::Str(t.name@),
                                    None => Tree::SkippableNull,
                                },
                            ),
                            (
                                crate::constants::ABSTRACT_KEY@,
                                match md.type_condition {
                                    Some(t) => if t.is_abstract {
                                        Tree::Str(abstract_type_key(t.name@))
                                    } else {
                                        Tree::SkippableNull
                                    },
                                    None => Tree::SkippableNull,
                                },
                            ),
                        ],
                    ),
                ),
                None => match find_resolver(f.directives@) {
                    Some(md) => if s.variant == CodegenVariant::Reader {
                        let r = reader_resolver_tree(s, md, Some(spread));
                        done(
                            match find_required(f.directives@) {
                                Some(req) => required_tree(req, r),
                                None => r,
                            },
                        )
                    } else {
                        failed()
                    },
                    None => done(spread),
                },
            }
        },
    }
}

/// Whether a selection is a type discriminator whose key (its alias) is `key`.
pub open spec fn is_discriminator_for(sel: Selection, key: Seq<char>) -> bool {
    match sel {
        Selection::ScalarField(f) => has_tag(f.directives@, TAG_TYPE_DISCRIMINATOR) && f.alias is Some
            && f.alias->0@ == key,
        _ => false,
    }
}

/// The first fragment spread among `sels`.
pub open spec fn first_spread(sels: Seq<Selection>) -> Option<FragmentSpread>
    decreases sels.len(),
{
    if sels.len() == 0 {
        None
    } else {
        match sels[0] {
            Selection::FragmentSpread(f) => Some(f),
            _ => first_spread(sels.drop_first()),
        }
    }
}

/// The file name of the normalization artifact of a `@module` fragment.
pub open spec fn fragment_normalization_filename(name: Seq<char>) -> Seq<char> {
    name + crate::constants::NORMALIZATION_SUFFIX@
}

/// The `ModuleImport` node of a `@module` inline fragment; the fragment name
/// must have the form `Fragment_prop`.
pub open spec fn module_import_out(s: CodegenSettings, md: ModuleMetadata, f: InlineFragment) -> Built {
    let name = md.fragment_name@;
    match first_index_of(name, '_') {
        None => failed(),
        Some(idx) => {
            let args = match first_spread(f.selections@) {
                Some(spread) => args_value_tree(spread.arguments@),
                None => Tree::SkippableNull,
            };
            let base = seq![
                (crate::constants::ARGS@, args),
                (crate::constants::DOCUMENT_NAME@, Tree::Str(md.key@)),
                (crate::constants::FRAGMENT_NAME@, Tree::Str(name)),
                (crate::constants::FRAGMENT_PROP_NAME@, Tree::Str(name.skip(idx + 1))),
                (crate::constants::KIND@, Tree::Str(crate::constants::MODULE_IMPORT@)),
            ];
            let providers = match s.project_config.dynamic_module_provider {
                Some(p) => if s.variant == CodegenVariant::Normalization {
                    seq![
                        (
                            crate::constants::COMPONENT_MODULE_PROVIDER@,
                            Tree::DynamicImport { provider: provider_view(p), module: md.module_name@ },
                        ),
                        (
                            crate::constants::OPERATION_MODULE_PROVIDER@,
                            Tree::DynamicImport {
                                provider: provider_view(p),
                                module: fragment_normalization_filename(name),
                            },
                        ),
                    ]
                } else {
                    Seq::empty()
                },
                None => Seq::empty(),
            };
            done(Tree::Object(base + providers))
        },
    }
}

/// The `if` and `label` entries of a `@defer`/`@stream` node.
pub open spec fn deferred_entries(d: Directive, kind: Seq<char>, selections: Tree) -> Option<
    Seq<(Seq<char>, Tree)>,
> {
    match (if_variable(d), label_of(d)) {
        (Some(v), Some(label)) => Some(
            seq![
                (crate::constants::IF@, str_or_null(v)),
                (crate::constants::KIND@, Tree::Str(kind)),
                (crate::constants::LABEL@, Tree::Str(label)),
                (crate::constants::SELECTIONS@, selections),
            ],
        ),
        _ => None,
    }
}

// ---------------------------------------------------------------------------
// Selections, recursively.
/// The nodes of a list of selections, leaving out the type discriminators whose
/// key is `skip_key`, when there is one.
pub open spec fn selections_out(s: CodegenSettings, sels: Seq<Selection>, skip_key: Option<Seq<char>>) -> BuiltSeq
    decreases sels, 0nat,
{
    if sels.len() == 0 {
        BuiltSeq { ok: true, trees: Seq::empty(), edges: false }
    } else {
        let rest = selections_out(s, sels.subrange(0, sels.len() - 1), skip_key);
        let last = sels[sels.len() - 1];
        if skip_key is Some && is_discriminator_for(last, skip_key->0) {
            rest
        } else {
            let cur = selection_out(s, last);
            BuiltSeq {
                ok: rest.ok && cur.ok,
                trees: rest.trees + cur.trees,
                edges: rest.edges || cur.edges,
            }
        }
    }
}

/// The nodes of one selection.
pub open spec fn selection_out(s: CodegenSettings, sel: Selection) -> BuiltSeq
    decreases sel, 0nat,
{
    match sel {
        Selection::Condition(c) => one(condition_out(s, c)),
        Selection::FragmentSpread(f) => one(fragment_spread_out(s, f)),
        Selection::InlineFragment(f) => if has_tag(f.directives@, TAG_DEFER) {
            one(defer_out(s, f))
        } else if find_inline_data(f.directives@) is Some {
            one(inline_data_fragment_spread_out(s, f, find_inline_data(f.directives@)->0))
        } else if find_module(f.directives@) is Some {
            one(module_import_out(s, find_module(f.directives@)->0, f))
        } else if has_tag(f.directives@, TAG_ACTOR_CHANGE) {
            one(actor_change_out(s, f))
        } else if find_resolver(f.directives@) is Some {
            if s.variant == CodegenVariant::Reader {
                one(failed())
            } else {
                let inner = inline_fragment_out(s, f);
                one(
                    Built {
                        ok: inner.ok,
                        tree: normalization_resolver_tree(
                            find_resolver(f.directives@)->0,
                            Some(inner.tree),
                        ),
                        edges: inner.edges,
                    },
                )
            }
        } else {
            one(inline_fragment_out(s, f))
        },
        Selection::LinkedField(f) => if has_tag(f.directives@, TAG_STREAM) {
            one(stream_out(s, f))
        } else {
            linked_field_and_handles_out(s, f)
        },
        Selection::ScalarField(f) => if f.directives@.len() == 1 && kind_tag(f.directives@[0].kind)
            == TAG_TYPE_DISCRIMINATOR {
            match s.variant {
                CodegenVariant::Reader => BuiltSeq { ok: true, trees: Seq::empty(), edges: false },
                CodegenVariant::Normalization => one(type_discriminator_out(f)),
            }
        } else {
            scalar_field_and_handles_out(s, f)
        },
    }
}

/// The `Condition` node; its value must be a variable.
pub open spec fn condition_out(s: CodegenSettings, c: Condition) -> Built
    decreases c, 0nat,
{
    let inner = selections_out(s, c.selections@, None);
    match c.value {
        ConditionValue::Variable(v) => Built {
            ok: inner.ok,
            tree: Tree::Object(
                seq![
                    (crate::constants::CONDITION@, Tree::Str(v@)),
                    (crate::constants::KIND@, Tree::Str(crate::constants::CONDITION_VALUE@)),
                    (crate::constants::PASSING_VALUE@, Tree::Bool(c.passing_value)),
                    (crate::constants::SELECTIONS@, Tree::Array(inner.trees)),
                ],
            ),
            edges: inner.edges,
        },
        ConditionValue::Constant(_) => failed(),
    }
}

/// The `LinkedField` node, wrapped by its `@required` unless `drop_required`.
pub open spec fn linked_field_out(s: CodegenSettings, f: LinkedField, drop_required: bool) -> Built
    decreases f, 0nat,
{
    let inner = selections_out(s, f.selections@, None);
    match field_name_and_alias(s, f.definition.name@, opt_str_view(f.alias), f.directives@) {
        None => failed(),
        Some((name, alias)) => {
            let t = Tree::Object(
                seq![
                    (crate::constants::ALIAS@, alias_tree(alias, name)),
                    (crate::constants::ARGS@, args_value_tree(f.arguments@)),
                    (
                        crate::constants::CONCRETE_TYPE@,
                        if f.definition.type_is_abstract {
                            Tree::SkippableNull
                        } else {
                            Tree::Str(f.definition.inner_type@)
                        },
                    ),
                    (crate::constants::KIND@, Tree::Str(crate::constants::LINKED_FIELD@)),
                    (crate::constants::NAME@, Tree::Str(name)),
                    (crate::constants::PLURAL@, Tree::Bool(f.definition.is_list)),
                    (crate::constants::SELECTIONS@, Tree::Array(inner.trees)),
                    (crate::constants::STORAGE_KEY@, storage_key_tree(name, f.arguments@)),
                ],
            );
            Built {
                ok: inner.ok,
                tree: if drop_required {
                    t
                } else {
                    match find_required(f.directives@) {
                        Some(req) => required_tree(req, t),
                        None => t,
                    }
                },
                edges: inner.edges,
            }
        },
    }
}

/// The nodes of a linked field: the field and (in the normalization AST) its handles.
pub open spec fn linked_field_and_handles_out(s: CodegenSettings, f: LinkedField) -> BuiltSeq
    decreases f, 1nat,
{
    let field = linked_field_out(s, f, false);
    match s.variant {
        CodegenVariant::Reader => one(field),
        CodegenVariant::Normalization => BuiltSeq {
            ok: field.ok,
            trees: seq![field.tree] + handle_directives(f.directives@).map_values(
                |h: HandleFieldDirective| linked_handle_tree(f, h),
            ),
            edges: field.edges,
        },
    }
}

/// The `Stream` node of a linked field with `@stream`.
pub open spec fn stream_out(s: CodegenSettings, f: LinkedField) -> Built
    decreases f, 2nat,
{
    let inner = linked_field_and_handles_out(s, f);
    let sels = Tree::Array(inner.trees);
    match s.variant {
        CodegenVariant::Reader => Built {
            ok: inner.ok,
            tree: Tree::Object(
                seq![
                    (crate::constants::KIND@, Tree::Str(crate::constants::STREAM@)),
                    (crate::constants::SELECTIONS@, sels),
                ],
            ),
            edges: inner.edges,
        },
        CodegenVariant::Normalization => match first_directive(f.directives@, TAG_STREAM) {
            Some(d) => match deferred_entries(d, crate::constants::STREAM@, sels) {
                Some(es) => Built { ok: inner.ok, tree: Tree::Object(es), edges: inner.edges },
                None => failed(),
            },
            None => failed(),
        },
    }
}

/// The `Defer` node of an inline fragment with `@defer`.
pub open spec fn defer_out(s: CodegenSettings, f: InlineFragment) -> Built
    decreases f, 0nat,
{
    match s.variant {
        CodegenVariant::Reader => if f.selections@.len() == 0 {
            failed()
        } else {
            let inner = match f.selections@[0] {
                Selection::FragmentSpread(spread) => one(fragment_spread_out(s, spread)),
                _ => selections_out(s, f.selections@, None),
            };
            Built {
                ok: inner.ok,
                tree: Tree::Object(
                    seq![
                        (crate::constants::KIND@, Tree::Str(crate::constants::DEFER@)),
                        (crate::constants::SELECTIONS@, Tree::Array(inner.trees)),
                    ],
                ),
                edges: inner.edges,
            }
        },
        CodegenVariant::Normalization => {
            let inner = selections_out(s, f.selections@, None);
            match first_directive(f.directives@, TAG_DEFER) {
                Some(d) => match deferred_entries(
                    d,
                    crate::constants::DEFER@,
                    Tree::Array(inner.trees),
                ) {
                    Some(es) => Built { ok: inner.ok, tree: Tree::Object(es), edges: inner.edges },
                    None => failed(),
                },
                None => failed(),
            }
        },
    }
}

/// The `InlineDataFragmentSpread` node.
pub open spec fn inline_data_fragment_spread_out(
    s: CodegenSettings,
    f: InlineFragment,
    md: InlineDirectiveMetadata,
) -> Built
    decreases f, 0nat,
{
    let inner = selections_out(s, f.selections@, None);
    Built {
        ok: inner.ok,
        tree: Tree::Object(
            seq![
                (crate::constants::KIND@, Tree::Str(crate::constants::INLINE_DATA_FRAGMENT_SPREAD@)),
                (crate::constants::NAME@, Tree::Str(md.fragment_name@)),
                (crate::constants::SELECTIONS@, Tree::Array(inner.trees)),
                (crate::constants::ARGS@, args_value_tree(md.arguments@)),
                (
                    crate::constants::ARGUMENT_DEFINITIONS@,
                    fragment_variable_definitions_tree(
                        md.variable_definitions@,
                        md.used_global_variables@,
                    ),
                ),
            ],
        ),
        edges: inner.edges,
    }
}

/// The `ActorChange` node; the fragment must start with a linked field, which
/// in the reader AST must contain a fragment spread.
pub open spec fn actor_change_out(s: CodegenSettings, f: InlineFragment) -> Built
    decreases f, 0nat,
{
    if f.selections@.len() == 0 {
        failed()
    } else {
        match f.selections@[0] {
            Selection::LinkedField(lf) => match s.variant {
                CodegenVariant::Normalization => {
                    let inner = linked_field_out(s, lf, false);
                    Built {
                        ok: inner.ok,
                        tree: Tree::Object(
                            seq![
                                (crate::constants::KIND@, Tree::Str(crate::constants::ACTOR_CHANGE@)),
                                (crate::constants::LINKED_FIELD_PROPERTY@, inner.tree),
                            ],
                        ),
                        edges: inner.edges,
                    }
                },
                CodegenVariant::Reader => match field_name_and_alias(
                    s,
                    lf.definition.name@,
                    opt_str_view(lf.alias),
                    lf.directives@,
                ) {
                    None => failed(),
                    Some((name, alias)) => match first_spread(lf.selections@) {
                        None => failed(),
                        Some(spread) => {
                            let sp = fragment_spread_out(s, spread);
                            Built {
                                ok: sp.ok,
                                tree: Tree::Object(
                                    seq![
                                        (
                                            crate::constants::KIND@,
                                            Tree::Str(crate::constants::ACTOR_CHANGE@),
                                        ),
                                        (crate::constants::ALIAS@, alias_tree(alias, name)),
                                        (crate::constants::NAME@, Tree::Str(name)),
                                        (
                                            crate::constants::STORAGE_KEY@,
                                            storage_key_tree(name, lf.arguments@),
                                        ),
                                        (crate::constants::ARGS@, args_value_tree(lf.arguments@)),
                                        (crate::constants::FRAGMENT_SPREAD_PROPERTY@, sp.tree),
                                    ],
                                ),
                                edges: false,
                            }
                        },
                    },
                },
            },
            _ => failed(),
        }
    }
}

/// The node of a client edge: the fragment's first selection is the backing
/// resolver and its second the linked field it leads to.
pub open spec fn client_edge_out(
    s: CodegenSettings,
    f: InlineFragment,
    md: ClientEdgeMetadataDirective,
    required: Option<RequiredMetadata>,
) -> Built
    decreases f, 0nat,
{
    if f.selections@.len() < 2 {
        failed()
    } else {
        let backing = match f.selections@[0] {
            Selection::FragmentSpread(spread) => fragment_spread_out(s, spread),
            Selection::ScalarField(sf) => match find_resolver(sf.directives@) {
                Some(rmd) => done(scalar_backed_resolver_tree(s, sf, rmd)),
                None => failed(),
            },
            _ => failed(),
        };
        let target = match f.selections@[1] {
            Selection::LinkedField(lf) => linked_field_out(s, lf, required is Some),
            _ => failed(),
        };
        let field = match md {
            ClientEdgeMetadataDirective::ServerObject { query_name } => Tree::Object(
                seq![
                    (
                        crate::constants::KIND@,
                        Tree::Str(crate::constants::CLIENT_EDGE_TO_SERVER_OBJECT@),
                    ),
                    (crate::constants::OPERATION@, Tree::GraphQLModule(query_name@)),
                    (crate::constants::CLIENT_EDGE_BACKING_FIELD_KEY@, backing.tree),
                    (crate::constants::CLIENT_EDGE_SELECTIONS_KEY@, target.tree),
                ],
            ),
            ClientEdgeMetadataDirective::ClientObject { concrete_type } => Tree::Object(
                seq![
                    (
                        crate::constants::KIND@,
                        Tree::Str(crate::constants::CLIENT_EDGE_TO_CLIENT_OBJECT@),
                    ),
                    (crate::constants::CONCRETE_TYPE@, Tree::Str(concrete_type@)),
                    (crate::constants::CLIENT_EDGE_BACKING_FIELD_KEY@, backing.tree),
                    (crate::constants::CLIENT_EDGE_SELECTIONS_KEY@, target.tree),
                ],
            ),
        };
        Built {
            ok: backing.ok && target.ok,
            tree: match required {
                Some(req) => required_tree(req, field),
                None => field,
            },
            edges: true,
        }
    }
}

/// The node of an inline fragment.  In the normalization AST, an inline
/// fragment on an abstract type leaves out the type discriminators whose key is
/// its own abstract key, and a lone such discriminator replaces it; type
/// discriminators with another key stay inside it.
pub open spec fn inline_fragment_out(s: CodegenSettings, f: InlineFragment) -> Built
    decreases f, 1nat,
{
    match f.type_condition {
        None => match find_client_edge(f.directives@) {
            Some(md) => client_edge_out(s, f, md, find_required(f.directives@)),
            None => if f.directives@.len() == 1 && kind_tag(f.directives@[0].kind)
                == TAG_CLIENT_EXTENSION {
                let inner = selections_out(s, f.selections@, None);
                Built {
                    ok: inner.ok,
                    tree: Tree::Object(
                        seq![
                            (crate::constants::KIND@, Tree::Str(crate::constants::CLIENT_EXTENSION@)),
                            (crate::constants::SELECTIONS@, Tree::Array(inner.trees)),
                        ],
                    ),
                    edges: inner.edges,
                }
            } else {
                failed()
            },
        },
        Some(tc) => if s.variant == CodegenVariant::Normalization && tc.is_abstract && exists|i: int|
            0 <= i < f.selections@.len() && is_discriminator_for(
                #[trigger] f.selections@[i],
                abstract_type_key(tc.name@),
            ) {
            if f.selections@.len() == 1 {
                match f.selections@[0] {
                    Selection::ScalarField(sf) => type_discriminator_out(sf),
                    _ => failed(),
                }
            } else {
                let inner = selections_out(s, f.selections@, Some(abstract_type_key(tc.name@)));
                Built {
                    ok: inner.ok,
                    tree: Tree::Object(
                        seq![
                            (crate::constants::KIND@, Tree::Str(crate::constants::INLINE_FRAGMENT@)),
                            (crate::constants::SELECTIONS@, Tree::Array(inner.trees)),
                            (crate::constants::TYPE@, Tree::Str(tc.name@)),
                            (crate::constants::ABSTRACT_KEY@, Tree::Str(abstract_type_key(tc.name@))),
                        ],
                    ),
                    edges: inner.edges,
                }
            }
        } else {
            let inner = selections_out(s, f.selections@, None);
            let t = Tree::Object(
                seq![
                    (crate::constants::KIND@, Tree::Str(crate::constants::INLINE_FRAGMENT@)),
                    (crate::constants::SELECTIONS@, Tree::Array(inner.trees)),
                    (crate::constants::TYPE@, Tree::Str(tc.name@)),
                    (
                        crate::constants::ABSTRACT_KEY@,
                        if tc.is_abstract {
                            Tree::Str(abstract_type_key(tc.name@))
                        } else {
                            Tree::SkippableNull
                        },
                    ),
                ],
            );
            Built {
                ok: inner.ok,
                tree: match find_alias(f.directives@) {
                    Some(md) => Tree::Object(
                        seq![
                            (crate::constants::FRAGMENT@, t),
                            (
                                crate::constants::KIND@,
                                Tree::Str(crate::constants::ALIASED_INLINE_FRAGMENT_SPREAD@),
                            ),
                            (crate::constants::NAME@, Tree::Str(md.alias@)),
                        ],
                    ),
                    None => t,
                },
                edges: inner.edges,
            }
        },
    }
}

} // verus!
