//! Code generation for the selections that contain no further selections:
//! scalar fields, handles, resolvers, fragment spreads and module imports.
use vstd::prelude::*;
use crate::arguments::{
    args_prim, args_value_tree, arguments_tree, build_alias, lemma_args_prims, opt_key_means,
    storage_key_prim, storage_key_tree,
};
use crate::ast::{
    denote, entries_denote, entries_keys_below, opt_str_view, prim_keys_below, prims_denote,
    prims_keys_below, AstKey, DynamicModuleProvider, JSModuleDependency, ObjectEntry, Primitive,
    Tree,
};
use crate::builder::{
    arena, copy_provider, entry, evolves, key_means, lemma_entries_stable, lemma_means_stable,
    lemma_prims_stable, means, str_prim, CodegenBuilder, CodegenVariant,
};
use crate::constants::{
    ABSTRACT_KEY, ABSTRACT_KEY_PREFIX, ACTION, ACTION_LOG, ACTION_NONE, ACTION_THROW, ALIASED_FRAGMENT_SPREAD, ARGS,
    CLIENT_COMPONENT, COMPONENT_MODULE_PROVIDER, CONCRETE_TYPE, DEFAULT_HANDLE_KEY, DOCUMENT_NAME,
    DYNAMIC_KEY, DYNAMIC_KEY_ARGUMENT, FIELD, FILTERS, FLIGHT_FIELD, FRAGMENT, FRAGMENT_NAME,
    FRAGMENT_PROP_NAME, FRAGMENT_SPREAD, GRAPHQL_EXTENSION, HANDLE, HANDLE_ARGS, KEY, KIND,
    MODULE_ID_ARGUMENT, MODULE_IMPORT, NAME, NORMALIZATION_NODE, NORMALIZATION_SUFFIX,
    OPERATION_MODULE_PROVIDER, PATH, PLURAL, RELAY_LIVE_RESOLVER, RELAY_RESOLVER,
    RELAY_RESOLVER_NORMALIZATION_INFO, REQUIRED_FIELD, RESOLVER_MODULE, SCALAR_FIELD, STORAGE_KEY,
    TYPE, TYPE_DISCRIMINATOR,
};
use crate::directives::{
    find_alias_metadata, find_no_inline_metadata, find_required_metadata,
    find_resolver_metadata, first_spread_of, handle_summary, has_directive, named_argument_of,
};
use crate::ir::{
    find_directive, has_tag, Argument, ConstantValue, Directive, DirectiveKind, FragmentSpread,
    HandleFieldDirective, InlineFragment, ModuleMetadata, RelayResolverMetadata, RequiredAction,
    RequiredMetadata, ResolverNormalizationInfo, ResolverOutputTypeInfo, ScalarField, Value, TAG_CLIENT_COMPONENT_SERVER,
    TAG_REACT_FLIGHT,
};
use crate::paths::create_path_for_artifact;
use crate::selection_trees::{
    abstract_type_key, artifact_import, client_component_out, dynamic_key_entries, field_name_and_alias,
    filters_tree, find_required, find_resolver, fragment_spread_out, handle_args_entries,
    handle_directives, handle_entries, module_import_out, normalization_resolver_tree,
    reader_resolver_tree, required_action_str, required_tree, resolver_base_tree, resolver_module_tree,
    scalar_backed_resolver_tree, scalar_field_and_handles_out, scalar_field_out,
    scalar_handle_tree, type_discriminator_out, normalization_info_tree, Built, BuiltSeq,
};
use crate::strings::{concat, copy_string, find_char, substring, trim_end_matches};

verus! {

/// `ps` are valid in `b`'s arena and mean `ts`.
pub open spec fn means_all(b: CodegenBuilder, ps: Seq<Primitive>, ts: Seq<Tree>) -> bool {
    prims_keys_below(ps, arena(b).len()) && prims_denote(arena(b), ps) == ts
}

/// What an optional primitive means.
pub open spec fn opt_denote(a: Seq<crate::ast::Ast>, o: Option<Primitive>) -> Option<Tree> {
    match o {
        Some(p) => Some(denote(a, p)),
        None => None,
    }
}

pub open spec fn opt_keys_below(o: Option<Primitive>, n: nat) -> bool {
    match o {
        Some(p) => prim_keys_below(p, n),
        None => true,
    }
}

/// A copy of an optional string.
pub fn copy_opt_string(o: &Option<String>) -> (r: Option<String>)
    ensures
        opt_str_view(r) == opt_str_view(*o),
{
    match o {
        Some(s) => Some(copy_string(s)),
        None => None,
    }
}

/// A string primitive from an owned string.
fn string_prim(s: String) -> (p: Primitive)
    ensures
        p == Primitive::String(s),
{
    Primitive::String(s)
}

impl CodegenBuilder<'_> {
    /// `{kind: "RequiredField", field, action, path}` around `primitive`.
    pub fn build_required_field(&mut self, required_metadata: &RequiredMetadata, primitive: Primitive) -> (r:
        Primitive)
        requires
            prim_keys_below(primitive, arena(*old(self)).len()),
        ensures
            evolves(*old(self), *final(self)),
            means(
                *final(self),
                r,
                required_tree(*required_metadata, denote(arena(*old(self)), primitive)),
            ),
            r is Key,
    {
        let ghost t = denote(arena(*self), primitive);
        let action = match required_metadata.action {
            RequiredAction::Nothing => str_prim(ACTION_NONE),
            RequiredAction::Log => str_prim(ACTION_LOG),
            RequiredAction::Throw => str_prim(ACTION_THROW),
        };
        let mut es: Vec<ObjectEntry> = Vec::new();
        es.push(entry(KIND, str_prim(REQUIRED_FIELD)));
        es.push(entry(FIELD, primitive));
        es.push(entry(ACTION, action));
        es.push(entry(PATH, Primitive::String(copy_string(&required_metadata.path))));
        let ghost a = arena(*self);
        let k = self.object(es);
        assert(entries_denote(a, es@) =~= seq![
            (KIND@, Tree::Str(REQUIRED_FIELD@)),
            (FIELD@, t),
            (ACTION@, Tree::Str(required_action_str(required_metadata.action))),
            (PATH@, Tree::Str(required_metadata.path@)),
        ]);
        Primitive::Key(k)
    }

    /// Wraps `primitive` in the `@required` node of `directives`, if there is one.
    fn wrap_required(&mut self, directives: &Vec<Directive>, primitive: Primitive) -> (r: Primitive)
        requires
            prim_keys_below(primitive, arena(*old(self)).len()),
        ensures
            evolves(*old(self), *final(self)),
            means(
                *final(self),
                r,
                match find_required(directives@) {
                    Some(req) => required_tree(req, denote(arena(*old(self)), primitive)),
                    None => denote(arena(*old(self)), primitive),
                },
            ),
            primitive is Key ==> r is Key,
    {
        self.check();
        match find_required_metadata(directives) {
            Some(md) => self.build_required_field(md, primitive),
            None => primitive,
        }
    }

    /// `{kind: "TypeDiscriminator", abstractKey}`.
    pub fn build_type_discriminator(&mut self, field: &ScalarField) -> (r: Primitive)
        requires
            type_discriminator_out(*field).ok,
        ensures
            evolves(*old(self), *final(self)),
            means(*final(self), r, type_discriminator_out(*field).tree),
            r is Key,
    {
        let alias = match &field.alias {
            Some(a) => copy_string(a),
            None => String::new(),
        };
        let mut es: Vec<ObjectEntry> = Vec::new();
        es.push(entry(KIND, str_prim(TYPE_DISCRIMINATOR)));
        es.push(entry(ABSTRACT_KEY, string_prim(alias)));
        let ghost a = arena(*self);
        let k = self.object(es);
        assert(entries_denote(a, es@) =~= seq![
            (KIND@, Tree::Str(TYPE_DISCRIMINATOR@)),
            (ABSTRACT_KEY@, Tree::Str(field.alias->0@)),
        ]);
        Primitive::Key(k)
    }

    /// The `RelayResolver` node of the normalization AST.
    pub fn build_normalization_relay_resolver(
        &mut self,
        resolver_metadata: &RelayResolverMetadata,
        inline_fragment: Option<Primitive>,
    ) -> (r: Primitive)
        requires
            opt_keys_below(inline_fragment, arena(*old(self)).len()),
        ensures
            evolves(*old(self), *final(self)),
            means(
                *final(self),
                r,
                normalization_resolver_tree(
                    *resolver_metadata,
                    opt_denote(arena(*old(self)), inline_fragment),
                ),
            ),
            r is Key,
    {
        let ghost b0 = *self;
        self.check();
        let args = self.build_arguments(&resolver_metadata.field_arguments);
        let sk = storage_key_prim(&resolver_metadata.field_name, args, &resolver_metadata.field_arguments);
        proof {
            lemma_args_prims(*self, args, resolver_metadata.field_arguments@, sk, resolver_metadata.field_name@);
            if let Some(p) = &inline_fragment {
                crate::ast::lemma_denote_stable(arena(b0), arena(*self), *p);
            }
        }
        let fragment = match inline_fragment {
            None => Primitive::SkippableNull,
            Some(p) => p,
        };
        let mut es: Vec<ObjectEntry> = Vec::new();
        es.push(entry(NAME, Primitive::String(copy_string(&resolver_metadata.field_name))));
        es.push(entry(ARGS, args_prim(args)));
        es.push(entry(FRAGMENT, fragment));
        es.push(entry(KIND, str_prim(RELAY_RESOLVER)));
        es.push(entry(STORAGE_KEY, sk));
        let ghost a = arena(*self);
        let k = self.object(es);
        assert(entries_denote(a, es@) =~= seq![
            (NAME@, Tree::Str(resolver_metadata.field_name@)),
            (ARGS@, args_value_tree(resolver_metadata.field_arguments@)),
            (FRAGMENT@, crate::selection_trees::or_skip(opt_denote(arena(b0), inline_fragment))),
            (KIND@, Tree::Str(RELAY_RESOLVER@)),
            (STORAGE_KEY@, storage_key_tree(resolver_metadata.field_name@, resolver_metadata.field_arguments@)),
        ]);
        Primitive::Key(k)
    }

    /// The module that reads a resolver's value.
    fn build_resolver_module(&self, md: &RelayResolverMetadata) -> (r: Primitive)
        ensures
            prim_keys_below(r, 0),
            denote(Seq::empty(), r) == resolver_module_tree(self.settings, *md),
    {
        let module = self.build_resolver_base_module(md);
        assert(prim_keys_below(module, 0));
        match &md.output_type_info {
            Some(ResolverOutputTypeInfo::Composite(info)) => match &info.weak_object_instance_field {
                Some(key) => Primitive::RelayResolverWeakObjectWrapper {
                    resolver: Box::new(
                        module,
                    ),
                    key: copy_string(key),
                    plural: info.plural,
                    live: md.live,
                },
                None => module,
            },
            _ => module,
        }
    }

    /// `{concreteType, plural, normalizationNode}` of a resolver returning a server-like object.
    fn build_resolver_normalization_info(&mut self, info: &ResolverNormalizationInfo) -> (k: AstKey)
        ensures
            evolves(*old(self), *final(self)),
            key_means(*final(self), k, normalization_info_tree(old(self).settings, *info)),
    {
        let artifact = create_path_for_artifact(
            info.normalization_source_path.as_str(),
            info.normalization_operation.as_str(),
        );
        let node = self.settings.project_config.js_module_import_path(
            self.settings.definition_source_location.source_path.as_str(),
            artifact.as_str(),
        );
        let mut ies: Vec<ObjectEntry> = Vec::new();
        ies.push(entry(CONCRETE_TYPE, Primitive::String(copy_string(&info.concrete_type))));
        ies.push(entry(PLURAL, Primitive::Bool(info.plural)));
        ies.push(entry(NORMALIZATION_NODE, Primitive::GraphQLModuleDependency(node)));
        let ghost a = arena(*self);
        let k = self.object(ies);
        assert(entries_denote(a, ies@) =~= seq![
            (CONCRETE_TYPE@, Tree::Str(info.concrete_type@)),
            (PLURAL@, Tree::Bool(info.plural)),
            (
                NORMALIZATION_NODE@,
                Tree::GraphQLModule(
                    artifact_import(
                        self.settings,
                        info.normalization_source_path@,
                        info.normalization_operation@,
                    ),
                ),
            ),
        ]);
        k
    }

    /// The import of a resolver, with the fragment whose data it receives.
    fn build_resolver_base_module(&self, md: &RelayResolverMetadata) -> (r: Primitive)
        ensures
            r is JSModuleDependency || r is RelayResolverModel,
            denote(Seq::empty(), r) == resolver_base_tree(self.settings, *md),
    {
        let source = &self.settings.definition_source_location.source_path;
        let import_path = self.settings.project_config.js_module_import_path(
            source.as_str(),
            md.import_path.as_str(),
        );
        let js = JSModuleDependency {
            path: import_path,
            named_import: copy_opt_string(&md.import_name),
            import_as: Some(copy_string(&md.local_resolver_name)),
        };
        match &md.fragment_data_injection {
            Some(inj) => {
                let artifact = create_path_for_artifact(
                    inj.fragment_source_path.as_str(),
                    inj.fragment_name.as_str(),
                );
                let graphql_module = self.settings.project_config.js_module_import_path(
                    source.as_str(),
                    artifact.as_str(),
                );
                Primitive::RelayResolverModel {
                    graphql_module,
                    js_module: js,
                    injected_field_name_details: Some((copy_string(&inj.field_name), inj.is_required)),
                }
            },
            None => Primitive::JSModuleDependency(js),
        }
    }

    /// The `RelayResolver`/`RelayLiveResolver` node of the reader AST.
    #[verifier::rlimit(40)]
    pub fn build_reader_relay_resolver(
        &mut self,
        relay_resolver_metadata: &RelayResolverMetadata,
        fragment_primitive: Option<Primitive>,
    ) -> (r: Primitive)
        requires
            opt_keys_below(fragment_primitive, arena(*old(self)).len()),
        ensures
            evolves(*old(self), *final(self)),
            means(
                *final(self),
                r,
                reader_resolver_tree(
                    old(self).settings,
                    *relay_resolver_metadata,
                    opt_denote(arena(*old(self)), fragment_primitive),
                ),
            ),
            r is Key,
    {
        let ghost b0 = *self;
        self.check();
        let md = relay_resolver_metadata;
        let args = self.build_arguments(&md.field_arguments);
        proof {
            crate::arguments::lemma_args_prim(*self, args, md.field_arguments@);
            if let Some(p) = &fragment_primitive {
                crate::ast::lemma_denote_stable(arena(b0), arena(*self), *p);
            }
        }
        let ghost b1 = *self;
        let normalization_info: Option<AstKey> = match &md.output_type_info {
            Some(ResolverOutputTypeInfo::Composite(info)) => Some(
                self.build_resolver_normalization_info(info),
            ),
            _ => None,
        };
        proof {
            if let Some(p) = &fragment_primitive {
                crate::ast::lemma_denote_stable(arena(b1), arena(*self), *p);
            }
            if let Some(k) = args {
                crate::builder::lemma_key_means_stable(b1, *self, k, arguments_tree(md.field_arguments@)->0);
            }
        }
        let module = self.build_resolver_module(md);
        proof {
            crate::ast::lemma_denote_stable(Seq::empty(), arena(*self), module);
            assert(prim_keys_below(module, arena(*self).len())) by {
                crate::ast::lemma_denote_stable(Seq::empty(), arena(*self), module);
            }
        }
        let kind = if md.live {
            RELAY_LIVE_RESOLVER
        } else {
            RELAY_RESOLVER
        };
        let fragment = match fragment_primitive {
            None => Primitive::SkippableNull,
            Some(p) => p,
        };
        let mut es: Vec<ObjectEntry> = Vec::new();
        let field_alias = match &md.field_alias {
            Some(a) => Some(a),
            None => None,
        };
        es.push(build_alias(field_alias, &md.field_name));
        es.push(entry(ARGS, args_prim(args)));
        es.push(entry(FRAGMENT, fragment));
        es.push(entry(KIND, str_prim(kind)));
        es.push(entry(NAME, Primitive::String(copy_string(&md.field_name))));
        es.push(entry(RESOLVER_MODULE, module));
        es.push(entry(PATH, Primitive::String(copy_string(&md.field_path))));
        let ghost es0 = es@;
        match normalization_info {
            Some(k) => {
                es.push(entry(RELAY_RESOLVER_NORMALIZATION_INFO, Primitive::Key(k)));
            },
            None => {},
        }
        let ghost a = arena(*self);
        let ghost base = seq![
            (
                crate::constants::ALIAS@,
                crate::arguments::alias_tree(opt_str_view(md.field_alias), md.field_name@),
            ),
            (ARGS@, args_value_tree(md.field_arguments@)),
            (FRAGMENT@, crate::selection_trees::or_skip(opt_denote(arena(b0), fragment_primitive))),
            (KIND@, Tree::Str(if md.live { RELAY_LIVE_RESOLVER@ } else { RELAY_RESOLVER@ })),
            (NAME@, Tree::Str(md.field_name@)),
            (RESOLVER_MODULE@, resolver_module_tree(b0.settings, *md)),
            (PATH@, Tree::Str(md.field_path@)),
        ];
        assert(entries_denote(a, es0) =~= base);
        let k = self.object(es);
        proof {
            match &md.output_type_info {
                Some(ResolverOutputTypeInfo::Composite(info)) => {
                    assert(entries_denote(a, es@) =~= entries_denote(a, es0).push(
                        (RELAY_RESOLVER_NORMALIZATION_INFO@, denote(a, es@[7].value)),
                    ));
                },
                _ => {
                    assert(es@ == es0);
                },
            }
        }
        Primitive::Key(k)
    }

    /// The resolver node of a scalar field backed by a resolver.
    pub fn build_scalar_backed_resolver_field(
        &mut self,
        field: &ScalarField,
        resolver_metadata: &RelayResolverMetadata,
    ) -> (r: Primitive)
        ensures
            evolves(*old(self), *final(self)),
            means(
                *final(self),
                r,
                scalar_backed_resolver_tree(old(self).settings, *field, *resolver_metadata),
            ),
            r is Key,
    {
        let resolver_primitive = match self.settings.variant {
            CodegenVariant::Reader => self.build_reader_relay_resolver(resolver_metadata, None),
            CodegenVariant::Normalization => self.build_normalization_relay_resolver(
                resolver_metadata,
                None,
            ),
        };
        self.wrap_required(&field.directives, resolver_primitive)
    }

    /// The name and alias of a field node.
    pub fn build_field_name_and_alias(
        &self,
        name: &String,
        alias: &Option<String>,
        directives: &Vec<Directive>,
    ) -> (r: (String, Option<String>))
        requires
            field_name_and_alias(self.settings, name@, opt_str_view(*alias), directives@) is Some,
        ensures
            field_name_and_alias(self.settings, name@, opt_str_view(*alias), directives@)->0 == (
                r.0@,
                opt_str_view(r.1),
            ),
    {
        if self.settings.variant == CodegenVariant::Reader {
            let (count, first) = handle_summary(directives);
            if count >= 1 {
                match &directives[first].kind {
                    DirectiveKind::Handle(h) => {
                        let new_alias = match alias {
                            Some(a) => Some(copy_string(a)),
                            None => Some(copy_string(name)),
                        };
                        proof {
                            reveal_strlit("__");
                            reveal_strlit("_");
                            reveal_strlit("");
                        }
                        let prefix = if h.key == String::from_str(DEFAULT_HANDLE_KEY) {
                            concat("__", name.as_str())
                        } else {
                            concat("__", h.key.as_str())
                        };
                        let with_sep = prefix.concat("_");
                        let new_name = with_sep.concat(h.handle.as_str());
                        return (new_name, new_alias);
                    },
                    _ => {},
                }
            }
        }
        (copy_string(name), copy_opt_string(alias))
    }

    /// The `ScalarField`/`FlightField` node.
    pub fn build_scalar_field(&mut self, field: &ScalarField) -> (r: Primitive)
        requires
            scalar_field_out(old(self).settings, *field).ok,
        ensures
            evolves(*old(self), *final(self)),
            means(*final(self), r, scalar_field_out(old(self).settings, *field).tree),
            r is Key,
    {
        self.check();
        let (name, alias) = self.build_field_name_and_alias(
            &field.definition.name,
            &field.alias,
            &field.directives,
        );
        let args = self.build_arguments(&field.arguments);
        let sk = storage_key_prim(&name, args, &field.arguments);
        proof {
            lemma_args_prims(*self, args, field.arguments@, sk, name@);
        }
        let kind = if has_directive(&field.directives, TAG_REACT_FLIGHT) {
            FLIGHT_FIELD
        } else {
            SCALAR_FIELD
        };
        let alias_ref = match &alias {
            Some(a) => Some(a),
            None => None,
        };
        let mut es: Vec<ObjectEntry> = Vec::new();
        es.push(build_alias(alias_ref, &name));
        es.push(entry(ARGS, args_prim(args)));
        es.push(entry(KIND, str_prim(kind)));
        es.push(entry(NAME, Primitive::String(copy_string(&name))));
        es.push(entry(STORAGE_KEY, sk));
        let ghost a = arena(*self);
        let k = self.object(es);
        assert(entries_denote(a, es@) =~= seq![
            (crate::constants::ALIAS@, crate::arguments::alias_tree(opt_str_view(alias), name@)),
            (ARGS@, args_value_tree(field.arguments@)),
            (KIND@, Tree::Str(kind@)),
            (NAME@, Tree::Str(name@)),
            (STORAGE_KEY@, storage_key_tree(name@, field.arguments@)),
        ]);
        self.wrap_required(&field.directives, Primitive::Key(k))
    }

    /// The `filters` value of a handle node.
    fn build_filters(&mut self, filters: &Option<Vec<String>>) -> (r: Primitive)
        ensures
            evolves(*old(self), *final(self)),
            means(*final(self), r, filters_tree(*filters)),
    {
        self.check();
        match filters {
            None => Primitive::SkippableNull,
            Some(strs) => {
                let mut items: Vec<Primitive> = Vec::new();
                let mut i: usize = 0;
                while i < strs.len()
                    invariant
                        i <= strs@.len(),
                        items@.len() == i,
                        forall|j: int| 0 <= j < i ==> #[trigger] items@[j] is String && items@[j]->String_0@ == strs@[j]@,
                    decreases strs@.len() - i,
                {
                    items.push(Primitive::String(copy_string(&strs[i])));
                    i = i + 1;
                }
                let ghost a = arena(*self);
                let k = self.array(items);
                assert(prims_denote(a, items@) =~= Seq::new(strs@.len(), |j: int| Tree::Str(strs@[j]@)));
                Primitive::Key(k)
            },
        }
    }

    /// The node of one handle of a field.
    fn build_handle(
        &mut self,
        alias: &Option<String>,
        field_name: &String,
        arguments: &Vec<Argument>,
        h: &HandleFieldDirective,
        kind: &str,
        with_dynamic_key: bool,
    ) -> (k: AstKey)
        ensures
            evolves(*old(self), *final(self)),
            key_means(
                *final(self),
                k,
                Tree::Object(
                    handle_entries(opt_str_view(*alias), field_name@, arguments@, *h, kind@) + (
                    if with_dynamic_key {
                        dynamic_key_entries(*h)
                    } else {
                        Seq::empty()
                    }) + handle_args_entries(*h),
                ),
            ),
    {
        let ghost b0 = *self;
        self.check();
        let dynamic_key = if with_dynamic_key {
            match &h.dynamic_key {
                Some(val) => self.build_argument(&String::from_str(DYNAMIC_KEY_ARGUMENT), val),
                None => None,
            }
        } else {
            None
        };
        let ghost b1 = *self;
        let filters = self.build_filters(&h.filters);
        let ghost b2 = *self;
        let args = self.build_arguments(arguments);
        let ghost b3 = *self;
        let handle_args = match &h.handle_args {
            Some(handle_args) => self.build_arguments(handle_args),
            None => None,
        };
        proof {
            lemma_means_stable(b2, b3, filters, filters_tree(h.filters));
            lemma_means_stable(b3, *self, filters, filters_tree(h.filters));
            crate::arguments::lemma_args_prim(b3, args, arguments@);
            if let Some(k) = args {
                crate::builder::lemma_key_means_stable(b3, *self, k, arguments_tree(arguments@)->0);
            }
            if let Some(k) = dynamic_key {
                crate::builder::lemma_key_means_stable(b1, b2, k, crate::arguments::argument_tree(DYNAMIC_KEY_ARGUMENT@, h.dynamic_key->0)->0);
                crate::builder::lemma_key_means_stable(b2, b3, k, crate::arguments::argument_tree(DYNAMIC_KEY_ARGUMENT@, h.dynamic_key->0)->0);
                crate::builder::lemma_key_means_stable(b3, *self, k, crate::arguments::argument_tree(DYNAMIC_KEY_ARGUMENT@, h.dynamic_key->0)->0);
            }
        }
        let alias_ref = match alias {
            Some(a) => Some(a),
            None => None,
        };
        let mut es: Vec<ObjectEntry> = Vec::new();
        es.push(build_alias(alias_ref, field_name));
        es.push(entry(ARGS, args_prim(args)));
        es.push(entry(FILTERS, filters));
        es.push(entry(HANDLE, Primitive::String(copy_string(&h.handle))));
        es.push(entry(KEY, Primitive::String(copy_string(&h.key))));
        es.push(entry(KIND, str_prim(kind)));
        es.push(entry(NAME, Primitive::String(copy_string(field_name))));
        let ghost a = arena(*self);
        let ghost es0 = es@;
        assert(entries_denote(a, es0) =~= handle_entries(opt_str_view(*alias), field_name@, arguments@, *h, kind@));
        match dynamic_key {
            Some(k) => {
                es.push(entry(DYNAMIC_KEY, Primitive::Key(k)));
            },
            None => {},
        }
        let ghost es1 = es@;
        assert(entries_denote(a, es1) =~= entries_denote(a, es0) + (if with_dynamic_key {
            dynamic_key_entries(*h)
        } else {
            Seq::empty()
        }));
        match handle_args {
            Some(k) => {
                es.push(entry(HANDLE_ARGS, Primitive::Key(k)));
            },
            None => {},
        }
        assert(entries_denote(a, es@) =~= entries_denote(a, es1) + handle_args_entries(*h));
        self.object(es)
    }

    /// Appends the handle nodes of a scalar field to `result`.
    pub fn build_scalar_handles(&mut self, result: &mut Vec<Primitive>, field: &ScalarField)
        requires
            prims_keys_below(old(result)@, arena(*old(self)).len()),
        ensures
            evolves(*old(self), *final(self)),
            means_all(
                *final(self),
                final(result)@,
                prims_denote(arena(*old(self)), old(result)@) + handle_directives(
                    field.directives@,
                ).map_values(|h: HandleFieldDirective| scalar_handle_tree(*field, h)),
            ),
    {
        let ghost b_start = *self;
        let ghost start = prims_denote(arena(*self), result@);
        self.check();
        let ds = &field.directives;
        let mut i: usize = 0;
        while i < ds.len()
            invariant
                i <= ds@.len(),
                evolves(b_start, *self),
                means_all(
                    *self,
                    result@,
                    start + handle_directives(ds@.take(i as int)).map_values(
                        |h: HandleFieldDirective| scalar_handle_tree(*field, h),
                    ),
                ),
            decreases ds@.len() - i,
        {
            proof {
                assert(ds@.take(i + 1).drop_last() =~= ds@.take(i as int));
            }
            let ghost b0 = *self;
            let ghost r0 = result@;
            match &ds[i].kind {
                DirectiveKind::Handle(h) => {
                    let k = self.build_handle(
                        &field.alias,
                        &field.definition.name,
                        &field.arguments,
                        h,
                        crate::constants::SCALAR_HANDLE,
                        false,
                    );
                    proof {
                        lemma_prims_stable(b0, *self, r0);
                    }
                    result.push(Primitive::Key(k));
                    proof {
                        assert(Seq::<(Seq<char>, Tree)>::empty() + handle_args_entries(*h) =~= handle_args_entries(*h));
                        assert(prims_denote(arena(*self), result@) =~= prims_denote(arena(*self), r0).push(scalar_handle_tree(*field, *h)));
                        assert(handle_directives(ds@.take(i + 1)) == handle_directives(ds@.take(i as int)).push(*h));
                        assert(handle_directives(ds@.take(i + 1)).map_values(|h: HandleFieldDirective| scalar_handle_tree(*field, h))
                            =~= handle_directives(ds@.take(i as int)).map_values(|h: HandleFieldDirective| scalar_handle_tree(*field, h)).push(scalar_handle_tree(*field, *h)));
                    }
                },
                _ => {
                    proof {
                        assert(handle_directives(ds@.take(i + 1)) == handle_directives(ds@.take(i as int)));
                    }
                },
            }
            i = i + 1;
        }
        assert(ds@.take(i as int) =~= ds@);
    }

    /// The nodes of a scalar field: its resolver, or the field and (in the
    /// normalization AST) its handles.
    pub fn build_scalar_field_and_handles(&mut self, field: &ScalarField) -> (r: Vec<Primitive>)
        requires
            scalar_field_and_handles_out(old(self).settings, *field).ok,
        ensures
            evolves(*old(self), *final(self)),
            means_all(*final(self), r@, scalar_field_and_handles_out(old(self).settings, *field).trees),
    {
        let ghost b0 = *self;
        self.check();
        if let Some(resolver_metadata) = find_resolver_metadata(&field.directives) {
            let p = self.build_scalar_backed_resolver_field(field, resolver_metadata);
            let mut v: Vec<Primitive> = Vec::new();
            v.push(p);
            assert(prims_denote(arena(*self), v@) =~= seq![denote(arena(*self), p)]);
            return v;
        }
        match self.settings.variant {
            CodegenVariant::Reader => {
                let p = self.build_scalar_field(field);
                let mut v: Vec<Primitive> = Vec::new();
                v.push(p);
                assert(prims_denote(arena(*self), v@) =~= seq![denote(arena(*self), p)]);
                v
            },
            CodegenVariant::Normalization => {
                let p = self.build_scalar_field(field);
                let mut v: Vec<Primitive> = Vec::new();
                v.push(p);
                let ghost b1 = *self;
                assert(prims_denote(arena(*self), v@) =~= seq![denote(arena(*self), p)]);
                self.build_scalar_handles(&mut v, field);
                v
            },
        }
    }

    /// Appends the handle nodes of a linked field to `result`.
    pub fn build_linked_handles(&mut self, result: &mut Vec<Primitive>, field: &crate::ir::LinkedField)
        requires
            prims_keys_below(old(result)@, arena(*old(self)).len()),
        ensures
            evolves(*old(self), *final(self)),
            means_all(
                *final(self),
                final(result)@,
                prims_denote(arena(*old(self)), old(result)@) + handle_directives(
                    field.directives@,
                ).map_values(|h: HandleFieldDirective| crate::selection_trees::linked_handle_tree(*field, h)),
            ),
    {
        let ghost b_start = *self;
        let ghost start = prims_denote(arena(*self), result@);
        self.check();
        let ds = &field.directives;
        let mut i: usize = 0;
        while i < ds.len()
            invariant
                i <= ds@.len(),
                evolves(b_start, *self),
                means_all(
                    *self,
                    result@,
                    start + handle_directives(ds@.take(i as int)).map_values(
                        |h: HandleFieldDirective| crate::selection_trees::linked_handle_tree(*field, h),
                    ),
                ),
            decreases ds@.len() - i,
        {
            proof {
                assert(ds@.take(i + 1).drop_last() =~= ds@.take(i as int));
            }
            let ghost b0 = *self;
            let ghost r0 = result@;
            match &ds[i].kind {
                DirectiveKind::Handle(h) => {
                    let k = self.build_handle(
                        &field.alias,
                        &field.definition.name,
                        &field.arguments,
                        h,
                        crate::constants::LINKED_HANDLE,
                        true,
                    );
                    proof {
                        lemma_prims_stable(b0, *self, r0);
                    }
                    result.push(Primitive::Key(k));
                    proof {
                        assert(prims_denote(arena(*self), result@) =~= prims_denote(arena(*self), r0).push(crate::selection_trees::linked_handle_tree(*field, *h)));
                        assert(handle_directives(ds@.take(i + 1)) == handle_directives(ds@.take(i as int)).push(*h));
                        assert(handle_directives(ds@.take(i + 1)).map_values(|h: HandleFieldDirective| crate::selection_trees::linked_handle_tree(*field, h))
                            =~= handle_directives(ds@.take(i as int)).map_values(|h: HandleFieldDirective| crate::selection_trees::linked_handle_tree(*field, h)).push(crate::selection_trees::linked_handle_tree(*field, *h)));
                    }
                },
                _ => {
                    proof {
                        assert(handle_directives(ds@.take(i + 1)) == handle_directives(ds@.take(i as int)));
                    }
                },
            }
            i = i + 1;
        }
        assert(ds@.take(i as int) =~= ds@);
    }

    /// The spread of a fragment whose artifact is imported rather than inlined.
    fn build_normalization_fragment_spread(
        &mut self,
        frag_spread: &FragmentSpread,
        normalization_import_path: String,
    ) -> (r: Primitive)
        ensures
            evolves(*old(self), *final(self)),
            means(
                *final(self),
                r,
                Tree::Object(
                    seq![
                        (ARGS@, args_value_tree(frag_spread.arguments@)),
                        (FRAGMENT@, Tree::GraphQLModule(normalization_import_path@)),
                        (
                            KIND@,
                            Tree::Str(
                                if has_tag(frag_spread.directives@, TAG_CLIENT_COMPONENT_SERVER) {
                                    CLIENT_COMPONENT@
                                } else {
                                    FRAGMENT_SPREAD@
                                },
                            ),
                        ),
                    ],
                ),
            ),
            r is Key,
    {
        let ghost path = normalization_import_path@;
        let args = self.build_arguments(&frag_spread.arguments);
        proof {
            crate::arguments::lemma_args_prim(*self, args, frag_spread.arguments@);
        }
        let kind = if has_directive(&frag_spread.directives, TAG_CLIENT_COMPONENT_SERVER) {
            CLIENT_COMPONENT
        } else {
            FRAGMENT_SPREAD
        };
        let mut es: Vec<ObjectEntry> = Vec::new();
        es.push(entry(ARGS, args_prim(args)));
        es.push(entry(FRAGMENT, Primitive::GraphQLModuleDependency(normalization_import_path)));
        es.push(entry(KIND, str_prim(kind)));
        let ghost a = arena(*self);
        let k = self.object(es);
        assert(entries_denote(a, es@) =~= seq![
            (ARGS@, args_value_tree(frag_spread.arguments@)),
            (FRAGMENT@, Tree::GraphQLModule(path)),
            (KIND@, Tree::Str(kind@)),
        ]);
        Primitive::Key(k)
    }

    /// The `ClientComponent` node of a spread of a server component.
    fn build_relay_client_component_fragment_spread(&mut self, frag_spread: &FragmentSpread) -> (r:
        Primitive)
        requires
            client_component_out(*frag_spread).ok,
        ensures
            evolves(*old(self), *final(self)),
            means(*final(self), r, client_component_out(*frag_spread).tree),
            r is Key,
    {
        let i = match find_directive(&frag_spread.directives, TAG_CLIENT_COMPONENT_SERVER) {
            Some(i) => i,
            None => 0,
        };
        let arg = named_argument_of(&frag_spread.directives[i].arguments, MODULE_ID_ARGUMENT);
        let id = match arg {
            Some(a) => match &a.value {
                Value::Constant(ConstantValue::String(v)) => v,
                _ => &frag_spread.fragment,
            },
            None => &frag_spread.fragment,
        };
        let name = trim_end_matches(id.as_str(), GRAPHQL_EXTENSION);
        let ghost n = name@;
        let mut es: Vec<ObjectEntry> = Vec::new();
        es.push(entry(FRAGMENT, Primitive::GraphQLModuleDependency(name)));
        es.push(entry(KIND, str_prim(CLIENT_COMPONENT)));
        let ghost a = arena(*self);
        let k = self.object(es);
        assert(entries_denote(a, es@) =~= seq![
            (FRAGMENT@, Tree::GraphQLModule(n)),
            (KIND@, Tree::Str(CLIENT_COMPONENT@)),
        ]);
        Primitive::Key(k)
    }

    /// The node of a fragment spread.
    #[verifier::rlimit(40)]
    pub fn build_fragment_spread(&mut self, frag_spread: &FragmentSpread) -> (r: Primitive)
        requires
            fragment_spread_out(old(self).settings, *frag_spread).ok,
        ensures
            evolves(*old(self), *final(self)),
            means(*final(self), r, fragment_spread_out(old(self).settings, *frag_spread).tree),
            r is Key,
    {
        let ghost b0 = *self;
        self.check();
        if let Some(no_inline_metadata) = find_no_inline_metadata(&frag_spread.directives) {
            let artifact = create_path_for_artifact(
                no_inline_metadata.source_path.as_str(),
                frag_spread.fragment.as_str(),
            );
            let import = self.settings.project_config.js_module_import_path(
                self.settings.definition_source_location.source_path.as_str(),
                artifact.as_str(),
            );
            return self.build_normalization_fragment_spread(frag_spread, import);
        }
        if self.settings.variant == CodegenVariant::Normalization && has_directive(
            &frag_spread.directives,
            TAG_CLIENT_COMPONENT_SERVER,
        ) {
            return self.build_relay_client_component_fragment_spread(frag_spread);
        }
        let args = self.build_arguments(&frag_spread.arguments);
        proof {
            crate::arguments::lemma_args_prim(*self, args, frag_spread.arguments@);
        }
        let mut es: Vec<ObjectEntry> = Vec::new();
        es.push(entry(ARGS, args_prim(args)));
        es.push(entry(KIND, str_prim(FRAGMENT_SPREAD)));
        es.push(entry(NAME, Primitive::String(copy_string(&frag_spread.fragment))));
        let ghost a = arena(*self);
        let k = self.object(es);
        let ghost spread = Tree::Object(
            seq![
                (ARGS@, args_value_tree(frag_spread.arguments@)),
                (KIND@, Tree::Str(FRAGMENT_SPREAD@)),
                (NAME@, Tree::Str(frag_spread.fragment@)),
            ],
        );
        assert(entries_denote(a, es@) =~= spread->Object_0);
        let primitive = Primitive::Key(k);
        if let Some(alias_metadata) = find_alias_metadata(&frag_spread.directives) {
            let type_value = match &alias_metadata.type_condition {
                Some(t) => Primitive::String(copy_string(&t.name)),
                None => Primitive::SkippableNull,
            };
            let abstract_value = match &alias_metadata.type_condition {
                Some(t) => if t.is_abstract {
                    Primitive::String(concat(ABSTRACT_KEY_PREFIX, t.name.as_str()))
                } else {
                    Primitive::SkippableNull
                },
                None => Primitive::SkippableNull,
            };
            let mut es2: Vec<ObjectEntry> = Vec::new();
            es2.push(entry(FRAGMENT, primitive));
            es2.push(entry(KIND, str_prim(ALIASED_FRAGMENT_SPREAD)));
            es2.push(entry(NAME, Primitive::String(copy_string(&alias_metadata.alias))));
            es2.push(entry(TYPE, type_value));
            es2.push(entry(ABSTRACT_KEY, abstract_value));
            let ghost a2 = arena(*self);
            let k2 = self.object(es2);
            assert(entries_denote(a2, es2@) =~= seq![
                (FRAGMENT@, spread),
                (KIND@, Tree::Str(ALIASED_FRAGMENT_SPREAD@)),
                (NAME@, Tree::Str(alias_metadata.alias@)),
                (
                    TYPE@,
                    match alias_metadata.type_condition {
                        Some(t) => Tree::Str(t.name@),
                        None => Tree::SkippableNull,
                    },
                ),
                (
                    ABSTRACT_KEY@,
                    match alias_metadata.type_condition {
                        Some(t) => if t.is_abstract {
                            Tree::Str(abstract_type_key(t.name@))
                        } else {
                            Tree::SkippableNull
                        },
                        None => Tree::SkippableNull,
                    },
                ),
            ]);
            Primitive::Key(k2)
        } else if let Some(resolver_metadata) = find_resolver_metadata(&frag_spread.directives) {
            let ghost b1 = *self;
            let r = self.build_reader_relay_resolver(resolver_metadata, Some(primitive));
            proof {
                assert(opt_denote(arena(b1), Some(Primitive::Key(k))) == Some(spread));
            }
            self.wrap_required(&frag_spread.directives, r)
        } else {
            primitive
        }
    }

    /// The `ModuleImport` node of a `@module` inline fragment.
    pub fn build_module_import_selections(
        &mut self,
        module_metadata: &ModuleMetadata,
        inline_fragment: &InlineFragment,
    ) -> (r: Vec<Primitive>)
        requires
            module_import_out(old(self).settings, *module_metadata, *inline_fragment).ok,
        ensures
            evolves(*old(self), *final(self)),
            means_all(
                *final(self),
                r@,
                seq![module_import_out(old(self).settings, *module_metadata, *inline_fragment).tree],
            ),
    {
        let ghost b0 = *self;
        self.check();
        let fragment_name = &module_metadata.fragment_name;
        let n = fragment_name.as_str().unicode_len();
        let underscore_idx = match find_char(fragment_name.as_str(), '_') {
            Some(i) => i,
            None => 0,
        };
        let args = match first_spread_of(&inline_fragment.selections) {
            Some(spread) => {
                let built = self.build_arguments(&spread.arguments);
                proof {
                    crate::arguments::lemma_args_prim(*self, built, spread.arguments@);
                }
                args_prim(built)
            },
            None => Primitive::SkippableNull,
        };
        let prop_name = substring(fragment_name.as_str(), underscore_idx + 1, n);
        let ghost prop = prop_name@;
        let mut es: Vec<ObjectEntry> = Vec::new();
        es.push(entry(ARGS, args));
        es.push(entry(DOCUMENT_NAME, Primitive::String(copy_string(&module_metadata.key))));
        es.push(entry(FRAGMENT_NAME, Primitive::String(copy_string(fragment_name))));
        es.push(entry(FRAGMENT_PROP_NAME, Primitive::String(prop_name)));
        es.push(entry(KIND, str_prim(MODULE_IMPORT)));
        let ghost es0 = es@;
        if self.settings.variant == CodegenVariant::Normalization {
            if let Some(provider) = &self.settings.project_config.dynamic_module_provider {
                es.push(
                    entry(
                        COMPONENT_MODULE_PROVIDER,
                        Primitive::DynamicImport {
                            provider: copy_provider(provider),
                            module: copy_string(&module_metadata.module_name),
                        },
                    ),
                );
                es.push(
                    entry(
                        OPERATION_MODULE_PROVIDER,
                        Primitive::DynamicImport {
                            provider: copy_provider(provider),
                            module: concat(fragment_name.as_str(), NORMALIZATION_SUFFIX),
                        },
                    ),
                );
            }
        }
        let ghost a = arena(*self);
        proof {
            assert(prop =~= fragment_name@.skip(underscore_idx + 1));
            assert(entries_denote(a, es@) =~= module_import_out(b0.settings, *module_metadata, *inline_fragment).tree->Object_0);
        }
        let k = self.object(es);
        let mut v: Vec<Primitive> = Vec::new();
        v.push(Primitive::Key(k));
        assert(prims_denote(arena(*self), v@) =~= seq![module_import_out(b0.settings, *module_metadata, *inline_fragment).tree]);
        v
    }
}

} // verus!
