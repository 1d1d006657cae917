//! Code generation for selections that contain selections, recursively.
use vstd::prelude::*;
use crate::arguments::{args_prim, args_value_tree, build_alias, storage_key_prim, storage_key_tree};
use crate::ast::{denote, entries_denote, opt_str_view, prim_keys_below, prims_denote, prims_keys_below, ObjectEntry, Primitive, Tree};
use crate::builder::{
    arena, entry, evolves, key_means, lemma_key_means_stable, lemma_means_stable,
    lemma_prims_stable, means, str_prim, CodegenBuilder, CodegenSettings, CodegenVariant,
    ContextualMetadata,
};
use crate::constants::{
    ABSTRACT_KEY, ABSTRACT_KEY_PREFIX, ACTOR_CHANGE, ALIASED_INLINE_FRAGMENT_SPREAD, ARGS,
    ARGUMENT_DEFINITIONS, CLIENT_EDGE_BACKING_FIELD_KEY, CLIENT_EDGE_SELECTIONS_KEY,
    CLIENT_EDGE_TO_CLIENT_OBJECT, CLIENT_EDGE_TO_SERVER_OBJECT, CLIENT_EXTENSION, CONCRETE_TYPE,
    CONDITION, CONDITION_VALUE, DEFER, FRAGMENT, FRAGMENT_SPREAD_PROPERTY, IF, IF_ARGUMENT,
    INLINE_DATA_FRAGMENT_SPREAD, INLINE_FRAGMENT, KIND, LABEL, LABEL_ARGUMENT, LINKED_FIELD,
    LINKED_FIELD_PROPERTY, NAME, OPERATION, PASSING_VALUE, PLURAL, SELECTIONS, STORAGE_KEY, STREAM,
    TYPE,
};
use crate::directives::{
    find_alias_metadata, find_client_edge_metadata, find_inline_data_metadata,
    find_module_metadata, find_required_metadata, find_resolver_metadata, first_spread_of,
    has_directive, has_discriminator_for, is_discriminator_for_key,
    named_argument_of,
};
use crate::fields::{means_all, opt_denote};
use crate::ir::{
    find_directive, kind_tag, tag_of, ClientEdgeMetadataDirective, Condition, ConditionValue,
    ConstantValue, Directive, InlineDirectiveMetadata, InlineFragment, LinkedField,
    RequiredMetadata, Selection, Value, TAG_ACTOR_CHANGE, TAG_CLIENT_EXTENSION, TAG_DEFER,
    TAG_STREAM, TAG_TYPE_DISCRIMINATOR,
};
use crate::selection_trees::{
    abstract_type_key, actor_change_out, client_edge_out, condition_out, deferred_entries,
    defer_out, find_client_edge, find_required, inline_data_fragment_spread_out,
    inline_fragment_out, is_discriminator_for, linked_field_and_handles_out, linked_field_out,
    required_tree, selection_out, selections_out, stream_out, Built, BuiltSeq,
};
use crate::strings::{concat, copy_string};

verus! {

/// The builder went from `b0` to `b1` building `out`'s node `p`, and recorded its client edges.
pub open spec fn built_one(
    b0: CodegenBuilder,
    b1: CodegenBuilder,
    c0: ContextualMetadata,
    c1: ContextualMetadata,
    p: Primitive,
    out: Built,
) -> bool {
    &&& evolves(b0, b1)
    &&& means(b1, p, out.tree)
    &&& c1.has_client_edges == (c0.has_client_edges || out.edges)
}

/// The builder went from `b0` to `b1` building `out`'s nodes `ps`, and recorded its client edges.
pub open spec fn built_seq(
    b0: CodegenBuilder,
    b1: CodegenBuilder,
    c0: ContextualMetadata,
    c1: ContextualMetadata,
    ps: Seq<Primitive>,
    out: BuiltSeq,
) -> bool {
    &&& evolves(b0, b1)
    &&& means_all(b1, ps, out.trees)
    &&& c1.has_client_edges == (c0.has_client_edges || out.edges)
}

/// The key of an optional string.
pub open spec fn key_view(o: Option<&str>) -> Option<Seq<char>> {
    match o {
        Some(k) => Some(k@),
        None => None,
    }
}

proof fn lemma_selections_step(s: CodegenSettings, sels: Seq<Selection>, skip_key: Option<Seq<char>>, i: int)
    requires
        0 <= i < sels.len(),
    ensures
        ({
            let rest = selections_out(s, sels.take(i), skip_key);
            let all = selections_out(s, sels.take(i + 1), skip_key);
            if skip_key is Some && is_discriminator_for(sels[i], skip_key->0) {
                all == rest
            } else {
                let cur = selection_out(s, sels[i]);
                &&& all.ok == (rest.ok && cur.ok)
                &&& all.trees == rest.trees + cur.trees
                &&& all.edges == (rest.edges || cur.edges)
            }
        }),
{
    let t = sels.take(i + 1);
    assert(t.subrange(0, t.len() - 1) =~= sels.take(i));
    assert(t[t.len() - 1] == sels[i]);
}

proof fn lemma_selections_ok_prefix(s: CodegenSettings, sels: Seq<Selection>, skip_key: Option<Seq<char>>, n: int)
    requires
        0 <= n <= sels.len(),
        selections_out(s, sels, skip_key).ok,
    ensures
        selections_out(s, sels.take(n), skip_key).ok,
    decreases sels.len(),
{
    if n < sels.len() {
        let p = sels.subrange(0, sels.len() - 1);
        assert(p.take(n) =~= sels.take(n));
        lemma_selections_ok_prefix(s, p, skip_key, n);
    } else {
        assert(sels.take(n) =~= sels);
    }
}

fn single(p: Primitive) -> (v: Vec<Primitive>)
    ensures
        v@ == seq![p],
{
    let mut v: Vec<Primitive> = Vec::new();
    v.push(p);
    v
}

proof fn lemma_single(b: CodegenBuilder, p: Primitive, t: Tree)
    requires
        means(b, p, t),
    ensures
        means_all(b, seq![p], seq![t]),
{
    assert(prims_denote(arena(b), seq![p]) =~= seq![t]);
}

impl CodegenBuilder<'_> {
    /// The array of the nodes of `selections`, leaving out the type discriminators
    /// whose key is `skip_key`, when there is one.
    pub fn build_selections(
        &mut self,
        context: &mut ContextualMetadata,
        selections: &Vec<Selection>,
        skip_key: Option<&str>,
    ) -> (r: Primitive)
        requires
            selections_out(old(self).settings, selections@, key_view(skip_key)).ok,
        ensures
            built_one(
                *old(self),
                *final(self),
                *old(context),
                *final(context),
                r,
                Built {
                    ok: true,
                    tree: Tree::Array(selections_out(old(self).settings, selections@, key_view(skip_key)).trees),
                    edges: selections_out(old(self).settings, selections@, key_view(skip_key)).edges,
                },
            ),
            r is Key,
        decreases selections, 0nat,
    {
        let ghost b_start = *self;
        let ghost s = self.settings;
        let ghost sk = key_view(skip_key);
        let ghost c_start = context.has_client_edges;
        self.check();
        let mut items: Vec<Primitive> = Vec::new();
        let mut i: usize = 0;
        proof {
            assert(selections@.take(0) =~= Seq::<Selection>::empty());
            assert(prims_denote(arena(*self), items@) =~= Seq::<Tree>::empty());
        }
        while i < selections.len()
            invariant
                s == b_start.settings,
                sk == key_view(skip_key),
                i <= selections@.len(),
                evolves(b_start, *self),
                selections_out(s, selections@, sk).ok,
                means_all(*self, items@, selections_out(s, selections@.take(i as int), sk).trees),
                context.has_client_edges == (c_start || selections_out(
                    s,
                    selections@.take(i as int),
                    sk,
                ).edges),
            decreases selections@.len() - i,
        {
            proof {
                lemma_selections_step(s, selections@, sk, i as int);
                lemma_selections_ok_prefix(s, selections@, sk, i + 1);
                assert(decreases_to!(*selections => selections@));
                assert(decreases_to!(selections@ => selections@[i as int]));
            }
            let skip = match skip_key {
                Some(k) => is_discriminator_for_key(&selections[i], k),
                None => false,
            };
            if skip {
            } else {
                let ghost b0 = *self;
                let ghost items0 = items@;
                let mut ps = self.build_selections_from_selection(context, &selections[i]);
                proof {
                    lemma_prims_stable(b0, *self, items0);
                }
                let ghost ps0 = ps@;
                items.append(&mut ps);
                proof {
                    assert(prims_denote(arena(*self), items@) =~= prims_denote(arena(*self), items0)
                        + prims_denote(arena(*self), ps0));
                }
            }
            i = i + 1;
        }
        assert(selections@.take(i as int) =~= selections@);
        let k = self.array(items);
        Primitive::Key(k)
    }

    /// The nodes of one selection.
    #[verifier::rlimit(60)]
    pub fn build_selections_from_selection(
        &mut self,
        context: &mut ContextualMetadata,
        selection: &Selection,
    ) -> (r: Vec<Primitive>)
        requires
            selection_out(old(self).settings, *selection).ok,
        ensures
            built_seq(
                *old(self),
                *final(self),
                *old(context),
                *final(context),
                r@,
                selection_out(old(self).settings, *selection),
            ),
        decreases selection, 0nat,
    {
        self.check();
        match selection {
            Selection::Condition(condition) => {
                proof {
                    assert(decreases_to!(*selection => selection->Condition_0));
                }
                let p = self.build_condition(context, condition);
                proof {
                    lemma_single(*self, p, condition_out(old(self).settings, *condition).tree);
                }
                single(p)
            },
            Selection::FragmentSpread(frag_spread) => {
                let p = self.build_fragment_spread(frag_spread);
                proof {
                    lemma_single(*self, p, crate::selection_trees::fragment_spread_out(old(self).settings, *frag_spread).tree);
                }
                single(p)
            },
            Selection::InlineFragment(inline_fragment) => {
                proof {
                    assert(decreases_to!(*selection => selection->InlineFragment_0));
                }
                let ghost s = self.settings;
                if has_directive(&inline_fragment.directives, TAG_DEFER) {
                    let p = self.build_defer(context, inline_fragment);
                    proof {
                        lemma_single(*self, p, defer_out(s, *inline_fragment).tree);
                    }
                    single(p)
                } else if let Some(inline_data_directive) = find_inline_data_metadata(
                    &inline_fragment.directives,
                ) {
                    let p = self.build_inline_data_fragment_spread(
                        context,
                        inline_fragment,
                        inline_data_directive,
                    );
                    proof {
                        lemma_single(*self, p, inline_data_fragment_spread_out(s, *inline_fragment, *inline_data_directive).tree);
                    }
                    single(p)
                } else if let Some(module_metadata) = find_module_metadata(
                    &inline_fragment.directives,
                ) {
                    self.build_module_import_selections(module_metadata, inline_fragment)
                } else if has_directive(&inline_fragment.directives, TAG_ACTOR_CHANGE) {
                    let p = self.build_actor_change(context, inline_fragment);
                    proof {
                        lemma_single(*self, p, actor_change_out(s, *inline_fragment).tree);
                    }
                    single(p)
                } else if let Some(resolver_metadata) = find_resolver_metadata(
                    &inline_fragment.directives,
                ) {
                    let ghost b1 = *self;
                    let fragment_primitive = self.build_inline_fragment(context, inline_fragment);
                    let p = self.build_normalization_relay_resolver(
                        resolver_metadata,
                        Some(fragment_primitive),
                    );
                    proof {
                        lemma_single(*self, p, crate::selection_trees::normalization_resolver_tree(*resolver_metadata, Some(inline_fragment_out(s, *inline_fragment).tree)));
                    }
                    single(p)
                } else {
                    let p = self.build_inline_fragment(context, inline_fragment);
                    proof {
                        lemma_single(*self, p, inline_fragment_out(s, *inline_fragment).tree);
                    }
                    single(p)
                }
            },
            Selection::LinkedField(field) => {
                proof {
                    assert(decreases_to!(*selection => selection->LinkedField_0));
                }
                if has_directive(&field.directives, TAG_STREAM) {
                    let p = self.build_stream(context, field);
                    proof {
                        lemma_single(*self, p, stream_out(old(self).settings, *field).tree);
                    }
                    single(p)
                } else {
                    self.build_linked_field_and_handles(context, field)
                }
            },
            Selection::ScalarField(field) => {
                if field.directives.len() == 1 && tag_of(&field.directives[0].kind)
                    == TAG_TYPE_DISCRIMINATOR {
                    match self.settings.variant {
                        CodegenVariant::Reader => {
                            let v: Vec<Primitive> = Vec::new();
                            assert(prims_denote(arena(*self), v@) =~= Seq::<Tree>::empty());
                            v
                        },
                        CodegenVariant::Normalization => {
                            let p = self.build_type_discriminator(field);
                            proof {
                                lemma_single(*self, p, crate::selection_trees::type_discriminator_out(*field).tree);
                            }
                            single(p)
                        },
                    }
                } else {
                    self.build_scalar_field_and_handles(field)
                }
            },
        }
    }

    /// The `Condition` node.
    pub fn build_condition(&mut self, context: &mut ContextualMetadata, condition: &Condition) -> (r:
        Primitive)
        requires
            condition_out(old(self).settings, *condition).ok,
        ensures
            built_one(
                *old(self),
                *final(self),
                *old(context),
                *final(context),
                r,
                condition_out(old(self).settings, *condition),
            ),
        decreases condition, 0nat,
    {
        proof {
            assert(decreases_to!(*condition => condition.selections));
        }
        let selections = self.build_selections(context, &condition.selections, None);
        match &condition.value {
            ConditionValue::Variable(variable) => {
                let mut es: Vec<ObjectEntry> = Vec::new();
                es.push(entry(CONDITION, Primitive::String(copy_string(variable))));
                es.push(entry(KIND, str_prim(CONDITION_VALUE)));
                es.push(entry(PASSING_VALUE, Primitive::Bool(condition.passing_value)));
                es.push(entry(SELECTIONS, selections));
                let ghost a = arena(*self);
                let k = self.object(es);
                assert(entries_denote(a, es@) =~= condition_out(old(self).settings, *condition).tree->Object_0);
                Primitive::Key(k)
            },
            ConditionValue::Constant(_) => Primitive::Null,
        }
    }

    /// The `LinkedField` node, wrapped by its `@required` unless `drop_required`.
    #[verifier::rlimit(40)]
    pub fn build_linked_field(
        &mut self,
        context: &mut ContextualMetadata,
        field: &LinkedField,
        drop_required: bool,
    ) -> (r: Primitive)
        requires
            linked_field_out(old(self).settings, *field, drop_required).ok,
        ensures
            built_one(
                *old(self),
                *final(self),
                *old(context),
                *final(context),
                r,
                linked_field_out(old(self).settings, *field, drop_required),
            ),
            r is Key,
        decreases field, 0nat,
    {
        let ghost s = self.settings;
        self.check();
        let (name, alias) = self.build_field_name_and_alias(
            &field.definition.name,
            &field.alias,
            &field.directives,
        );
        let args = self.build_arguments(&field.arguments);
        let ghost b1 = *self;
        proof {
            assert(decreases_to!(*field => field.selections));
        }
        let selections = self.build_selections(context, &field.selections, None);
        proof {
            if let Some(k) = args {
                lemma_key_means_stable(b1, *self, k, crate::arguments::arguments_tree(field.arguments@)->0);
            }
        }
        let sk = storage_key_prim(&name, args, &field.arguments);
        proof {
            crate::arguments::lemma_args_prims(*self, args, field.arguments@, sk, name@);
        }
        let concrete_type = if field.definition.type_is_abstract {
            Primitive::SkippableNull
        } else {
            Primitive::String(copy_string(&field.definition.inner_type))
        };
        let alias_ref = match &alias {
            Some(a) => Some(a),
            None => None,
        };
        let mut es: Vec<ObjectEntry> = Vec::new();
        es.push(build_alias(alias_ref, &name));
        es.push(entry(ARGS, args_prim(args)));
        es.push(entry(CONCRETE_TYPE, concrete_type));
        es.push(entry(KIND, str_prim(LINKED_FIELD)));
        es.push(entry(NAME, Primitive::String(copy_string(&name))));
        es.push(entry(PLURAL, Primitive::Bool(field.definition.is_list)));
        es.push(entry(SELECTIONS, selections));
        es.push(entry(STORAGE_KEY, sk));
        let ghost a = arena(*self);
        let ghost inner = selections_out(s, field.selections@, None);
        let ghost t = Tree::Object(
            seq![
                (crate::constants::ALIAS@, crate::arguments::alias_tree(opt_str_view(alias), name@)),
                (ARGS@, args_value_tree(field.arguments@)),
                (
                    CONCRETE_TYPE@,
                    if field.definition.type_is_abstract {
                        Tree::SkippableNull
                    } else {
                        Tree::Str(field.definition.inner_type@)
                    },
                ),
                (KIND@, Tree::Str(LINKED_FIELD@)),
                (NAME@, Tree::Str(name@)),
                (PLURAL@, Tree::Bool(field.definition.is_list)),
                (SELECTIONS@, Tree::Array(inner.trees)),
                (STORAGE_KEY@, storage_key_tree(name@, field.arguments@)),
            ],
        );
        assert(entries_denote(a, es@) =~= t->Object_0);
        let k = self.object(es);
        if drop_required {
            Primitive::Key(k)
        } else {
            self.wrap_required_field(&field.directives, Primitive::Key(k))
        }
    }

    /// Wraps `primitive` in the `@required` node of `directives`, if there is one.
    fn wrap_required_field(&mut self, directives: &Vec<Directive>, primitive: Primitive) -> (r: Primitive)
        requires
            prim_keys_below(primitive, arena(*old(self)).len()),
        ensures
            evolves(*old(self), *final(self)),
            means(
                *final(self),
                r,
                match find_required(directives@) {
                    Some(req) => required_tree(req, denote(arena(*old(self)), primitive)),
                    None => denote(arena(*old(self)), primitive),
                },
            ),
            primitive is Key ==> r is Key,
    {
        self.check();
        match find_required_metadata(directives) {
            Some(md) => self.build_required_field(md, primitive),
            None => primitive,
        }
    }

    /// The nodes of a linked field: the field and (in the normalization AST) its handles.
    pub fn build_linked_field_and_handles(
        &mut self,
        context: &mut ContextualMetadata,
        field: &LinkedField,
    ) -> (r: Vec<Primitive>)
        requires
            linked_field_and_handles_out(old(self).settings, *field).ok,
        ensures
            built_seq(
                *old(self),
                *final(self),
                *old(context),
                *final(context),
                r@,
                linked_field_and_handles_out(old(self).settings, *field),
            ),
        decreases field, 1nat,
    {
        let ghost s = self.settings;
        let p = self.build_linked_field(context, field, false);
        proof {
            lemma_single(*self, p, linked_field_out(s, *field, false).tree);
        }
        let mut v = single(p);
        match self.settings.variant {
            CodegenVariant::Reader => v,
            CodegenVariant::Normalization => {
                self.build_linked_handles(&mut v, field);
                v
            },
        }
    }

    /// The node of a `@defer`/`@stream` with its `if` and `label`.
    fn build_deferred(&mut self, directive: &Directive, kind: &str, selections: Primitive) -> (r:
        Primitive)
        requires
            prim_keys_below(selections, arena(*old(self)).len()),
            deferred_entries(*directive, kind@, denote(arena(*old(self)), selections)) is Some,
        ensures
            evolves(*old(self), *final(self)),
            means(
                *final(self),
                r,
                Tree::Object(
                    deferred_entries(*directive, kind@, denote(arena(*old(self)), selections))->0,
                ),
            ),
            r is Key,
    {
        let ghost t = denote(arena(*self), selections);
        let if_value = match named_argument_of(&directive.arguments, IF_ARGUMENT) {
            None => Primitive::Null,
            Some(arg) => match &arg.value {
                Value::Variable(variable) => Primitive::String(copy_string(variable)),
                _ => Primitive::Null,
            },
        };
        let label = match named_argument_of(&directive.arguments, LABEL_ARGUMENT) {
            Some(arg) => match &arg.value {
                Value::Constant(ConstantValue::String(l)) => Primitive::String(copy_string(l)),
                _ => Primitive::Null,
            },
            None => Primitive::Null,
        };
        let mut es: Vec<ObjectEntry> = Vec::new();
        es.push(entry(IF, if_value));
        es.push(entry(KIND, str_prim(kind)));
        es.push(entry(LABEL, label));
        es.push(entry(SELECTIONS, selections));
        let ghost a = arena(*self);
        assert(entries_denote(a, es@) =~= deferred_entries(*directive, kind@, t)->0);
        let k = self.object(es);
        Primitive::Key(k)
    }

    /// The `Stream` node of a linked field with `@stream`.
    pub fn build_stream(&mut self, context: &mut ContextualMetadata, linked_field: &LinkedField) -> (r:
        Primitive)
        requires
            stream_out(old(self).settings, *linked_field).ok,
        ensures
            built_one(
                *old(self),
                *final(self),
                *old(context),
                *final(context),
                r,
                stream_out(old(self).settings, *linked_field),
            ),
        decreases linked_field, 2nat,
    {
        let ghost s = self.settings;
        let next_selections = self.build_linked_field_and_handles(context, linked_field);
        let ghost a0 = arena(*self);
        let k = self.array(next_selections);
        let next = Primitive::Key(k);
        match self.settings.variant {
            CodegenVariant::Reader => {
                let mut es: Vec<ObjectEntry> = Vec::new();
                es.push(entry(KIND, str_prim(STREAM)));
                es.push(entry(SELECTIONS, next));
                let ghost a = arena(*self);
                assert(entries_denote(a, es@) =~= stream_out(s, *linked_field).tree->Object_0);
                let k2 = self.object(es);
                Primitive::Key(k2)
            },
            CodegenVariant::Normalization => {
                let i = match find_directive(&linked_field.directives, TAG_STREAM) {
                    Some(i) => i,
                    None => 0,
                };
                self.build_deferred(&linked_field.directives[i], STREAM, next)
            },
        }
    }

    /// The `Defer` node of an inline fragment with `@defer`.
    pub fn build_defer(&mut self, context: &mut ContextualMetadata, inline_fragment: &InlineFragment) -> (r:
        Primitive)
        requires
            defer_out(old(self).settings, *inline_fragment).ok,
        ensures
            built_one(
                *old(self),
                *final(self),
                *old(context),
                *final(context),
                r,
                defer_out(old(self).settings, *inline_fragment),
            ),
        decreases inline_fragment, 2nat,
    {
        match self.settings.variant {
            CodegenVariant::Reader => self.build_defer_reader(context, inline_fragment),
            CodegenVariant::Normalization => self.build_defer_normalization(context, inline_fragment),
        }
    }

    /// The `Defer` node of the reader AST.
    fn build_defer_reader(&mut self, context: &mut ContextualMetadata, inline_fragment: &InlineFragment) -> (r:
        Primitive)
        requires
            old(self).settings.variant == CodegenVariant::Reader,
            defer_out(old(self).settings, *inline_fragment).ok,
        ensures
            built_one(
                *old(self),
                *final(self),
                *old(context),
                *final(context),
                r,
                defer_out(old(self).settings, *inline_fragment),
            ),
        decreases inline_fragment, 1nat,
    {
        let ghost s = self.settings;
        self.check();
        let next = match &inline_fragment.selections[0] {
            Selection::FragmentSpread(frag_spread) => {
                let p = self.build_fragment_spread(frag_spread);
                let v = single(p);
                let ghost a0 = arena(*self);
                assert(prims_denote(a0, v@) =~= seq![crate::selection_trees::fragment_spread_out(s, *frag_spread).tree]);
                let k = self.array(v);
                Primitive::Key(k)
            },
            _ => {
                proof {
                    assert(decreases_to!(*inline_fragment => inline_fragment.selections));
                }
                self.build_selections(context, &inline_fragment.selections, None)
            },
        };
        let mut es: Vec<ObjectEntry> = Vec::new();
        es.push(entry(KIND, str_prim(DEFER)));
        es.push(entry(SELECTIONS, next));
        let ghost a = arena(*self);
        assert(entries_denote(a, es@) =~= defer_out(s, *inline_fragment).tree->Object_0);
        let k = self.object(es);
        Primitive::Key(k)
    }

    /// The `Defer` node of the normalization AST.
    fn build_defer_normalization(
        &mut self,
        context: &mut ContextualMetadata,
        inline_fragment: &InlineFragment,
    ) -> (r: Primitive)
        requires
            old(self).settings.variant == CodegenVariant::Normalization,
            defer_out(old(self).settings, *inline_fragment).ok,
        ensures
            built_one(
                *old(self),
                *final(self),
                *old(context),
                *final(context),
                r,
                defer_out(old(self).settings, *inline_fragment),
            ),
        decreases inline_fragment, 1nat,
    {
        proof {
            assert(decreases_to!(*inline_fragment => inline_fragment.selections));
        }
        let next = self.build_selections(context, &inline_fragment.selections, None);
        let i = match find_directive(&inline_fragment.directives, TAG_DEFER) {
            Some(i) => i,
            None => 0,
        };
        self.build_deferred(&inline_fragment.directives[i], DEFER, next)
    }

    /// The `InlineDataFragmentSpread` node.
    pub fn build_inline_data_fragment_spread(
        &mut self,
        context: &mut ContextualMetadata,
        inline_fragment: &InlineFragment,
        inline_directive_data: &InlineDirectiveMetadata,
    ) -> (r: Primitive)
        requires
            inline_data_fragment_spread_out(old(self).settings, *inline_fragment, *inline_directive_data).ok,
        ensures
            built_one(
                *old(self),
                *final(self),
                *old(context),
                *final(context),
                r,
                inline_data_fragment_spread_out(old(self).settings, *inline_fragment, *inline_directive_data),
            ),
        decreases inline_fragment, 0nat,
    {
        let ghost s = self.settings;
        self.check();
        proof {
            assert(decreases_to!(*inline_fragment => inline_fragment.selections));
        }
        let selections = self.build_selections(context, &inline_fragment.selections, None);
        let ghost b1 = *self;
        let args = self.build_arguments(&inline_directive_data.arguments);
        let ghost b2 = *self;
        let argument_definitions = self.build_fragment_variable_definitions(
            &inline_directive_data.variable_definitions,
            &inline_directive_data.used_global_variables,
        );
        proof {
            lemma_means_stable(b1, b2, selections, Tree::Array(selections_out(s, inline_fragment.selections@, None).trees));
            lemma_means_stable(b2, *self, selections, Tree::Array(selections_out(s, inline_fragment.selections@, None).trees));
            crate::arguments::lemma_args_prim(b2, args, inline_directive_data.arguments@);
            lemma_means_stable(b2, *self, args_prim_spec(args), args_value_tree(inline_directive_data.arguments@));
        }
        let mut es: Vec<ObjectEntry> = Vec::new();
        es.push(entry(KIND, str_prim(INLINE_DATA_FRAGMENT_SPREAD)));
        es.push(entry(NAME, Primitive::String(copy_string(&inline_directive_data.fragment_name))));
        es.push(entry(SELECTIONS, selections));
        es.push(entry(ARGS, args_prim(args)));
        es.push(entry(ARGUMENT_DEFINITIONS, argument_definitions));
        let ghost a = arena(*self);
        assert(entries_denote(a, es@) =~= inline_data_fragment_spread_out(s, *inline_fragment, *inline_directive_data).tree->Object_0);
        let k = self.object(es);
        Primitive::Key(k)
    }

    /// The `ActorChange` node.
    #[verifier::rlimit(40)]
    pub fn build_actor_change(&mut self, context: &mut ContextualMetadata, actor_change: &InlineFragment) -> (r:
        Primitive)
        requires
            actor_change_out(old(self).settings, *actor_change).ok,
        ensures
            built_one(
                *old(self),
                *final(self),
                *old(context),
                *final(context),
                r,
                actor_change_out(old(self).settings, *actor_change),
            ),
        decreases actor_change, 0nat,
    {
        let ghost s = self.settings;
        self.check();
        match &actor_change.selections[0] {
            Selection::LinkedField(linked_field) => {
                proof {
                    assert(decreases_to!(*actor_change => actor_change.selections));
                    assert(decreases_to!(actor_change.selections => actor_change.selections@));
                    assert(decreases_to!(actor_change.selections@ => actor_change.selections@[0]));
                    assert(decreases_to!(actor_change.selections@[0] => actor_change.selections@[0]->LinkedField_0));
                }
                match self.settings.variant {
                    CodegenVariant::Normalization => {
                        let value = self.build_linked_field(context, linked_field, false);
                        let mut es: Vec<ObjectEntry> = Vec::new();
                        es.push(entry(KIND, str_prim(ACTOR_CHANGE)));
                        es.push(entry(LINKED_FIELD_PROPERTY, value));
                        let ghost a = arena(*self);
                        assert(entries_denote(a, es@) =~= actor_change_out(s, *actor_change).tree->Object_0);
                        let k = self.object(es);
                        Primitive::Key(k)
                    },
                    CodegenVariant::Reader => {
                        let (name, alias) = self.build_field_name_and_alias(
                            &linked_field.definition.name,
                            &linked_field.alias,
                            &linked_field.directives,
                        );
                        let args = self.build_arguments(&linked_field.arguments);
                        let ghost b1 = *self;
                        let spread = match first_spread_of(&linked_field.selections) {
                            Some(frag_spread) => self.build_fragment_spread(frag_spread),
                            None => Primitive::Null,
                        };
                        proof {
                            if let Some(k) = args {
                                lemma_key_means_stable(b1, *self, k, crate::arguments::arguments_tree(linked_field.arguments@)->0);
                            }
                        }
                        let sk = storage_key_prim(&name, args, &linked_field.arguments);
                        proof {
                            crate::arguments::lemma_args_prims(*self, args, linked_field.arguments@, sk, name@);
                        }
                        let alias_ref = match &alias {
                            Some(a) => Some(a),
                            None => None,
                        };
                        let mut es: Vec<ObjectEntry> = Vec::new();
                        es.push(entry(KIND, str_prim(ACTOR_CHANGE)));
                        es.push(build_alias(alias_ref, &name));
                        es.push(entry(NAME, Primitive::String(copy_string(&name))));
                        es.push(entry(STORAGE_KEY, sk));
                        es.push(entry(ARGS, args_prim(args)));
                        es.push(entry(FRAGMENT_SPREAD_PROPERTY, spread));
                        let ghost a = arena(*self);
                        assert(entries_denote(a, es@) =~= actor_change_out(s, *actor_change).tree->Object_0);
                        let k = self.object(es);
                        Primitive::Key(k)
                    },
                }
            },
            _ => Primitive::Null,
        }
    }

    /// The node of a client edge.
    #[verifier::rlimit(60)]
    pub fn build_client_edge(
        &mut self,
        context: &mut ContextualMetadata,
        inline_fragment: &InlineFragment,
        client_edge_metadata: &ClientEdgeMetadataDirective,
        required_metadata: Option<&RequiredMetadata>,
    ) -> (r: Primitive)
        requires
            client_edge_out(
                old(self).settings,
                *inline_fragment,
                *client_edge_metadata,
                match required_metadata {
                    Some(m) => Some(*m),
                    None => None,
                },
            ).ok,
        ensures
            built_one(
                *old(self),
                *final(self),
                *old(context),
                *final(context),
                r,
                client_edge_out(
                    old(self).settings,
                    *inline_fragment,
                    *client_edge_metadata,
                    match required_metadata {
                        Some(m) => Some(*m),
                        None => None,
                    },
                ),
            ),
        decreases inline_fragment, 0nat,
    {
        let ghost s = self.settings;
        let ghost req = match required_metadata {
            Some(m) => Some(*m),
            None => None::<RequiredMetadata>,
        };
        self.check();
        context.has_client_edges = true;
        let backing_field = match &inline_fragment.selections[0] {
            Selection::FragmentSpread(fragment_spread) => self.build_fragment_spread(fragment_spread),
            Selection::ScalarField(field) => match find_resolver_metadata(&field.directives) {
                Some(resolver_metadata) => self.build_scalar_backed_resolver_field(
                    field,
                    resolver_metadata,
                ),
                None => Primitive::Null,
            },
            _ => Primitive::Null,
        };
        let ghost b1 = *self;
        let ghost backing_tree = denote(arena(b1), backing_field);
        let selections_item = match &inline_fragment.selections[1] {
            Selection::LinkedField(linked_field) => {
                proof {
                    assert(decreases_to!(*inline_fragment => inline_fragment.selections));
                    assert(decreases_to!(inline_fragment.selections => inline_fragment.selections@));
                    assert(decreases_to!(inline_fragment.selections@ => inline_fragment.selections@[1]));
                    assert(decreases_to!(inline_fragment.selections@[1] => inline_fragment.selections@[1]->LinkedField_0));
                }
                self.build_linked_field(context, linked_field, required_metadata.is_some())
            },
            _ => Primitive::Null,
        };
        proof {
            lemma_means_stable(b1, *self, backing_field, backing_tree);
        }
        let mut es: Vec<ObjectEntry> = Vec::new();
        match client_edge_metadata {
            ClientEdgeMetadataDirective::ServerObject { query_name } => {
                es.push(entry(KIND, str_prim(CLIENT_EDGE_TO_SERVER_OBJECT)));
                es.push(entry(OPERATION, Primitive::GraphQLModuleDependency(copy_string(query_name))));
            },
            ClientEdgeMetadataDirective::ClientObject { concrete_type } => {
                es.push(entry(KIND, str_prim(CLIENT_EDGE_TO_CLIENT_OBJECT)));
                es.push(entry(CONCRETE_TYPE, Primitive::String(copy_string(concrete_type))));
            },
        }
        es.push(entry(CLIENT_EDGE_BACKING_FIELD_KEY, backing_field));
        es.push(entry(CLIENT_EDGE_SELECTIONS_KEY, selections_item));
        let ghost a = arena(*self);
        let ghost field_tree = match client_edge_metadata {
            ClientEdgeMetadataDirective::ServerObject { query_name } => Tree::Object(
                seq![
                    (KIND@, Tree::Str(CLIENT_EDGE_TO_SERVER_OBJECT@)),
                    (OPERATION@, Tree::GraphQLModule(query_name@)),
                    (CLIENT_EDGE_BACKING_FIELD_KEY@, backing_tree),
                    (CLIENT_EDGE_SELECTIONS_KEY@, denote(a, selections_item)),
                ],
            ),
            ClientEdgeMetadataDirective::ClientObject { concrete_type } => Tree::Object(
                seq![
                    (KIND@, Tree::Str(CLIENT_EDGE_TO_CLIENT_OBJECT@)),
                    (CONCRETE_TYPE@, Tree::Str(concrete_type@)),
                    (CLIENT_EDGE_BACKING_FIELD_KEY@, backing_tree),
                    (CLIENT_EDGE_SELECTIONS_KEY@, denote(a, selections_item)),
                ],
            ),
        };
        assert(entries_denote(a, es@) =~= field_tree->Object_0);
        let k = self.object(es);
        match required_metadata {
            Some(required) => self.build_required_field(required, Primitive::Key(k)),
            None => Primitive::Key(k),
        }
    }

    /// The node of an inline fragment.
    #[verifier::rlimit(60)]
    pub fn build_inline_fragment(&mut self, context: &mut ContextualMetadata, inline_frag: &InlineFragment) -> (r:
        Primitive)
        requires
            inline_fragment_out(old(self).settings, *inline_frag).ok,
        ensures
            built_one(
                *old(self),
                *final(self),
                *old(context),
                *final(context),
                r,
                inline_fragment_out(old(self).settings, *inline_frag),
            ),
            r is Key,
        decreases inline_frag, 1nat,
    {
        let ghost s = self.settings;
        self.check();
        proof {
            assert(decreases_to!(*inline_frag => inline_frag.selections));
        }
        match &inline_frag.type_condition {
            None => {
                if let Some(client_edge_metadata) = find_client_edge_metadata(&inline_frag.directives) {
                    let required_metadata = find_required_metadata(&inline_frag.directives);
                    let p = self.build_client_edge(
                        context,
                        inline_frag,
                        client_edge_metadata,
                        required_metadata,
                    );
                    self.ensure_key(p)
                } else if inline_frag.directives.len() == 1 && tag_of(&inline_frag.directives[0].kind)
                    == TAG_CLIENT_EXTENSION {
                    let selections = self.build_selections(context, &inline_frag.selections, None);
                    let mut es: Vec<ObjectEntry> = Vec::new();
                    es.push(entry(KIND, str_prim(CLIENT_EXTENSION)));
                    es.push(entry(SELECTIONS, selections));
                    let ghost a = arena(*self);
                    assert(entries_denote(a, es@) =~= inline_fragment_out(s, *inline_frag).tree->Object_0);
                    let k = self.object(es);
                    Primitive::Key(k)
                } else {
                    Primitive::Null
                }
            },
            Some(type_condition) => {
                let key = concat(ABSTRACT_KEY_PREFIX, type_condition.name.as_str());
                if self.settings.variant == CodegenVariant::Normalization && type_condition.is_abstract
                    && has_discriminator_for(&inline_frag.selections, key.as_str()) {
                    if inline_frag.selections.len() == 1 {
                        return match &inline_frag.selections[0] {
                            Selection::ScalarField(field) => self.build_type_discriminator(field),
                            _ => Primitive::Null,
                        };
                    } else {
                        let selections = self.build_selections(
                            context,
                            &inline_frag.selections,
                            Some(key.as_str()),
                        );
                        let mut es: Vec<ObjectEntry> = Vec::new();
                        es.push(entry(KIND, str_prim(INLINE_FRAGMENT)));
                        es.push(entry(SELECTIONS, selections));
                        es.push(entry(TYPE, Primitive::String(copy_string(&type_condition.name))));
                        es.push(entry(ABSTRACT_KEY, Primitive::String(concat(ABSTRACT_KEY_PREFIX, type_condition.name.as_str()))));
                        let ghost a = arena(*self);
                        assert(entries_denote(a, es@) =~= inline_fragment_out(s, *inline_frag).tree->Object_0);
                        let k = self.object(es);
                        return Primitive::Key(k);
                    }
                }
                let selections = self.build_selections(context, &inline_frag.selections, None);
                let abstract_key = if type_condition.is_abstract {
                    Primitive::String(concat(ABSTRACT_KEY_PREFIX, type_condition.name.as_str()))
                } else {
                    Primitive::SkippableNull
                };
                let mut es: Vec<ObjectEntry> = Vec::new();
                es.push(entry(KIND, str_prim(INLINE_FRAGMENT)));
                es.push(entry(SELECTIONS, selections));
                es.push(entry(TYPE, Primitive::String(copy_string(&type_condition.name))));
                es.push(entry(ABSTRACT_KEY, abstract_key));
                let ghost a = arena(*self);
                let ghost inner = selections_out(s, inline_frag.selections@, None);
                let ghost t = Tree::Object(
                    seq![
                        (KIND@, Tree::Str(INLINE_FRAGMENT@)),
                        (SELECTIONS@, Tree::Array(inner.trees)),
                        (TYPE@, Tree::Str(type_condition.name@)),
                        (
                            ABSTRACT_KEY@,
                            if type_condition.is_abstract {
                                Tree::Str(abstract_type_key(type_condition.name@))
                            } else {
                                Tree::SkippableNull
                            },
                        ),
                    ],
                );
                assert(entries_denote(a, es@) =~= t->Object_0);
                let k = self.object(es);
                let primitive = Primitive::Key(k);
                if let Some(fragment_alias_metadata) = find_alias_metadata(&inline_frag.directives) {
                    let mut es2: Vec<ObjectEntry> = Vec::new();
                    es2.push(entry(FRAGMENT, primitive));
                    es2.push(entry(KIND, str_prim(ALIASED_INLINE_FRAGMENT_SPREAD)));
                    es2.push(entry(NAME, Primitive::String(copy_string(&fragment_alias_metadata.alias))));
                    let ghost a2 = arena(*self);
                    assert(entries_denote(a2, es2@) =~= seq![
                        (FRAGMENT@, t),
                        (KIND@, Tree::Str(ALIASED_INLINE_FRAGMENT_SPREAD@)),
                        (NAME@, Tree::Str(fragment_alias_metadata.alias@)),
                    ]);
                    let k2 = self.object(es2);
                    Primitive::Key(k2)
                } else {
                    primitive
                }
            },
        }
    }

    /// `p` itself, known to be a key.
    fn ensure_key(&self, p: Primitive) -> (r: Primitive)
        requires
            prim_keys_below(p, arena(*self).len()),
        ensures
            r == p,
    {
        p
    }
}

/// The `args` value that `args_prim` produces.
pub open spec fn args_prim_spec(args: Option<crate::ast::AstKey>) -> Primitive {
    match args {
        None => Primitive::SkippableNull,
        Some(k) => Primitive::Key(k),
    }
}

} // verus!
