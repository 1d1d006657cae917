//! Code generation for whole definitions: operations, fragments, their
//! metadata, and the parameters of a request.
use vstd::prelude::*;
use crate::ast::{
    denote, entries_denote, entries_keys_below, opt_str_view, prim_keys_below, prims_denote,
    prims_keys_below, AstKey, JSModV, JSModuleDependency, ObjectEntry, Primitive, Tree,
};
use crate::builder::{
    arena, entry, evolves, key_means, lemma_entries_stable, lemma_key_means_stable,
    lemma_means_stable, means, str_prim, CodegenBuilder, ContextualMetadata, JsModuleFormat,
};
use crate::constants::{
    CACHE_ID, ID, MUTATION, OPERATION_KIND, PROVIDED_VARIABLES, PROVIDED_VARIABLES_DEFINITION, QUERY,
    SUBSCRIPTION, TEXT, ABSTRACT_KEY, ABSTRACT_KEY_PREFIX, ARGUMENT_DEFINITIONS, CLIENT_ABSTRACT_TYPES, FRAGMENT_VALUE,
    METADATA, OPERATION_VALUE, SELECTIONS, SPLIT_OPERATION, TYPE, BACKWARD, CONNECTION, COUNT, CURSOR, DIRECTION, DIRECTION_BACKWARD, DIRECTION_FORWARD, FORWARD,
    FRAGMENT_PATH_IN_RESULT, HAS_CLIENT_EDGES, IDENTIFIER_FIELD, INLINE_DATA_FRAGMENT, KIND, MASK,
    NAME, OPERATION, PATH, PLURAL, REFETCH, STREAM_NAME,
};
use crate::definition_trees::{
    connection_entry, connection_tree, count_and_cursor, find_client_abstract_types,
    find_connection, find_provided, find_refetchable, find_relay, fragment_metadata_entries,
    fragment_metadata_ok, fragment_metadata_tree, inline_data_fragment_tree, opt_entry, page_tree,
    refetch_connection_ok, refetch_connection_tree, refetch_tree, strs_tree,
    client_abstract_types_entry, declares, fragment_out, operation_out, provided_entries,
    provided_variables_tree, provider_module, TopLevelStatements, cache_id_of, id_tree,
    internal_metadata_entry, internal_metadata_ok, request_parameters_tree, sort_entries,
    unsorted_metadata, QueryID, RequestParameters,
};
use crate::hashing::md5;
use crate::arguments::{fragment_variable_definitions_tree, opt_key_means, operation_variable_definitions_tree};
use crate::directives::has_directive;
use crate::selection_trees::selections_out;
use crate::fields::copy_opt_string;
use crate::ir::{
    filter_tag, tag_of, OperationKind, Value, TAG_INTERNAL_METADATA, find_directive, OperationDefinition, TAG_INLINE, TAG_SPLIT_OPERATION, AbstractTypeInfo, ConnectionMetadata, Directive, DirectiveKind, FragmentDefinition,
    ProvidedVariableMetadata, RefetchableMetadata, RelayDirective, TAG_CLIENT_ABSTRACT_TYPES,
    TAG_CONNECTION, TAG_PROVIDED_VARIABLE, TAG_REFETCHABLE, TAG_RELAY,
};
use crate::strings::{concat, copy_string, lemma_insert_at, sort_by_name, str_lt, strs_view};

verus! {

// ---------------------------------------------------------------------------
// Reading the metadata of a definition's directives.
/// The connections that `@connection` recorded, if any.
pub fn find_connection_metadata(ds: &Vec<Directive>) -> (r: Option<&Vec<ConnectionMetadata>>)
    ensures
        r is Some <==> find_connection(ds@) is Some,
        r matches Some(m) ==> *m == find_connection(ds@)->0,
{
    match find_directive(ds, TAG_CONNECTION) {
        Some(i) => match &ds[i].kind {
            DirectiveKind::Connection(m) => Some(m),
            _ => None,
        },
        None => None,
    }
}

/// The `@relay` directive, if any.
pub fn find_relay_directive(ds: &Vec<Directive>) -> (r: Option<&RelayDirective>)
    ensures
        r is Some <==> find_relay(ds@) is Some,
        r matches Some(m) ==> *m == find_relay(ds@)->0,
{
    match find_directive(ds, TAG_RELAY) {
        Some(i) => match &ds[i].kind {
            DirectiveKind::Relay(m) => Some(m),
            _ => None,
        },
        None => None,
    }
}

/// The refetchable metadata, if any.
pub fn find_refetchable_metadata(ds: &Vec<Directive>) -> (r: Option<&RefetchableMetadata>)
    ensures
        r is Some <==> find_refetchable(ds@) is Some,
        r matches Some(m) ==> *m == find_refetchable(ds@)->0,
{
    match find_directive(ds, TAG_REFETCHABLE) {
        Some(i) => match &ds[i].kind {
            DirectiveKind::Refetchable(m) => Some(m),
            _ => None,
        },
        None => None,
    }
}

/// The client-schema abstract types of an operation, if recorded.
pub fn find_client_abstract_types_metadata(ds: &Vec<Directive>) -> (r: Option<&Vec<AbstractTypeInfo>>)
    ensures
        r is Some <==> find_client_abstract_types(ds@) is Some,
        r matches Some(m) ==> *m == find_client_abstract_types(ds@)->0,
{
    match find_directive(ds, TAG_CLIENT_ABSTRACT_TYPES) {
        Some(i) => match &ds[i].kind {
            DirectiveKind::ClientAbstractTypes(m) => Some(m),
            _ => None,
        },
        None => None,
    }
}

/// The provider of a variable's value, if it is provided.
pub fn find_provided_variable_metadata(ds: &Vec<Directive>) -> (r: Option<&ProvidedVariableMetadata>)
    ensures
        r is Some <==> find_provided(ds@) is Some,
        r matches Some(m) ==> *m == find_provided(ds@)->0,
{
    match find_directive(ds, TAG_PROVIDED_VARIABLE) {
        Some(i) => match &ds[i].kind {
            DirectiveKind::ProvidedVariable(m) => Some(m),
            _ => None,
        },
        None => None,
    }
}

/// A string primitive, or null.
pub fn string_or_null(s: Option<String>) -> (p: Primitive)
    ensures
        forall|a: Seq<crate::ast::Ast>| #[trigger] denote(a, p) == crate::selection_trees::str_or_null(opt_str_view(s)),
        p is String || p is Null,
{
    match s {
        Some(s) => Primitive::String(s),
        None => Primitive::Null,
    }
}

// ---------------------------------------------------------------------------
// Sorting entries by key.
/// The keys of a list of entries.
pub open spec fn entry_keys(es: Seq<ObjectEntry>) -> Seq<Seq<char>> {
    Seq::new(es.len(), |i: int| es[i].key@)
}

/// The entries sorted by key; entries with equal keys keep their order.
pub fn sort_entries_by_key(items: Vec<ObjectEntry>) -> (r: Vec<ObjectEntry>)
    ensures
        r@.len() == items@.len(),
        r@ == Seq::new(
            items@.len(),
            |j: int| items@[sort_by_name(entry_keys(items@), items@.len())[j] as int],
        ),
{
    let ghost orig = items@;
    let ghost nv = entry_keys(orig);
    let n_items = items.len();
    let ghost n = orig.len();
    let mut rest = items;
    let mut r: Vec<ObjectEntry> = Vec::new();
    let ghost mut idx: Seq<usize> = Seq::empty();
    let mut i: usize = 0;
    while rest.len() > 0
        invariant
            i <= n,
            n == orig.len(),
            n == n_items,
            nv == entry_keys(orig),
            rest@ == orig.skip(i as int),
            idx == sort_by_name(nv, i as nat),
            idx.len() == i,
            r@.len() == i,
            forall|j: int| 0 <= j < i ==> #[trigger] idx[j] < i,
            forall|j: int| 0 <= j < i ==> #[trigger] r@[j] == orig[idx[j] as int],
        decreases rest@.len(),
    {
        assert(orig.skip(i as int).len() > 0);
        let e = rest.remove(0);
        assert(e == orig[i as int]);
        assert(rest@ =~= orig.skip(i + 1));
        let mut p: usize = 0;
        while p < r.len() && !str_lt(e.key.as_str(), r[p].key.as_str())
            invariant
                i < n,
                n == orig.len(),
                nv == entry_keys(orig),
                e == orig[i as int],
                p <= r@.len(),
                r@.len() == i,
                idx.len() == i,
                forall|j: int| 0 <= j < i ==> #[trigger] r@[j] == orig[idx[j] as int],
                forall|j: int| 0 <= j < i ==> #[trigger] idx[j] < i,
                forall|j: int|
                    0 <= j < p ==> !crate::strings::seq_lt(nv[i as int], #[trigger] nv[idx[j] as int]),
            decreases r@.len() - p,
        {
            assert(r@[p as int].key@ == nv[idx[p as int] as int]);
            p = p + 1;
        }
        proof {
            if p < r@.len() {
                assert(r@[p as int].key@ == nv[idx[p as int] as int]);
            }
            crate::strings::lemma_sort_by_name_len(nv, i as nat);
            lemma_insert_at(idx, i, nv, p as int);
        }
        let ghost r0 = r@;
        let ghost idx0 = idx;
        r.insert(p, e);
        proof {
            idx = idx.insert(p as int, i);
            assert forall|j: int| 0 <= j < i + 1 implies #[trigger] idx[j] < i + 1 && r@[j] == orig[idx[j] as int] by {
                if j < p {
                    assert(idx[j] == idx0[j]);
                    assert(r@[j] == r0[j]);
                } else if j > p {
                    assert(idx[j] == idx0[j - 1]);
                    assert(r@[j] == r0[j - 1]);
                }
            }
        }
        i = i + 1;
    }
    proof {
        assert(orig.skip(i as int).len() == 0);
        assert(r@ =~= Seq::new(
            items@.len(),
            |j: int| items@[sort_by_name(entry_keys(items@), items@.len())[j] as int],
        ));
    }
    r
}

impl CodegenBuilder<'_> {
    /// An array of strings.
    pub fn build_strings(&mut self, v: &Vec<String>) -> (k: AstKey)
        ensures
            evolves(*old(self), *final(self)),
            key_means(*final(self), k, strs_tree(strs_view(v@))),
    {
        self.check();
        let ghost a = arena(*self);
        let mut items: Vec<Primitive> = Vec::new();
        let mut i: usize = 0;
        while i < v.len()
            invariant
                i <= v@.len(),
                items@.len() == i,
                prims_keys_below(items@, a.len()),
                forall|j: int| 0 <= j < i ==> #[trigger] items@[j] == Primitive::String(v@[j]) || (
                    items@[j] is String && items@[j]->String_0@ == v@[j]@),
            decreases v@.len() - i,
        {
            items.push(Primitive::String(copy_string(&v[i])));
            i = i + 1;
        }
        proof {
            assert(prims_denote(a, items@) =~= strs_tree(strs_view(v@))->Array_0);
        }
        self.array(items)
    }

    /// The node of one connection.
    fn build_connection_object(&mut self, m: &ConnectionMetadata) -> (k: AstKey)
        ensures
            evolves(*old(self), *final(self)),
            key_means(*final(self), k, connection_tree(*m)),
    {
        self.check();
        let path = match &m.path {
            None => Primitive::SkippableNull,
            Some(path) => Primitive::Key(self.build_strings(path)),
        };
        let ghost cc = count_and_cursor(*m);
        let (count, cursor) = if m.direction == String::from_str(DIRECTION_FORWARD) {
            (copy_opt_string(&m.first), copy_opt_string(&m.after))
        } else if m.direction == String::from_str(DIRECTION_BACKWARD) {
            (copy_opt_string(&m.last), copy_opt_string(&m.before))
        } else {
            (None, None)
        };
        assert(opt_str_view(count) == opt_str_view(cc.0) && opt_str_view(cursor) == opt_str_view(cc.1));
        let mut es: Vec<ObjectEntry> = Vec::new();
        es.push(entry(COUNT, string_or_null(count)));
        es.push(entry(CURSOR, string_or_null(cursor)));
        es.push(entry(DIRECTION, Primitive::String(copy_string(&m.direction))));
        es.push(entry(PATH, path));
        if m.is_stream_connection {
            es.push(entry(STREAM_NAME, Primitive::Bool(true)));
        }
        let ghost a = arena(*self);
        assert(entries_denote(a, es@) =~= connection_tree(*m)->Object_0);
        assert(entries_keys_below(es@, a.len())) by {
            assert forall|j: int| 0 <= j < es@.len() implies prim_keys_below(#[trigger] es@[j].value, a.len()) by {
                assert(es@[j].value is String || es@[j].value is Null || es@[j].value is Bool || es@[j].value
                    is SkippableNull || es@[j].value == path);
            }
        }
        self.object(es)
    }

    /// The `connection` entry of a definition's metadata.
    pub fn build_connection_metadata(&mut self, connection_metadata: &Vec<ConnectionMetadata>) -> (e:
        ObjectEntry)
        ensures
            evolves(*old(self), *final(self)),
            e.key@ == connection_entry(connection_metadata@).0,
            means(*final(self), e.value, connection_entry(connection_metadata@).1),
    {
        let ghost b_start = *self;
        self.check();
        let mut items: Vec<Primitive> = Vec::new();
        let mut i: usize = 0;
        while i < connection_metadata.len()
            invariant
                i <= connection_metadata@.len(),
                items@.len() == i,
                evolves(b_start, *self),
                prims_keys_below(items@, arena(*self).len()),
                prims_denote(arena(*self), items@) =~= Seq::new(
                    i as nat,
                    |j: int| connection_tree(connection_metadata@[j]),
                ),
            decreases connection_metadata@.len() - i,
        {
            let ghost b0 = *self;
            let ghost items0 = items@;
            let k = self.build_connection_object(&connection_metadata[i]);
            proof {
                crate::builder::lemma_prims_stable(b0, *self, items@);
            }
            items.push(Primitive::Key(k));
            proof {
                let a = arena(*self);
                assert(items@ == items0.push(Primitive::Key(k)));
                assert(denote(a, Primitive::Key(k)) == connection_tree(connection_metadata@[i as int]));
                assert forall|j: int| 0 <= j < i + 1 implies #[trigger] prims_denote(a, items@)[j]
                    == connection_tree(connection_metadata@[j]) by {
                    if j < i {
                        assert(prims_denote(a, items@)[j] == prims_denote(a, items0)[j]);
                    }
                }
                assert(prims_denote(a, items@) =~= Seq::new(
                    (i + 1) as nat,
                    |j: int| connection_tree(connection_metadata@[j]),
                ));
            }
            i = i + 1;
        }
        let k = self.array(items);
        entry(CONNECTION, Primitive::Key(k))
    }
}


/// The vector that an optional reference refers to.
pub open spec fn opt_deref<T>(o: Option<&Vec<T>>) -> Option<Vec<T>> {
    match o {
        Some(v) => Some(*v),
        None => None,
    }
}

impl CodegenBuilder<'_> {
    /// `{count, cursor}` of one direction of pagination, or null.
    fn build_page(&mut self, count: &Option<String>, cursor: &Option<String>) -> (p: Primitive)
        ensures
            evolves(*old(self), *final(self)),
            means(*final(self), p, page_tree(*count, *cursor)),
    {
        self.check();
        match count {
            Some(c) => {
                let mut es: Vec<ObjectEntry> = Vec::new();
                es.push(entry(COUNT, Primitive::String(copy_string(c))));
                es.push(entry(CURSOR, string_or_null(copy_opt_string(cursor))));
                let ghost a = arena(*self);
                assert(entries_denote(a, es@) =~= page_tree(*count, *cursor)->Object_0);
                assert(entries_keys_below(es@, a.len())) by {
                    assert(prim_keys_below(es@[0].value, a.len()));
                    assert(prim_keys_below(es@[1].value, a.len()));
                }
                Primitive::Key(self.object(es))
            },
            None => Primitive::Null,
        }
    }

    /// How the first connection of a refetchable fragment pages.
    fn build_refetch_connection(&mut self, connection_metadata: &Vec<ConnectionMetadata>) -> (k: AstKey)
        requires
            refetch_connection_ok(Some(*connection_metadata)),
        ensures
            evolves(*old(self), *final(self)),
            key_means(*final(self), k, refetch_connection_tree(Some(*connection_metadata))),
    {
        let ghost b0 = *self;
        self.check();
        let metadata = &connection_metadata[0];
        let forward = self.build_page(&metadata.first, &metadata.after);
        let ghost b1 = *self;
        let backward = self.build_page(&metadata.last, &metadata.before);
        let ghost b2 = *self;
        let path = self.build_strings(metadata.path.as_ref().unwrap());
        proof {
            lemma_means_stable(b1, *self, forward, page_tree(metadata.first, metadata.after));
            lemma_means_stable(b2, *self, backward, page_tree(metadata.last, metadata.before));
        }
        let mut es: Vec<ObjectEntry> = Vec::new();
        es.push(entry(FORWARD, forward));
        es.push(entry(BACKWARD, backward));
        es.push(entry(PATH, Primitive::Key(path)));
        let ghost a = arena(*self);
        assert(entries_denote(a, es@) =~= refetch_connection_tree(Some(*connection_metadata))->Object_0);
        self.object(es)
    }

    /// The `refetch` object of a refetchable fragment.
    fn build_refetch(
        &mut self,
        connection_metadata: Option<&Vec<ConnectionMetadata>>,
        refetch_metadata: &RefetchableMetadata,
    ) -> (k: AstKey)
        requires
            refetch_connection_ok(opt_deref(connection_metadata)),
        ensures
            evolves(*old(self), *final(self)),
            key_means(*final(self), k, refetch_tree(opt_deref(connection_metadata), *refetch_metadata)),
    {
        self.check();
        let connection = match connection_metadata {
            Some(cm) => Primitive::Key(self.build_refetch_connection(cm)),
            None => Primitive::SkippableNull,
        };
        let ghost b1 = *self;
        let path = self.build_strings(&refetch_metadata.path);
        proof {
            lemma_means_stable(b1, *self, connection, refetch_connection_tree(opt_deref(connection_metadata)));
        }
        let mut es: Vec<ObjectEntry> = Vec::new();
        es.push(entry(CONNECTION, connection));
        es.push(entry(FRAGMENT_PATH_IN_RESULT, Primitive::Key(path)));
        es.push(
            entry(
                OPERATION,
                Primitive::GraphQLModuleDependency(copy_string(&refetch_metadata.operation_name)),
            ),
        );
        match &refetch_metadata.identifier_field {
            Some(f) => es.push(entry(IDENTIFIER_FIELD, Primitive::String(copy_string(f)))),
            None => {},
        }
        let ghost a = arena(*self);
        assert(entries_denote(a, es@) =~= refetch_tree(opt_deref(connection_metadata), *refetch_metadata)->Object_0);
        assert(entries_keys_below(es@, a.len())) by {
            assert forall|j: int| 0 <= j < es@.len() implies prim_keys_below(#[trigger] es@[j].value, a.len()) by {
                if j >= 2 {
                    assert(es@[j].value is String || es@[j].value is GraphQLModuleDependency);
                }
            }
        }
        self.object(es)
    }

    /// The `metadata` of a fragment: its connections, masking, plurality,
    /// client edges and refetchability; left out when there is none.
    pub fn build_fragment_metadata(&mut self, context: ContextualMetadata, fragment: &FragmentDefinition) -> (p:
        Primitive)
        requires
            fragment_metadata_ok(fragment.directives@),
        ensures
            evolves(*old(self), *final(self)),
            means(
                *final(self),
                p,
                fragment_metadata_tree(context.has_client_edges, fragment.directives@),
            ),
    {
        let ghost ds = fragment.directives@;
        let ghost c = find_connection(ds);
        self.check();
        let connection_metadata = find_connection_metadata(&fragment.directives);
        let mut plural = false;
        let mut unmask = false;
        if let Some(relay_directive) = find_relay_directive(&fragment.directives) {
            plural = relay_directive.plural;
            unmask = relay_directive.unmask;
        }
        let mut metadata: Vec<ObjectEntry> = Vec::new();
        let ghost mut expected: Seq<(Seq<char>, Tree)> = Seq::empty();
        if let Some(cm) = connection_metadata {
            let e = self.build_connection_metadata(cm);
            metadata.push(e);
            proof {
                expected = seq![connection_entry(cm@)];
            }
        }
        assert(expected =~= opt_entry(c is Some, connection_entry(c->0@)));
        let ghost e1 = expected;
        if unmask {
            metadata.push(entry(MASK, Primitive::Bool(false)));
            proof {
                expected = expected.push((MASK@, Tree::Bool(false)));
            }
        }
        assert(expected =~= e1 + opt_entry(unmask, (MASK@, Tree::Bool(false))));
        let ghost e2 = expected;
        if plural {
            metadata.push(entry(PLURAL, Primitive::Bool(true)));
            proof {
                expected = expected.push((PLURAL@, Tree::Bool(true)));
            }
        }
        assert(expected =~= e2 + opt_entry(plural, (PLURAL@, Tree::Bool(true))));
        let ghost e3 = expected;
        if context.has_client_edges {
            metadata.push(entry(HAS_CLIENT_EDGES, Primitive::Bool(true)));
            proof {
                expected = expected.push((HAS_CLIENT_EDGES@, Tree::Bool(true)));
            }
        }
        assert(expected =~= e3 + opt_entry(context.has_client_edges, (HAS_CLIENT_EDGES@, Tree::Bool(true))));
        let ghost e4 = expected;
        proof {
            assert(entries_denote(arena(*self), metadata@) =~= expected);
            assert(entries_keys_below(metadata@, arena(*self).len())) by {
                assert forall|j: int| 0 <= j < metadata@.len() implies prim_keys_below(
                    #[trigger] metadata@[j].value,
                    arena(*self).len(),
                ) by {
                    if j > 0 || c is None {
                        assert(metadata@[j].value is Bool);
                    }
                }
            }
        }
        if let Some(refetch_metadata) = find_refetchable_metadata(&fragment.directives) {
            let ghost b0 = *self;
            let ghost m0 = metadata@;
            let k = self.build_refetch(connection_metadata, refetch_metadata);
            proof {
                lemma_entries_stable(b0, *self, m0);
            }
            metadata.push(entry(REFETCH, Primitive::Key(k)));
            proof {
                expected = expected.push((REFETCH@, refetch_tree(c, *refetch_metadata)));
                assert(entries_denote(arena(*self), metadata@) =~= expected);
            }
        }
        assert(expected =~= fragment_metadata_entries(context.has_client_edges, ds));
        if metadata.len() == 0 {
            Primitive::SkippableNull
        } else {
            Primitive::Key(self.object(metadata))
        }
    }

    /// `{kind: "InlineDataFragment", name}` for a fragment with `@inline`.
    pub fn build_inline_data_fragment(&mut self, fragment: &FragmentDefinition) -> (k: AstKey)
        ensures
            evolves(*old(self), *final(self)),
            key_means(*final(self), k, inline_data_fragment_tree(*fragment)),
    {
        self.check();
        let mut es: Vec<ObjectEntry> = Vec::new();
        es.push(entry(KIND, str_prim(INLINE_DATA_FRAGMENT)));
        es.push(entry(NAME, Primitive::String(copy_string(&fragment.name))));
        let ghost a = arena(*self);
        assert(entries_denote(a, es@) =~= inline_data_fragment_tree(*fragment)->Object_0);
        self.object(es)
    }
}

impl TopLevelStatements {
    /// Whether a statement named `name` is declared.
    pub fn contains(&self, name: &str) -> (r: bool)
        ensures
            r == declares(*self, name@),
    {
        let target = String::from_str(name);
        let mut i: usize = 0;
        while i < self.names.len()
            invariant
                i <= self.names@.len(),
                target@ == name@,
                forall|j: int| 0 <= j < i ==> #[trigger] self.names@[j]@ != name@,
            decreases self.names@.len() - i,
        {
            if self.names[i] == target {
                return true;
            }
            i = i + 1;
        }
        false
    }
}

impl CodegenBuilder<'_> {
    /// The reader AST of a fragment.  Its metadata is left out when
    /// `skip_metadata` and no client edge was generated.
    pub fn build_fragment(&mut self, fragment: &FragmentDefinition, skip_metadata: bool) -> (k: AstKey)
        requires
            fragment_out(old(self).settings, *fragment, skip_metadata).ok,
        ensures
            evolves(*old(self), *final(self)),
            key_means(*final(self), k, fragment_out(old(self).settings, *fragment, skip_metadata).tree),
    {
        let ghost s = self.settings;
        self.check();
        let mut context = ContextualMetadata { has_client_edges: false };
        if has_directive(&fragment.directives, TAG_INLINE) {
            return self.build_inline_data_fragment(fragment);
        }
        let ghost sel = selections_out(s, fragment.selections@, None);
        let selections = self.build_selections(&mut context, &fragment.selections, None);
        let ghost b1 = *self;
        let argument_definitions = self.build_fragment_variable_definitions(
            &fragment.variable_definitions,
            &fragment.used_global_variables,
        );
        let ghost b2 = *self;
        let metadata = if skip_metadata && !context.has_client_edges {
            Primitive::SkippableNull
        } else {
            self.build_fragment_metadata(
                ContextualMetadata { has_client_edges: context.has_client_edges },
                fragment,
            )
        };
        proof {
            lemma_means_stable(b1, *self, selections, Tree::Array(sel.trees));
            lemma_means_stable(
                b2,
                *self,
                argument_definitions,
                fragment_variable_definitions_tree(
                    fragment.variable_definitions@,
                    fragment.used_global_variables@,
                ),
            );
        }
        let abstract_key = if fragment.type_condition.is_abstract {
            Primitive::String(concat(ABSTRACT_KEY_PREFIX, fragment.type_condition.name.as_str()))
        } else {
            Primitive::SkippableNull
        };
        let mut es: Vec<ObjectEntry> = Vec::new();
        es.push(entry(ARGUMENT_DEFINITIONS, argument_definitions));
        es.push(entry(KIND, str_prim(FRAGMENT_VALUE)));
        es.push(entry(METADATA, metadata));
        es.push(entry(NAME, Primitive::String(copy_string(&fragment.name))));
        es.push(entry(SELECTIONS, selections));
        es.push(entry(TYPE, Primitive::String(copy_string(&fragment.type_condition.name))));
        es.push(entry(ABSTRACT_KEY, abstract_key));
        let ghost a = arena(*self);
        assert(entries_denote(a, es@) =~= fragment_out(s, *fragment, skip_metadata).tree->Object_0);
        assert(entries_keys_below(es@, a.len())) by {
            assert forall|j: int| 0 <= j < es@.len() implies prim_keys_below(#[trigger] es@[j].value, a.len()) by {
                if j == 1 || j == 3 || j == 5 || j == 6 {
                    assert(es@[j].value is String || es@[j].value is SkippableNull);
                }
            }
        }
        self.object(es)
    }

    /// The `clientAbstractTypes` entry of an operation, when its spreads on
    /// client-schema abstract types were recorded.
    pub fn maybe_build_client_abstract_types(&mut self, operation: &OperationDefinition) -> (r: Option<
        ObjectEntry,
    >)
        ensures
            evolves(*old(self), *final(self)),
            match find_client_abstract_types(operation.directives@) {
                Some(ts) => r is Some && r->0.key@ == client_abstract_types_entry(ts@).0 && means(
                    *final(self),
                    r->0.value,
                    client_abstract_types_entry(ts@).1,
                ),
                None => r is None,
            },
    {
        let ghost b_start = *self;
        self.check();
        match find_client_abstract_types_metadata(&operation.directives) {
            None => None,
            Some(abstract_types) => {
                let mut entries: Vec<ObjectEntry> = Vec::new();
                let mut i: usize = 0;
                while i < abstract_types.len()
                    invariant
                        i <= abstract_types@.len(),
                        entries@.len() == i,
                        evolves(b_start, *self),
                        entries_keys_below(entries@, arena(*self).len()),
                        entries_denote(arena(*self), entries@) =~= Seq::new(
                            i as nat,
                            |j: int|
                                (
                                    abstract_types@[j].name@,
                                    strs_tree(strs_view(abstract_types@[j].concrete@)),
                                ),
                        ),
                    decreases abstract_types@.len() - i,
                {
                    let ghost b0 = *self;
                    let ghost e0 = entries@;
                    let k = self.build_strings(&abstract_types[i].concrete);
                    proof {
                        lemma_entries_stable(b0, *self, e0);
                    }
                    entries.push(
                        ObjectEntry { key: copy_string(&abstract_types[i].name), value: Primitive::Key(k) },
                    );
                    proof {
                        let a = arena(*self);
                        assert forall|j: int| 0 <= j < i + 1 implies #[trigger] entries_denote(a, entries@)[j]
                            == (
                            abstract_types@[j].name@,
                            strs_tree(strs_view(abstract_types@[j].concrete@)),
                        ) by {
                            if j < i {
                                assert(entries@[j] == e0[j]);
                                assert(entries_denote(a, entries@)[j] == entries_denote(a, e0)[j]);
                            }
                        }
                        assert(entries_denote(a, entries@) =~= Seq::new(
                            (i + 1) as nat,
                            |j: int|
                                (
                                    abstract_types@[j].name@,
                                    strs_tree(strs_view(abstract_types@[j].concrete@)),
                                ),
                        ));
                    }
                    i = i + 1;
                }
                let k = self.object(entries);
                Some(entry(CLIENT_ABSTRACT_TYPES, Primitive::Key(k)))
            },
        }
    }

    /// The normalization AST of an operation.
    pub fn build_operation(&mut self, operation: &OperationDefinition) -> (k: AstKey)
        requires
            operation_out(old(self).settings, *operation).ok,
        ensures
            evolves(*old(self), *final(self)),
            key_means(*final(self), k, operation_out(old(self).settings, *operation).tree),
    {
        let ghost s = self.settings;
        let ghost sel = selections_out(s, operation.selections@, None);
        let ghost defs_tree = operation_variable_definitions_tree(operation.variable_definitions@);
        self.check();
        let mut context = ContextualMetadata { has_client_edges: false };
        if has_directive(&operation.directives, TAG_SPLIT_OPERATION) {
            let ghost b0 = *self;
            let empty: Vec<ObjectEntry> = Vec::new();
            assert(entries_denote(arena(b0), empty@) =~= Seq::empty());
            let metadata = Primitive::Key(self.object(empty));
            let ghost b1 = *self;
            let selections = self.build_selections(&mut context, &operation.selections, None);
            proof {
                lemma_means_stable(b1, *self, metadata, Tree::Object(Seq::empty()));
            }
            let mut fields: Vec<ObjectEntry> = Vec::new();
            if operation.variable_definitions.len() > 0 {
                let ghost b2 = *self;
                let argument_definitions = self.build_operation_variable_definitions(
                    &operation.variable_definitions,
                );
                proof {
                    lemma_means_stable(b2, *self, metadata, Tree::Object(Seq::empty()));
                    lemma_means_stable(b2, *self, selections, Tree::Array(sel.trees));
                }
                fields.push(entry(ARGUMENT_DEFINITIONS, Primitive::Key(argument_definitions)));
            }
            fields.push(entry(KIND, str_prim(SPLIT_OPERATION)));
            fields.push(entry(METADATA, metadata));
            fields.push(entry(NAME, Primitive::String(copy_string(&operation.name))));
            fields.push(entry(SELECTIONS, selections));
            let ghost a = arena(*self);
            assert(entries_denote(a, fields@) =~= operation_out(s, *operation).tree->Object_0);
            assert(entries_keys_below(fields@, a.len())) by {
                assert forall|j: int| 0 <= j < fields@.len() implies prim_keys_below(
                    #[trigger] fields@[j].value,
                    a.len(),
                ) by {
                    assert(fields@[j].value is String || fields@[j].value is Key);
                }
            }
            self.object(fields)
        } else {
            let argument_definitions = self.build_operation_variable_definitions(
                &operation.variable_definitions,
            );
            let ghost b1 = *self;
            let selections = self.build_selections(&mut context, &operation.selections, None);
            let ghost b2 = *self;
            let client_abstract_types = self.maybe_build_client_abstract_types(operation);
            proof {
                lemma_key_means_stable(b1, *self, argument_definitions, defs_tree);
                lemma_means_stable(b2, *self, selections, Tree::Array(sel.trees));
            }
            let mut fields: Vec<ObjectEntry> = Vec::new();
            fields.push(entry(ARGUMENT_DEFINITIONS, Primitive::Key(argument_definitions)));
            fields.push(entry(KIND, str_prim(OPERATION_VALUE)));
            fields.push(entry(NAME, Primitive::String(copy_string(&operation.name))));
            fields.push(entry(SELECTIONS, selections));
            if let Some(e) = client_abstract_types {
                fields.push(e);
            }
            let ghost a = arena(*self);
            assert(entries_denote(a, fields@) =~= operation_out(s, *operation).tree->Object_0);
            assert(entries_keys_below(fields@, a.len())) by {
                assert forall|j: int| 0 <= j < fields@.len() implies prim_keys_below(
                    #[trigger] fields@[j].value,
                    a.len(),
                ) by {
                    if j < 4 {
                        assert(fields@[j].value is String || fields@[j].value is Key);
                    }
                }
            }
            self.object(fields)
        }
    }

    /// The object of an operation's provided variables: each provided
    /// variable and the module that provides it.
    pub fn build_operation_provided_variables(&mut self, operation: &OperationDefinition) -> (r: Option<
        AstKey,
    >)
        ensures
            evolves(*old(self), *final(self)),
            opt_key_means(
                *final(self),
                r,
                provided_variables_tree(*old(self).settings.project_config, *operation),
            ),
    {
        self.check();
        let ghost config = *self.settings.project_config;
        let ghost defs = operation.variable_definitions@;
        let ghost src = operation.source_path@;
        let ghost a = arena(*self);
        let mut var_defs: Vec<ObjectEntry> = Vec::new();
        let mut i: usize = 0;
        while i < operation.variable_definitions.len()
            invariant
                i <= defs.len(),
                defs == operation.variable_definitions@,
                src == operation.source_path@,
                config == *self.settings.project_config,
                a == arena(*self),
                forall|j: int| 0 <= j < var_defs@.len() ==> #[trigger] var_defs@[j].value is JSModuleDependency,
                entries_denote(a, var_defs@) == provided_entries(config, src, defs.take(i as int)),
            decreases defs.len() - i,
        {
            proof {
                assert(defs.take(i + 1).drop_last() =~= defs.take(i as int));
            }
            let def = &operation.variable_definitions[i];
            if let Some(provider) = find_provided_variable_metadata(&def.directives) {
                let provider_import = if self.settings.project_config.js_module_format
                    == JsModuleFormat::Haste {
                    copy_string(&provider.module_name)
                } else {
                    self.settings.project_config.js_module_import_path(
                        operation.source_path.as_str(),
                        provider.provider_path.as_str(),
                    )
                };
                let ghost v0 = var_defs@;
                var_defs.push(
                    ObjectEntry {
                        key: copy_string(&def.name),
                        value: Primitive::JSModuleDependency(
                            JSModuleDependency { path: provider_import, named_import: None, import_as: None },
                        ),
                    },
                );
                proof {
                    assert(entries_denote(a, var_defs@) =~= entries_denote(a, v0).push(
                        (defs[i as int].name@, Tree::JSModule(
                            JSModV {
                                path: provider_module(config, src, *provider),
                                named_import: None,
                                import_as: None,
                            },
                        )),
                    ));
                }
            }
            i = i + 1;
        }
        assert(defs.take(i as int) =~= defs);
        if var_defs.len() == 0 {
            None
        } else {
            assert(entries_keys_below(var_defs@, a.len())) by {
                assert forall|j: int| 0 <= j < var_defs@.len() implies prim_keys_below(
                    #[trigger] var_defs@[j].value,
                    a.len(),
                ) by {
                    assert(var_defs@[j].value is JSModuleDependency);
                }
            }
            Some(self.object(var_defs))
        }
    }
}

/// A copy of an optional query id.
fn id_primitive(id: &Option<QueryID>) -> (p: Primitive)
    ensures
        forall|a: Seq<crate::ast::Ast>| #[trigger] denote(a, p) == id_tree(*id),
        p is RawString || p is JSModuleDependency || p is Null,
{
    match id {
        Some(QueryID::Persisted { id, .. }) => Primitive::RawString(copy_string(id)),
        Some(QueryID::External(module_name)) => Primitive::JSModuleDependency(
            JSModuleDependency { path: copy_string(module_name), named_import: None, import_as: None },
        ),
        None => Primitive::Null,
    }
}

/// The sorted entries are valid wherever the unsorted ones are, and mean the
/// sorted meaning.
proof fn lemma_sorted_entries(a: Seq<crate::ast::Ast>, items: Seq<ObjectEntry>, sorted: Seq<ObjectEntry>)
    requires
        entries_keys_below(items, a.len()),
        sorted == Seq::new(
            items.len(),
            |j: int| items[sort_by_name(entry_keys(items), items.len())[j] as int],
        ),
    ensures
        entries_keys_below(sorted, a.len()),
        entries_denote(a, sorted) == sort_entries(entries_denote(a, items)),
{
    let order = sort_by_name(entry_keys(items), items.len());
    crate::strings::lemma_name_order_bounds(entry_keys(items), items.len());
    let es = entries_denote(a, items);
    assert(Seq::new(es.len(), |i: int| es[i].0) =~= entry_keys(items));
    assert forall|j: int| 0 <= j < sorted.len() implies prim_keys_below(#[trigger] sorted[j].value, a.len()) by {
        assert(order[j] < items.len());
    }
    assert forall|j: int| 0 <= j < sorted.len() implies #[trigger] entries_denote(a, sorted)[j] == sort_entries(es)[j] by {
        assert(order[j] < items.len());
    }
    assert(entries_denote(a, sorted) =~= sort_entries(es));
}

impl CodegenBuilder<'_> {
    /// The parameters of a request for `operation`, with the given `cacheID`.
    pub fn build_request_parameters_with_cache_id(
        &mut self,
        operation: &OperationDefinition,
        request_parameters: RequestParameters,
        top_level_statements: &TopLevelStatements,
        cache_id: Option<String>,
    ) -> (k: AstKey)
        requires
            internal_metadata_ok(operation.directives@),
        ensures
            evolves(*old(self), *final(self)),
            key_means(
                *final(self),
                k,
                request_parameters_tree(
                    *old(self).settings.project_config,
                    *operation,
                    request_parameters,
                    *top_level_statements,
                    opt_str_view(cache_id),
                ),
            ),
    {
        let ghost b_start = *self;
        let ghost config = *self.settings.project_config;
        let ghost ds = operation.directives@;
        self.check();
        let mut items: Vec<ObjectEntry> = Vec::new();
        let mut i: usize = 0;
        while i < operation.directives.len()
            invariant
                i <= ds.len(),
                ds == operation.directives@,
                internal_metadata_ok(ds),
                evolves(b_start, *self),
                items@.len() == filter_tag(ds.take(i as int), TAG_INTERNAL_METADATA).len(),
                entries_keys_below(items@, arena(*self).len()),
                entries_denote(arena(*self), items@) =~= Seq::new(
                    filter_tag(ds.take(i as int), TAG_INTERNAL_METADATA).len(),
                    |j: int| internal_metadata_entry(filter_tag(ds.take(i as int), TAG_INTERNAL_METADATA)[j]),
                ),
            decreases ds.len() - i,
        {
            proof {
                assert(ds.take(i + 1).drop_last() =~= ds.take(i as int));
                assert(ds.take(i + 1).last() == ds[i as int]);
            }
            let directive = &operation.directives[i];
            if tag_of(&directive.kind) == TAG_INTERNAL_METADATA {
                let arg = &directive.arguments[0];
                match &arg.value {
                    Value::Constant(value) => {
                        let ghost b0 = *self;
                        let ghost m0 = items@;
                        let v = self.build_constant_value(value);
                        proof {
                            lemma_entries_stable(b0, *self, m0);
                        }
                        items.push(ObjectEntry { key: copy_string(&arg.name), value: v });
                        proof {
                            let a = arena(*self);
                            let ms = filter_tag(ds.take(i + 1), TAG_INTERNAL_METADATA);
                            assert(ms == filter_tag(ds.take(i as int), TAG_INTERNAL_METADATA).push(ds[i as int]));
                            assert forall|j: int| 0 <= j < ms.len() implies #[trigger] entries_denote(a, items@)[j]
                                == internal_metadata_entry(ms[j]) by {
                                if j < ms.len() - 1 {
                                    assert(items@[j] == m0[j]);
                                    assert(entries_denote(a, items@)[j] == entries_denote(a, m0)[j]);
                                }
                            }
                            assert(entries_denote(a, items@) =~= Seq::new(
                                ms.len(),
                                |j: int| internal_metadata_entry(ms[j]),
                            ));
                        }
                    },
                    _ => {},
                }
            }
            i = i + 1;
        }
        proof {
            assert(ds.take(i as int) =~= ds);
        }
        let ghost c = find_connection(ds);
        let ghost m1 = items@;
        if let Some(connection_metadata) = find_connection_metadata(&operation.directives) {
            let ghost b0 = *self;
            let e = self.build_connection_metadata(connection_metadata);
            proof {
                lemma_entries_stable(b0, *self, m1);
            }
            items.push(e);
            proof {
                assert(entries_denote(arena(*self), items@) =~= entries_denote(arena(*self), m1).push(
                    connection_entry(connection_metadata@),
                ));
            }
        }
        let ghost a1 = arena(*self);
        assert(entries_denote(a1, items@) =~= unsorted_metadata(ds));
        let ghost unsorted = items@;
        let sorted = sort_entries_by_key(items);
        proof {
            lemma_sorted_entries(a1, unsorted, sorted@);
        }
        let metadata = self.object(sorted);
        let ghost b2 = *self;
        let mut params: Vec<ObjectEntry> = Vec::new();
        match cache_id {
            Some(c) => params.push(entry(CACHE_ID, Primitive::RawString(c))),
            None => {},
        }
        params.push(entry(ID, id_primitive(&request_parameters.id)));
        params.push(entry(METADATA, Primitive::Key(metadata)));
        params.push(entry(NAME, Primitive::String(copy_string(&request_parameters.name))));
        let kind = match request_parameters.operation_kind {
            OperationKind::Query => QUERY,
            OperationKind::Mutation => MUTATION,
            OperationKind::Subscription => SUBSCRIPTION,
        };
        params.push(entry(OPERATION_KIND, str_prim(kind)));
        let text = match &request_parameters.text {
            Some(t) => Primitive::RawString(copy_string(t)),
            None => Primitive::Null,
        };
        params.push(entry(TEXT, text));
        let ghost p0 = params@;
        proof {
            assert(entries_keys_below(p0, arena(*self).len())) by {
                assert forall|j: int| 0 <= j < p0.len() implies prim_keys_below(#[trigger] p0[j].value, arena(*self).len()) by {
                    assert(p0[j].value is RawString || p0[j].value is JSModuleDependency || p0[j].value is Null
                        || p0[j].value is Key || p0[j].value is String);
                }
            }
        }
        let provided_variables = if top_level_statements.contains(PROVIDED_VARIABLES_DEFINITION) {
            Some(Primitive::Variable(String::from_str(PROVIDED_VARIABLES_DEFINITION)))
        } else {
            match self.build_operation_provided_variables(operation) {
                Some(k) => Some(Primitive::Key(k)),
                None => None,
            }
        };
        proof {
            lemma_entries_stable(b2, *self, p0);
        }
        if let Some(value) = provided_variables {
            params.push(entry(PROVIDED_VARIABLES, value));
        }
        let ghost a = arena(*self);
        proof {
            lemma_key_means_stable(
                b2,
                *self,
                metadata,
                Tree::Object(entries_denote(a1, sorted@)),
            );
            assert(entries_denote(a, params@) =~= request_parameters_tree(
                config,
                *operation,
                request_parameters,
                *top_level_statements,
                opt_str_view(cache_id),
            )->Object_0);
            assert(entries_keys_below(params@, a.len())) by {
                assert forall|j: int| 0 <= j < params@.len() implies prim_keys_below(
                    #[trigger] params@[j].value,
                    a.len(),
                ) by {
                    if j < p0.len() {
                        assert(params@[j] == p0[j]);
                    }
                }
            }
        }
        self.object(params)
    }

    /// The parameters of a request for `operation`: its `cacheID`, id,
    /// metadata, name, kind, text and provided variables.
    pub fn build_request_parameters(
        &mut self,
        operation: &OperationDefinition,
        request_parameters: RequestParameters,
        top_level_statements: &TopLevelStatements,
    ) -> (k: AstKey)
        requires
            internal_metadata_ok(operation.directives@),
        ensures
            evolves(*old(self), *final(self)),
            key_means(
                *final(self),
                k,
                request_parameters_tree(
                    *old(self).settings.project_config,
                    *operation,
                    request_parameters,
                    *top_level_statements,
                    cache_id_of(request_parameters, operation.name@),
                ),
            ),
    {
        let cache_id = match &request_parameters.text {
            Some(text) => Some(md5(text.as_str())),
            None => if request_parameters.id.is_some() {
                None
            } else {
                Some(md5(operation.name.as_str()))
            },
        };
        assert(opt_str_view(cache_id) == cache_id_of(request_parameters, operation.name@));
        self.build_request_parameters_with_cache_id(
            operation,
            request_parameters,
            top_level_statements,
            cache_id,
        )
    }
}

} // verus!
