//! What the generated nodes say about their inputs: each law reads one
//! property of a generated node and relates it to the selection, fragment,
//! argument or request that it was generated from.
use vstd::prelude::*;
use crate::ast::Tree;
use crate::builder::CodegenSettings;
use crate::arguments::argument_tree;
use crate::ast::{opt_str_view};
use crate::builder::{ProjectConfig};
use crate::definition_trees::{
    cache_id_of, fragment_out, opt_entry, request_parameters_tree, RequestParameters,
    TopLevelStatements, QueryID,
};
use crate::hashing::md5_hex;
use crate::ir::{
    has_tag, kind_tag, lemma_find_tag, Condition, DirectiveKind, FragmentDefinition, LinkedField,
    OperationDefinition, OperationKind, RelayDirective, Value, TAG_INLINE, TAG_RELAY,
};
use crate::selection_trees::{
    condition_out, find_required, linked_field_out, required_tree, scalar_field_out,
    inline_fragment_out, find_alias, is_discriminator_for, abstract_type_key, named_argument,
    defer_out, stream_out, type_discriminator_out, fragment_spread_out, first_directive,
    client_edge_out, module_import_out,
};
use crate::ir::{ModuleMetadata, RefetchableMetadata, TAG_REFETCHABLE, VariableDefinition, Selection, TAG_TYPE_DISCRIMINATOR};
use crate::strings::seq_lt;
use crate::builder::JsModuleFormat;
use crate::ir::{ProvidedVariableMetadata, TAG_PROVIDED_VARIABLE};
use crate::definition_trees::{provided_entries, provided_variables_tree};
use crate::arguments::{object_field_trees, constant_field_trees, sorted_argument_trees, arg_names, const_arg_names, constant_tree};
use crate::ir::ConstantArgument;
use crate::ir::ClientEdgeMetadataDirective;
use crate::ir::{
    Directive, FragmentSpread, TAG_DEFER, TAG_STREAM, TAG_NO_INLINE, TAG_FRAGMENT_ALIAS,
    TAG_RESOLVER, TAG_CLIENT_COMPONENT_SERVER,
};
use crate::definition_trees::{connection_tree, operation_out};
use crate::arguments::{args_have_variable, value_has_variable, list_item_trees, arguments_tree};
use crate::ir::{
    Argument, ConnectionMetadata, ConstantValue, InlineFragment, RequiredAction, RequiredMetadata,
    ScalarField, TAG_REACT_FLIGHT, TAG_SPLIT_OPERATION,
};
use crate::builder::CodegenVariant;
use crate::ast::JSModV;

verus! {

/// The value of the first entry with key `key`, if any.
pub open spec fn first_entry(es: Seq<(Seq<char>, Tree)>, key: Seq<char>) -> Option<Tree>
    decreases es.len(),
{
    if es.len() == 0 {
        None
    } else if es[0].0 == key {
        Some(es[0].1)
    } else {
        first_entry(es.drop_first(), key)
    }
}

/// The property `key` of an object node, if it has one.
pub open spec fn field(t: Tree, key: Seq<char>) -> Option<Tree> {
    match t {
        Tree::Object(es) => first_entry(es, key),
        _ => None,
    }
}

/// The first entry with a key is the one at `i` when no earlier entry has it.
pub proof fn lemma_first_entry_at(es: Seq<(Seq<char>, Tree)>, i: int, key: Seq<char>)
    requires
        0 <= i < es.len(),
        es[i].0 == key,
        forall|j: int| 0 <= j < i ==> #[trigger] es[j].0 != key,
    ensures
        first_entry(es, key) == Some(es[i].1),
    decreases i,
{
    if i > 0 {
        let t = es.drop_first();
        assert forall|j: int| 0 <= j < i - 1 implies #[trigger] t[j].0 != key by {
            assert(t[j] == es[j + 1]);
        }
        lemma_first_entry_at(t, i - 1, key);
    }
}

/// No entry has the key.
pub proof fn lemma_first_entry_none(es: Seq<(Seq<char>, Tree)>, key: Seq<char>)
    requires
        forall|j: int| 0 <= j < es.len() ==> #[trigger] es[j].0 != key,
    ensures
        first_entry(es, key) is None,
    decreases es.len(),
{
    if es.len() > 0 {
        let t = es.drop_first();
        assert forall|j: int| 0 <= j < t.len() implies #[trigger] t[j].0 != key by {
            assert(t[j] == es[j + 1]);
        }
        lemma_first_entry_none(t, key);
    }
}

/// Looking up a key in two lists one after the other.
pub proof fn lemma_first_entry_concat(a: Seq<(Seq<char>, Tree)>, b: Seq<(Seq<char>, Tree)>, key: Seq<char>)
    ensures
        first_entry(a + b, key) == match first_entry(a, key) {
            Some(v) => Some(v),
            None => first_entry(b, key),
        },
    decreases a.len(),
{
    if a.len() > 0 {
        assert((a + b).drop_first() =~= a.drop_first() + b);
        lemma_first_entry_concat(a.drop_first(), b, key);
    } else {
        assert(a + b =~= b);
    }
}

// ---------------------------------------------------------------------------
/// A `Condition` node tests the condition's variable and carries the
/// condition's passing value: `false` for `@skip`, `true` for `@include`.
/// A condition on a literal is never generated.
pub proof fn law_condition_node(s: CodegenSettings, c: Condition)
    ensures
        condition_out(s, c).ok ==> c.value is Variable,
        condition_out(s, c).ok ==> field(condition_out(s, c).tree, "kind"@) == Some(
            Tree::Str("Condition"@),
        ),
        condition_out(s, c).ok ==> field(condition_out(s, c).tree, "condition"@) == Some(
            Tree::Str(c.value->Variable_0@),
        ),
        condition_out(s, c).ok ==> field(condition_out(s, c).tree, "passingValue"@) == Some(
            Tree::Bool(c.passing_value),
        ),
        condition_out(s, c).ok ==> field(condition_out(s, c).tree, "selections"@) is Some,
{
    reveal_strlit("condition");
    reveal_strlit("kind");
    reveal_strlit("passingValue");
    reveal_strlit("selections");
    assert("condition"@.len() == 9 && "kind"@.len() == 4 && "passingValue"@.len() == 12 && "selections"@.len()
        == 10);
    if condition_out(s, c).ok {
        let es = condition_out(s, c).tree->Object_0;
        lemma_first_entry_at(es, 0, "condition"@);
        lemma_first_entry_at(es, 1, "kind"@);
        lemma_first_entry_at(es, 2, "passingValue"@);
        lemma_first_entry_at(es, 3, "selections"@);
    }
}

/// The node of an argument whose value is the variable `$v` names the
/// argument and reads the variable `v`.
pub proof fn law_variable_argument(name: Seq<char>, v: String)
    ensures
        argument_tree(name, Value::Variable(v)) is Some,
        field(argument_tree(name, Value::Variable(v))->0, "kind"@) == Some(Tree::Str("Variable"@)),
        field(argument_tree(name, Value::Variable(v))->0, "name"@) == Some(Tree::Str(name)),
        field(argument_tree(name, Value::Variable(v))->0, "variableName"@) == Some(Tree::Str(v@)),
{
    reveal_strlit("kind");
    reveal_strlit("name");
    reveal_strlit("variableName");
    assert("kind"@.len() == 4 && "name"@.len() == 4 && "variableName"@.len() == 12);
    assert("kind"@[0] != "name"@[0]);
    let es = argument_tree(name, Value::Variable(v))->0->Object_0;
    lemma_first_entry_at(es, 0, "kind"@);
    lemma_first_entry_at(es, 1, "name"@);
    lemma_first_entry_at(es, 2, "variableName"@);
}

/// Looking up a key in an entry that may be absent.
pub proof fn lemma_opt_entry(b: bool, e: (Seq<char>, Tree), key: Seq<char>)
    ensures
        first_entry(opt_entry(b, e), key) == if b && e.0 == key {
            Some(e.1)
        } else {
            None
        },
{
    if b {
        if e.0 == key {
            lemma_first_entry_at(opt_entry(b, e), 0, key);
        } else {
            lemma_first_entry_none(opt_entry(b, e), key);
        }
    } else {
        lemma_first_entry_none(opt_entry(b, e), key);
    }
}

/// The `LinkedField` node of a field (inside its `RequiredField` node when
/// the field is `@required` and that is kept) is plural exactly when the
/// schema field's type is a list, and its concrete type is the field's type
/// unless that type is abstract.
#[verifier::rlimit(60)]
pub proof fn law_linked_field_node(s: CodegenSettings, f: LinkedField, drop_required: bool)
    requires
        linked_field_out(s, f, drop_required).ok,
    ensures
        ({
            let t = linked_field_out(s, f, drop_required).tree;
            let wrapped = !drop_required && find_required(f.directives@) is Some;
            let node = if wrapped {
                field(t, "field"@)->0
            } else {
                t
            };
            &&& wrapped ==> field(t, "kind"@) == Some(Tree::Str("RequiredField"@))
            &&& wrapped ==> field(t, "field"@) is Some
            &&& field(node, "kind"@) == Some(Tree::Str("LinkedField"@))
            &&& s.variant == CodegenVariant::Normalization ==> field(node, "name"@) == Some(
                Tree::Str(f.definition.name@),
            )
            &&& s.variant == CodegenVariant::Normalization ==> field(node, "alias"@) == Some(
                match f.alias {
                    Some(a) => if a@ != f.definition.name@ {
                        Tree::Str(a@)
                    } else {
                        Tree::SkippableNull
                    },
                    None => Tree::SkippableNull,
                },
            )
            &&& field(node, "plural"@) == Some(Tree::Bool(f.definition.is_list))
            &&& field(node, "concreteType"@) == Some(
                if f.definition.type_is_abstract {
                    Tree::SkippableNull
                } else {
                    Tree::Str(f.definition.inner_type@)
                },
            )
        }),
{
    reveal_strlit("alias");
    reveal_strlit("args");
    reveal_strlit("concreteType");
    reveal_strlit("kind");
    reveal_strlit("field");
    reveal_strlit("plural");
    reveal_strlit("name");
    assert("alias"@.len() == 5 && "args"@.len() == 4 && "concreteType"@.len() == 12 && "kind"@.len() == 4
        && "name"@.len() == 4 && "plural"@.len() == 6 && "field"@.len() == 5);
    assert("args"@[0] != "kind"@[0]);
    lemma_key_facts();
    let t = linked_field_out(s, f, drop_required).tree;
    let wrapped = !drop_required && find_required(f.directives@) is Some;
    if wrapped {
        let es = t->Object_0;
        lemma_first_entry_at(es, 0, "kind"@);
        lemma_first_entry_at(es, 1, "field"@);
    }
    let node = if wrapped {
        field(t, "field"@)->0
    } else {
        t
    };
    let es = node->Object_0;
    lemma_first_entry_at(es, 2, "concreteType"@);
    lemma_first_entry_at(es, 3, "kind"@);
    lemma_first_entry_at(es, 5, "plural"@);
    lemma_first_entry_at(es, 0, "alias"@);
    lemma_first_entry_at(es, 4, "name"@);
}

/// The request parameters carry the request's name, the keyword of its
/// operation kind (`query`, `mutation` or `subscription`, three different
/// strings), its text, and the `cacheID` exactly when one is given.
pub proof fn law_request_parameters_fields(
    config: ProjectConfig,
    op: OperationDefinition,
    rp: RequestParameters,
    tls: TopLevelStatements,
    cache_id: Option<Seq<char>>,
)
    ensures
        ({
            let t = request_parameters_tree(config, op, rp, tls, cache_id);
            &&& field(t, "operationKind"@) == Some(
                Tree::Str(
                    match rp.operation_kind {
                        OperationKind::Query => "query"@,
                        OperationKind::Mutation => "mutation"@,
                        OperationKind::Subscription => "subscription"@,
                    },
                ),
            )
            &&& field(t, "name"@) == Some(Tree::Str(rp.name@))
            &&& field(t, "id"@) == Some(
                match rp.id {
                    Some(QueryID::Persisted { id, .. }) => Tree::RawStr(id@),
                    Some(QueryID::External(m)) => Tree::JSModule(
                        JSModV { path: m@, named_import: None, import_as: None },
                    ),
                    None => Tree::Null,
                },
            )
            &&& field(t, "text"@) == Some(
                match rp.text {
                    Some(x) => Tree::RawStr(x@),
                    None => Tree::Null,
                },
            )
            &&& field(t, "cacheID"@) == match cache_id {
                Some(c) => Some(Tree::RawStr(c)),
                None => None,
            }
        }),
        "query"@ != "mutation"@ && "query"@ != "subscription"@ && "mutation"@ != "subscription"@,
{
    reveal_strlit("query");
    reveal_strlit("mutation");
    reveal_strlit("subscription");
    reveal_strlit("operationKind");
    reveal_strlit("name");
    reveal_strlit("text");
    reveal_strlit("cacheID");
    reveal_strlit("id");
    reveal_strlit("metadata");
    reveal_strlit("providedVariables");
    assert("query"@.len() == 5 && "mutation"@.len() == 8 && "subscription"@.len() == 12);
    assert("operationKind"@.len() == 13 && "name"@.len() == 4 && "text"@.len() == 4 && "cacheID"@.len() == 7
        && "id"@.len() == 2 && "metadata"@.len() == 8 && "providedVariables"@.len() == 17);
    assert("name"@[0] != "text"@[0]);
    let t = request_parameters_tree(config, op, rp, tls, cache_id);
    let es = t->Object_0;
    let head = match cache_id {
        Some(c) => seq![("cacheID"@, Tree::RawStr(c))],
        None => Seq::empty(),
    };
    let body = seq![
        ("id"@, crate::definition_trees::id_tree(rp.id)),
        ("metadata"@, Tree::Object(
            crate::definition_trees::sort_entries(
                crate::definition_trees::unsorted_metadata(op.directives@),
            ),
        )),
        ("name"@, Tree::Str(rp.name@)),
        ("operationKind"@, Tree::Str(crate::definition_trees::operation_kind_str(rp.operation_kind))),
        (
            "text"@,
            match rp.text {
                Some(x) => Tree::RawStr(x@),
                None => Tree::Null,
            },
        ),
    ];
    let pv = crate::definition_trees::provided_variables_entry(config, op, tls);
    assert(es == head + body + pv);
    assert(pv.len() <= 1);
    assert forall|key: Seq<char>|
        key == "operationKind"@ || key == "name"@ || key == "text"@ || key == "cacheID"@ || key == "id"@ implies first_entry(
        es,
        key,
    ) == match first_entry(head, key) {
        Some(v) => Some(v),
        None => match first_entry(body, key) {
            Some(v) => Some(v),
            None => first_entry(pv, key),
        },
    } by {
        lemma_first_entry_concat(head + body, pv, key);
        lemma_first_entry_concat(head, body, key);
    }
    if cache_id is Some {
        lemma_first_entry_at(head, 0, "cacheID"@);
    }
    lemma_first_entry_none(head, "operationKind"@);
    lemma_first_entry_none(head, "name"@);
    lemma_first_entry_none(head, "text"@);
    lemma_first_entry_none(head, "id"@);
    lemma_first_entry_at(body, 0, "id"@);
    lemma_first_entry_at(body, 3, "operationKind"@);
    lemma_first_entry_at(body, 2, "name"@);
    lemma_first_entry_at(body, 4, "text"@);
    lemma_first_entry_none(body, "cacheID"@);
    lemma_first_entry_none(pv, "cacheID"@);
}

/// The `cacheID` of request parameters is the hash of the text when there is
/// one; else, without an id, the hash of the operation's name; else absent.
pub proof fn law_request_cache_id(
    config: ProjectConfig,
    op: OperationDefinition,
    rp: RequestParameters,
    tls: TopLevelStatements,
)
    ensures
        field(request_parameters_tree(config, op, rp, tls, cache_id_of(rp, op.name@)), "cacheID"@) == match rp.text {
            Some(x) => Some(Tree::RawStr(md5_hex(x@))),
            None => if rp.id is None {
                Some(Tree::RawStr(md5_hex(op.name@)))
            } else {
                None
            },
        },
{
    law_request_parameters_fields(config, op, rp, tls, cache_id_of(rp, op.name@));
}

/// The entry `key` of a definition's `metadata`, if any.
pub open spec fn metadata_entry(t: Tree, key: Seq<char>) -> Option<Tree> {
    match field(t, "metadata"@) {
        Some(m) => field(m, key),
        None => None,
    }
}

proof fn lemma_fragment_metadata_entry(s: CodegenSettings, f: FragmentDefinition, key: Seq<char>)
    requires
        !has_tag(f.directives@, TAG_INLINE),
        key == "plural"@ || key == "mask"@ || key == "hasClientEdges"@ || key == "refetch"@,
    ensures
        ({
            let r = crate::definition_trees::find_relay(f.directives@);
            let m = metadata_entry(fragment_out(s, f, false).tree, key);
            &&& key == "plural"@ ==> m == if r is Some && r->0.plural {
                Some(Tree::Bool(true))
            } else {
                None
            }
            &&& key == "mask"@ ==> m == if r is Some && r->0.unmask {
                Some(Tree::Bool(false))
            } else {
                None
            }
            &&& key == "hasClientEdges"@ ==> m == if crate::selection_trees::selections_out(
                s,
                f.selections@,
                None,
            ).edges {
                Some(Tree::Bool(true))
            } else {
                None
            }
            &&& key == "refetch"@ ==> m == match crate::definition_trees::find_refetchable(f.directives@) {
                Some(rf) => Some(
                    crate::definition_trees::refetch_tree(
                        crate::definition_trees::find_connection(f.directives@),
                        rf,
                    ),
                ),
                None => None,
            }
        }),
{
    reveal_strlit("argumentDefinitions");
    reveal_strlit("kind");
    reveal_strlit("metadata");
    reveal_strlit("plural");
    reveal_strlit("mask");
    reveal_strlit("connection");
    reveal_strlit("hasClientEdges");
    reveal_strlit("refetch");
    assert("argumentDefinitions"@.len() == 19 && "kind"@.len() == 4 && "metadata"@.len() == 8
        && "plural"@.len() == 6 && "mask"@.len() == 4 && "connection"@.len() == 10
        && "hasClientEdges"@.len() == 14 && "refetch"@.len() == 7);
    assert("mask"@[0] != "kind"@[0]);
    let ds = f.directives@;
    let t = fragment_out(s, f, false).tree;
    lemma_first_entry_at(t->Object_0, 2, "metadata"@);
    let sel = crate::selection_trees::selections_out(s, f.selections@, None);
    let c = crate::definition_trees::find_connection(ds);
    let r = crate::definition_trees::find_relay(ds);
    let plural = r is Some && r->0.plural;
    let unmask = r is Some && r->0.unmask;
    let a = opt_entry(c is Some, crate::definition_trees::connection_entry(c->0@));
    let b = opt_entry(unmask, ("mask"@, Tree::Bool(false)));
    let cc = opt_entry(plural, ("plural"@, Tree::Bool(true)));
    let d = opt_entry(sel.edges, ("hasClientEdges"@, Tree::Bool(true)));
    let e = match crate::definition_trees::find_refetchable(ds) {
        Some(rf) => seq![("refetch"@, crate::definition_trees::refetch_tree(c, rf))],
        None => Seq::empty(),
    };
    let es = crate::definition_trees::fragment_metadata_entries(sel.edges, ds);
    assert(es == a + b + cc + d + e);
    lemma_first_entry_concat(a + b + cc + d, e, key);
    lemma_first_entry_concat(a + b + cc, d, key);
    lemma_first_entry_concat(a + b, cc, key);
    lemma_first_entry_concat(a, b, key);
    lemma_opt_entry(c is Some, crate::definition_trees::connection_entry(c->0@), key);
    lemma_opt_entry(unmask, ("mask"@, Tree::Bool(false)), key);
    lemma_opt_entry(plural, ("plural"@, Tree::Bool(true)), key);
    lemma_opt_entry(sel.edges, ("hasClientEdges"@, Tree::Bool(true)), key);
    if key == "refetch"@ && crate::definition_trees::find_refetchable(ds) is Some {
        lemma_first_entry_at(e, 0, key);
    } else {
        lemma_first_entry_none(e, key);
    }
    if es.len() == 0 {
        lemma_first_entry_none(es, key);
    }
}

/// The reader AST of a fragment whose first `@relay` directive is `r` has
/// `plural: true` in its metadata exactly when `r` is plural, and `mask:
/// false` exactly when `r` unmasks it, each whatever the other is.
pub proof fn law_fragment_relay_metadata(s: CodegenSettings, f: FragmentDefinition, i: int, r: RelayDirective)
    requires
        !has_tag(f.directives@, TAG_INLINE),
        0 <= i < f.directives@.len(),
        f.directives@[i].kind == DirectiveKind::Relay(r),
        forall|j: int| 0 <= j < i ==> kind_tag(#[trigger] f.directives@[j].kind) != TAG_RELAY,
    ensures
        metadata_entry(fragment_out(s, f, false).tree, "plural"@) == if r.plural {
            Some(Tree::Bool(true))
        } else {
            None
        },
        metadata_entry(fragment_out(s, f, false).tree, "mask"@) == if r.unmask {
            Some(Tree::Bool(false))
        } else {
            None
        },
{
    reveal_strlit("plural");
    reveal_strlit("mask");
    reveal_strlit("hasClientEdges");
    assert("plural"@.len() == 6 && "mask"@.len() == 4 && "hasClientEdges"@.len() == 14);
    lemma_find_tag(f.directives@, TAG_RELAY, i);
    lemma_fragment_metadata_entry(s, f, "plural"@);
    lemma_fragment_metadata_entry(s, f, "mask"@);
}

/// A fragment without `@relay` has neither `plural` nor `mask` in its metadata.
pub proof fn law_fragment_without_relay(s: CodegenSettings, f: FragmentDefinition)
    requires
        !has_tag(f.directives@, TAG_INLINE),
        !has_tag(f.directives@, TAG_RELAY),
    ensures
        metadata_entry(fragment_out(s, f, false).tree, "plural"@) is None,
        metadata_entry(fragment_out(s, f, false).tree, "mask"@) is None,
{
    reveal_strlit("plural");
    reveal_strlit("mask");
    reveal_strlit("hasClientEdges");
    assert("plural"@.len() == 6 && "mask"@.len() == 4 && "hasClientEdges"@.len() == 14);
    lemma_fragment_metadata_entry(s, f, "plural"@);
    lemma_fragment_metadata_entry(s, f, "mask"@);
}

// ---------------------------------------------------------------------------
/// The lengths and first characters of the property names, which tell them apart.
pub proof fn lemma_key_facts()
    ensures
        "alias"@.len() == 5 && "alias"@[0] == 'a',
        "args"@.len() == 4 && "args"@[0] == 'a',
        "kind"@.len() == 4 && "kind"@[0] == 'k',
        "name"@.len() == 4 && "name"@[0] == 'n',
        "type"@.len() == 4 && "type"@[0] == 't',
        "path"@.len() == 4 && "path"@[0] == 'p',
        "text"@.len() == 4 && "text"@[0] == 't',
        "storageKey"@.len() == 10,
        "selections"@.len() == 10 && "selections"@[0] == 's',
        "value"@.len() == 5 && "value"@[0] == 'v',
        "items"@.len() == 5 && "items"@[0] == 'i',
        "field"@.len() == 5 && "field"@[0] == 'f',
        "count"@.len() == 5 && "count"@[0] == 'c',
        "cursor"@.len() == 6 && "cursor"@[0] == 'c',
        "action"@.len() == 6 && "action"@[0] == 'a',
        "fields"@.len() == 6,
        "plural"@.len() == 6 && "plural"@[0] == 'p',
        "direction"@.len() == 9,
        "abstractKey"@.len() == 11,
        "metadata"@.len() == 8,
        "argumentDefinitions"@.len() == 19,
        "defaultValue"@.len() == 12,
        "concreteType"@.len() == 12,
        "id"@.len() == 2,
        "cacheID"@.len() == 7,
        "operationKind"@.len() == 13,
        "forward"@.len() == 7,
        "backward"@.len() == 8,
{
    reveal_strlit("alias");
    reveal_strlit("args");
    reveal_strlit("kind");
    reveal_strlit("name");
    reveal_strlit("type");
    reveal_strlit("path");
    reveal_strlit("text");
    reveal_strlit("storageKey");
    reveal_strlit("selections");
    reveal_strlit("value");
    reveal_strlit("items");
    reveal_strlit("field");
    reveal_strlit("count");
    reveal_strlit("cursor");
    reveal_strlit("action");
    reveal_strlit("fields");
    reveal_strlit("plural");
    reveal_strlit("direction");
    reveal_strlit("abstractKey");
    reveal_strlit("metadata");
    reveal_strlit("argumentDefinitions");
    reveal_strlit("defaultValue");
    reveal_strlit("concreteType");
    reveal_strlit("id");
    reveal_strlit("cacheID");
    reveal_strlit("operationKind");
    reveal_strlit("forward");
    reveal_strlit("backward");
}

/// Some argument's value is a variable, at the top level.
pub open spec fn some_variable_argument(args: Seq<Argument>) -> bool {
    exists|i: int| 0 <= i < args.len() && #[trigger] args[i].value is Variable
}

proof fn lemma_args_have_variable(args: Seq<Argument>, i: int)
    requires
        0 <= i < args.len(),
        args[i].value is Variable,
    ensures
        args_have_variable(args),
    decreases args.len(),
{
    let p = args.subrange(0, args.len() - 1);
    if i < args.len() - 1 {
        assert(p[i] == args[i]);
        lemma_args_have_variable(p, i);
    } else {
        assert(value_has_variable(args[i].value));
    }
}

/// The `ScalarField` node of a field in the normalization AST names the
/// schema field, gives its alias only when it differs from the name, and has
/// neither `args` nor `storageKey` without arguments, and no `storageKey` when
/// an argument is a variable.
pub proof fn law_scalar_field_node(s: CodegenSettings, f: ScalarField)
    requires
        s.variant == CodegenVariant::Normalization,
        scalar_field_out(s, f).ok,
        find_required(f.directives@) is None,
        !has_tag(f.directives@, TAG_REACT_FLIGHT),
    ensures
        ({
            let t = scalar_field_out(s, f).tree;
            let name = f.definition.name@;
            &&& field(t, "kind"@) == Some(Tree::Str("ScalarField"@))
            &&& field(t, "name"@) == Some(Tree::Str(name))
            &&& field(t, "alias"@) == Some(
                match f.alias {
                    Some(a) => if a@ != name {
                        Tree::Str(a@)
                    } else {
                        Tree::SkippableNull
                    },
                    None => Tree::SkippableNull,
                },
            )
            &&& f.arguments@.len() == 0 ==> field(t, "args"@) == Some(Tree::SkippableNull)
            &&& f.arguments@.len() == 0 ==> field(t, "storageKey"@) == Some(Tree::SkippableNull)
            &&& some_variable_argument(f.arguments@) ==> field(t, "storageKey"@) == Some(
                Tree::SkippableNull,
            )
        }),
{
    lemma_key_facts();
    reveal_strlit("ScalarField");
    let t = scalar_field_out(s, f).tree;
    let es = t->Object_0;
    lemma_first_entry_at(es, 0, "alias"@);
    lemma_first_entry_at(es, 1, "args"@);
    lemma_first_entry_at(es, 2, "kind"@);
    lemma_first_entry_at(es, 3, "name"@);
    lemma_first_entry_at(es, 4, "storageKey"@);
    if some_variable_argument(f.arguments@) {
        let i = choose|i: int| 0 <= i < f.arguments@.len() && #[trigger] f.arguments@[i].value is Variable;
        lemma_args_have_variable(f.arguments@, i);
    }
    if f.arguments@.len() == 0 {
        assert(crate::strings::sort_by_name(crate::arguments::arg_names(f.arguments@), 0) =~= Seq::<usize>::empty());
        assert(crate::arguments::arg_names(f.arguments@).len() == 0);
        assert(arguments_tree(f.arguments@) is None);
    }
}

/// A literal argument names the argument and carries the literal: an integer,
/// string, boolean or enum literal as that value; a null literal gives no node.
pub proof fn law_literal_argument(name: Seq<char>, c: ConstantValue)
    ensures
        c is Null <==> argument_tree(name, Value::Constant(c)) is None,
        !(c is Null) ==> field(argument_tree(name, Value::Constant(c))->0, "kind"@) == Some(
            Tree::Str("Literal"@),
        ),
        !(c is Null) ==> field(argument_tree(name, Value::Constant(c))->0, "name"@) == Some(
            Tree::Str(name),
        ),
        c is Int ==> field(argument_tree(name, Value::Constant(c))->0, "value"@) == Some(
            Tree::Int(c->Int_0 as int),
        ),
        c is String ==> field(argument_tree(name, Value::Constant(c))->0, "value"@) == Some(
            Tree::Str(c->String_0@),
        ),
        c is Boolean ==> field(argument_tree(name, Value::Constant(c))->0, "value"@) == Some(
            Tree::Bool(c->Boolean_0),
        ),
        c is Enum ==> field(argument_tree(name, Value::Constant(c))->0, "value"@) == Some(
            Tree::Str(c->Enum_0@),
        ),
{
    lemma_key_facts();
    if !(c is Null) {
        let es = argument_tree(name, Value::Constant(c))->0->Object_0;
        lemma_first_entry_at(es, 0, "kind"@);
        lemma_first_entry_at(es, 1, "name"@);
        lemma_first_entry_at(es, 2, "value"@);
    }
}

proof fn lemma_list_items(name: Seq<char>, vs: Seq<Value>, i: int)
    requires
        0 <= i < vs.len(),
    ensures
        list_item_trees(name, vs).len() == vs.len(),
        list_item_trees(name, vs)[i] == match argument_tree(crate::arguments::item_name(name, i as nat), vs[i]) {
            Some(t) => t,
            None => Tree::Null,
        },
    decreases vs.len(),
{
    let p = vs.subrange(0, vs.len() - 1);
    if i < vs.len() - 1 {
        assert(p[i] == vs[i]);
        lemma_list_items(name, p, i);
    } else if p.len() > 0 {
        lemma_list_items(name, p, 0);
    } else {
        assert(list_item_trees(name, p).len() == 0);
    }
}

/// A list argument names the argument and has one item per element; an
/// element that is the variable `$v` reads `v`.
pub proof fn law_list_argument(name: Seq<char>, vs: Vec<Value>)
    ensures
        field(argument_tree(name, Value::List(vs))->0, "kind"@) == Some(Tree::Str("ListValue"@)),
        field(argument_tree(name, Value::List(vs))->0, "name"@) == Some(Tree::Str(name)),
        field(argument_tree(name, Value::List(vs))->0, "items"@) is Some,
        field(argument_tree(name, Value::List(vs))->0, "items"@)->0 is Array,
        field(argument_tree(name, Value::List(vs))->0, "items"@)->0->Array_0.len() == vs@.len(),
        forall|i: int|
            0 <= i < vs@.len() && #[trigger] vs@[i] is Variable ==> field(
                field(argument_tree(name, Value::List(vs))->0, "items"@)->0->Array_0[i],
                "variableName"@,
            ) == Some(Tree::Str(vs@[i]->Variable_0@)),
{
    lemma_key_facts();
    let es = argument_tree(name, Value::List(vs))->0->Object_0;
    lemma_first_entry_at(es, 0, "items"@);
    lemma_first_entry_at(es, 1, "kind"@);
    lemma_first_entry_at(es, 2, "name"@);
    if vs@.len() > 0 {
        lemma_list_items(name, vs@, 0);
    } else {
        assert(list_item_trees(name, vs@) =~= Seq::<Tree>::empty());
    }
    assert forall|i: int|
        0 <= i < vs@.len() && #[trigger] vs@[i] is Variable implies field(
            field(argument_tree(name, Value::List(vs))->0, "items"@)->0->Array_0[i],
            "variableName"@,
        ) == Some(Tree::Str(vs@[i]->Variable_0@)) by {
        lemma_list_items(name, vs@, i);
        law_variable_argument(crate::arguments::item_name(name, i as nat), vs@[i]->Variable_0);
    }
}

/// A `RequiredField` node wraps the field, carries the path, and the action
/// `NONE`, `LOG` or `THROW` of the directive.
pub proof fn law_required_node(md: RequiredMetadata, t: Tree)
    ensures
        field(required_tree(md, t), "kind"@) == Some(Tree::Str("RequiredField"@)),
        field(required_tree(md, t), "field"@) == Some(t),
        field(required_tree(md, t), "path"@) == Some(Tree::Str(md.path@)),
        field(required_tree(md, t), "action"@) == Some(
            Tree::Str(
                match md.action {
                    RequiredAction::Nothing => "NONE"@,
                    RequiredAction::Log => "LOG"@,
                    RequiredAction::Throw => "THROW"@,
                },
            ),
        ),
{
    lemma_key_facts();
    let es = required_tree(md, t)->Object_0;
    lemma_first_entry_at(es, 0, "kind"@);
    lemma_first_entry_at(es, 1, "field"@);
    lemma_first_entry_at(es, 2, "action"@);
    lemma_first_entry_at(es, 3, "path"@);
}

/// The count and cursor of a connection follow its direction: `first` and
/// `after` forward, `last` and `before` backward, none otherwise.
pub proof fn law_connection_direction(m: ConnectionMetadata)
    ensures
        field(connection_tree(m), "direction"@) == Some(Tree::Str(m.direction@)),
        field(connection_tree(m), "count"@) == Some(
            crate::selection_trees::str_or_null(
                if m.direction@ == "forward"@ {
                    opt_str_view(m.first)
                } else if m.direction@ == "backward"@ {
                    opt_str_view(m.last)
                } else {
                    None
                },
            ),
        ),
        field(connection_tree(m), "cursor"@) == Some(
            crate::selection_trees::str_or_null(
                if m.direction@ == "forward"@ {
                    opt_str_view(m.after)
                } else if m.direction@ == "backward"@ {
                    opt_str_view(m.before)
                } else {
                    None
                },
            ),
        ),
{
    lemma_key_facts();
    let es = connection_tree(m)->Object_0;
    lemma_first_entry_at(es, 0, "count"@);
    lemma_first_entry_at(es, 1, "cursor"@);
    lemma_first_entry_at(es, 2, "direction"@);
}

/// The reader AST of a fragment names it, gives its type condition, and the
/// key `__is<Type>` exactly when the type is abstract; a fragment with
/// `@inline` becomes an `InlineDataFragment` of the same name.
pub proof fn law_fragment_node(s: CodegenSettings, f: FragmentDefinition, skip_metadata: bool)
    ensures
        ({
            let t = fragment_out(s, f, skip_metadata).tree;
            &&& field(t, "name"@) == Some(Tree::Str(f.name@))
            &&& has_tag(f.directives@, TAG_INLINE) ==> field(t, "kind"@) == Some(
                Tree::Str("InlineDataFragment"@),
            )
            &&& !has_tag(f.directives@, TAG_INLINE) ==> field(t, "kind"@) == Some(Tree::Str("Fragment"@))
            &&& !has_tag(f.directives@, TAG_INLINE) ==> field(t, "type"@) == Some(
                Tree::Str(f.type_condition.name@),
            )
            &&& !has_tag(f.directives@, TAG_INLINE) ==> field(t, "abstractKey"@) == Some(
                if f.type_condition.is_abstract {
                    Tree::Str("__is"@ + f.type_condition.name@)
                } else {
                    Tree::SkippableNull
                },
            )
        }),
{
    lemma_key_facts();
    reveal_strlit("__is");
    let es = fragment_out(s, f, skip_metadata).tree->Object_0;
    if has_tag(f.directives@, TAG_INLINE) {
        lemma_first_entry_at(es, 0, "kind"@);
        lemma_first_entry_at(es, 1, "name"@);
    } else {
        lemma_first_entry_at(es, 1, "kind"@);
        lemma_first_entry_at(es, 3, "name"@);
        lemma_first_entry_at(es, 5, "type"@);
        lemma_first_entry_at(es, 6, "abstractKey"@);
    }
}

/// The normalization AST of an operation names it; it is a `SplitOperation`
/// exactly when the operation has that directive, and otherwise an
/// `Operation` whose argument definitions are its variables, in order.
pub proof fn law_operation_node(s: CodegenSettings, op: OperationDefinition)
    ensures
        ({
            let t = operation_out(s, op).tree;
            &&& field(t, "name"@) == Some(Tree::Str(op.name@))
            &&& field(t, "kind"@) == Some(
                Tree::Str(
                    if has_tag(op.directives@, TAG_SPLIT_OPERATION) {
                        "SplitOperation"@
                    } else {
                        "Operation"@
                    },
                ),
            )
            &&& !has_tag(op.directives@, TAG_SPLIT_OPERATION) ==> {
                &&& field(t, "argumentDefinitions"@) is Some
                &&& field(t, "argumentDefinitions"@)->0 is Array
                &&& field(t, "argumentDefinitions"@)->0->Array_0.len() == op.variable_definitions@.len()
                &&& forall|i: int|
                    0 <= i < op.variable_definitions@.len() ==> field(
                        #[trigger] field(t, "argumentDefinitions"@)->0->Array_0[i],
                        "name"@,
                    ) == Some(Tree::Str(op.variable_definitions@[i].name@))
            }
        }),
{
    lemma_key_facts();
    let t = operation_out(s, op).tree;
    let es = t->Object_0;
    if has_tag(op.directives@, TAG_SPLIT_OPERATION) {
        let d = opt_entry(
            op.variable_definitions@.len() > 0,
            (
                "argumentDefinitions"@,
                crate::arguments::operation_variable_definitions_tree(op.variable_definitions@),
            ),
        );
        let n = d.len() as int;
        lemma_first_entry_at(es, n, "kind"@);
        lemma_first_entry_at(es, n + 2, "name"@);
    } else {
        lemma_first_entry_at(es, 0, "argumentDefinitions"@);
        lemma_first_entry_at(es, 1, "kind"@);
        lemma_first_entry_at(es, 2, "name"@);
        assert forall|i: int| 0 <= i < op.variable_definitions@.len() implies field(
            #[trigger] field(t, "argumentDefinitions"@)->0->Array_0[i],
            "name"@,
        ) == Some(Tree::Str(op.variable_definitions@[i].name@)) by {
            let ls = crate::arguments::local_argument_tree(op.variable_definitions@[i])->Object_0;
            lemma_first_entry_at(ls, 2, "name"@);
        }
    }
}

/// An inline fragment with a type condition, generated as an
/// `InlineFragment` node, gives the type's name and the key `__is<Type>`
/// exactly when the type is abstract.
pub proof fn law_inline_fragment_node(s: CodegenSettings, f: InlineFragment)
    requires
        f.type_condition is Some,
        find_alias(f.directives@) is None,
        !(s.variant == CodegenVariant::Normalization && f.type_condition->0.is_abstract && exists|i: int|
            0 <= i < f.selections@.len() && is_discriminator_for(
                #[trigger] f.selections@[i],
                abstract_type_key(f.type_condition->0.name@),
            )),
    ensures
        ({
            let t = inline_fragment_out(s, f).tree;
            let tc = f.type_condition->0;
            &&& field(t, "kind"@) == Some(Tree::Str("InlineFragment"@))
            &&& field(t, "type"@) == Some(Tree::Str(tc.name@))
            &&& field(t, "abstractKey"@) == Some(
                if tc.is_abstract {
                    Tree::Str("__is"@ + tc.name@)
                } else {
                    Tree::SkippableNull
                },
            )
        }),
{
    lemma_key_facts();
    reveal_strlit("__is");
    let es = inline_fragment_out(s, f).tree->Object_0;
    lemma_first_entry_at(es, 0, "kind"@);
    lemma_first_entry_at(es, 2, "type"@);
    lemma_first_entry_at(es, 3, "abstractKey"@);
}

proof fn lemma_named_argument_at(args: Seq<Argument>, i: int, name: Seq<char>)
    requires
        0 <= i < args.len(),
        args[i].name@ == name,
        forall|j: int| 0 <= j < i ==> #[trigger] args[j].name@ != name,
    ensures
        named_argument(args, name) == Some(args[i]),
    decreases i,
{
    if i > 0 {
        let t = args.drop_first();
        assert forall|j: int| 0 <= j < i - 1 implies #[trigger] t[j].name@ != name by {
            assert(t[j] == args[j + 1]);
        }
        lemma_named_argument_at(t, i - 1, name);
    }
}

proof fn lemma_named_argument_none(args: Seq<Argument>, name: Seq<char>)
    requires
        forall|j: int| 0 <= j < args.len() ==> #[trigger] args[j].name@ != name,
    ensures
        named_argument(args, name) is None,
    decreases args.len(),
{
    if args.len() > 0 {
        let t = args.drop_first();
        assert forall|j: int| 0 <= j < t.len() implies #[trigger] t[j].name@ != name by {
            assert(t[j] == args[j + 1]);
        }
        lemma_named_argument_none(t, name);
    }
}

/// The arguments of a `@defer`/`@stream` directive: its label is the string
/// literal `label`, the first one of that name, and its `if` argument is
/// absent or the variable `cond` (the first one of that name).
pub open spec fn deferred_arguments(d: Directive, label: Seq<char>, cond: Option<Seq<char>>) -> bool {
    &&& exists|i: int|
        0 <= i < d.arguments@.len() && d.arguments@[i].name@ == "label"@ && (forall|j: int|
            0 <= j < i ==> #[trigger] d.arguments@[j].name@ != "label"@) && #[trigger] d.arguments@[i].value
            is Constant && d.arguments@[i].value->Constant_0 is String
            && d.arguments@[i].value->Constant_0->String_0@ == label
    &&& match cond {
        None => forall|j: int| 0 <= j < d.arguments@.len() ==> #[trigger] d.arguments@[j].name@ != "if"@,
        Some(v) => exists|i: int|
            0 <= i < d.arguments@.len() && d.arguments@[i].name@ == "if"@ && (forall|j: int|
                0 <= j < i ==> #[trigger] d.arguments@[j].name@ != "if"@) && #[trigger] d.arguments@[i].value
                is Variable && d.arguments@[i].value->Variable_0@ == v,
    }
}

proof fn lemma_deferred_entries(d: Directive, kind: Seq<char>, sels: Tree, label: Seq<char>, cond: Option<Seq<char>>)
    requires
        deferred_arguments(d, label, cond),
    ensures
        crate::selection_trees::deferred_entries(d, kind, sels) is Some,
        first_entry(crate::selection_trees::deferred_entries(d, kind, sels)->0, "kind"@) == Some(Tree::Str(kind)),
        first_entry(crate::selection_trees::deferred_entries(d, kind, sels)->0, "label"@) == Some(Tree::Str(label)),
        first_entry(crate::selection_trees::deferred_entries(d, kind, sels)->0, "if"@) == Some(
            crate::selection_trees::str_or_null(cond),
        ),
{
    lemma_key_facts();
    reveal_strlit("label");
    reveal_strlit("if");
    assert("label"@.len() == 5 && "if"@.len() == 2);
    assert("label"@[0] == 'l');
    let args = d.arguments@;
    let i = choose|i: int|
        0 <= i < d.arguments@.len() && d.arguments@[i].name@ == "label"@ && (forall|j: int|
            0 <= j < i ==> #[trigger] d.arguments@[j].name@ != "label"@) && #[trigger] d.arguments@[i].value
            is Constant && d.arguments@[i].value->Constant_0 is String
            && d.arguments@[i].value->Constant_0->String_0@ == label;
    lemma_named_argument_at(args, i, "label"@);
    match cond {
        None => {
            lemma_named_argument_none(args, "if"@);
        },
        Some(v) => {
            let k = choose|k: int|
                0 <= k < d.arguments@.len() && d.arguments@[k].name@ == "if"@ && (forall|j: int|
                    0 <= j < k ==> #[trigger] d.arguments@[j].name@ != "if"@) && #[trigger] d.arguments@[k].value
                    is Variable && d.arguments@[k].value->Variable_0@ == v;
            lemma_named_argument_at(args, k, "if"@);
        },
    }
    let es = crate::selection_trees::deferred_entries(d, kind, sels)->0;
    lemma_first_entry_at(es, 0, "if"@);
    lemma_first_entry_at(es, 1, "kind"@);
    lemma_first_entry_at(es, 2, "label"@);
}

/// In the normalization AST, the `Defer` node of an inline fragment whose
/// first `@defer` directive is `ds[k]` carries that directive's label and the
/// variable of its `if` argument (null without one).
pub proof fn law_defer_node(s: CodegenSettings, f: InlineFragment, k: int, label: Seq<char>, cond: Option<Seq<char>>)
    requires
        s.variant == CodegenVariant::Normalization,
        0 <= k < f.directives@.len(),
        kind_tag(f.directives@[k].kind) == TAG_DEFER,
        forall|j: int| 0 <= j < k ==> kind_tag(#[trigger] f.directives@[j].kind) != TAG_DEFER,
        deferred_arguments(f.directives@[k], label, cond),
    ensures
        defer_out(s, f).ok == crate::selection_trees::selections_out(s, f.selections@, None).ok,
        field(defer_out(s, f).tree, "kind"@) == Some(Tree::Str("Defer"@)),
        field(defer_out(s, f).tree, "label"@) == Some(Tree::Str(label)),
        field(defer_out(s, f).tree, "if"@) == Some(crate::selection_trees::str_or_null(cond)),
{
    lemma_find_tag(f.directives@, TAG_DEFER, k);
    let inner = crate::selection_trees::selections_out(s, f.selections@, None);
    lemma_deferred_entries(f.directives@[k], crate::constants::DEFER@, Tree::Array(inner.trees), label, cond);
}

/// In the normalization AST, the `Stream` node of a linked field whose first
/// `@stream` directive is `ds[k]` carries that directive's label and the
/// variable of its `if` argument (null without one).
pub proof fn law_stream_node(s: CodegenSettings, f: LinkedField, k: int, label: Seq<char>, cond: Option<Seq<char>>)
    requires
        s.variant == CodegenVariant::Normalization,
        0 <= k < f.directives@.len(),
        kind_tag(f.directives@[k].kind) == TAG_STREAM,
        forall|j: int| 0 <= j < k ==> kind_tag(#[trigger] f.directives@[j].kind) != TAG_STREAM,
        deferred_arguments(f.directives@[k], label, cond),
    ensures
        field(stream_out(s, f).tree, "kind"@) == Some(Tree::Str("Stream"@)),
        field(stream_out(s, f).tree, "label"@) == Some(Tree::Str(label)),
        field(stream_out(s, f).tree, "if"@) == Some(crate::selection_trees::str_or_null(cond)),
{
    lemma_find_tag(f.directives@, TAG_STREAM, k);
    let inner = crate::selection_trees::linked_field_and_handles_out(s, f);
    lemma_deferred_entries(f.directives@[k], crate::constants::STREAM@, Tree::Array(inner.trees), label, cond);
}

/// A `TypeDiscriminator` node carries the field's alias as its abstract key.
pub proof fn law_type_discriminator_node(f: ScalarField)
    ensures
        type_discriminator_out(f).ok <==> f.alias is Some,
        f.alias is Some ==> field(type_discriminator_out(f).tree, "kind"@) == Some(
            Tree::Str("TypeDiscriminator"@),
        ),
        f.alias is Some ==> field(type_discriminator_out(f).tree, "abstractKey"@) == Some(
            Tree::Str(f.alias->0@),
        ),
{
    lemma_key_facts();
    if f.alias is Some {
        let es = type_discriminator_out(f).tree->Object_0;
        lemma_first_entry_at(es, 0, "kind"@);
        lemma_first_entry_at(es, 1, "abstractKey"@);
    }
}

/// A spread of a fragment without `@no_inline`, `@alias`, a resolver or
/// (in the normalization AST) a server component is a `FragmentSpread` node
/// naming the fragment.
pub proof fn law_fragment_spread_node(s: CodegenSettings, f: FragmentSpread)
    requires
        !has_tag(f.directives@, TAG_NO_INLINE),
        !has_tag(f.directives@, TAG_FRAGMENT_ALIAS),
        !has_tag(f.directives@, TAG_RESOLVER),
        !has_tag(f.directives@, TAG_CLIENT_COMPONENT_SERVER),
    ensures
        fragment_spread_out(s, f).ok,
        field(fragment_spread_out(s, f).tree, "kind"@) == Some(Tree::Str("FragmentSpread"@)),
        field(fragment_spread_out(s, f).tree, "name"@) == Some(Tree::Str(f.fragment@)),
{
    lemma_key_facts();
    let es = fragment_spread_out(s, f).tree->Object_0;
    lemma_first_entry_at(es, 1, "kind"@);
    lemma_first_entry_at(es, 2, "name"@);
}

/// The reader AST of a fragment records `hasClientEdges: true` in its
/// metadata exactly when generating its selections generated a client edge.
pub proof fn law_fragment_client_edges(s: CodegenSettings, f: FragmentDefinition)
    requires
        !has_tag(f.directives@, TAG_INLINE),
    ensures
        metadata_entry(fragment_out(s, f, false).tree, "hasClientEdges"@) == if crate::selection_trees::selections_out(
            s,
            f.selections@,
            None,
        ).edges {
            Some(Tree::Bool(true))
        } else {
            None
        },
        fragment_out(s, f, false).edges == crate::selection_trees::selections_out(s, f.selections@, None).edges,
{
    reveal_strlit("hasClientEdges");
    reveal_strlit("plural");
    reveal_strlit("mask");
    assert("hasClientEdges"@.len() == 14 && "plural"@.len() == 6 && "mask"@.len() == 4);
    lemma_fragment_metadata_entry(s, f, "hasClientEdges"@);
}

/// A client edge is generated as a node that records a client edge: to a
/// server object, naming the query that fetches it, or to a client object,
/// naming its concrete type; inside a `RequiredField` node when `@required`.
#[verifier::rlimit(80)]
pub proof fn law_client_edge_node(
    s: CodegenSettings,
    f: InlineFragment,
    md: ClientEdgeMetadataDirective,
    required: Option<RequiredMetadata>,
)
    requires
        client_edge_out(s, f, md, required).ok,
    ensures
        client_edge_out(s, f, md, required).edges,
        ({
            let t = client_edge_out(s, f, md, required).tree;
            let node = match required {
                Some(_) => field(t, "field"@)->0,
                None => t,
            };
            &&& required is Some ==> field(t, "kind"@) == Some(Tree::Str("RequiredField"@))
            &&& required is Some ==> field(t, "field"@) is Some
            &&& field(node, "kind"@) == Some(
                Tree::Str(
                    match md {
                        ClientEdgeMetadataDirective::ServerObject { .. } => "ClientEdgeToServerObject"@,
                        ClientEdgeMetadataDirective::ClientObject { .. } => "ClientEdgeToClientObject"@,
                    },
                ),
            )
            &&& md is ServerObject ==> field(node, "operation"@) == Some(
                Tree::GraphQLModule(md->query_name@),
            )
            &&& md is ClientObject ==> field(node, "concreteType"@) == Some(
                Tree::Str(md->concrete_type@),
            )
        }),
{
    lemma_key_facts();
    reveal_strlit("operation");
    assert("operation"@.len() == 9);
    let t = client_edge_out(s, f, md, required).tree;
    if required is Some {
        let es = t->Object_0;
        lemma_first_entry_at(es, 0, "kind"@);
        lemma_first_entry_at(es, 1, "field"@);
    }
    let node = match required {
        Some(_) => field(t, "field"@)->0,
        None => t,
    };
    let es = node->Object_0;
    lemma_first_entry_at(es, 0, "kind"@);
    lemma_first_entry_at(es, 1, if md is ServerObject { "operation"@ } else { "concreteType"@ });
}

/// The `refetch` metadata of a fragment whose first refetchable directive is
/// `ds[i]` names the refetch query, the path to the fragment in its result,
/// and the identifier field when there is one.
pub proof fn law_refetch_metadata(s: CodegenSettings, f: FragmentDefinition, i: int, rf: RefetchableMetadata)
    requires
        !has_tag(f.directives@, TAG_INLINE),
        0 <= i < f.directives@.len(),
        f.directives@[i].kind == DirectiveKind::Refetchable(rf),
        forall|j: int| 0 <= j < i ==> kind_tag(#[trigger] f.directives@[j].kind) != TAG_REFETCHABLE,
    ensures
        ({
            let r = metadata_entry(fragment_out(s, f, false).tree, "refetch"@);
            &&& r is Some
            &&& field(r->0, "operation"@) == Some(Tree::GraphQLModule(rf.operation_name@))
            &&& field(r->0, "fragmentPathInResult"@) == Some(
                Tree::Array(Seq::new(rf.path@.len(), |k: int| Tree::Str(rf.path@[k]@))),
            )
            &&& field(r->0, "identifierField"@) == match rf.identifier_field {
                Some(x) => Some(Tree::Str(x@)),
                None => None,
            }
        }),
{
    reveal_strlit("refetch");
    reveal_strlit("plural");
    reveal_strlit("mask");
    reveal_strlit("hasClientEdges");
    reveal_strlit("connection");
    reveal_strlit("fragmentPathInResult");
    reveal_strlit("operation");
    reveal_strlit("identifierField");
    assert("refetch"@.len() == 7 && "plural"@.len() == 6 && "mask"@.len() == 4 && "hasClientEdges"@.len() == 14);
    assert("connection"@.len() == 10 && "fragmentPathInResult"@.len() == 20 && "operation"@.len() == 9
        && "identifierField"@.len() == 15);
    lemma_find_tag(f.directives@, TAG_REFETCHABLE, i);
    lemma_fragment_metadata_entry(s, f, "refetch"@);
    let c = crate::definition_trees::find_connection(f.directives@);
    let es = crate::definition_trees::refetch_tree(c, rf)->Object_0;
    lemma_first_entry_at(es, 1, "fragmentPathInResult"@);
    lemma_first_entry_at(es, 2, "operation"@);
    assert(crate::definition_trees::strs_tree(crate::strings::strs_view(rf.path@))->Array_0 =~= Seq::new(
        rf.path@.len(),
        |k: int| Tree::Str(rf.path@[k]@),
    ));
    match rf.identifier_field {
        Some(x) => {
            lemma_first_entry_at(es, 3, "identifierField"@);
        },
        None => {
            lemma_first_entry_none(es, "identifierField"@);
        },
    }
}

/// The `ModuleImport` node of a `@module` fragment `Fragment_prop` names the
/// document (the module key), the fragment, and the prop: the part of the
/// fragment's name after its first `_`.
pub proof fn law_module_import_node(s: CodegenSettings, md: ModuleMetadata, f: InlineFragment, idx: int)
    requires
        0 <= idx < md.fragment_name@.len(),
        md.fragment_name@[idx] == '_',
        forall|j: int| 0 <= j < idx ==> #[trigger] md.fragment_name@[j] != '_',
    ensures
        module_import_out(s, md, f).ok,
        field(module_import_out(s, md, f).tree, "kind"@) == Some(Tree::Str("ModuleImport"@)),
        field(module_import_out(s, md, f).tree, "documentName"@) == Some(Tree::Str(md.key@)),
        field(module_import_out(s, md, f).tree, "fragmentName"@) == Some(Tree::Str(md.fragment_name@)),
        field(module_import_out(s, md, f).tree, "fragmentPropName"@) == Some(
            Tree::Str(md.fragment_name@.skip(idx + 1)),
        ),
{
    lemma_key_facts();
    reveal_strlit("documentName");
    reveal_strlit("fragmentName");
    reveal_strlit("fragmentPropName");
    assert("documentName"@.len() == 12 && "fragmentName"@.len() == 12 && "fragmentPropName"@.len() == 16);
    assert("documentName"@[0] == 'd' && "fragmentName"@[0] == 'f');
    let name = md.fragment_name@;
    let found = crate::strings::first_index_of(name, '_');
    assert(found is Some);
    let k = found->0;
    assert(k == idx) by {
        if k < idx {
            assert(name[k] != '_');
        } else if idx < k {
            assert(name[idx] != '_');
        }
    }
    let es = module_import_out(s, md, f).tree->Object_0;
    let base = seq![
        (crate::constants::ARGS@, match crate::selection_trees::first_spread(f.selections@) {
            Some(spread) => crate::arguments::args_value_tree(spread.arguments@),
            None => Tree::SkippableNull,
        }),
        (crate::constants::DOCUMENT_NAME@, Tree::Str(md.key@)),
        (crate::constants::FRAGMENT_NAME@, Tree::Str(name)),
        (crate::constants::FRAGMENT_PROP_NAME@, Tree::Str(name.skip(idx + 1))),
        (crate::constants::KIND@, Tree::Str(crate::constants::MODULE_IMPORT@)),
    ];
    assert(es.subrange(0, 5) =~= base);
    lemma_first_entry_at(es, 1, "documentName"@);
    lemma_first_entry_at(es, 2, "fragmentName"@);
    lemma_first_entry_at(es, 3, "fragmentPropName"@);
    lemma_first_entry_at(es, 4, "kind"@);
}

/// The name that a node carries, as a string.
pub open spec fn node_name(t: Tree) -> Seq<char> {
    field(t, "name"@)->0->Str_0
}

/// The argument definitions of a fragment, its own variables and the global
/// ones it uses, come one per variable, each naming it, in ascending order of
/// name.
pub proof fn law_fragment_argument_definitions_sorted(
    locals: Seq<VariableDefinition>,
    globals: Seq<VariableDefinition>,
)
    requires
        locals.len() + globals.len() <= usize::MAX,
    ensures
        ({
            let a = crate::arguments::fragment_variable_definitions_tree(locals, globals)->Array_0;
            &&& a.len() == locals.len() + globals.len()
            &&& forall|i: int| 0 <= i < a.len() ==> #[trigger] field(a[i], "name"@) is Some && field(a[i], "name"@)->0 is Str
            &&& forall|i: int, j: int| 0 <= i < j < a.len() ==> !seq_lt(#[trigger] node_name(a[j]), #[trigger] node_name(a[i]))
        }),
{
    lemma_key_facts();
    reveal_strlit("defaultValue");
    let names = crate::arguments::var_names(locals) + crate::arguments::var_names(globals);
    crate::laws::law_name_order(names);
    let order = crate::strings::name_order(names);
    let a = crate::arguments::fragment_variable_definitions_tree(locals, globals)->Array_0;
    let all = Seq::new(locals.len(), |i: int| crate::arguments::local_argument_tree(locals[i])) + Seq::new(
        globals.len(),
        |i: int| crate::arguments::root_argument_tree(globals[i]),
    );
    assert forall|k: int| 0 <= k < a.len() implies #[trigger] field(a[k], "name"@) == Some(
        Tree::Str(names[order[k] as int]),
    ) by {
        let p = order[k] as int;
        assert(a[k] == all[p]);
        if p < locals.len() {
            lemma_first_entry_at(all[p]->Object_0, 2, "name"@);
        } else {
            lemma_first_entry_at(all[p]->Object_0, 1, "name"@);
        }
    }
    assert forall|i: int, j: int| 0 <= i < j < a.len() implies !seq_lt(
        #[trigger] node_name(a[j]),
        #[trigger] node_name(a[i]),
    ) by {
        assert(node_name(a[i]) == names[order[i] as int]);
        assert(node_name(a[j]) == names[order[j] as int]);
    }
}

/// The metadata of request parameters comes in ascending order of key.
pub proof fn law_request_metadata_sorted(
    config: ProjectConfig,
    op: OperationDefinition,
    rp: RequestParameters,
    tls: TopLevelStatements,
    cache_id: Option<Seq<char>>,
)
    requires
        crate::definition_trees::unsorted_metadata(op.directives@).len() <= usize::MAX,
    ensures
        ({
            let t = request_parameters_tree(config, op, rp, tls, cache_id);
            &&& field(t, "metadata"@) is Some
            &&& field(t, "metadata"@)->0 is Object
            &&& forall|i: int, j: int|
                0 <= i < j < field(t, "metadata"@)->0->Object_0.len() ==> !seq_lt(
                    #[trigger] field(t, "metadata"@)->0->Object_0[j].0,
                    #[trigger] field(t, "metadata"@)->0->Object_0[i].0,
                )
        }),
{
    lemma_key_facts();
    reveal_strlit("providedVariables");
    assert("providedVariables"@.len() == 17);
    let es = request_parameters_tree(config, op, rp, tls, cache_id)->Object_0;
    let head = match cache_id {
        Some(c) => seq![("cacheID"@, Tree::RawStr(c))],
        None => Seq::empty(),
    };
    let m = crate::definition_trees::sort_entries(crate::definition_trees::unsorted_metadata(op.directives@));
    let body = seq![
        ("id"@, crate::definition_trees::id_tree(rp.id)),
        ("metadata"@, Tree::Object(m)),
        ("name"@, Tree::Str(rp.name@)),
        ("operationKind"@, Tree::Str(crate::definition_trees::operation_kind_str(rp.operation_kind))),
        (
            "text"@,
            match rp.text {
                Some(x) => Tree::RawStr(x@),
                None => Tree::Null,
            },
        ),
    ];
    let pv = crate::definition_trees::provided_variables_entry(config, op, tls);
    assert(es == head + body + pv);
    lemma_first_entry_concat(head + body, pv, "metadata"@);
    lemma_first_entry_concat(head, body, "metadata"@);
    lemma_first_entry_none(head, "metadata"@);
    lemma_first_entry_at(body, 1, "metadata"@);
    crate::laws::law_sorted_entries(crate::definition_trees::unsorted_metadata(op.directives@));
}

/// In the normalization AST, an inline fragment on an abstract type none of
/// whose type discriminators carries the type's own key `__is<Type>` keeps
/// every selection, discriminators with other keys included.
pub proof fn law_inline_fragment_keeps_other_discriminators(s: CodegenSettings, f: InlineFragment)
    requires
        f.type_condition is Some,
        find_alias(f.directives@) is None,
        forall|i: int|
            0 <= i < f.selections@.len() && (#[trigger] f.selections@[i]) is ScalarField
                && has_tag(f.selections@[i]->ScalarField_0.directives@, TAG_TYPE_DISCRIMINATOR)
                && f.selections@[i]->ScalarField_0.alias is Some ==> f.selections@[i]->ScalarField_0.alias->0@
                != "__is"@ + f.type_condition->0.name@,
    ensures
        field(inline_fragment_out(s, f).tree, "kind"@) == Some(Tree::Str("InlineFragment"@)),
        field(inline_fragment_out(s, f).tree, "selections"@) == Some(
            Tree::Array(crate::selection_trees::selections_out(s, f.selections@, None).trees),
        ),
{
    lemma_key_facts();
    reveal_strlit("__is");
    let tc = f.type_condition->0;
    assert forall|i: int| 0 <= i < f.selections@.len() implies !is_discriminator_for(
        #[trigger] f.selections@[i],
        abstract_type_key(tc.name@),
    ) by {
        assert(abstract_type_key(tc.name@) == "__is"@ + tc.name@);
    }
    let es = inline_fragment_out(s, f).tree->Object_0;
    lemma_first_entry_at(es, 0, "kind"@);
    lemma_first_entry_at(es, 1, "selections"@);
}

/// In the normalization AST, an inline fragment on an abstract type whose only
/// selection is a type discriminator with the type's own key `__is<Type>`
/// is replaced by that discriminator.
pub proof fn law_inline_fragment_lone_discriminator(s: CodegenSettings, f: InlineFragment)
    requires
        s.variant == CodegenVariant::Normalization,
        f.type_condition is Some,
        f.type_condition->0.is_abstract,
        f.selections@.len() == 1,
        f.selections@[0] is ScalarField,
        has_tag(f.selections@[0]->ScalarField_0.directives@, TAG_TYPE_DISCRIMINATOR),
        f.selections@[0]->ScalarField_0.alias is Some,
        f.selections@[0]->ScalarField_0.alias->0@ == "__is"@ + f.type_condition->0.name@,
    ensures
        inline_fragment_out(s, f).ok,
        field(inline_fragment_out(s, f).tree, "kind"@) == Some(Tree::Str("TypeDiscriminator"@)),
        field(inline_fragment_out(s, f).tree, "abstractKey"@) == Some(
            Tree::Str("__is"@ + f.type_condition->0.name@),
        ),
{
    reveal_strlit("__is");
    let tc = f.type_condition->0;
    assert(abstract_type_key(tc.name@) == "__is"@ + tc.name@);
    assert(is_discriminator_for(f.selections@[0], abstract_type_key(tc.name@)));
    law_type_discriminator_node(f.selections@[0]->ScalarField_0);
}

proof fn lemma_provided_keys(config: ProjectConfig, src: Seq<char>, defs: Seq<VariableDefinition>)
    ensures
        forall|e: int|
            0 <= e < provided_entries(config, src, defs).len() ==> exists|j: int|
                0 <= j < defs.len() && defs[j].name@ == #[trigger] provided_entries(config, src, defs)[e].0,
    decreases defs.len(),
{
    if defs.len() > 0 {
        let p = defs.drop_last();
        lemma_provided_keys(config, src, p);
        let es = provided_entries(config, src, defs);
        let rest = provided_entries(config, src, p);
        assert forall|e: int| 0 <= e < es.len() implies exists|j: int|
            0 <= j < defs.len() && defs[j].name@ == #[trigger] es[e].0 by {
            if e < rest.len() {
                assert(es[e] == rest[e]);
                let j = choose|j: int| 0 <= j < p.len() && p[j].name@ == rest[e].0;
                assert(defs[j] == p[j]);
            } else {
                assert(defs[defs.len() - 1].name@ == es[e].0);
            }
        }
    }
}

proof fn lemma_provided_entry(
    config: ProjectConfig,
    src: Seq<char>,
    defs: Seq<VariableDefinition>,
    k: int,
    pm: ProvidedVariableMetadata,
    n: int,
)
    requires
        0 <= k < n <= defs.len(),
        crate::definition_trees::find_provided(defs[k].directives@) == Some(pm),
        forall|j: int| 0 <= j < k ==> #[trigger] defs[j].name@ != defs[k].name@,
    ensures
        first_entry(provided_entries(config, src, defs.take(n)), defs[k].name@) == Some(
            Tree::JSModule(
                JSModV {
                    path: crate::definition_trees::provider_module(config, src, pm),
                    named_import: None,
                    import_as: None,
                },
            ),
        ),
    decreases n,
{
    let t = defs.take(n);
    assert(t.drop_last() =~= defs.take(n - 1));
    assert(t.last() == defs[n - 1]);
    let key = defs[k].name@;
    if n - 1 == k {
        let rest = provided_entries(config, src, defs.take(k));
        lemma_provided_keys(config, src, defs.take(k));
        assert forall|e: int| 0 <= e < rest.len() implies #[trigger] rest[e].0 != key by {
            let j = choose|j: int| 0 <= j < defs.take(k).len() && defs.take(k)[j].name@ == rest[e].0;
            assert(defs.take(k)[j] == defs[j]);
        }
        lemma_first_entry_none(rest, key);
        let es = provided_entries(config, src, t);
        lemma_first_entry_concat(rest, seq![es[es.len() - 1]], key);
        assert(es == rest + seq![es[es.len() - 1]]);
        lemma_first_entry_at(seq![es[es.len() - 1]], 0, key);
    } else {
        lemma_provided_entry(config, src, defs, k, pm, n - 1);
        let rest = provided_entries(config, src, defs.take(n - 1));
        let es = provided_entries(config, src, t);
        if es.len() > rest.len() {
            assert(es == rest + seq![es[es.len() - 1]]);
            lemma_first_entry_concat(rest, seq![es[es.len() - 1]], key);
        }
    }
}

/// With Haste, each provided variable of an operation (the first one of
/// its name) is provided by the module named in its directive.
pub proof fn law_provided_variable_haste(
    config: ProjectConfig,
    op: OperationDefinition,
    k: int,
    i: int,
    pm: ProvidedVariableMetadata,
)
    requires
        config.js_module_format == JsModuleFormat::Haste,
        0 <= k < op.variable_definitions@.len(),
        0 <= i < op.variable_definitions@[k].directives@.len(),
        op.variable_definitions@[k].directives@[i].kind == DirectiveKind::ProvidedVariable(pm),
        forall|j: int|
            0 <= j < i ==> kind_tag(#[trigger] op.variable_definitions@[k].directives@[j].kind)
                != TAG_PROVIDED_VARIABLE,
        forall|j: int|
            0 <= j < k ==> #[trigger] op.variable_definitions@[j].name@ != op.variable_definitions@[k].name@,
    ensures
        provided_variables_tree(config, op) is Some,
        field(provided_variables_tree(config, op)->0, op.variable_definitions@[k].name@) == Some(
            Tree::JSModule(JSModV { path: pm.module_name@, named_import: None, import_as: None }),
        ),
{
    let defs = op.variable_definitions@;
    lemma_find_tag(defs[k].directives@, TAG_PROVIDED_VARIABLE, i);
    lemma_provided_entry(config, op.source_path@, defs, k, pm, defs.len() as int);
    assert(defs.take(defs.len() as int) =~= defs);
    let es = provided_entries(config, op.source_path@, defs);
    if es.len() == 0 {
        lemma_first_entry_none(es, defs[k].name@);
    }
}

/// Request parameters refer to the declared provided-variables statement
/// when the artifact declares one.
pub proof fn law_request_provided_variables_declared(
    config: ProjectConfig,
    op: OperationDefinition,
    rp: RequestParameters,
    tls: TopLevelStatements,
    cache_id: Option<Seq<char>>,
    i: int,
)
    requires
        0 <= i < tls.names@.len(),
        tls.names@[i]@ == "providedVariablesDefinition"@,
    ensures
        field(request_parameters_tree(config, op, rp, tls, cache_id), "providedVariables"@) == Some(
            Tree::Variable("providedVariablesDefinition"@),
        ),
{
    lemma_key_facts();
    reveal_strlit("providedVariables");
    assert("providedVariables"@.len() == 17);
    let es = request_parameters_tree(config, op, rp, tls, cache_id)->Object_0;
    let head = match cache_id {
        Some(c) => seq![("cacheID"@, Tree::RawStr(c))],
        None => Seq::empty(),
    };
    let body = seq![
        ("id"@, crate::definition_trees::id_tree(rp.id)),
        ("metadata"@, Tree::Object(
            crate::definition_trees::sort_entries(crate::definition_trees::unsorted_metadata(op.directives@)),
        )),
        ("name"@, Tree::Str(rp.name@)),
        ("operationKind"@, Tree::Str(crate::definition_trees::operation_kind_str(rp.operation_kind))),
        (
            "text"@,
            match rp.text {
                Some(x) => Tree::RawStr(x@),
                None => Tree::Null,
            },
        ),
    ];
    let pv = crate::definition_trees::provided_variables_entry(config, op, tls);
    assert(crate::definition_trees::declares(tls, "providedVariablesDefinition"@));
    assert(es == head + body + pv);
    lemma_first_entry_concat(head + body, pv, "providedVariables"@);
    lemma_first_entry_concat(head, body, "providedVariables"@);
    lemma_first_entry_none(head, "providedVariables"@);
    lemma_first_entry_none(body, "providedVariables"@);
    lemma_first_entry_at(pv, 0, "providedVariables"@);
}

proof fn lemma_object_fields(fs: Seq<Argument>, order: Seq<usize>, k: int)
    requires
        0 <= k < order.len(),
        forall|j: int| 0 <= j < order.len() ==> #[trigger] order[j] < fs.len(),
    ensures
        object_field_trees(fs, order).len() == order.len(),
        object_field_trees(fs, order)[k] == match argument_tree(fs[order[k] as int].name@, fs[order[k] as int].value) {
            Some(t) => t,
            None => crate::arguments::literal_tree(fs[order[k] as int].name@, Tree::Null),
        },
    decreases order.len(),
{
    let p = order.subrange(0, order.len() - 1);
    assert forall|j: int| 0 <= j < p.len() implies #[trigger] p[j] < fs.len() by {
        assert(p[j] == order[j]);
    }
    if k < order.len() - 1 {
        assert(p[k] == order[k]);
        lemma_object_fields(fs, p, k);
    } else if p.len() > 0 {
        lemma_object_fields(fs, p, 0);
    } else {
        assert(object_field_trees(fs, p).len() == 0);
    }
}

/// The fields of an object argument come one per field, each named after it,
/// in ascending order of name.
pub proof fn law_object_argument_fields_sorted(name: Seq<char>, fs: Vec<Argument>)
    requires
        fs@.len() <= usize::MAX,
    ensures
        ({
            let t = argument_tree(name, Value::Object(fs))->0;
            &&& field(t, "kind"@) == Some(Tree::Str("ObjectValue"@))
            &&& field(t, "name"@) == Some(Tree::Str(name))
            &&& field(t, "fields"@) is Some
            &&& field(t, "fields"@)->0 is Array
            &&& field(t, "fields"@)->0->Array_0.len() == fs@.len()
            &&& forall|i: int, j: int|
                0 <= i < j < fs@.len() ==> !seq_lt(
                    #[trigger] node_name(field(t, "fields"@)->0->Array_0[j]),
                    #[trigger] node_name(field(t, "fields"@)->0->Array_0[i]),
                )
        }),
{
    lemma_key_facts();
    reveal_strlit("ObjectValue");
    let t = argument_tree(name, Value::Object(fs))->0;
    let es = t->Object_0;
    lemma_first_entry_at(es, 0, "fields"@);
    lemma_first_entry_at(es, 1, "kind"@);
    lemma_first_entry_at(es, 2, "name"@);
    let names = arg_names(fs@);
    crate::laws::law_name_order(names);
    let order = crate::strings::name_order(names);
    let a = field(t, "fields"@)->0->Array_0;
    if order.len() > 0 {
        lemma_object_fields(fs@, order, 0);
    } else {
        assert(object_field_trees(fs@, order).len() == 0);
    }
    assert forall|k: int| 0 <= k < a.len() implies #[trigger] node_name(a[k]) == names[order[k] as int] by {
        lemma_object_fields(fs@, order, k);
        let f = fs@[order[k] as int];
        match f.value {
            Value::Constant(c) => {
                law_literal_argument(f.name@, c);
                if c is Null {
                    lemma_first_entry_at(crate::arguments::literal_tree(f.name@, Tree::Null)->Object_0, 1, "name"@);
                }
            },
            Value::Variable(v) => {
                law_variable_argument(f.name@, v);
            },
            Value::List(vs) => {
                law_list_argument(f.name@, vs);
            },
            Value::Object(gs) => {
                let es2 = argument_tree(f.name@, f.value)->0->Object_0;
                lemma_first_entry_at(es2, 2, "name"@);
            },
        }
    }
    assert forall|i: int, j: int| 0 <= i < j < fs@.len() implies !seq_lt(
        #[trigger] node_name(a[j]),
        #[trigger] node_name(a[i]),
    ) by {
        assert(node_name(a[i]) == names[order[i] as int]);
        assert(node_name(a[j]) == names[order[j] as int]);
    }
}

proof fn lemma_constant_fields(fs: Seq<ConstantArgument>, order: Seq<usize>, k: int)
    requires
        0 <= k < order.len(),
        forall|j: int| 0 <= j < order.len() ==> #[trigger] order[j] < fs.len(),
    ensures
        constant_field_trees(fs, order).len() == order.len(),
        constant_field_trees(fs, order)[k] == (fs[order[k] as int].name@, constant_tree(fs[order[k] as int].value)),
    decreases order.len(),
{
    let p = order.subrange(0, order.len() - 1);
    assert forall|j: int| 0 <= j < p.len() implies #[trigger] p[j] < fs.len() by {
        assert(p[j] == order[j]);
    }
    if k < order.len() - 1 {
        assert(p[k] == order[k]);
        lemma_constant_fields(fs, p, k);
    } else if p.len() > 0 {
        lemma_constant_fields(fs, p, 0);
    } else {
        assert(constant_field_trees(fs, p).len() == 0);
    }
}

/// A literal object has one property per field, in ascending order of name,
/// each carrying the field's literal.
pub proof fn law_constant_object_sorted(fs: Vec<ConstantArgument>)
    requires
        fs@.len() <= usize::MAX,
    ensures
        ({
            let es = constant_tree(ConstantValue::Object(fs))->Object_0;
            &&& es.len() == fs@.len()
            &&& forall|i: int, j: int| 0 <= i < j < es.len() ==> !seq_lt(#[trigger] es[j].0, #[trigger] es[i].0)
            &&& forall|i: int| 0 <= i < es.len() ==> exists|j: int|
                0 <= j < fs@.len() && #[trigger] es[i] == (fs@[j].name@, constant_tree(fs@[j].value))
        }),
{
    let names = const_arg_names(fs@);
    crate::laws::law_name_order(names);
    let order = crate::strings::name_order(names);
    let es = constant_tree(ConstantValue::Object(fs))->Object_0;
    if order.len() > 0 {
        lemma_constant_fields(fs@, order, 0);
    } else {
        assert(constant_field_trees(fs@, order).len() == 0);
    }
    assert forall|k: int| 0 <= k < es.len() implies #[trigger] es[k] == (
        fs@[order[k] as int].name@,
        constant_tree(fs@[order[k] as int].value),
    ) by {
        lemma_constant_fields(fs@, order, k);
    }
    assert forall|i: int, j: int| 0 <= i < j < es.len() implies !seq_lt(#[trigger] es[j].0, #[trigger] es[i].0) by {
        assert(es[i].0 == names[order[i] as int]);
        assert(es[j].0 == names[order[j] as int]);
    }
    assert forall|i: int| 0 <= i < es.len() implies exists|j: int|
        0 <= j < fs@.len() && #[trigger] es[i] == (fs@[j].name@, constant_tree(fs@[j].value)) by {
        assert(es[i] == (fs@[order[i] as int].name@, constant_tree(fs@[order[i] as int].value)));
    }
}

proof fn lemma_constants_have_no_variable(args: Seq<Argument>)
    requires
        forall|i: int| 0 <= i < args.len() ==> (#[trigger] args[i]).value is Constant,
    ensures
        !args_have_variable(args),
    decreases args.len(),
{
    if args.len() > 0 {
        let p = args.subrange(0, args.len() - 1);
        assert forall|i: int| 0 <= i < p.len() implies (#[trigger] p[i]).value is Constant by {
            assert(p[i] == args[i]);
        }
        lemma_constants_have_no_variable(p);
        assert(!value_has_variable(args[args.len() - 1].value));
    }
}

/// Arguments that are all non-null literals give a static storage key for
/// the field's name.
pub proof fn law_static_storage_key(name: Seq<char>, args: Seq<Argument>)
    requires
        args.len() > 0,
        args.len() <= usize::MAX,
        forall|i: int|
            0 <= i < args.len() ==> (#[trigger] args[i]).value is Constant && !(args[i].value->Constant_0 is Null),
    ensures
        crate::arguments::storage_key_tree(name, args) is StorageKey,
        crate::arguments::storage_key_tree(name, args)->StorageKey_0 == name,
{
    lemma_constants_have_no_variable(args);
    let names = arg_names(args);
    crate::laws::law_name_order(names);
    let order = crate::strings::name_order(names);
    let last = order[order.len() - 1] as int;
    assert(0 <= last < args.len());
    assert(argument_tree(args[last].name@, args[last].value) is Some);
    assert(sorted_argument_trees(args, order).len() > 0);
}

/// The `ScalarField` node of a field whose arguments are all non-null
/// literals has a static storage key for the field's name.
pub proof fn law_scalar_field_static_storage_key(s: CodegenSettings, f: ScalarField)
    requires
        s.variant == CodegenVariant::Normalization,
        scalar_field_out(s, f).ok,
        find_required(f.directives@) is None,
        f.arguments@.len() > 0,
        f.arguments@.len() <= usize::MAX,
        forall|i: int|
            0 <= i < f.arguments@.len() ==> (#[trigger] f.arguments@[i]).value is Constant
                && !(f.arguments@[i].value->Constant_0 is Null),
    ensures
        field(scalar_field_out(s, f).tree, "storageKey"@) is Some,
        field(scalar_field_out(s, f).tree, "storageKey"@)->0 is StorageKey,
        field(scalar_field_out(s, f).tree, "storageKey"@)->0->StorageKey_0 == f.definition.name@,
{
    lemma_key_facts();
    law_static_storage_key(f.definition.name@, f.arguments@);
    let es = scalar_field_out(s, f).tree->Object_0;
    lemma_first_entry_at(es, 4, "storageKey"@);
}

} // verus!
