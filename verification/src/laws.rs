//! Properties of the library that span calls: interning, and the orders in
//! which generated lists are sorted.
use vstd::prelude::*;
use crate::ast::{ast_same, entry_same, interned, prim_same, Ast, AstKey, Primitive, Tree};
use crate::definition_trees::sort_entries;
use crate::strings::{
    distinct_positions, lemma_sort_by_name_sorted, name_order, seq_lt, sorted_by, stable_by,
};

verus! {

/// Every primitive is the same as itself.
pub proof fn lemma_prim_same_refl(p: Primitive)
    ensures
        prim_same(p, p),
    decreases p,
{
    match p {
        Primitive::RelayResolverWeakObjectWrapper { resolver, .. } => {
            lemma_prim_same_refl(*resolver);
        },
        _ => {},
    }
}

/// Every node is the same as itself.
pub proof fn lemma_ast_same_refl(x: Ast)
    ensures
        ast_same(x, x),
{
    match x {
        Ast::Object(es) => {
            assert forall|i: int| 0 <= i < es@.len() implies #[trigger] entry_same(es@[i], es@[i]) by {
                lemma_prim_same_refl(es@[i].value);
            }
        },
        Ast::Array(ps) => {
            assert forall|i: int| 0 <= i < ps@.len() implies #[trigger] prim_same(ps@[i], ps@[i]) by {
                lemma_prim_same_refl(ps@[i]);
            }
        },
    }
}

/// Interning is idempotent: interning a node a second time gives back the
/// key of the first time, leaves the arena as it was, and that key names a
/// node that is the same value.
pub proof fn law_intern_idempotent(
    a0: Seq<Ast>,
    x: Ast,
    a1: Seq<Ast>,
    k1: AstKey,
    a2: Seq<Ast>,
    k2: AstKey,
)
    requires
        interned(a0, x, a1, k1),
        interned(a1, x, a2, k2),
    ensures
        a2 == a1,
        k2 == k1,
        ast_same(a1[k1.0 as int], x),
{
    if exists|j: int| 0 <= j < a0.len() && ast_same(a0[j], x) {
        assert(ast_same(a1[k1.0 as int], x));
    } else {
        assert(a1 == a0.push(x));
        lemma_ast_same_refl(x);
        assert(ast_same(a1[k1.0 as int], x));
        assert forall|j: int| 0 <= j < k1.0 implies !ast_same(#[trigger] a1[j], x) by {
            assert(a1[j] == a0[j]);
        }
    }
    assert(exists|j: int| 0 <= j < a1.len() && ast_same(a1[j], x));
    if k2.0 < k1.0 {
        assert(!ast_same(a1[k2.0 as int], x));
    } else if k1.0 < k2.0 {
        assert(!ast_same(a1[k1.0 as int], x));
    }
}

/// Sorting by name lists every position once, in ascending order of name;
/// positions with equal names keep their order.
pub proof fn law_name_order(names: Seq<Seq<char>>)
    requires
        names.len() <= usize::MAX,
    ensures
        name_order(names).len() == names.len(),
        forall|i: int| 0 <= i < names.len() ==> #[trigger] name_order(names)[i] < names.len(),
        distinct_positions(name_order(names)),
        sorted_by(name_order(names), names),
        stable_by(name_order(names), names),
{
    lemma_sort_by_name_sorted(names, names.len());
}

/// The metadata entries of request parameters come in ascending order of key,
/// each one an entry of the unsorted metadata.
pub proof fn law_sorted_entries(es: Seq<(Seq<char>, Tree)>)
    requires
        es.len() <= usize::MAX,
    ensures
        sort_entries(es).len() == es.len(),
        forall|i: int, j: int|
            0 <= i < j < es.len() ==> !seq_lt(#[trigger] sort_entries(es)[j].0, #[trigger] sort_entries(es)[i].0),
        forall|i: int|
            0 <= i < es.len() ==> exists|j: int| 0 <= j < es.len() && #[trigger] sort_entries(es)[i] == es[j],
{
    let keys = Seq::new(es.len(), |i: int| es[i].0);
    law_name_order(keys);
    let order = name_order(keys);
    let sorted = sort_entries(es);
    assert forall|i: int, j: int| 0 <= i < j < es.len() implies !seq_lt(
        #[trigger] sorted[j].0,
        #[trigger] sorted[i].0,
    ) by {
        assert(sorted[i] == es[order[i] as int]);
        assert(sorted[j] == es[order[j] as int]);
        assert(!seq_lt(keys[order[j] as int], keys[order[i] as int]));
    }
    assert forall|i: int| 0 <= i < es.len() implies exists|j: int| 0 <= j < es.len() && #[trigger] sorted[i] == es[j] by {
        assert(sorted[i] == es[order[i] as int]);
    }
}

} // verus!
