//! Reading the metadata that directives carry.
use vstd::prelude::*;
use crate::ir::{
    find_tag, has_tag, kind_tag, find_directive, Argument, ClientEdgeMetadataDirective, Directive,
    DirectiveKind, FragmentAliasMetadata, FragmentSpread, HandleFieldDirective,
    InlineDirectiveMetadata, ModuleMetadata, NoInlineMetadata, RelayResolverMetadata,
    RequiredMetadata, Selection, TAG_CLIENT_EDGE, TAG_FRAGMENT_ALIAS, TAG_INLINE_DATA, TAG_MODULE,
    TAG_NO_INLINE, TAG_REQUIRED, TAG_RESOLVER, TAG_TYPE_DISCRIMINATOR,
};
use crate::selection_trees::{
    find_alias, find_client_edge, find_inline_data, find_module, find_no_inline, find_required,
    find_resolver, first_spread, handle_directives, is_discriminator_for,
    named_argument,
};

verus! {

/// Whether some directive is of kind `t`.
pub fn has_directive(ds: &Vec<Directive>, t: u8) -> (r: bool)
    ensures
        r == has_tag(ds@, t),
{
    find_directive(ds, t).is_some()
}

/// The `@required` metadata, if any.
pub fn find_required_metadata(ds: &Vec<Directive>) -> (r: Option<&RequiredMetadata>)
    ensures
        r is Some <==> find_required(ds@) is Some,
        r matches Some(m) ==> *m == find_required(ds@)->0,
{
    match find_directive(ds, TAG_REQUIRED) {
        Some(i) => match &ds[i].kind {
            DirectiveKind::Required(m) => Some(m),
            _ => None,
        },
        None => None,
    }
}

/// The resolver metadata, if any.
pub fn find_resolver_metadata(ds: &Vec<Directive>) -> (r: Option<&RelayResolverMetadata>)
    ensures
        r is Some <==> find_resolver(ds@) is Some,
        r matches Some(m) ==> *m == find_resolver(ds@)->0,
{
    match find_directive(ds, TAG_RESOLVER) {
        Some(i) => match &ds[i].kind {
            DirectiveKind::Resolver(m) => Some(m),
            _ => None,
        },
        None => None,
    }
}

/// The `@alias` metadata, if any.
pub fn find_alias_metadata(ds: &Vec<Directive>) -> (r: Option<&FragmentAliasMetadata>)
    ensures
        r is Some <==> find_alias(ds@) is Some,
        r matches Some(m) ==> *m == find_alias(ds@)->0,
{
    match find_directive(ds, TAG_FRAGMENT_ALIAS) {
        Some(i) => match &ds[i].kind {
            DirectiveKind::FragmentAlias(m) => Some(m),
            _ => None,
        },
        None => None,
    }
}

/// The `@no_inline` metadata, if any.
pub fn find_no_inline_metadata(ds: &Vec<Directive>) -> (r: Option<&NoInlineMetadata>)
    ensures
        r is Some <==> find_no_inline(ds@) is Some,
        r matches Some(m) ==> *m == find_no_inline(ds@)->0,
{
    match find_directive(ds, TAG_NO_INLINE) {
        Some(i) => match &ds[i].kind {
            DirectiveKind::NoInline(m) => Some(m),
            _ => None,
        },
        None => None,
    }
}

/// The `@inline` data metadata, if any.
pub fn find_inline_data_metadata(ds: &Vec<Directive>) -> (r: Option<&InlineDirectiveMetadata>)
    ensures
        r is Some <==> find_inline_data(ds@) is Some,
        r matches Some(m) ==> *m == find_inline_data(ds@)->0,
{
    match find_directive(ds, TAG_INLINE_DATA) {
        Some(i) => match &ds[i].kind {
            DirectiveKind::InlineData(m) => Some(m),
            _ => None,
        },
        None => None,
    }
}

/// The `@module` metadata, if any.
pub fn find_module_metadata(ds: &Vec<Directive>) -> (r: Option<&ModuleMetadata>)
    ensures
        r is Some <==> find_module(ds@) is Some,
        r matches Some(m) ==> *m == find_module(ds@)->0,
{
    match find_directive(ds, TAG_MODULE) {
        Some(i) => match &ds[i].kind {
            DirectiveKind::Module(m) => Some(m),
            _ => None,
        },
        None => None,
    }
}

/// The client edge metadata, if any.
pub fn find_client_edge_metadata(ds: &Vec<Directive>) -> (r: Option<&ClientEdgeMetadataDirective>)
    ensures
        r is Some <==> find_client_edge(ds@) is Some,
        r matches Some(m) ==> *m == find_client_edge(ds@)->0,
{
    match find_directive(ds, TAG_CLIENT_EDGE) {
        Some(i) => match &ds[i].kind {
            DirectiveKind::ClientEdge(m) => Some(m),
            _ => None,
        },
        None => None,
    }
}

/// How many handle directives there are (counting up to two), and the position of the first.
pub fn handle_summary(ds: &Vec<Directive>) -> (r: (usize, usize))
    ensures
        r.0 == 0 ==> handle_directives(ds@).len() == 0,
        r.0 == 1 ==> handle_directives(ds@).len() == 1,
        r.0 >= 2 ==> handle_directives(ds@).len() >= 2,
        r.0 <= 2,
        r.0 >= 1 ==> r.1 < ds@.len() && ds@[r.1 as int].kind is Handle && handle_directives(ds@)[0]
            == ds@[r.1 as int].kind->Handle_0,
{
    let mut count: usize = 0;
    let mut first: usize = 0;
    let mut i: usize = 0;
    while i < ds.len()
        invariant
            i <= ds@.len(),
            count <= 2,
            count < 2 ==> handle_directives(ds@.take(i as int)).len() == count,
            count == 2 ==> handle_directives(ds@.take(i as int)).len() >= 2,
            count >= 1 ==> first < i && ds@[first as int].kind is Handle && handle_directives(
                ds@.take(i as int),
            )[0] == ds@[first as int].kind->Handle_0,
        decreases ds@.len() - i,
    {
        proof {
            assert(ds@.take(i + 1).drop_last() =~= ds@.take(i as int));
            lemma_handles_prefix_first(ds@.take(i as int), ds@[i as int]);
            assert(ds@.take(i + 1) =~= ds@.take(i as int).push(ds@[i as int]));
        }
        match &ds[i].kind {
            DirectiveKind::Handle(_) => {
                if count == 0 {
                    first = i;
                }
                if count < 2 {
                    count = count + 1;
                }
            },
            _ => {},
        }
        i = i + 1;
    }
    assert(ds@.take(i as int) =~= ds@);
    (count, first)
}

proof fn lemma_handles_prefix_first(ds: Seq<Directive>, d: Directive)
    ensures
        handle_directives(ds.push(d)).len() >= handle_directives(ds).len(),
        handle_directives(ds).len() > 0 ==> handle_directives(ds.push(d))[0] == handle_directives(
            ds,
        )[0],
        handle_directives(ds.push(d)) == match d.kind {
            DirectiveKind::Handle(h) => handle_directives(ds).push(h),
            _ => handle_directives(ds),
        },
{
    assert(ds.push(d).drop_last() =~= ds);
}

/// The first argument called `name`, if any.
pub fn named_argument_of<'a>(args: &'a Vec<Argument>, name: &str) -> (r: Option<&'a Argument>)
    ensures
        r is Some <==> named_argument(args@, name@) is Some,
        r matches Some(a) ==> *a == named_argument(args@, name@)->0,
{
    let wanted = String::from_str(name);
    let mut i: usize = 0;
    assert(args@.skip(0) =~= args@);
    while i < args.len()
        invariant
            wanted@ == name@,
            i <= args@.len(),
            named_argument(args@, name@) == named_argument(args@.skip(i as int), name@),
        decreases args@.len() - i,
    {
        proof {
            assert(args@.skip(i as int).drop_first() =~= args@.skip(i + 1));
        }
        if args[i].name == wanted {
            proof {
                assert(args@.skip(i as int)[0] == args@[i as int]);
            }
            return Some(&args[i]);
        }
        i = i + 1;
    }
    None
}

/// The first fragment spread among `sels`, if any.
pub fn first_spread_of(sels: &Vec<Selection>) -> (r: Option<&FragmentSpread>)
    ensures
        r is Some <==> first_spread(sels@) is Some,
        r matches Some(f) ==> *f == first_spread(sels@)->0,
{
    let mut i: usize = 0;
    assert(sels@.skip(0) =~= sels@);
    while i < sels.len()
        invariant
            i <= sels@.len(),
            first_spread(sels@) == first_spread(sels@.skip(i as int)),
        decreases sels@.len() - i,
    {
        proof {
            assert(sels@.skip(i as int).drop_first() =~= sels@.skip(i + 1));
            assert(sels@.skip(i as int)[0] == sels@[i as int]);
        }
        match &sels[i] {
            Selection::FragmentSpread(f) => {
                return Some(f);
            },
            _ => {},
        }
        i = i + 1;
    }
    None
}

/// Whether a selection is a type discriminator whose key (its alias) is `key`.
pub fn is_discriminator_for_key(sel: &Selection, key: &str) -> (r: bool)
    ensures
        r == is_discriminator_for(*sel, key@),
{
    match sel {
        Selection::ScalarField(f) => {
            if !has_directive(&f.directives, TAG_TYPE_DISCRIMINATOR) {
                return false;
            }
            match &f.alias {
                Some(a) => *a == String::from_str(key),
                None => false,
            }
        },
        _ => false,
    }
}

/// Whether some selection is a type discriminator whose key is `key`.
pub fn has_discriminator_for(sels: &Vec<Selection>, key: &str) -> (r: bool)
    ensures
        r == exists|i: int| 0 <= i < sels@.len() && is_discriminator_for(#[trigger] sels@[i], key@),
{
    let mut i: usize = 0;
    while i < sels.len()
        invariant
            i <= sels@.len(),
            forall|j: int| 0 <= j < i ==> !is_discriminator_for(#[trigger] sels@[j], key@),
        decreases sels@.len() - i,
    {
        if is_discriminator_for_key(&sels[i], key) {
            return true;
        }
        i = i + 1;
    }
    false
}

} // verus!
