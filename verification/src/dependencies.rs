//! Which definitions a project needs: its own, plus the fragments of its base
//! projects that they reach through fragment spreads.
use vstd::prelude::*;
use crate::strings::copy_string;
use crate::syntax::{definition_name, definition_selections, ExecutableDefinition, Selection};

verus! {

// ---------------------------------------------------------------------------
// Fragment spreads.
/// The names of the fragments that a selection spreads, at any depth.
pub open spec fn selection_spreads(s: Selection) -> Set<Seq<char>>
    decreases s, 0nat,
{
    match s {
        Selection::FragmentSpread(f) => set![f.name@],
        Selection::LinkedField(f) => selections_spreads(f.selections@),
        Selection::InlineFragment(f) => selections_spreads(f.selections@),
        Selection::ScalarField(_) => Set::empty(),
    }
}

/// The names of the fragments that a list of selections spreads, at any depth.
pub open spec fn selections_spreads(sels: Seq<Selection>) -> Set<Seq<char>>
    decreases sels, 0nat,
{
    if sels.len() == 0 {
        Set::empty()
    } else {
        selections_spreads(sels.subrange(0, sels.len() - 1)).union(
            selection_spreads(sels[sels.len() - 1]),
        )
    }
}

/// The names of the fragments that a definition spreads.
pub open spec fn definition_spreads(d: ExecutableDefinition) -> Set<Seq<char>> {
    selections_spreads(definition_selections(d))
}

/// The strings of a list, as a set.
pub open spec fn names_set(v: Seq<String>) -> Set<Seq<char>> {
    Set::new(|n: Seq<char>| exists|i: int| 0 <= i < v.len() && #[trigger] v[i]@ == n)
}

proof fn lemma_names_push(v: Seq<String>, s: String)
    ensures
        names_set(v.push(s)) == names_set(v).insert(s@),
{
    let w = v.push(s);
    assert forall|n: Seq<char>| names_set(w).contains(n) implies #[trigger] names_set(v).insert(s@).contains(n) by {
        let i = choose|i: int| 0 <= i < w.len() && #[trigger] w[i]@ == n;
        if i < v.len() {
            assert(v[i]@ == n);
        }
    }
    assert forall|n: Seq<char>| names_set(v).insert(s@).contains(n) implies #[trigger] names_set(w).contains(n) by {
        if n == s@ {
            assert(w[v.len() as int]@ == n);
        } else {
            let i = choose|i: int| 0 <= i < v.len() && #[trigger] v[i]@ == n;
            assert(w[i]@ == n);
        }
    }
    assert(names_set(w) =~= names_set(v).insert(s@));
}

/// Adds to `names` the names of the fragments that `selections` spread.
pub fn visit_selections(selections: &Vec<Selection>, names: &mut Vec<String>)
    ensures
        names_set(final(names)@) == names_set(old(names)@).union(selections_spreads(selections@)),
    decreases selections,
{
    let ghost start = names_set(names@);
    let mut i: usize = 0;
    while i < selections.len()
        invariant
            i <= selections@.len(),
            names_set(names@) == start.union(selections_spreads(selections@.take(i as int))),
        decreases selections@.len() - i,
    {
        proof {
            let t = selections@.take(i + 1);
            assert(t.subrange(0, t.len() - 1) =~= selections@.take(i as int));
            assert(t[t.len() - 1] == selections@[i as int]);
            assert(decreases_to!(*selections => selections@));
            assert(decreases_to!(selections@ => selections@[i as int]));
        }
        let ghost before = names_set(names@);
        match &selections[i] {
            Selection::FragmentSpread(spread) => {
                let ghost v0 = names@;
                names.push(copy_string(&spread.name));
                proof {
                    lemma_names_push(v0, names@[v0.len() as int]);
                    assert(names@ == v0.push(names@[v0.len() as int]));
                }
            },
            Selection::LinkedField(field) => {
                proof {
                    assert(decreases_to!(selections@[i as int] => field.selections));
                }
                visit_selections(&field.selections, names);
            },
            Selection::InlineFragment(fragment) => {
                proof {
                    assert(decreases_to!(selections@[i as int] => fragment.selections));
                }
                visit_selections(&fragment.selections, names);
            },
            Selection::ScalarField(_) => {},
        }
        assert(names_set(names@) =~= before.union(selection_spreads(selections@[i as int])));
        proof {
            let t = selections@.take(i + 1);
            assert(selections_spreads(t) == selections_spreads(selections@.take(i as int)).union(
                selection_spreads(selections@[i as int]),
            ));
            assert(names_set(names@) =~= start.union(selections_spreads(t)));
        }
        i = i + 1;
    }
    proof {
        assert(selections@.take(i as int) =~= selections@);
    }
}

// ---------------------------------------------------------------------------
// Reachability.
/// `d` is a fragment named `n`.
pub open spec fn is_fragment_named(d: ExecutableDefinition, n: Seq<char>) -> bool {
    d is Fragment && d->Fragment_0.name@ == n
}

/// Some base definition is a fragment named `n`.
pub open spec fn in_base(base: Seq<ExecutableDefinition>, n: Seq<char>) -> bool {
    exists|i: int| 0 <= i < base.len() && #[trigger] is_fragment_named(base[i], n)
}

/// No two base fragments share a name.
pub open spec fn distinct_fragment_names(base: Seq<ExecutableDefinition>) -> bool {
    forall|i: int, j: int|
        0 <= i < j < base.len() && base[i] is Fragment && base[j] is Fragment ==> #[trigger] base[i]->Fragment_0.name@
            != #[trigger] base[j]->Fragment_0.name@
}

/// `r` holds every base fragment that a project definition spreads, and every
/// base fragment that a base fragment in `r` spreads.
pub open spec fn closed(
    r: Set<Seq<char>>,
    project: Seq<ExecutableDefinition>,
    base: Seq<ExecutableDefinition>,
) -> bool {
    &&& forall|p: int, x: Seq<char>|
        0 <= p < project.len() && #[trigger] definition_spreads(project[p]).contains(x) && in_base(
            base,
            x,
        ) ==> r.contains(x)
    &&& forall|i: int, x: Seq<char>|
        0 <= i < base.len() && base[i] is Fragment && r.contains(base[i]->Fragment_0.name@)
            && #[trigger] definition_spreads(base[i]).contains(x) && in_base(base, x) ==> r.contains(x)
}

/// The base fragments whose names are in `r`, in order.
pub open spec fn kept(base: Seq<ExecutableDefinition>, r: Set<Seq<char>>) -> Seq<ExecutableDefinition>
    decreases base.len(),
{
    if base.len() == 0 {
        Seq::empty()
    } else {
        let rest = kept(base.drop_last(), r);
        if base.last() is Fragment && r.contains(base.last()->Fragment_0.name@) {
            rest.push(base.last())
        } else {
            rest
        }
    }
}

/// The definitions to compile.
pub struct ReachableAst {
    /// The project definitions, then the base fragments that they reach.
    pub definitions: Vec<ExecutableDefinition>,
    /// The names of the base fragments that were added.
    pub base_fragment_names: Vec<String>,
}

/// How many entries are false.
pub open spec fn count_unmarked(s: Seq<bool>) -> nat
    decreases s.len(),
{
    if s.len() == 0 {
        0
    } else {
        count_unmarked(s.drop_last()) + if s.last() {
            0nat
        } else {
            1nat
        }
    }
}

proof fn lemma_count_mark(s: Seq<bool>, i: int)
    requires
        0 <= i < s.len(),
        !s[i],
    ensures
        count_unmarked(s.update(i, true)) + 1 == count_unmarked(s),
    decreases s.len(),
{
    let t = s.update(i, true);
    if i == s.len() - 1 {
        assert(t.drop_last() =~= s.drop_last());
    } else {
        assert(t.drop_last() =~= s.drop_last().update(i, true));
        lemma_count_mark(s.drop_last(), i);
    }
}

/// The names of the fragments in the queue.
pub open spec fn queue_names(base: Seq<ExecutableDefinition>, queue: Seq<usize>) -> Set<Seq<char>> {
    Set::new(
        |n: Seq<char>|
            exists|j: int| 0 <= j < queue.len() && #[trigger] base[queue[j] as int]->Fragment_0.name@ == n,
    )
}

/// The queue holds exactly the marked base fragments, each once.
pub open spec fn queue_ok(base: Seq<ExecutableDefinition>, marked: Seq<bool>, queue: Seq<usize>) -> bool {
    &&& marked.len() == base.len()
    &&& forall|j: int|
        0 <= j < queue.len() ==> #[trigger] queue[j] < base.len() && base[queue[j] as int] is Fragment
            && marked[queue[j] as int]
    &&& forall|i: int|
        0 <= i < marked.len() && #[trigger] marked[i] ==> exists|j: int|
            0 <= j < queue.len() && #[trigger] queue[j] == i
    &&& count_unmarked(marked) + queue.len() == base.len()
    &&& forall|j1: int, j2: int| 0 <= j1 < j2 < queue.len() ==> #[trigger] queue[j1] != #[trigger] queue[j2]
}

/// Every closed set holds `r`.
pub open spec fn forced(
    r: Set<Seq<char>>,
    project: Seq<ExecutableDefinition>,
    base: Seq<ExecutableDefinition>,
) -> bool {
    forall|s: Set<Seq<char>>| #[trigger] closed(s, project, base) ==> r.subset_of(s)
}

/// The position of the base fragment named `name`, if there is one.
fn find_base_fragment(base: &Vec<ExecutableDefinition>, name: &String) -> (r: Option<usize>)
    ensures
        match r {
            Some(i) => i < base@.len() && is_fragment_named(base@[i as int], name@),
            None => !in_base(base@, name@),
        },
{
    let mut i: usize = 0;
    while i < base.len()
        invariant
            i <= base@.len(),
            forall|j: int| 0 <= j < i ==> !#[trigger] is_fragment_named(base@[j], name@),
        decreases base@.len() - i,
    {
        match &base[i] {
            ExecutableDefinition::Fragment(f) => {
                if f.name == *name {
                    return Some(i);
                }
            },
            ExecutableDefinition::Operation(_) => {},
        }
        i = i + 1;
    }
    None
}

/// Marks the base fragment named `name`, if there is one and it is not marked yet.
fn traverse_base_ast_definition(
    base: &Vec<ExecutableDefinition>,
    marked: &mut Vec<bool>,
    queue: &mut Vec<usize>,
    name: &String,
    Ghost(project): Ghost<Seq<ExecutableDefinition>>,
)
    requires
        distinct_fragment_names(base@),
        queue_ok(base@, old(marked)@, old(queue)@),
        forced(queue_names(base@, old(queue)@), project, base@),
        forall|s: Set<Seq<char>>| #[trigger] closed(s, project, base@) && in_base(base@, name@) ==> s.contains(name@),
    ensures
        queue_ok(base@, final(marked)@, final(queue)@),
        forced(queue_names(base@, final(queue)@), project, base@),
        final(queue)@.take(old(queue)@.len() as int) == old(queue)@,
        old(queue)@.len() <= final(queue)@.len(),
        queue_names(base@, final(queue)@) == queue_names(base@, old(queue)@).union(
            if in_base(base@, name@) {
                set![name@]
            } else {
                Set::empty()
            },
        ),
{
    let ghost q0 = queue@;
    let ghost m0 = marked@;
    match find_base_fragment(base, name) {
        None => {
            assert(queue@.take(q0.len() as int) =~= q0);
            assert(queue_names(base@, queue@) =~= queue_names(base@, q0).union(Set::empty()));
        },
        Some(i) => {
            if marked[i] {
                proof {
                    let j = choose|j: int| 0 <= j < q0.len() && #[trigger] q0[j] == i;
                    assert(base@[q0[j] as int]->Fragment_0.name@ == name@);
                    assert(queue@.take(q0.len() as int) =~= q0);
                    assert(queue_names(base@, queue@) =~= queue_names(base@, q0).union(set![name@]));
                }
            } else {
                proof {
                    lemma_count_mark(m0, i as int);
                }
                marked.set(i, true);
                queue.push(i);
                let ghost q1 = queue@;
                proof {
                    assert(q1[q0.len() as int] == i);
                    assert(q1.take(q0.len() as int) =~= q0);
                    assert forall|jj: int| 0 <= jj < q1.len() implies #[trigger] q1[jj] < base@.len() && base@[q1[jj] as int] is Fragment
                        && marked@[q1[jj] as int] by {
                        if jj < q0.len() {
                            assert(q1[jj] == q0[jj]);
                        }
                    }
                    assert forall|j1: int, j2: int| 0 <= j1 < j2 < q1.len() implies #[trigger] q1[j1] != #[trigger] q1[j2] by {
                        if j2 == q0.len() {
                            assert(q1[j1] == q0[j1]);
                            assert(m0[q0[j1] as int]);
                        } else {
                            assert(q1[j1] == q0[j1]);
                            assert(q1[j2] == q0[j2]);
                        }
                    }
                    assert forall|ii: int| 0 <= ii < marked@.len() && #[trigger] marked@[ii] implies exists|jj: int|
                        0 <= jj < q1.len() && #[trigger] q1[jj] == ii by {
                        if ii == i {
                            assert(q1[q0.len() as int] == ii);
                        } else {
                            assert(m0[ii]);
                            let jj = choose|jj: int| 0 <= jj < q0.len() && #[trigger] q0[jj] == ii;
                            assert(q1[jj] == ii);
                        }
                    }
                    assert forall|n: Seq<char>| queue_names(base@, q1).contains(n) implies #[trigger] queue_names(base@, q0).union(set![name@]).contains(n) by {
                        let jj = choose|jj: int| 0 <= jj < q1.len() && #[trigger] base@[q1[jj] as int]->Fragment_0.name@ == n;
                        if jj < q0.len() {
                            assert(q1[jj] == q0[jj]);
                            assert(base@[q0[jj] as int]->Fragment_0.name@ == n);
                        }
                    }
                    assert forall|n: Seq<char>| queue_names(base@, q0).union(set![name@]).contains(n) implies #[trigger] queue_names(base@, q1).contains(n) by {
                        if n == name@ {
                            assert(base@[q1[q0.len() as int] as int]->Fragment_0.name@ == n);
                        } else {
                            let jj = choose|jj: int| 0 <= jj < q0.len() && #[trigger] base@[q0[jj] as int]->Fragment_0.name@ == n;
                            assert(q1[jj] == q0[jj]);
                            assert(base@[q1[jj] as int]->Fragment_0.name@ == n);
                        }
                    }
                    assert(queue_names(base@, q1) =~= queue_names(base@, q0).union(set![name@]));
                }
            }
        },
    }
}

/// Every name of `names` that is a base fragment is in every closed set.
pub open spec fn justified(
    names: Seq<String>,
    project: Seq<ExecutableDefinition>,
    base: Seq<ExecutableDefinition>,
) -> bool {
    forall|k: int, s: Set<Seq<char>>|
        #![trigger closed(s, project, base), names[k]]
        0 <= k < names.len() && closed(s, project, base) && in_base(base, names[k]@) ==> s.contains(
            names[k]@,
        )
}

/// Marks the base fragments that `names` name.
fn mark_all(
    base: &Vec<ExecutableDefinition>,
    marked: &mut Vec<bool>,
    queue: &mut Vec<usize>,
    names: &Vec<String>,
    Ghost(project): Ghost<Seq<ExecutableDefinition>>,
)
    requires
        distinct_fragment_names(base@),
        queue_ok(base@, old(marked)@, old(queue)@),
        forced(queue_names(base@, old(queue)@), project, base@),
        justified(names@, project, base@),
    ensures
        queue_ok(base@, final(marked)@, final(queue)@),
        forced(queue_names(base@, final(queue)@), project, base@),
        final(queue)@.take(old(queue)@.len() as int) == old(queue)@,
        old(queue)@.len() <= final(queue)@.len(),
        forall|x: Seq<char>|
            #[trigger] queue_names(base@, final(queue)@).contains(x) <==> queue_names(base@, old(queue)@).contains(x)
                || (names_set(names@).contains(x) && in_base(base@, x)),
{
    let ghost q_start = queue@;
    let mut k: usize = 0;
    while k < names.len()
        invariant
            k <= names@.len(),
            distinct_fragment_names(base@),
            justified(names@, project, base@),
            queue_ok(base@, marked@, queue@),
            forced(queue_names(base@, queue@), project, base@),
            queue@.take(q_start.len() as int) == q_start,
            q_start.len() <= queue@.len(),
            forall|x: Seq<char>|
                #[trigger] queue_names(base@, queue@).contains(x) <==> queue_names(base@, q_start).contains(x)
                    || (names_set(names@.take(k as int)).contains(x) && in_base(base@, x)),
        decreases names@.len() - k,
    {
        let ghost q0 = queue@;
        proof {
            assert forall|s: Set<Seq<char>>| #[trigger] closed(s, project, base@) && in_base(base@, names@[k as int]@)
                implies s.contains(names@[k as int]@) by {
                assert(names@[k as int] == names@[k as int]);
            }
        }
        traverse_base_ast_definition(base, marked, queue, &names[k], Ghost(project));
        proof {
            assert(queue@.take(q_start.len() as int) =~= q_start) by {
                assert forall|j: int| 0 <= j < q_start.len() implies queue@[j] == q_start[j] by {
                    assert(queue@.take(q0.len() as int)[j] == q0[j]);
                    assert(q0.take(q_start.len() as int)[j] == q_start[j]);
                }
            }
            let t = names@.take(k + 1);
            assert forall|x: Seq<char>| names_set(t).contains(x) <==> names_set(names@.take(k as int)).contains(x)
                || x == names@[k as int]@ by {
                if names_set(t).contains(x) {
                    let i = choose|i: int| 0 <= i < t.len() && #[trigger] t[i]@ == x;
                    if i < k {
                        assert(names@.take(k as int)[i]@ == x);
                    }
                }
                if names_set(names@.take(k as int)).contains(x) {
                    let i = choose|i: int| 0 <= i < k && #[trigger] names@.take(k as int)[i]@ == x;
                    assert(t[i]@ == x);
                }
                if x == names@[k as int]@ {
                    assert(t[k as int]@ == x);
                }
            }
        }
        k = k + 1;
    }
    proof {
        assert(names@.take(k as int) =~= names@);
    }
}

/// Get all definitions reachable from the project definitions: the project
/// definitions, then the base fragments that they reach through fragment
/// spreads, directly or through other base fragments.
pub fn get_reachable_ast(
    project_definitions: Vec<ExecutableDefinition>,
    base_definitions: Vec<ExecutableDefinition>,
) -> (r: ReachableAst)
    requires
        distinct_fragment_names(base_definitions@),
    ensures
        r.definitions@ == project_definitions@ + kept(
            base_definitions@,
            names_set(r.base_fragment_names@),
        ),
        forall|i: int, j: int|
            0 <= i < j < r.base_fragment_names@.len() ==> #[trigger] r.base_fragment_names@[i]@
                != #[trigger] r.base_fragment_names@[j]@,
        forall|x: Seq<char>| #[trigger] names_set(r.base_fragment_names@).contains(x) ==> in_base(base_definitions@, x),
        closed(names_set(r.base_fragment_names@), project_definitions@, base_definitions@),
        forced(names_set(r.base_fragment_names@), project_definitions@, base_definitions@),
{
    let ghost project = project_definitions@;
    let ghost base = base_definitions@;
    if base_definitions.len() == 0 {
        let names: Vec<String> = Vec::new();
        proof {
            assert(names_set(names@) =~= Set::empty());
            assert(kept(base, Set::empty()) =~= Seq::empty());
            assert(project + Seq::<ExecutableDefinition>::empty() =~= project);
        }
        return ReachableAst { definitions: project_definitions, base_fragment_names: names };
    }
    let n = base_definitions.len();
    let mut marked: Vec<bool> = Vec::new();
    while marked.len() < n
        invariant
            marked@.len() <= n,
            count_unmarked(marked@) == marked@.len(),
            forall|i: int| 0 <= i < marked@.len() ==> !#[trigger] marked@[i],
        decreases n - marked@.len(),
    {
        let ghost m0 = marked@;
        marked.push(false);
        assert(marked@.drop_last() =~= m0);
    }
    let mut queue: Vec<usize> = Vec::new();
    assert(queue_names(base, queue@) =~= Set::empty());
    let mut p: usize = 0;
    while p < project_definitions.len()
        invariant
            project == project_definitions@,
            base == base_definitions@,
            distinct_fragment_names(base),
            p <= project.len(),
            queue_ok(base, marked@, queue@),
            forced(queue_names(base, queue@), project, base),
            forall|pp: int, x: Seq<char>|
                0 <= pp < p && #[trigger] definition_spreads(project[pp]).contains(x) && in_base(base, x)
                    ==> queue_names(base, queue@).contains(x),
        decreases project.len() - p,
    {
        let mut names: Vec<String> = Vec::new();
        proof {
            assert(names_set(names@) =~= Set::empty());
        }
        visit_selections(project_definitions[p].selections(), &mut names);
        proof {
            assert(names_set(names@) =~= definition_spreads(project[p as int]));
            assert forall|k: int, s: Set<Seq<char>>|
                #![trigger closed(s, project, base), names@[k]]
                0 <= k < names@.len() && closed(s, project, base) && in_base(base, names@[k]@) implies s.contains(
                    names@[k]@,
                ) by {
                assert(names_set(names@).contains(names@[k]@));
                assert(definition_spreads(project[p as int]).contains(names@[k]@));
            }
        }
        let ghost q0 = queue@;
        mark_all(&base_definitions, &mut marked, &mut queue, &names, Ghost(project));
        proof {
            assert forall|pp: int, x: Seq<char>|
                0 <= pp < p + 1 && #[trigger] definition_spreads(project[pp]).contains(x) && in_base(base, x)
                    implies queue_names(base, queue@).contains(x) by {
                if pp < p {
                    assert(queue_names(base, q0).contains(x));
                } else {
                    assert(names_set(names@).contains(x));
                }
            }
        }
        p = p + 1;
    }
    let mut idx: usize = 0;
    while idx < queue.len()
        invariant
            project == project_definitions@,
            base == base_definitions@,
            n == base.len(),
            distinct_fragment_names(base),
            idx <= queue@.len(),
            queue_ok(base, marked@, queue@),
            forced(queue_names(base, queue@), project, base),
            forall|pp: int, x: Seq<char>|
                0 <= pp < project.len() && #[trigger] definition_spreads(project[pp]).contains(x) && in_base(
                    base,
                    x,
                ) ==> queue_names(base, queue@).contains(x),
            forall|j: int, x: Seq<char>|
                0 <= j < idx && #[trigger] definition_spreads(base[queue@[j] as int]).contains(x) && in_base(
                    base,
                    x,
                ) ==> queue_names(base, queue@).contains(x),
        decreases n - idx,
    {
        let q = queue[idx];
        let ghost qi = q as int;
        let ghost y = base[qi]->Fragment_0.name@;
        let mut names: Vec<String> = Vec::new();
        proof {
            assert(names_set(names@) =~= Set::empty());
        }
        visit_selections(base_definitions[q].selections(), &mut names);
        proof {
            assert(names_set(names@) =~= definition_spreads(base[qi]));
            assert(queue_names(base, queue@).contains(y)) by {
                assert(base[queue@[idx as int] as int]->Fragment_0.name@ == y);
            }
            assert forall|k: int, s: Set<Seq<char>>|
                #![trigger closed(s, project, base), names@[k]]
                0 <= k < names@.len() && closed(s, project, base) && in_base(base, names@[k]@) implies s.contains(
                    names@[k]@,
                ) by {
                assert(queue_names(base, queue@).subset_of(s));
                assert(s.contains(y));
                assert(names_set(names@).contains(names@[k]@));
                assert(definition_spreads(base[qi]).contains(names@[k]@));
            }
        }
        let ghost q0 = queue@;
        mark_all(&base_definitions, &mut marked, &mut queue, &names, Ghost(project));
        proof {
            assert forall|j: int, x: Seq<char>|
                0 <= j < idx + 1 && #[trigger] definition_spreads(base[queue@[j] as int]).contains(x) && in_base(
                    base,
                    x,
                ) implies queue_names(base, queue@).contains(x) by {
                assert(queue@[j] == queue@.take(q0.len() as int)[j]);
                assert(queue@[j] == q0[j]);
                if j < idx {
                    assert(queue_names(base, q0).contains(x));
                } else {
                    assert(names_set(names@).contains(x));
                }
            }
            assert forall|pp: int, x: Seq<char>|
                0 <= pp < project.len() && #[trigger] definition_spreads(project[pp]).contains(x) && in_base(
                    base,
                    x,
                ) implies queue_names(base, queue@).contains(x) by {
                assert(queue_names(base, q0).contains(x));
            }
        }
        idx = idx + 1;
    }
    let ghost reached = queue_names(base, queue@);
    proof {
        assert forall|i: int, x: Seq<char>|
            0 <= i < base.len() && base[i] is Fragment && reached.contains(base[i]->Fragment_0.name@)
                && #[trigger] definition_spreads(base[i]).contains(x) && in_base(base, x) implies reached.contains(x) by {
            let j = choose|j: int| 0 <= j < queue@.len() && #[trigger] base[queue@[j] as int]->Fragment_0.name@
                == base[i]->Fragment_0.name@;
            let qj = queue@[j] as int;
            if qj < i {
                assert(base[qj]->Fragment_0.name@ != base[i]->Fragment_0.name@);
            } else if i < qj {
                assert(base[i]->Fragment_0.name@ != base[qj]->Fragment_0.name@);
            }
            assert(definition_spreads(base[queue@[j] as int]).contains(x));
        }
        assert(closed(reached, project, base));
    }
    let mut names_out: Vec<String> = Vec::new();
    let mut j: usize = 0;
    while j < queue.len()
        invariant
            base == base_definitions@,
            queue_ok(base, marked@, queue@),
            j <= queue@.len(),
            names_out@.len() == j,
            forall|jj: int| 0 <= jj < j ==> #[trigger] names_out@[jj]@ == base[queue@[jj] as int]->Fragment_0.name@,
        decreases queue@.len() - j,
    {
        match &base_definitions[queue[j]] {
            ExecutableDefinition::Fragment(f) => {
                names_out.push(copy_string(&f.name));
            },
            ExecutableDefinition::Operation(_) => {
                assert(false);
            },
        }
        j = j + 1;
    }
    proof {
        assert forall|x: Seq<char>| names_set(names_out@).contains(x) == reached.contains(x) by {
            if names_set(names_out@).contains(x) {
                let jj = choose|jj: int| 0 <= jj < names_out@.len() && #[trigger] names_out@[jj]@ == x;
                assert(base[queue@[jj] as int]->Fragment_0.name@ == x);
            }
            if reached.contains(x) {
                let jj = choose|jj: int| 0 <= jj < queue@.len() && #[trigger] base[queue@[jj] as int]->Fragment_0.name@ == x;
                assert(names_out@[jj]@ == x);
            }
        }
        assert(names_set(names_out@) =~= reached);
        assert forall|i1: int, i2: int| 0 <= i1 < i2 < names_out@.len() implies #[trigger] names_out@[i1]@
            != #[trigger] names_out@[i2]@ by {
            let a = queue@[i1] as int;
            let b = queue@[i2] as int;
            if a < b {
                assert(base[a]->Fragment_0.name@ != base[b]->Fragment_0.name@);
            } else {
                assert(base[b]->Fragment_0.name@ != base[a]->Fragment_0.name@);
            }
        }
        assert forall|x: Seq<char>| #[trigger] reached.contains(x) implies in_base(base, x) by {
            let jj = choose|jj: int| 0 <= jj < queue@.len() && #[trigger] base[queue@[jj] as int]->Fragment_0.name@ == x;
            assert(is_fragment_named(base[queue@[jj] as int], x));
        }
    }
    let mut definitions = project_definitions;
    let mut rest = base_definitions;
    let mut i: usize = 0;
    while rest.len() > 0
        invariant
            base.len() == n,
            i <= n,
            rest@ == base.skip(i as int),
            marked@.len() == n,
            distinct_fragment_names(base),
            queue_ok(base, marked@, queue@),
            reached == queue_names(base, queue@),
            definitions@ == project + kept(base.take(i as int), reached),
        decreases rest@.len(),
    {
        assert(base.skip(i as int).len() > 0);
        let d = rest.remove(0);
        proof {
            assert(d == base[i as int]);
            assert(rest@ =~= base.skip(i + 1));
            let t = base.take(i + 1);
            assert(t.drop_last() =~= base.take(i as int));
            assert(t.last() == base[i as int]);
            if marked@[i as int] {
                let jj = choose|jj: int| 0 <= jj < queue@.len() && #[trigger] queue@[jj] == i;
                assert(base[queue@[jj] as int]->Fragment_0.name@ == base[i as int]->Fragment_0.name@);
            } else if base[i as int] is Fragment && reached.contains(base[i as int]->Fragment_0.name@) {
                let jj = choose|jj: int| 0 <= jj < queue@.len() && #[trigger] base[queue@[jj] as int]->Fragment_0.name@
                    == base[i as int]->Fragment_0.name@;
                let qj = queue@[jj] as int;
                if qj < i {
                    assert(base[qj]->Fragment_0.name@ != base[i as int]->Fragment_0.name@);
                } else if i < qj {
                    assert(base[i as int]->Fragment_0.name@ != base[qj]->Fragment_0.name@);
                }
                assert(marked@[qj]);
            }
        }
        if marked[i] {
            definitions.push(d);
        }
        i = i + 1;
    }
    proof {
        assert(base.skip(i as int).len() == 0);
        assert(base.take(i as int) =~= base);
    }
    ReachableAst { definitions, base_fragment_names: names_out }
}

// ---------------------------------------------------------------------------
// References of each definition.
/// The fragments that each definition spreads, by definition name; a later
/// definition with the same name replaces an earlier one.
pub open spec fn references_map(defs: Seq<ExecutableDefinition>) -> Map<Seq<char>, Set<Seq<char>>>
    decreases defs.len(),
{
    if defs.len() == 0 {
        Map::empty()
    } else {
        references_map(defs.drop_last()).insert(
            definition_name(defs.last())->0,
            definition_spreads(defs.last()),
        )
    }
}

/// The fragments that a definition spreads.
pub struct DefinitionReferences {
    pub name: String,
    pub references: Vec<String>,
}

/// No two entries share a name.
pub open spec fn distinct_names(r: Seq<DefinitionReferences>) -> bool {
    forall|i: int, j: int| 0 <= i < j < r.len() ==> #[trigger] r[i].name@ != #[trigger] r[j].name@
}

/// No string occurs twice.
pub open spec fn no_duplicate_strings(v: Seq<String>) -> bool {
    forall|i: int, j: int| 0 <= i < j < v.len() ==> #[trigger] v[i]@ != #[trigger] v[j]@
}

/// The entries as a map from definition name to referenced fragment names.
pub open spec fn references_view(r: Seq<DefinitionReferences>) -> Map<Seq<char>, Set<Seq<char>>> {
    Map::new(
        |n: Seq<char>| exists|i: int| 0 <= i < r.len() && #[trigger] r[i].name@ == n,
        |n: Seq<char>| names_set(r[choose|i: int| 0 <= i < r.len() && #[trigger] r[i].name@ == n].references@),
    )
}

proof fn lemma_view_update(r: Seq<DefinitionReferences>, i: int, e: DefinitionReferences)
    requires
        distinct_names(r),
        0 <= i < r.len(),
        r[i].name@ == e.name@,
    ensures
        distinct_names(r.update(i, e)),
        references_view(r.update(i, e)) == references_view(r).insert(e.name@, names_set(e.references@)),
{
    let w = r.update(i, e);
    assert forall|a: int, b: int| 0 <= a < b < w.len() implies #[trigger] w[a].name@ != #[trigger] w[b].name@ by {
        assert(r[a].name@ != r[b].name@);
    }
    let m = references_view(r).insert(e.name@, names_set(e.references@));
    assert forall|n: Seq<char>| #[trigger] references_view(w).dom().contains(n) == m.dom().contains(n) by {
        if references_view(w).dom().contains(n) {
            let k = choose|k: int| 0 <= k < w.len() && #[trigger] w[k].name@ == n;
            if k != i {
                assert(r[k].name@ == n);
            }
        }
        if references_view(r).dom().contains(n) {
            let k = choose|k: int| 0 <= k < r.len() && #[trigger] r[k].name@ == n;
            assert(w[k].name@ == n);
        }
        if n == e.name@ {
            assert(w[i].name@ == n);
        }
    }
    assert forall|n: Seq<char>| #[trigger] references_view(w).dom().contains(n) implies references_view(w)[n] == m[n] by {
        let k = choose|k: int| 0 <= k < w.len() && #[trigger] w[k].name@ == n;
        if n == e.name@ {
            if k != i {
                assert(r[k].name@ == r[i].name@);
                if k < i {
                    assert(r[k].name@ != r[i].name@);
                } else {
                    assert(r[i].name@ != r[k].name@);
                }
            }
        } else {
            assert(k != i);
            assert(r[k].name@ == n);
            let k0 = choose|k0: int| 0 <= k0 < r.len() && #[trigger] r[k0].name@ == n;
            if k0 < k {
                assert(r[k0].name@ != r[k].name@);
            } else if k < k0 {
                assert(r[k].name@ != r[k0].name@);
            }
        }
    }
    assert(references_view(w) =~= m);
}

proof fn lemma_view_push(r: Seq<DefinitionReferences>, e: DefinitionReferences)
    requires
        distinct_names(r),
        forall|i: int| 0 <= i < r.len() ==> #[trigger] r[i].name@ != e.name@,
    ensures
        distinct_names(r.push(e)),
        references_view(r.push(e)) == references_view(r).insert(e.name@, names_set(e.references@)),
{
    let w = r.push(e);
    assert forall|a: int, b: int| 0 <= a < b < w.len() implies #[trigger] w[a].name@ != #[trigger] w[b].name@ by {
        if b < r.len() {
            assert(r[a].name@ != r[b].name@);
        } else {
            assert(r[a].name@ != e.name@);
        }
    }
    let m = references_view(r).insert(e.name@, names_set(e.references@));
    assert forall|n: Seq<char>| #[trigger] references_view(w).dom().contains(n) == m.dom().contains(n) by {
        if references_view(w).dom().contains(n) {
            let k = choose|k: int| 0 <= k < w.len() && #[trigger] w[k].name@ == n;
            if k < r.len() {
                assert(r[k].name@ == n);
            }
        }
        if references_view(r).dom().contains(n) {
            let k = choose|k: int| 0 <= k < r.len() && #[trigger] r[k].name@ == n;
            assert(w[k].name@ == n);
        }
        if n == e.name@ {
            assert(w[r.len() as int].name@ == n);
        }
    }
    assert forall|n: Seq<char>| #[trigger] references_view(w).dom().contains(n) implies references_view(w)[n] == m[n] by {
        let k = choose|k: int| 0 <= k < w.len() && #[trigger] w[k].name@ == n;
        if n == e.name@ {
            if k < r.len() {
                assert(r[k].name@ != e.name@);
            }
        } else {
            assert(k < r.len());
            assert(r[k].name@ == n);
            let k0 = choose|k0: int| 0 <= k0 < r.len() && #[trigger] r[k0].name@ == n;
            if k0 < k {
                assert(r[k0].name@ != r[k].name@);
            } else if k < k0 {
                assert(r[k].name@ != r[k0].name@);
            }
        }
    }
    assert(references_view(w) =~= m);
}

/// The distinct strings of `names`.
fn unique_strings(names: &Vec<String>) -> (r: Vec<String>)
    ensures
        names_set(r@) == names_set(names@),
        no_duplicate_strings(r@),
{
    let mut r: Vec<String> = Vec::new();
    let mut i: usize = 0;
    while i < names.len()
        invariant
            i <= names@.len(),
            names_set(r@) == names_set(names@.take(i as int)),
            no_duplicate_strings(r@),
        decreases names@.len() - i,
    {
        let mut found = false;
        let mut k: usize = 0;
        while k < r.len()
            invariant
                k <= r@.len(),
                i < names@.len(),
                !found ==> forall|kk: int| 0 <= kk < k ==> #[trigger] r@[kk]@ != names@[i as int]@,
                found ==> names_set(r@).contains(names@[i as int]@),
            decreases r@.len() - k,
        {
            if r[k] == names[i] {
                found = true;
                assert(r@[k as int]@ == names@[i as int]@);
            }
            k = k + 1;
        }
        let ghost r0 = r@;
        if !found {
            r.push(copy_string(&names[i]));
            proof {
                lemma_names_push(r0, r@[r0.len() as int]);
                assert(r@ == r0.push(r@[r0.len() as int]));
                assert forall|a: int, b: int| 0 <= a < b < r@.len() implies #[trigger] r@[a]@ != #[trigger] r@[b]@ by {
                    if b < r0.len() {
                        assert(r0[a]@ != r0[b]@);
                    }
                }
            }
        }
        proof {
            let t = names@.take(i + 1);
            assert(t == names@.take(i as int).push(names@[i as int]));
            lemma_names_push(names@.take(i as int), names@[i as int]);
            assert(names_set(r@) =~= names_set(t));
        }
        i = i + 1;
    }
    proof {
        assert(names@.take(i as int) =~= names@);
    }
    r
}

/// Get the fragment references of each definition, by definition name.
pub fn get_definition_references(definitions: &Vec<ExecutableDefinition>) -> (r: Vec<DefinitionReferences>)
    requires
        forall|i: int| 0 <= i < definitions@.len() ==> #[trigger] definition_name(definitions@[i]) is Some,
    ensures
        references_view(r@) == references_map(definitions@),
        distinct_names(r@),
        forall|i: int| 0 <= i < r@.len() ==> no_duplicate_strings(#[trigger] r@[i].references@),
{
    let mut result: Vec<DefinitionReferences> = Vec::new();
    let mut i: usize = 0;
    proof {
        assert(references_view(result@) =~= Map::empty());
        assert(definitions@.take(0) =~= Seq::<ExecutableDefinition>::empty());
    }
    while i < definitions.len()
        invariant
            i <= definitions@.len(),
            forall|j: int| 0 <= j < definitions@.len() ==> #[trigger] definition_name(definitions@[j]) is Some,
            distinct_names(result@),
            forall|j: int| 0 <= j < result@.len() ==> no_duplicate_strings(#[trigger] result@[j].references@),
            references_view(result@) == references_map(definitions@.take(i as int)),
        decreases definitions@.len() - i,
    {
        let definition = &definitions[i];
        let name = match definition.name() {
            Some(n) => copy_string(n),
            None => {
                assert(definition_name(definitions@[i as int]) is Some);
                String::new()
            },
        };
        let mut spreads: Vec<String> = Vec::new();
        proof {
            assert(names_set(spreads@) =~= Set::empty());
        }
        visit_selections(definition.selections(), &mut spreads);
        let references = unique_strings(&spreads);
        proof {
            assert(names_set(references@) =~= definition_spreads(definitions@[i as int]));
            let t = definitions@.take(i + 1);
            assert(t.drop_last() =~= definitions@.take(i as int));
            assert(t.last() == definitions@[i as int]);
        }
        let mut k: usize = 0;
        while k < result.len() && result[k].name != name
            invariant
                k <= result@.len(),
                forall|kk: int| 0 <= kk < k ==> #[trigger] result@[kk].name@ != name@,
            decreases result@.len() - k,
        {
            k = k + 1;
        }
        let ghost r0 = result@;
        let e = DefinitionReferences { name, references };
        if k < result.len() {
            proof {
                lemma_view_update(r0, k as int, e);
            }
            result.set(k, e);
            proof {
                assert forall|j: int| 0 <= j < result@.len() implies no_duplicate_strings(#[trigger] result@[j].references@) by {
                    if j != k {
                        assert(result@[j] == r0[j]);
                    }
                }
            }
        } else {
            proof {
                lemma_view_push(r0, e);
            }
            result.push(e);
            proof {
                assert forall|j: int| 0 <= j < result@.len() implies no_duplicate_strings(#[trigger] result@[j].references@) by {
                    if j < r0.len() {
                        assert(result@[j] == r0[j]);
                    }
                }
            }
        }
        i = i + 1;
    }
    proof {
        assert(definitions@.take(i as int) =~= definitions@);
    }
    result
}

} // verus!
