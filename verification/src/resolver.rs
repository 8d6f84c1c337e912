//! The closure resolver: a depth-first traversal of the snapshot from a root
//! package, producing the local-sourced packages of its dependency closure in
//! publish order, dependencies before dependents. A package name already
//! visited is skipped whole; registry-sourced dependencies are leaves and are
//! never emitted.

use vstd::prelude::*;
use vstd::seq_lib::*;
use vstd::set_lib::lemma_len_subset;
use crate::Error;
use crate::metadata::{Metadata, pkg_name, pkg_id, pkg_local, pkg_names, find_pkg_by_id, find_node_by_id, lemma_find_pkg_by_id_props, lemma_pkg_name_in_names, find_node, find_package_by_id};

verus! {

broadcast use vstd::seq_lib::seq_to_set_is_finite, vstd::set::group_set_axioms;

/// How many of the snapshot's package names have not been visited yet; the
/// traversal's termination measure.
pub open spec fn unseen_count(m: Metadata, seen: Seq<Seq<char>>) -> nat {
    pkg_names(m).difference(seen.to_set()).len()
}

/// A prefix visits no more than its extension leaves unvisited.
proof fn lemma_unseen_prefix(m: Metadata, s1: Seq<Seq<char>>, s2: Seq<Seq<char>>)
    requires
        s1.is_prefix_of(s2),
    ensures
        unseen_count(m, s2) <= unseen_count(m, s1),
{
    assert forall|x: Seq<char>| s1.to_set().contains(x) implies s2.to_set().contains(x) by {
        let idx = choose|idx: int| 0 <= idx < s1.len() && s1[idx] == x;
        assert(s2[idx] == x);
        assert(s2.contains(x));
    }
    let d1 = pkg_names(m).difference(s1.to_set());
    let d2 = pkg_names(m).difference(s2.to_set());
    assert(d2.subset_of(d1));
    assert(d1.finite()) by {
        lemma_len_subset(d1, pkg_names(m));
    }
    lemma_len_subset(d2, d1);
}

/// Visiting a package name not seen before strictly shrinks the measure.
proof fn lemma_unseen_push_fresh(m: Metadata, seen: Seq<Seq<char>>, nm: Seq<char>)
    requires
        pkg_names(m).contains(nm),
        !seen.contains(nm),
    ensures
        unseen_count(m, seen.push(nm)) < unseen_count(m, seen),
{
    let d0 = pkg_names(m).difference(seen.to_set());
    let d1 = pkg_names(m).difference(seen.push(nm).to_set());
    assert forall|x: Seq<char>| seen.push(nm).contains(x) implies seen.contains(x) || x == nm by {
        let idx = choose|idx: int| 0 <= idx < seen.push(nm).len() && seen.push(nm)[idx] == x;
        if idx < seen.len() {
            assert(seen[idx] == x);
        }
    }
    assert forall|x: Seq<char>| seen.contains(x) implies seen.push(nm).contains(x) by {
        let idx = choose|idx: int| 0 <= idx < seen.len() && seen[idx] == x;
        assert(seen.push(nm)[idx] == x);
    }
    assert(seen.push(nm)[seen.len() as int] == nm);
    assert(seen.push(nm).contains(nm));
    assert(d1 =~= d0.remove(nm));
    assert(d0.finite()) by {
        lemma_len_subset(d0, pkg_names(m));
    }
    assert(d0.contains(nm));
    assert(d0.remove(nm).len() == d0.len() - 1);
}

/// What the traversal produces from one package: the output sequence and the
/// visited names, extended; or the fatal condition it runs into. A name
/// already seen leaves both untouched; otherwise the package's dependencies
/// are traversed first (local ones recursively, registry-sourced ones
/// skipped), then the package itself is appended.
pub open spec fn fill_spec(m: Metadata, i: int, pkgs: Seq<int>, seen: Seq<Seq<char>>) -> Result<
    (Seq<int>, Seq<Seq<char>>),
    Error,
>
    decreases unseen_count(m, seen), 0int, 0int,
        when 0 <= i < m.packages@.len()
    via fill_spec_dec
{
    if seen.contains(pkg_name(m, i)) {
        Ok((pkgs, seen))
    } else {
        match find_node_by_id(m, pkg_id(m, i), 0) {
            None => Err(Error::MissingResolveNode),
            Some(n) => {
                match fill_deps_spec(
                    m,
                    m.resolve.nodes@[n].dependencies@,
                    0,
                    pkgs,
                    seen.push(pkg_name(m, i)),
                ) {
                    Err(e) => Err(e),
                    Ok((p2, s2)) => Ok((p2.push(i), s2)),
                }
            },
        }
    }
}

/// The traversal of one package's dependency list from position `k` on.
pub open spec fn fill_deps_spec(
    m: Metadata,
    deps: Seq<String>,
    k: int,
    pkgs: Seq<int>,
    seen: Seq<Seq<char>>,
) -> Result<(Seq<int>, Seq<Seq<char>>), Error>
    decreases unseen_count(m, seen), 1int, deps.len() - k,
    via fill_deps_spec_dec
{
    if k < 0 || k >= deps.len() {
        Ok((pkgs, seen))
    } else {
        match find_pkg_by_id(m, deps[k]@, 0) {
            None => Err(Error::MissingPackage),
            Some(j) => {
                if pkg_local(m, j) {
                    match fill_spec(m, j, pkgs, seen) {
                        Err(e) => Err(e),
                        Ok((p1, s1)) => {
                            if seen.is_prefix_of(s1) {
                                fill_deps_spec(m, deps, k + 1, p1, s1)
                            } else {
                                fill_deps_spec(m, deps, k + 1, p1, seen)
                            }
                        },
                    }
                } else {
                    fill_deps_spec(m, deps, k + 1, pkgs, seen)
                }
            },
        }
    }
}

#[via_fn]
proof fn fill_spec_dec(m: Metadata, i: int, pkgs: Seq<int>, seen: Seq<Seq<char>>) {
    if !seen.contains(pkg_name(m, i)) {
        lemma_pkg_name_in_names(m, i);
        lemma_unseen_push_fresh(m, seen, pkg_name(m, i));
    }
}

#[via_fn]
proof fn fill_deps_spec_dec(
    m: Metadata,
    deps: Seq<String>,
    k: int,
    pkgs: Seq<int>,
    seen: Seq<Seq<char>>,
) {
    if 0 <= k < deps.len() && find_pkg_by_id(m, deps[k]@, 0) is Some {
        lemma_find_pkg_by_id_props(m, deps[k]@, 0);
    }
    assert forall|s1: Seq<Seq<char>>| #[trigger] seen.is_prefix_of(s1) implies unseen_count(
        m,
        s1,
    ) <= unseen_count(m, seen) by {
        lemma_unseen_prefix(m, seen, s1);
    }
}

/// A successful traversal only appends: what went in comes out as a prefix,
/// of the output sequence and of the visited names alike.
pub proof fn lemma_fill_extends(m: Metadata, i: int, pkgs: Seq<int>, seen: Seq<Seq<char>>)
    requires
        0 <= i < m.packages@.len(),
    ensures
        fill_spec(m, i, pkgs, seen) matches Ok(o) ==> pkgs.is_prefix_of(o.0)
            && seen.is_prefix_of(o.1),
    decreases unseen_count(m, seen), 0int, 0int,
{
    if seen.contains(pkg_name(m, i)) {
    } else {
        lemma_pkg_name_in_names(m, i);
        lemma_unseen_push_fresh(m, seen, pkg_name(m, i));
        match find_node_by_id(m, pkg_id(m, i), 0) {
            None => {},
            Some(n) => {
                let seen1 = seen.push(pkg_name(m, i));
                let deps = m.resolve.nodes@[n].dependencies@;
                lemma_fill_deps_extends(m, deps, 0, pkgs, seen1);
                match fill_deps_spec(m, deps, 0, pkgs, seen1) {
                    Err(_) => {},
                    Ok((p2, s2)) => {
                        assert(pkgs.is_prefix_of(p2.push(i)));
                        assert(seen.is_prefix_of(s2));
                    },
                }
            },
        }
    }
}

/// The dependency-list traversal only appends as well.
pub proof fn lemma_fill_deps_extends(
    m: Metadata,
    deps: Seq<String>,
    k: int,
    pkgs: Seq<int>,
    seen: Seq<Seq<char>>,
)
    ensures
        fill_deps_spec(m, deps, k, pkgs, seen) matches Ok(o) ==> pkgs.is_prefix_of(o.0)
            && seen.is_prefix_of(o.1),
    decreases unseen_count(m, seen), 1int, deps.len() - k,
{
    if k < 0 || k >= deps.len() {
    } else {
        match find_pkg_by_id(m, deps[k]@, 0) {
            None => {},
            Some(j) => {
                lemma_find_pkg_by_id_props(m, deps[k]@, 0);
                if pkg_local(m, j) {
                    lemma_fill_extends(m, j, pkgs, seen);
                    match fill_spec(m, j, pkgs, seen) {
                        Err(_) => {},
                        Ok((p1, s1)) => {
                            lemma_unseen_prefix(m, seen, s1);
                            lemma_fill_deps_extends(m, deps, k + 1, p1, s1);
                        },
                    }
                } else {
                    lemma_fill_deps_extends(m, deps, k + 1, pkgs, seen);
                }
            },
        }
    }
}

/// Prefixes chain.
proof fn lemma_prefix_trans(a: Seq<Seq<char>>, b: Seq<Seq<char>>, c: Seq<Seq<char>>)
    requires
        a.is_prefix_of(b),
        b.is_prefix_of(c),
    ensures
        a.is_prefix_of(c),
{
    assert(a =~= c.subrange(0, a.len() as int));
}

fn contains_name(seen: &Vec<String>, name: &String) -> (r: bool)
    ensures
        r == seen.deep_view().contains(name@),
{
    let n = seen.len();
    let mut i: usize = 0;
    while i < n
        invariant
            i <= n,
            n == seen@.len(),
            forall|j: int| 0 <= j < i ==> seen.deep_view()[j] != name@,
        decreases n - i,
    {
        if seen[i] == *name {
            proof {
                assert(seen.deep_view()[i as int] == name@);
            }
            return true;
        }
        i = i + 1;
    }
    proof {
        if seen.deep_view().contains(name@) {
            let j = choose|j: int|
                0 <= j < seen.deep_view().len() && seen.deep_view()[j] == name@;
            assert(seen.deep_view()[j] != name@);
        }
    }
    false
}

/// The in-memory output sequence, as the mathematical one the traversal
/// speaks of.
pub open spec fn pkgs_view(pkgs: Seq<usize>) -> Seq<int> {
    pkgs.map_values(|x: usize| x as int)
}

/// One step of the traversal: visit the package at index `i`, appending the
/// local-sourced packages of its dependency closure, dependencies first, to
/// `pkgs`, and the names it visits to `seen`. Exactly the traversal
/// `fill_spec` describes; on a fatal condition the vectors are left in
/// whatever partial state the traversal reached, and the run aborts.
pub fn fill(m: &Metadata, i: usize, pkgs: &mut Vec<usize>, seen: &mut Vec<String>) -> (r: Result<
    (),
    Error,
>)
    requires
        i < m.packages@.len(),
    ensures
        old(seen).deep_view().is_prefix_of(final(seen).deep_view()),
        match r {
            Ok(()) => fill_spec(*m, i as int, pkgs_view(old(pkgs)@), old(seen).deep_view())
                == Ok::<_, Error>((pkgs_view(final(pkgs)@), final(seen).deep_view())),
            Err(e) => fill_spec(*m, i as int, pkgs_view(old(pkgs)@), old(seen).deep_view())
                == Err::<(Seq<int>, Seq<Seq<char>>), Error>(e),
        },
    decreases unseen_count(*m, old(seen).deep_view()),
{
    let ghost pkgs0 = pkgs_view(old(pkgs)@);
    let ghost seen0 = old(seen).deep_view();
    if contains_name(seen, &m.packages[i].name) {
        return Ok(());
    }
    seen.push(m.packages[i].name.clone());
    let ghost seen1 = seen.deep_view();
    proof {
        assert(seen1 =~= seen0.push(pkg_name(*m, i as int)));
        lemma_pkg_name_in_names(*m, i as int);
        lemma_unseen_push_fresh(*m, seen0, pkg_name(*m, i as int));
    }
    let node_idx = match find_node(m, &m.packages[i].id) {
        Some(n) => n,
        None => {
            return Err(Error::MissingResolveNode);
        },
    };
    let n_deps = m.resolve.nodes[node_idx].dependencies.len();
    let ghost deps = m.resolve.nodes@[node_idx as int].dependencies@;
    let mut k: usize = 0;
    while k < n_deps
        invariant
            k <= n_deps,
            i < m.packages@.len(),
            seen0 == old(seen).deep_view(),
            pkgs0 == pkgs_view(old(pkgs)@),
            find_node_by_id(*m, pkg_id(*m, i as int), 0) == Some(node_idx as int),
            node_idx < m.resolve.nodes@.len(),
            n_deps == deps.len(),
            deps == m.resolve.nodes@[node_idx as int].dependencies@,
            seen1 == seen0.push(pkg_name(*m, i as int)),
            pkg_names(*m).contains(pkg_name(*m, i as int)),
            !seen0.contains(pkg_name(*m, i as int)),
            seen1.is_prefix_of(seen.deep_view()),
            seen0.is_prefix_of(seen.deep_view()),
            fill_deps_spec(*m, deps, 0, pkgs0, seen1) == fill_deps_spec(
                *m,
                deps,
                k as int,
                pkgs_view(pkgs@),
                seen.deep_view(),
            ),
        decreases n_deps - k,
    {
        let ghost pkgs_cur = pkgs_view(pkgs@);
        let ghost seen_cur = seen.deep_view();
        let dep_id = &m.resolve.nodes[node_idx].dependencies[k];
        let j = match find_package_by_id(m, dep_id) {
            Some(j) => j,
            None => {
                proof {
                    assert(seen0.is_prefix_of(seen.deep_view()));
                }
                return Err(Error::MissingPackage);
            },
        };
        if m.packages[j].source.is_none() {
            proof {
                lemma_unseen_push_fresh(*m, seen0, pkg_name(*m, i as int));
                lemma_unseen_prefix(*m, seen1, seen_cur);
                assert(unseen_count(*m, seen.deep_view()) < unseen_count(*m, seen0));
            }
            match fill(m, j, pkgs, seen) {
                Ok(()) => {
                    proof {
                        lemma_fill_extends(*m, j as int, pkgs_cur, seen_cur);
                        assert(seen_cur.is_prefix_of(seen.deep_view()));
                        assert(seen1.is_prefix_of(seen.deep_view()));
                        assert(seen0.is_prefix_of(seen.deep_view()));
                        assert(fill_deps_spec(*m, deps, k as int, pkgs_cur, seen_cur)
                            == fill_deps_spec(
                            *m,
                            deps,
                            k + 1,
                            pkgs_view(pkgs@),
                            seen.deep_view(),
                        ));
                    }
                },
                Err(e) => {
                    proof {
                        assert(fill_deps_spec(*m, deps, k as int, pkgs_cur, seen_cur)
                            == Err::<(Seq<int>, Seq<Seq<char>>), Error>(e));
                        assert(seen0.is_prefix_of(seen.deep_view())) by {
                            lemma_prefix_trans(seen0, seen_cur, seen.deep_view());
                        }
                    }
                    return Err(e);
                },
            }
        }
        k = k + 1;
    }
    proof {
        assert(fill_deps_spec(*m, deps, n_deps as int, pkgs_view(pkgs@), seen.deep_view())
            == Ok::<_, Error>((pkgs_view(pkgs@), seen.deep_view())));
    }
    let ghost pkgs_end = pkgs_view(pkgs@);
    pkgs.push(i);
    proof {
        assert(pkgs_view(pkgs@) =~= pkgs_end.push(i as int));
    }
    Ok(())
}

/// The ordered closure of a root package: the local-sourced packages
/// reachable from it, dependencies before dependents, each exactly once, as
/// indices into the snapshot's package list.
pub fn resolve(m: &Metadata, root: usize) -> (r: Result<Vec<usize>, Error>)
    requires
        root < m.packages@.len(),
    ensures
        match r {
            Ok(v) => fill_spec(
                *m,
                root as int,
                Seq::<int>::empty(),
                Seq::<Seq<char>>::empty(),
            ) matches Ok(o) && o.0 == pkgs_view(v@) && forall|a: int|
                0 <= a < v@.len() ==> #[trigger] v@[a] < m.packages@.len(),
            Err(e) => fill_spec(*m, root as int, Seq::<int>::empty(), Seq::<Seq<char>>::empty())
                == Err::<(Seq<int>, Seq<Seq<char>>), Error>(e),
        },
{
    let mut pkgs: Vec<usize> = Vec::new();
    let mut seen: Vec<String> = Vec::new();
    proof {
        assert(pkgs_view(pkgs@) =~= Seq::<int>::empty());
        assert(seen.deep_view() =~= Seq::<Seq<char>>::empty());
        lemma_empty_state_ok(*m);
        lemma_fill_props(*m, root as int, Seq::empty(), Seq::empty());
    }
    match fill(m, root, &mut pkgs, &mut seen) {
        Ok(()) => {
            proof {
                assert forall|a: int| 0 <= a < pkgs@.len() implies #[trigger] pkgs@[a]
                    < m.packages@.len() by {
                    assert(pkgs_view(pkgs@)[a] == pkgs@[a] as int);
                }
            }
            Ok(pkgs)
        },
        Err(e) => Err(e),
    }
}


/// The names of the packages of an output sequence, in order.
pub open spec fn names_of(m: Metadata, pkgs: Seq<int>) -> Seq<Seq<char>> {
    pkgs.map_values(|x: int| pkg_name(m, x))
}

/// The names visited but not yet emitted: the packages whose traversal is
/// still in progress.
pub open spec fn stack_of(m: Metadata, pkgs: Seq<int>, seen: Seq<Seq<char>>) -> Set<Seq<char>> {
    seen.to_set().difference(names_of(m, pkgs).to_set())
}

/// A consistent traversal state: the output holds in-range indices, each
/// emitted name was visited, and neither the visited names nor the emitted
/// names repeat.
pub open spec fn state_ok(m: Metadata, pkgs: Seq<int>, seen: Seq<Seq<char>>) -> bool {
    &&& forall|a: int| 0 <= a < pkgs.len() ==> 0 <= #[trigger] pkgs[a] < m.packages@.len()
    &&& forall|a: int|
        0 <= a < pkgs.len() ==> seen.to_set().contains(#[trigger] names_of(m, pkgs)[a])
    &&& seen.no_duplicates()
    &&& names_of(m, pkgs).no_duplicates()
}

/// What one visit adds: the state stays consistent, every new entry is the
/// visited package itself or a local-sourced one, the visited name is in the
/// visited set afterwards, and the in-progress names are the same before and
/// after.
pub proof fn lemma_fill_props(m: Metadata, i: int, pkgs: Seq<int>, seen: Seq<Seq<char>>)
    requires
        0 <= i < m.packages@.len(),
        state_ok(m, pkgs, seen),
    ensures
        fill_spec(m, i, pkgs, seen) matches Ok(o) ==> {
            &&& state_ok(m, o.0, o.1)
            &&& pkgs.is_prefix_of(o.0)
            &&& seen.is_prefix_of(o.1)
            &&& forall|a: int|
                pkgs.len() <= a < o.0.len() ==> #[trigger] o.0[a] == i || pkg_local(m, o.0[a])
            &&& o.1.to_set().contains(pkg_name(m, i))
            &&& stack_of(m, o.0, o.1) =~= stack_of(m, pkgs, seen)
        },
    decreases unseen_count(m, seen), 0int, 0int,
{
    broadcast use vstd::seq_lib::group_seq_properties;

    if seen.contains(pkg_name(m, i)) {
        assert(seen.to_set().contains(pkg_name(m, i)));
    } else {
        lemma_pkg_name_in_names(m, i);
        lemma_unseen_push_fresh(m, seen, pkg_name(m, i));
        match find_node_by_id(m, pkg_id(m, i), 0) {
            None => {},
            Some(n) => {
                let nm = pkg_name(m, i);
                let seen1 = seen.push(nm);
                let deps = m.resolve.nodes@[n].dependencies@;
                assert(seen1.to_set() =~= seen.to_set().insert(nm));
                assert(state_ok(m, pkgs, seen1)) by {
                    assert(forall|a: int|
                        0 <= a < seen.len() ==> #[trigger] seen1[a] == seen[a]);
                }
                assert(stack_of(m, pkgs, seen1) =~= stack_of(m, pkgs, seen).insert(nm)) by {
                    assert(!names_of(m, pkgs).to_set().contains(nm));
                }
                lemma_fill_deps_props(m, deps, 0, pkgs, seen1);
                match fill_deps_spec(m, deps, 0, pkgs, seen1) {
                    Err(_) => {},
                    Ok((p2, s2)) => {
                        let p3 = p2.push(i);
                        assert(names_of(m, p3) =~= names_of(m, p2).push(nm));
                        // the visited name stayed in progress through the
                        // dependency traversal, so it was not emitted there
                        assert(stack_of(m, p2, s2).contains(nm));
                        assert(!names_of(m, p2).to_set().contains(nm));
                        assert(names_of(m, p3).to_set() =~= names_of(m, p2).to_set().insert(nm));
                        assert(s2.to_set().contains(nm)) by {
                            assert(seen1.is_prefix_of(s2)) by {
                                lemma_fill_deps_extends(m, deps, 0, pkgs, seen1);
                            }
                            assert(s2[seen.len() as int] == nm);
                            assert(s2.contains(nm));
                        }
                        assert(state_ok(m, p3, s2)) by {
                            assert(names_of(m, p3).no_duplicates()) by {
                                assert(forall|a: int|
                                    0 <= a < p2.len() ==> #[trigger] names_of(m, p3)[a]
                                        == names_of(m, p2)[a]);
                            }
                            assert(forall|a: int|
                                0 <= a < p3.len() ==> s2.to_set().contains(
                                    #[trigger] names_of(m, p3)[a],
                                ));
                        }
                        assert(stack_of(m, p3, s2) =~= stack_of(m, p2, s2).remove(nm));
                        assert(stack_of(m, pkgs, seen1).remove(nm) =~= stack_of(m, pkgs, seen)) by {
                            assert(!seen.to_set().contains(nm));
                        }
                        assert(stack_of(m, p3, s2) =~= stack_of(m, pkgs, seen));
                        assert(seen.is_prefix_of(s2)) by {
                            lemma_fill_extends(m, i, pkgs, seen);
                        }
                        assert(pkgs.is_prefix_of(p3)) by {
                            lemma_fill_extends(m, i, pkgs, seen);
                        }
                    },
                }
            },
        }
    }
}

/// The dependency-list traversal keeps the state consistent, emits only
/// local-sourced packages, and keeps the same names in progress.
pub proof fn lemma_fill_deps_props(
    m: Metadata,
    deps: Seq<String>,
    k: int,
    pkgs: Seq<int>,
    seen: Seq<Seq<char>>,
)
    requires
        0 <= k,
        state_ok(m, pkgs, seen),
    ensures
        fill_deps_spec(m, deps, k, pkgs, seen) matches Ok(o) ==> {
            &&& state_ok(m, o.0, o.1)
            &&& pkgs.is_prefix_of(o.0)
            &&& seen.is_prefix_of(o.1)
            &&& forall|a: int|
                pkgs.len() <= a < o.0.len() ==> pkg_local(m, #[trigger] o.0[a])
            &&& stack_of(m, o.0, o.1) =~= stack_of(m, pkgs, seen)
            &&& forall|q: int|
                0 <= q < deps.len() && k <= q && (#[trigger] find_pkg_by_id(m, deps[q]@, 0)) is Some
                    && pkg_local(m, find_pkg_by_id(m, deps[q]@, 0)->0)
                    ==> o.1.to_set().contains(pkg_name(m, find_pkg_by_id(m, deps[q]@, 0)->0))
        },
    decreases unseen_count(m, seen), 1int, deps.len() - k,
{
    if k < 0 || k >= deps.len() {
    } else {
        match find_pkg_by_id(m, deps[k]@, 0) {
            None => {},
            Some(j) => {
                lemma_find_pkg_by_id_props(m, deps[k]@, 0);
                if pkg_local(m, j) {
                    lemma_fill_props(m, j, pkgs, seen);
                    match fill_spec(m, j, pkgs, seen) {
                        Err(_) => {},
                        Ok((p1, s1)) => {
                            lemma_fill_extends(m, j, pkgs, seen);
                            lemma_unseen_prefix(m, seen, s1);
                            lemma_fill_deps_props(m, deps, k + 1, p1, s1);
                            match fill_deps_spec(m, deps, k + 1, p1, s1) {
                                Err(_) => {},
                                Ok((p2, s2)) => {
                                    lemma_fill_deps_extends(m, deps, k + 1, p1, s1);
                                    lemma_prefix_trans_gen(pkgs, p1, p2);
                                    lemma_prefix_trans(seen, s1, s2);
                                    assert(s1.to_set().subset_of(s2.to_set())) by {
                                        lemma_prefix_subset(s1, s2);
                                    }
                                    assert(s2.to_set().contains(pkg_name(m, j)));
                                    assert forall|q: int|
                                        0 <= q < deps.len() && k <= q && (#[trigger] find_pkg_by_id(
                                            m,
                                            deps[q]@,
                                            0,
                                        )) is Some && pkg_local(
                                            m,
                                            find_pkg_by_id(m, deps[q]@, 0)->0,
                                        ) implies s2.to_set().contains(
                                        pkg_name(m, find_pkg_by_id(m, deps[q]@, 0)->0),
                                    ) by {
                                        if q == k {
                                            assert(find_pkg_by_id(m, deps[q]@, 0)->0 == j);
                                        }
                                    }
                                    assert(p1 =~= p2.subrange(0, p1.len() as int));
                                    assert forall|a: int|
                                        pkgs.len() <= a < p2.len() implies pkg_local(
                                        m,
                                        #[trigger] p2[a],
                                    ) by {
                                        if a < p1.len() {
                                            assert(p2[a] == p1[a]);
                                            assert(p1[a] == j || pkg_local(m, p1[a]));
                                        }
                                    }
                                },
                            }
                        },
                    }
                } else {
                    lemma_fill_deps_props(m, deps, k + 1, pkgs, seen);
                }
            },
        }
    }
}

/// Prefixes of outputs chain.
proof fn lemma_prefix_trans_gen(a: Seq<int>, b: Seq<int>, c: Seq<int>)
    requires
        a.is_prefix_of(b),
        b.is_prefix_of(c),
    ensures
        a.is_prefix_of(c),
{
    assert(a =~= c.subrange(0, a.len() as int));
}

/// A prefix's elements are among the extension's.
proof fn lemma_prefix_subset(a: Seq<Seq<char>>, b: Seq<Seq<char>>)
    requires
        a.is_prefix_of(b),
    ensures
        a.to_set().subset_of(b.to_set()),
{
    assert forall|x: Seq<char>| a.to_set().contains(x) implies b.to_set().contains(x) by {
        let idx = choose|idx: int| 0 <= idx < a.len() && a[idx] == x;
        assert(b[idx] == x);
        assert(b.contains(x));
    }
}


/// The dependency identities the snapshot's resolve node gives the package
/// at `i`.
pub open spec fn node_deps(m: Metadata, i: int) -> Seq<String> {
    m.resolve.nodes@[find_node_by_id(m, pkg_id(m, i), 0)->0].dependencies@
}

/// A direct dependency edge of the snapshot: the resolve node of the package
/// at `i` lists an identity that resolves to the package at `j`.
pub open spec fn dep_edge(m: Metadata, i: int, j: int) -> bool {
    &&& find_node_by_id(m, pkg_id(m, i), 0) is Some
    &&& exists|q: int|
        0 <= q < node_deps(m, i).len() && find_pkg_by_id(m, #[trigger] node_deps(m, i)[q]@, 0)
            == Some(j)
}

/// No two packages of the snapshot share a name.
pub open spec fn unique_names(m: Metadata) -> bool {
    forall|i: int, j: int|
        #![trigger pkg_name(m, i), pkg_name(m, j)]
        0 <= i < m.packages@.len() && 0 <= j < m.packages@.len() && i != j ==> pkg_name(m, i)
            != pkg_name(m, j)
}

/// A witness that the local dependency subgraph is acyclic: a rank under
/// which every edge into a local package descends.
pub open spec fn rank_ok(m: Metadata, r: Map<Seq<char>, int>) -> bool {
    forall|i: int, j: int|
        0 <= i < m.packages@.len() && 0 <= j < m.packages@.len() && #[trigger] dep_edge(m, i, j)
            && pkg_local(m, j) ==> r[pkg_name(m, j)] < r[pkg_name(m, i)]
}

/// Every local dependency of an emitted package stands strictly before it.
pub open spec fn deps_before(m: Metadata, p: Seq<int>) -> bool {
    forall|a: int, j: int|
        0 <= a < p.len() && 0 <= j < m.packages@.len() && #[trigger] dep_edge(m, p[a], j)
            && pkg_local(m, j) ==> exists|b: int| 0 <= b < a && p[b] == j
}

proof fn lemma_fill_ordered(
    m: Metadata,
    i: int,
    pkgs: Seq<int>,
    seen: Seq<Seq<char>>,
    r: Map<Seq<char>, int>,
)
    requires
        0 <= i < m.packages@.len(),
        state_ok(m, pkgs, seen),
        unique_names(m),
        rank_ok(m, r),
        deps_before(m, pkgs),
        forall|nm: Seq<char>|
            stack_of(m, pkgs, seen).contains(nm) ==> r[nm] > r[pkg_name(m, i)],
    ensures
        fill_spec(m, i, pkgs, seen) matches Ok(o) ==> deps_before(m, o.0),
    decreases unseen_count(m, seen), 0int, 0int,
{
    broadcast use vstd::seq_lib::group_seq_properties;

    if seen.contains(pkg_name(m, i)) {
    } else {
        lemma_pkg_name_in_names(m, i);
        lemma_unseen_push_fresh(m, seen, pkg_name(m, i));
        match find_node_by_id(m, pkg_id(m, i), 0) {
            None => {},
            Some(n) => {
                let nm = pkg_name(m, i);
                let seen1 = seen.push(nm);
                let deps = m.resolve.nodes@[n].dependencies@;
                assert(deps == node_deps(m, i));
                assert(seen1.to_set() =~= seen.to_set().insert(nm));
                assert(state_ok(m, pkgs, seen1)) by {
                    assert(forall|a: int|
                        0 <= a < seen.len() ==> #[trigger] seen1[a] == seen[a]);
                }
                assert(stack_of(m, pkgs, seen1) =~= stack_of(m, pkgs, seen).insert(nm)) by {
                    assert(!names_of(m, pkgs).to_set().contains(nm));
                }
                let b = r[nm];
                assert forall|q: int|
                    0 <= q < deps.len() && (#[trigger] find_pkg_by_id(m, deps[q]@, 0)) is Some
                        && pkg_local(m, find_pkg_by_id(m, deps[q]@, 0)->0) implies r[pkg_name(
                    m,
                    find_pkg_by_id(m, deps[q]@, 0)->0,
                )] < b by {
                    let j = find_pkg_by_id(m, deps[q]@, 0)->0;
                    lemma_find_pkg_by_id_props(m, deps[q]@, 0);
                    assert(node_deps(m, i)[q] == deps[q]);
                    assert(dep_edge(m, i, j));
                }
                lemma_fill_deps_ordered(m, deps, 0, pkgs, seen1, r, b);
                lemma_fill_deps_props(m, deps, 0, pkgs, seen1);
                match fill_deps_spec(m, deps, 0, pkgs, seen1) {
                    Err(_) => {},
                    Ok((p2, s2)) => {
                        let p3 = p2.push(i);
                        assert(deps_before(m, p2));
                        assert(stack_of(m, p2, s2) =~= stack_of(m, pkgs, seen1));
                        assert forall|a: int, j: int|
                            0 <= a < p3.len() && 0 <= j < m.packages@.len() && #[trigger] dep_edge(
                                m,
                                p3[a],
                                j,
                            ) && pkg_local(m, j) implies exists|c: int|
                            0 <= c < a && p3[c] == j by {
                            if a < p2.len() {
                                assert(p3[a] == p2[a]);
                                assert(dep_edge(m, p2[a], j));
                                let c = choose|c: int| 0 <= c < a && p2[c] == j;
                                assert(p3[c] == j);
                            } else {
                                assert(p3[a] == i);
                                let q = choose|q: int|
                                    0 <= q < node_deps(m, i).len() && find_pkg_by_id(
                                        m,
                                        #[trigger] node_deps(m, i)[q]@,
                                        0,
                                    ) == Some(j);
                                assert(find_pkg_by_id(m, deps[q]@, 0) == Some(j));
                                assert(s2.to_set().contains(pkg_name(m, j)));
                                assert(r[pkg_name(m, j)] < b) by {
                                    assert(dep_edge(m, i, j));
                                }
                                assert(!stack_of(m, p2, s2).contains(pkg_name(m, j))) by {
                                    if stack_of(m, p2, s2).contains(pkg_name(m, j)) {
                                        assert(stack_of(m, pkgs, seen1).contains(
                                            pkg_name(m, j),
                                        ));
                                        assert(r[pkg_name(m, j)] >= b);
                                    }
                                }
                                assert(names_of(m, p2).to_set().contains(pkg_name(m, j)));
                                assert(names_of(m, p2).contains(pkg_name(m, j)));
                                let c = choose|c: int|
                                    0 <= c < names_of(m, p2).len() && names_of(m, p2)[c]
                                        == pkg_name(m, j);
                                assert(pkg_name(m, p2[c]) == pkg_name(m, j));
                                assert(0 <= p2[c] < m.packages@.len());
                                assert(p2[c] == j);
                                assert(p3[c] == j);
                            }
                        }
                    },
                }
            },
        }
    }
}

proof fn lemma_fill_deps_ordered(
    m: Metadata,
    deps: Seq<String>,
    k: int,
    pkgs: Seq<int>,
    seen: Seq<Seq<char>>,
    r: Map<Seq<char>, int>,
    b: int,
)
    requires
        0 <= k,
        state_ok(m, pkgs, seen),
        unique_names(m),
        rank_ok(m, r),
        deps_before(m, pkgs),
        forall|nm: Seq<char>| stack_of(m, pkgs, seen).contains(nm) ==> r[nm] >= b,
        forall|q: int|
            0 <= q < deps.len() && (#[trigger] find_pkg_by_id(m, deps[q]@, 0)) is Some
                && pkg_local(m, find_pkg_by_id(m, deps[q]@, 0)->0) ==> r[pkg_name(
                m,
                find_pkg_by_id(m, deps[q]@, 0)->0,
            )] < b,
    ensures
        fill_deps_spec(m, deps, k, pkgs, seen) matches Ok(o) ==> deps_before(m, o.0),
    decreases unseen_count(m, seen), 1int, deps.len() - k,
{
    if k >= deps.len() {
    } else {
        match find_pkg_by_id(m, deps[k]@, 0) {
            None => {},
            Some(j) => {
                lemma_find_pkg_by_id_props(m, deps[k]@, 0);
                if pkg_local(m, j) {
                    assert(r[pkg_name(m, j)] < b);
                    lemma_fill_ordered(m, j, pkgs, seen, r);
                    lemma_fill_props(m, j, pkgs, seen);
                    match fill_spec(m, j, pkgs, seen) {
                        Err(_) => {},
                        Ok((p1, s1)) => {
                            lemma_fill_extends(m, j, pkgs, seen);
                            lemma_unseen_prefix(m, seen, s1);
                            assert(stack_of(m, p1, s1) =~= stack_of(m, pkgs, seen));
                            lemma_fill_deps_ordered(m, deps, k + 1, p1, s1, r, b);
                        },
                    }
                } else {
                    lemma_fill_deps_ordered(m, deps, k + 1, pkgs, seen, r, b);
                }
            },
        }
    }
}

/// An acyclic local dependency subgraph: some rank of the package names
/// descends along every edge into a local package.
pub open spec fn acyclic_local(m: Metadata) -> bool {
    exists|r: Map<Seq<char>, int>| rank_ok(m, r)
}

/// The ordering of the closure: with distinct package names and an acyclic
/// local dependency subgraph, the resolver places every local dependency
/// strictly before each of its dependents.
pub proof fn lemma_closure_ordered(m: Metadata, root: int)
    requires
        0 <= root < m.packages@.len(),
        unique_names(m),
        acyclic_local(m),
    ensures
        fill_spec(m, root, Seq::<int>::empty(), Seq::<Seq<char>>::empty()) matches Ok(o)
            ==> deps_before(m, o.0),
{
    let r = choose|r: Map<Seq<char>, int>| rank_ok(m, r);
    lemma_empty_state_ok(m);
    lemma_fill_ordered(m, root, Seq::empty(), Seq::empty(), r);
}

/// The empty traversal state is consistent.
proof fn lemma_empty_state_ok(m: Metadata)
    ensures
        state_ok(m, Seq::<int>::empty(), Seq::<Seq<char>>::empty()),
        stack_of(m, Seq::<int>::empty(), Seq::<Seq<char>>::empty()) =~= Set::<Seq<char>>::empty(),
{
    broadcast use vstd::seq_lib::group_seq_properties;

    assert(names_of(m, Seq::<int>::empty()) =~= Seq::<Seq<char>>::empty());
}

/// Leaf exclusion: every package of the closure but the designated root
/// itself is local-sourced; a registry-sourced dependency never appears.
pub proof fn lemma_closure_local_only(m: Metadata, root: int)
    requires
        0 <= root < m.packages@.len(),
    ensures
        fill_spec(m, root, Seq::<int>::empty(), Seq::<Seq<char>>::empty()) matches Ok(o)
            ==> forall|a: int|
            0 <= a < o.0.len() ==> #[trigger] o.0[a] == root || pkg_local(m, o.0[a]),
{
    lemma_empty_state_ok(m);
    lemma_fill_props(m, root, Seq::empty(), Seq::empty());
}

/// First-seen idempotence: however many packages depend on the same local
/// package, it appears in the closure exactly once; no name and no index
/// repeats.
pub proof fn lemma_closure_no_duplicates(m: Metadata, root: int)
    requires
        0 <= root < m.packages@.len(),
    ensures
        fill_spec(m, root, Seq::<int>::empty(), Seq::<Seq<char>>::empty()) matches Ok(o) ==> {
            &&& names_of(m, o.0).no_duplicates()
            &&& o.0.no_duplicates()
        },
{
    broadcast use vstd::seq_lib::group_seq_properties;

    lemma_empty_state_ok(m);
    lemma_fill_props(m, root, Seq::empty(), Seq::empty());
    match fill_spec(m, root, Seq::<int>::empty(), Seq::<Seq<char>>::empty()) {
        Err(_) => {},
        Ok((p, s)) => {
            assert forall|a: int, c: int| 0 <= a < p.len() && 0 <= c < p.len() && a != c
                implies p[a] != p[c] by {
                assert(names_of(m, p)[a] == pkg_name(m, p[a]));
                assert(names_of(m, p)[c] == pkg_name(m, p[c]));
            }
        },
    }
}

} // verus!


