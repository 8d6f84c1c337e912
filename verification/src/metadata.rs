//! The typed model of a dependency-graph snapshot: the packages and the
//! resolution graph, as the external metadata provider reports them. Loaded
//! once and read-only thereafter.

use vstd::prelude::*;

verus! {

/// One package of the snapshot.
pub struct Package {
    /// Unique identity within the snapshot.
    pub id: String,
    pub name: String,
    /// Absent: the package is a local workspace member; present: it was
    /// already resolved from an external registry.
    pub source: Option<String>,
    /// Where the package's manifest document lives.
    pub manifest_path: String,
}

/// The direct dependencies of one package, as the provider resolved them.
pub struct ResolveNode {
    /// Matches the `id` of exactly one package in a consistent snapshot.
    pub id: String,
    /// Identities of the packages this one depends on, direct edges only.
    pub dependencies: Vec<String>,
}

/// The resolution graph of a snapshot.
pub struct Resolve {
    pub nodes: Vec<ResolveNode>,
}

/// The full snapshot.
pub struct Metadata {
    pub packages: Vec<Package>,
    pub resolve: Resolve,
}

/// The name of the package at an index.
pub open spec fn pkg_name(m: Metadata, i: int) -> Seq<char> {
    m.packages@[i].name@
}

/// The identity of the package at an index.
pub open spec fn pkg_id(m: Metadata, i: int) -> Seq<char> {
    m.packages@[i].id@
}

/// A package without a source is a local workspace member.
pub open spec fn pkg_local(m: Metadata, i: int) -> bool {
    m.packages@[i].source is None
}

/// The names of all packages of the snapshot.
pub open spec fn pkg_names(m: Metadata) -> Set<Seq<char>> {
    m.packages@.map_values(|p: Package| p.name@).to_set()
}

/// The index of the first package at or after `from` whose identity is `id`.
pub open spec fn find_pkg_by_id(m: Metadata, id: Seq<char>, from: int) -> Option<int>
    decreases m.packages@.len() - from,
{
    if from < 0 || from >= m.packages@.len() {
        None::<int>
    } else if pkg_id(m, from) == id {
        Some(from)
    } else {
        find_pkg_by_id(m, id, from + 1)
    }
}

/// The index of the first package at or after `from` whose name is `name`.
pub open spec fn find_pkg_by_name(m: Metadata, name: Seq<char>, from: int) -> Option<int>
    decreases m.packages@.len() - from,
{
    if from < 0 || from >= m.packages@.len() {
        None::<int>
    } else if pkg_name(m, from) == name {
        Some(from)
    } else {
        find_pkg_by_name(m, name, from + 1)
    }
}

/// The index of the first resolve node at or after `from` whose identity is `id`.
pub open spec fn find_node_by_id(m: Metadata, id: Seq<char>, from: int) -> Option<int>
    decreases m.resolve.nodes@.len() - from,
{
    if from < 0 || from >= m.resolve.nodes@.len() {
        None::<int>
    } else if m.resolve.nodes@[from].id@ == id {
        Some(from)
    } else {
        find_node_by_id(m, id, from + 1)
    }
}

/// A found package index lies in range, carries the identity sought, and the
/// name of any in-range package is one of the snapshot's names.
pub proof fn lemma_find_pkg_by_id_props(m: Metadata, id: Seq<char>, from: int)
    requires
        find_pkg_by_id(m, id, from) is Some,
    ensures
        0 <= find_pkg_by_id(m, id, from)->0 < m.packages@.len(),
        pkg_id(m, find_pkg_by_id(m, id, from)->0) == id,
    decreases m.packages@.len() - from,
{
    if from < 0 || from >= m.packages@.len() {
    } else if pkg_id(m, from) == id {
    } else {
        lemma_find_pkg_by_id_props(m, id, from + 1);
    }
}

/// Every in-range package's name belongs to the snapshot's name set.
pub proof fn lemma_pkg_name_in_names(m: Metadata, i: int)
    requires
        0 <= i < m.packages@.len(),
    ensures
        pkg_names(m).contains(pkg_name(m, i)),
{
    let names = m.packages@.map_values(|p: Package| p.name@);
    assert(names[i] == pkg_name(m, i));
    assert(names.contains(pkg_name(m, i)));
}

/// The first package whose identity is `id`, as the resolver looks
/// dependencies up.
pub fn find_package_by_id(m: &Metadata, id: &String) -> (r: Option<usize>)
    ensures
        match r {
            Some(j) => find_pkg_by_id(*m, id@, 0) == Some(j as int) && j < m.packages@.len(),
            None => find_pkg_by_id(*m, id@, 0) is None,
        },
{
    let n = m.packages.len();
    let mut i: usize = 0;
    while i < n
        invariant
            i <= n,
            n == m.packages@.len(),
            find_pkg_by_id(*m, id@, 0) == find_pkg_by_id(*m, id@, i as int),
        decreases n - i,
    {
        if m.packages[i].id == *id {
            return Some(i);
        }
        i = i + 1;
    }
    None
}

/// The first package with a given name; how a run designates its root.
pub fn find_package_by_name(m: &Metadata, name: &String) -> (r: Option<usize>)
    ensures
        match r {
            Some(j) => find_pkg_by_name(*m, name@, 0) == Some(j as int) && j < m.packages@.len()
                && pkg_name(*m, j as int) == name@,
            None => find_pkg_by_name(*m, name@, 0) is None,
        },
{
    let n = m.packages.len();
    let mut i: usize = 0;
    while i < n
        invariant
            i <= n,
            n == m.packages@.len(),
            find_pkg_by_name(*m, name@, 0) == find_pkg_by_name(*m, name@, i as int),
        decreases n - i,
    {
        if m.packages[i].name == *name {
            return Some(i);
        }
        i = i + 1;
    }
    None
}

/// The first resolve node whose identity is `id`.
pub fn find_node(m: &Metadata, id: &String) -> (r: Option<usize>)
    ensures
        match r {
            Some(j) => find_node_by_id(*m, id@, 0) == Some(j as int) && j
                < m.resolve.nodes@.len(),
            None => find_node_by_id(*m, id@, 0) is None,
        },
{
    let n = m.resolve.nodes.len();
    let mut i: usize = 0;
    while i < n
        invariant
            i <= n,
            n == m.resolve.nodes@.len(),
            find_node_by_id(*m, id@, 0) == find_node_by_id(*m, id@, i as int),
        decreases n - i,
    {
        if m.resolve.nodes[i].id == *id {
            return Some(i);
        }
        i = i + 1;
    }
    None
}

} // verus!
