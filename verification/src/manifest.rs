//! The manifest model and its transformer: a manifest document is a table of
//! tables, and publishing rewrites its package metadata, its library section,
//! and its dependency table so that the published crate resolves its local
//! dependencies through the registry.

use vstd::prelude::*;
use vstd::string::StringExecFns;
use crate::Error;
use crate::version::{Version, version_chars, version_to_string};

verus! {

broadcast use vstd::std_specs::vec::group_vec_axioms, vstd::seq::group_seq_axioms;

/// A manifest value: a string, an array, or a table of named values. Tables
/// keep their entries in order; a well-formed table names each key once.
#[derive(Debug, PartialEq, Eq)]
pub enum Val {
    Str(String),
    Arr(Vec<Val>),
    Table(Vec<(String, Val)>),
}

/// The mathematical shape of a manifest value.
pub enum ValueView {
    Str(Seq<char>),
    Arr(Seq<ValueView>),
    Table(Seq<(Seq<char>, ValueView)>),
}

/// The mathematical shape of a manifest value.
pub open spec fn value_view(v: Val) -> ValueView
    decreases v, 1int,
{
    match v {
        Val::Str(s) => ValueView::Str(s@),
        Val::Arr(a) => ValueView::Arr(arr_view(a@)),
        Val::Table(t) => ValueView::Table(entries_view(t@)),
    }
}

/// A sequence of table entries, viewed element by element.
pub open spec fn entries_view(t: Seq<(String, Val)>) -> Seq<(Seq<char>, ValueView)>
    decreases t, 0int,
{
    if t.len() == 0 {
        Seq::empty()
    } else {
        entries_view(t.drop_last()).push((t.last().0@, value_view(t.last().1)))
    }
}

/// A sequence of array elements, viewed element by element.
pub open spec fn arr_view(s: Seq<Val>) -> Seq<ValueView>
    decreases s, 0int,
{
    if s.len() == 0 {
        Seq::empty()
    } else {
        arr_view(s.drop_last()).push(value_view(s.last()))
    }
}

/// Viewing entries goes element by element.
pub proof fn lemma_entries_view_index(t: Seq<(String, Val)>)
    ensures
        entries_view(t).len() == t.len(),
        forall|i: int|
            0 <= i < t.len() ==> #[trigger] entries_view(t)[i] == (t[i].0@, value_view(t[i].1)),
    decreases t.len(),
{
    if t.len() > 0 {
        lemma_entries_view_index(t.drop_last());
    }
}

impl View for Val {
    type V = ValueView;

    open spec fn view(&self) -> ValueView {
        value_view(*self)
    }
}

/// Whether a table names a key.
pub open spec fn tbl_contains(t: Seq<(Seq<char>, ValueView)>, k: Seq<char>) -> bool {
    exists|i: int| 0 <= i < t.len() && t[i].0 == k
}

/// The table with `k` set to `v`: replaced in place where `k` already stands,
/// appended at the end where it does not.
pub open spec fn tbl_insert(
    t: Seq<(Seq<char>, ValueView)>,
    k: Seq<char>,
    v: ValueView,
) -> Seq<(Seq<char>, ValueView)>
    decreases t.len(),
{
    if t.len() == 0 {
        seq![(k, v)]
    } else if t[0].0 == k {
        seq![(k, v)] + t.drop_first()
    } else {
        seq![t[0]] + tbl_insert(t.drop_first(), k, v)
    }
}

/// The table without any entry named `k`.
pub open spec fn tbl_remove(
    t: Seq<(Seq<char>, ValueView)>,
    k: Seq<char>,
) -> Seq<(Seq<char>, ValueView)>
    decreases t.len(),
{
    if t.len() == 0 {
        t
    } else if t[0].0 == k {
        tbl_remove(t.drop_first(), k)
    } else {
        seq![t[0]] + tbl_remove(t.drop_first(), k)
    }
}


/// Replacing the key's first entry in place, where the key stands.
proof fn lemma_tbl_insert_found(
    t: Seq<(Seq<char>, ValueView)>,
    k: Seq<char>,
    v: ValueView,
    i: int,
)
    requires
        0 <= i < t.len(),
        t[i].0 == k,
        forall|j: int| 0 <= j < i ==> t[j].0 != k,
    ensures
        tbl_insert(t, k, v) =~= t.update(i, (k, v)),
    decreases i,
{
    if i == 0 {
    } else {
        lemma_tbl_insert_found(t.drop_first(), k, v, i - 1);
        assert(tbl_insert(t, k, v) =~= seq![t[0]] + tbl_insert(t.drop_first(), k, v));
        assert(t.drop_first().update(i - 1, (k, v)) =~= t.update(i, (k, v)).drop_first());
    }
}

/// Appending at the end, where the key stands nowhere.
proof fn lemma_tbl_insert_absent(t: Seq<(Seq<char>, ValueView)>, k: Seq<char>, v: ValueView)
    requires
        forall|j: int| 0 <= j < t.len() ==> t[j].0 != k,
    ensures
        tbl_insert(t, k, v) =~= t.push((k, v)),
    decreases t.len(),
{
    if t.len() > 0 {
        lemma_tbl_insert_absent(t.drop_first(), k, v);
        assert(t.drop_first().push((k, v)) =~= t.push((k, v)).drop_first());
        assert(tbl_insert(t, k, v) =~= t.push((k, v)));
    }
}

/// Sets `k` to `v` in the table: replaced in place where `k` already stands,
/// appended where it does not.
fn tbl_insert_exec(t: &mut Vec<(String, Val)>, k: String, v: Val)
    ensures
        entries_view(final(t)@) == tbl_insert(entries_view(old(t)@), k@, value_view(v)),
{
    let ghost orig = entries_view(old(t)@);
    let ghost kv = k@;
    let ghost vv = value_view(v);
    let n = t.len();
    let mut i: usize = 0;
    proof {
        lemma_entries_view_index(t@);
    }
    while i < n
        invariant
            i <= n,
            n == t@.len(),
            t@ == old(t)@,
            orig == entries_view(old(t)@),
            kv == k@,
            vv == value_view(v),
            entries_view(t@).len() == t@.len(),
            forall|j: int|
                0 <= j < t@.len() ==> #[trigger] entries_view(t@)[j] == (
                    t@[j].0@,
                    value_view(t@[j].1),
                ),
            forall|j: int| 0 <= j < i ==> entries_view(t@)[j].0 != kv,
        decreases n - i,
    {
        if t[i].0 == k {
            proof {
                lemma_tbl_insert_found(orig, kv, vv, i as int);
            }
            let _ = t.remove(i);
            t.insert(i, (k, v));
            proof {
                lemma_entries_view_index(t@);
                assert(t@ =~= old(t)@.update(i as int, (k, v)));
                assert(entries_view(t@) =~= orig.update(i as int, (kv, vv)));
            }
            return ;
        }
        i = i + 1;
    }
    proof {
        lemma_tbl_insert_absent(orig, kv, vv);
    }
    t.push((k, v));
    proof {
        lemma_entries_view_index(t@);
        assert(t@ =~= old(t)@.push((k, v)));
        assert(entries_view(t@) =~= orig.push((kv, vv)));
    }
}

/// Drops every entry named `k` from the table.
fn tbl_remove_exec(t: Vec<(String, Val)>, k: &String) -> (r: Vec<(String, Val)>)
    ensures
        entries_view(r@) == tbl_remove(entries_view(t@), k@),
{
    let ghost orig = entries_view(t@);
    let mut rest = t;
    let mut out: Vec<(String, Val)> = Vec::new();
    proof {
        assert(entries_view(out@) =~= Seq::<(Seq<char>, ValueView)>::empty());
        assert(tbl_remove(orig, k@) =~= entries_view(out@) + tbl_remove(entries_view(rest@), k@));
    }
    while rest.len() > 0
        invariant
            tbl_remove(orig, k@) == entries_view(out@) + tbl_remove(entries_view(rest@), k@),
        decreases rest@.len(),
    {
        let ghost rest0 = entries_view(rest@);
        let ghost out0 = entries_view(out@);
        proof {
            lemma_entries_view_index(rest@);
        }
        let (ek, ev) = rest.remove(0);
        proof {
            lemma_entries_view_index(rest@);
            assert(entries_view(rest@) =~= rest0.drop_first());
            assert(rest0[0] == (ek@, value_view(ev)));
        }
        if ek == *k {
            proof {
                assert(tbl_remove(rest0, k@) == tbl_remove(rest0.drop_first(), k@));
            }
        } else {
            let ghost outv0 = out@;
            out.push((ek, ev));
            proof {
                lemma_entries_view_index(outv0);
                lemma_entries_view_index(out@);
                assert(out@ =~= outv0.push((ek, ev)));
                assert(entries_view(out@) =~= out0.push((ek@, value_view(ev))));
                assert(tbl_remove(rest0, k@) =~= seq![rest0[0]] + tbl_remove(
                    rest0.drop_first(),
                    k@,
                ));
                assert(tbl_remove(orig, k@) =~= entries_view(out@) + tbl_remove(
                    entries_view(rest@),
                    k@,
                ));
            }
        }
    }
    proof {
        assert(tbl_remove(orig, k@) =~= entries_view(out@));
    }
    out
}

/// Whether the table names the key.
fn tbl_has_key(t: &Vec<(String, Val)>, k: &String) -> (r: bool)
    ensures
        r == tbl_contains(entries_view(t@), k@),
{
    let n = t.len();
    let mut i: usize = 0;
    proof {
        lemma_entries_view_index(t@);
    }
    while i < n
        invariant
            i <= n,
            n == t@.len(),
            entries_view(t@).len() == t@.len(),
            forall|j: int|
                0 <= j < t@.len() ==> #[trigger] entries_view(t@)[j] == (
                    t@[j].0@,
                    value_view(t@[j].1),
                ),
            forall|j: int| 0 <= j < i ==> entries_view(t@)[j].0 != k@,
        decreases n - i,
    {
        if t[i].0 == *k {
            proof {
                assert(entries_view(t@)[i as int].0 == k@);
            }
            return true;
        }
        i = i + 1;
    }
    false
}

/// The published name of a local crate: the family prefix, a dash, the
/// original name.
pub open spec fn prefixed(name: Seq<char>) -> Seq<char> {
    "rustc-ap-"@ + name
}

/// The generated description of a published crate.
pub open spec fn description_chars(name: Seq<char>, commit: Seq<char>) -> Seq<char> {
    "Automatically published version of the package `"@ + name
        + "` in the rust-lang/rust repository from commit "@ + commit + " "@
}

/// The package table rewritten: the prefixed name, the target version, and
/// the fixed license, description and repository fields, each overwritten if
/// present and inserted if absent.
pub open spec fn rewrite_package_tbl(
    p: Seq<(Seq<char>, ValueView)>,
    name: Seq<char>,
    commit: Seq<char>,
    vers: Version,
) -> Seq<(Seq<char>, ValueView)> {
    tbl_insert(
        tbl_insert(
            tbl_insert(
                tbl_insert(
                    tbl_insert(p, "name"@, ValueView::Str(prefixed(name))),
                    "version"@,
                    ValueView::Str(version_chars(vers)),
                ),
                "license"@,
                ValueView::Str("MIT / Apache-2.0"@),
            ),
            "description"@,
            ValueView::Str(description_chars(name, commit)),
        ),
        "repository"@,
        ValueView::Str("https://github.com/rust-lang/rust"@),
    )
}

/// The library table rewritten: the original, unprefixed crate name is
/// recorded so the compiled artifact keeps its link name, and any explicit
/// library kind is dropped so the published artifact takes the default form.
pub open spec fn rewrite_lib_tbl(
    l: Seq<(Seq<char>, ValueView)>,
    name: Seq<char>,
) -> Seq<(Seq<char>, ValueView)> {
    tbl_remove(tbl_insert(l, "name"@, ValueView::Str(name)), "crate-type"@)
}

/// One dependency entry rewritten: a structured entry holding a local path
/// loses the path, gains the target version, and is renamed to the published
/// prefixed name; every other entry passes through unchanged.
pub open spec fn rewrite_dep(k: Seq<char>, v: ValueView, vers: Version) -> (Seq<char>, ValueView) {
    match v {
        ValueView::Table(t) => if tbl_contains(t, "path"@) {
            (
                prefixed(k),
                ValueView::Table(
                    tbl_insert(tbl_remove(t, "path"@), "version"@, ValueView::Str(version_chars(vers))),
                ),
            )
        } else {
            (k, v)
        },
        _ => (k, v),
    }
}

/// The dependency table rewritten entry by entry, in order.
pub open spec fn rewrite_deps_tbl(
    d: Seq<(Seq<char>, ValueView)>,
    vers: Version,
) -> Seq<(Seq<char>, ValueView)>
    decreases d.len(),
{
    if d.len() == 0 {
        Seq::empty()
    } else {
        let e = rewrite_dep(d.last().0, d.last().1, vers);
        tbl_insert(rewrite_deps_tbl(d.drop_last(), vers), e.0, e.1)
    }
}

/// One top-level manifest entry rewritten. The `package`, `lib` and
/// `dependencies` sections must each be tables where present; the rewritten
/// dependency table gains the fixed `term` entry, a dependency the in-tree
/// build got implicitly; every other section passes through unchanged.
pub open spec fn rewrite_top_entry(
    k: Seq<char>,
    v: ValueView,
    name: Seq<char>,
    commit: Seq<char>,
    vers: Version,
) -> Result<(Seq<char>, ValueView), Error> {
    if k == "package"@ {
        match v {
            ValueView::Table(p) => Ok(
                (k, ValueView::Table(rewrite_package_tbl(p, name, commit, vers))),
            ),
            _ => Err(Error::MalformedManifest),
        }
    } else if k == "lib"@ {
        match v {
            ValueView::Table(l) => Ok((k, ValueView::Table(rewrite_lib_tbl(l, name)))),
            _ => Err(Error::MalformedManifest),
        }
    } else if k == "dependencies"@ {
        match v {
            ValueView::Table(d) => Ok(
                (
                    k,
                    ValueView::Table(
                        tbl_insert(rewrite_deps_tbl(d, vers), "term"@, ValueView::Str("0.4"@)),
                    ),
                ),
            ),
            _ => Err(Error::MalformedManifest),
        }
    } else {
        Ok((k, v))
    }
}

/// Every top-level entry rewritten in order; the first malformed section
/// aborts the rewrite.
pub open spec fn rewrite_entries(
    es: Seq<(Seq<char>, ValueView)>,
    name: Seq<char>,
    commit: Seq<char>,
    vers: Version,
) -> Result<Seq<(Seq<char>, ValueView)>, Error>
    decreases es.len(),
{
    if es.len() == 0 {
        Ok(Seq::empty())
    } else {
        match rewrite_top_entry(es[0].0, es[0].1, name, commit, vers) {
            Err(e) => Err(e),
            Ok(en) => match rewrite_entries(es.drop_first(), name, commit, vers) {
                Err(e) => Err(e),
                Ok(rest) => Ok(seq![en] + rest),
            },
        }
    }
}

/// A whole manifest rewritten: the document must be a table of sections.
pub open spec fn transform_view(
    doc: ValueView,
    name: Seq<char>,
    commit: Seq<char>,
    vers: Version,
) -> Result<ValueView, Error> {
    match doc {
        ValueView::Table(es) => match rewrite_entries(es, name, commit, vers) {
            Err(e) => Err(e),
            Ok(es2) => Ok(ValueView::Table(es2)),
        },
        _ => Err(Error::MalformedManifest),
    }
}

/// The published name of a local crate as an owned string.
pub fn prefixed_string(name: &String) -> (r: String)
    ensures
        r@ == prefixed(name@),
{
    let mut s = String::from_str("rustc-ap-");
    s.append(name.as_str());
    s
}

fn description_string(name: &String, commit: &String) -> (r: String)
    ensures
        r@ == description_chars(name@, commit@),
{
    let mut s = String::from_str("Automatically published version of the package `");
    s.append(name.as_str());
    s.append("` in the rust-lang/rust repository from commit ");
    s.append(commit.as_str());
    s.append(" ");
    proof {
        assert(s@ =~= description_chars(name@, commit@));
    }
    s
}

fn rewrite_package(
    p: Vec<(String, Val)>,
    name: &String,
    commit: &String,
    vers: &Version,
) -> (r: Vec<(String, Val)>)
    ensures
        entries_view(r@) == rewrite_package_tbl(entries_view(p@), name@, commit@, *vers),
{
    let mut t = p;
    tbl_insert_exec(&mut t, String::from_str("name"), Val::Str(prefixed_string(name)));
    tbl_insert_exec(&mut t, String::from_str("version"), Val::Str(version_to_string(vers)));
    tbl_insert_exec(
        &mut t,
        String::from_str("license"),
        Val::Str(String::from_str("MIT / Apache-2.0")),
    );
    tbl_insert_exec(
        &mut t,
        String::from_str("description"),
        Val::Str(description_string(name, commit)),
    );
    tbl_insert_exec(
        &mut t,
        String::from_str("repository"),
        Val::Str(String::from_str("https://github.com/rust-lang/rust")),
    );
    t
}

fn rewrite_lib(l: Vec<(String, Val)>, name: &String) -> (r: Vec<(String, Val)>)
    ensures
        entries_view(r@) == rewrite_lib_tbl(entries_view(l@), name@),
{
    let mut t = l;
    tbl_insert_exec(&mut t, String::from_str("name"), Val::Str(name.clone()));
    tbl_remove_exec(t, &String::from_str("crate-type"))
}

fn rewrite_deps(d: Vec<(String, Val)>, vers: &Version) -> (r: Vec<(String, Val)>)
    ensures
        entries_view(r@) == rewrite_deps_tbl(entries_view(d@), *vers),
{
    let ghost orig = entries_view(d@);
    let mut rest = d;
    let mut out: Vec<(String, Val)> = Vec::new();
    let ghost mut done: Seq<(Seq<char>, ValueView)> = Seq::empty();
    proof {
        assert(entries_view(out@) =~= Seq::<(Seq<char>, ValueView)>::empty());
        assert(done + entries_view(rest@) =~= orig);
        assert(rewrite_deps_tbl(done, *vers) =~= entries_view(out@));
    }
    while rest.len() > 0
        invariant
            done + entries_view(rest@) == orig,
            rewrite_deps_tbl(done, *vers) == entries_view(out@),
        decreases rest@.len(),
    {
        let ghost rest0 = entries_view(rest@);
        proof {
            lemma_entries_view_index(rest@);
        }
        let (ek, ev) = rest.remove(0);
        let ghost evv = value_view(ev);
        proof {
            lemma_entries_view_index(rest@);
            assert(entries_view(rest@) =~= rest0.drop_first());
            assert(rest0[0] == (ek@, evv));
        }
        let ghost done1 = done.push((ek@, evv));
        proof {
            assert(done1.drop_last() =~= done);
            assert(done1 + entries_view(rest@) =~= orig);
            assert(rewrite_deps_tbl(done1, *vers) == tbl_insert(
                rewrite_deps_tbl(done, *vers),
                rewrite_dep(ek@, evv, *vers).0,
                rewrite_dep(ek@, evv, *vers).1,
            ));
        }
        match ev {
            Val::Table(inner) => {
                if tbl_has_key(&inner, &String::from_str("path")) {
                    let inner2 = tbl_remove_exec(inner, &String::from_str("path"));
                    let mut inner3 = inner2;
                    tbl_insert_exec(
                        &mut inner3,
                        String::from_str("version"),
                        Val::Str(version_to_string(vers)),
                    );
                    let nk = prefixed_string(&ek);
                    tbl_insert_exec(&mut out, nk, Val::Table(inner3));
                } else {
                    tbl_insert_exec(&mut out, ek, Val::Table(inner));
                }
            },
            other => {
                tbl_insert_exec(&mut out, ek, other);
            },
        }
        proof {
            done = done1;
        }
    }
    proof {
        assert(entries_view(rest@).len() == 0) by {
            lemma_entries_view_index(rest@);
        }
        assert(done =~= orig);
    }
    out
}

/// A manifest document rewritten for publication, in one pass over its
/// top-level sections: package metadata is overwritten, the library section
/// keeps the original link name and loses its explicit kind, and the
/// dependency table points local dependencies at the registry under their
/// prefixed names at the target version, with the fixed `term` dependency
/// appended. A document that is not a table of tables where the rewrite
/// needs one is malformed, which aborts the whole run.
pub fn transform(doc: Val, pkg_name: &String, commit: &String, vers: &Version) -> (r: Result<
    Val,
    Error,
>)
    ensures
        match transform_view(value_view(doc), pkg_name@, commit@, *vers) {
            Ok(mv) => r matches Ok(v) && value_view(v) == mv,
            Err(e) => r == Err::<Val, Error>(e),
        },
{
    let ghost docv = value_view(doc);
    let entries = match doc {
        Val::Table(t) => t,
        _ => {
            return Err(Error::MalformedManifest);
        },
    };
    let ghost orig = entries_view(entries@);
    let mut rest = entries;
    let mut out: Vec<(String, Val)> = Vec::new();
    proof {
        assert(docv == ValueView::Table(orig));
        assert(entries_view(out@) =~= Seq::<(Seq<char>, ValueView)>::empty());
    }
    while rest.len() > 0
        invariant
            docv == ValueView::Table(orig),
            docv == value_view(doc),
            rewrite_entries(orig, pkg_name@, commit@, *vers) == (match rewrite_entries(
                entries_view(rest@),
                pkg_name@,
                commit@,
                *vers,
            ) {
                Err(e) => Err::<Seq<(Seq<char>, ValueView)>, Error>(e),
                Ok(r2) => Ok(entries_view(out@) + r2),
            }),
        decreases rest@.len(),
    {
        let ghost rest0 = entries_view(rest@);
        let ghost out0 = entries_view(out@);
        proof {
            lemma_entries_view_index(rest@);
        }
        let (ek, ev) = rest.remove(0);
        let ghost evv = value_view(ev);
        proof {
            lemma_entries_view_index(rest@);
            assert(entries_view(rest@) =~= rest0.drop_first());
            assert(rest0[0] == (ek@, evv));
        }
        let ghost entry = rewrite_top_entry(ek@, evv, pkg_name@, commit@, *vers);
        if ek == String::from_str("package") {
            match ev {
                Val::Table(p) => {
                    let p2 = rewrite_package(p, pkg_name, commit, vers);
                    let ghost outv0 = out@;
                    out.push((ek, Val::Table(p2)));
                    proof {
                        lemma_entries_view_index(outv0);
                        lemma_entries_view_index(out@);
                        assert(entries_view(out@) =~= out0.push(entry->Ok_0));
                    }
                },
                _ => {
                    return Err(Error::MalformedManifest);
                },
            }
        } else if ek == String::from_str("lib") {
            match ev {
                Val::Table(l) => {
                    let l2 = rewrite_lib(l, pkg_name);
                    let ghost outv0 = out@;
                    out.push((ek, Val::Table(l2)));
                    proof {
                        lemma_entries_view_index(outv0);
                        lemma_entries_view_index(out@);
                        assert(entries_view(out@) =~= out0.push(entry->Ok_0));
                    }
                },
                _ => {
                    return Err(Error::MalformedManifest);
                },
            }
        } else if ek == String::from_str("dependencies") {
            match ev {
                Val::Table(d) => {
                    let mut d2 = rewrite_deps(d, vers);
                    tbl_insert_exec(
                        &mut d2,
                        String::from_str("term"),
                        Val::Str(String::from_str("0.4")),
                    );
                    let ghost outv0 = out@;
                    out.push((ek, Val::Table(d2)));
                    proof {
                        lemma_entries_view_index(outv0);
                        lemma_entries_view_index(out@);
                        assert(entries_view(out@) =~= out0.push(entry->Ok_0));
                    }
                },
                _ => {
                    return Err(Error::MalformedManifest);
                },
            }
        } else {
            let ghost outv0 = out@;
            out.push((ek, ev));
            proof {
                lemma_entries_view_index(outv0);
                lemma_entries_view_index(out@);
                assert(entries_view(out@) =~= out0.push(entry->Ok_0));
            }
        }
        proof {
            assert(rewrite_entries(rest0, pkg_name@, commit@, *vers) == (
            match rewrite_entries(entries_view(rest@), pkg_name@, commit@, *vers) {
                Err(e) => Err::<Seq<(Seq<char>, ValueView)>, Error>(e),
                Ok(r2) => Ok(seq![entry->Ok_0] + r2),
            }));
            if rewrite_entries(entries_view(rest@), pkg_name@, commit@, *vers) is Ok {
                let r2 = rewrite_entries(entries_view(rest@), pkg_name@, commit@, *vers)->Ok_0;
                assert(entries_view(out@) + r2 =~= out0 + (seq![entry->Ok_0] + r2));
            }
        }
    }
    proof {
        lemma_entries_view_index(rest@);
        assert(rewrite_entries(entries_view(rest@), pkg_name@, commit@, *vers) == Ok::<
            Seq<(Seq<char>, ValueView)>,
            Error,
        >(Seq::empty()));
        assert(entries_view(out@) + Seq::<(Seq<char>, ValueView)>::empty() =~= entries_view(out@));
    }
    Ok(Val::Table(out))
}

} // verus!
