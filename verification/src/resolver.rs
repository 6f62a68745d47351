//! Topological resolution of a WIT package dependency graph.
//!
//! A root package and the packages of its dependency directory form a
//! directed graph whose edges are foreign-package references.  The resolver
//! produces an order in which every dependency package appears after all
//! packages it references, or fails on a duplicate identity, a reference to
//! a package that is not present, or a reference cycle.

use vstd::prelude::*;

use crate::model::{PackageName, PackageNameV, WitPackage, WitPackageV};

verus! {

/// Failure of dependency graph resolution.
#[derive(Debug)]
pub enum GraphError {
    /// The named package takes part in a reference cycle (possibly a
    /// package referencing itself).
    CyclicDependency(PackageName),
    /// The named package is referenced but not present among the
    /// dependency packages.
    MissingDependency(PackageName),
    /// The named identity is declared by two dependency packages, or by
    /// the root and a dependency package.
    DuplicatePackage(PackageName),
}

/// `p` declares a foreign reference to the package named `n`.
pub open spec fn references(p: WitPackageV, n: PackageNameV) -> bool {
    exists|j: int| 0 <= j < p.foreign_deps.len() && p.foreign_deps[j] == n
}

/// Some dependency package carries the identity `n`.
pub open spec fn dep_names_has(deps: Seq<WitPackageV>, n: PackageNameV) -> bool {
    exists|i: int| 0 <= i < deps.len() && deps[i].name == n
}

/// The name `n` occurs in `order` strictly before position `k`.
pub open spec fn name_in_prefix(order: Seq<PackageNameV>, n: PackageNameV, k: int) -> bool {
    exists|j: int| 0 <= j < k && order[j] == n
}

/// The name `n` occurs somewhere in `order`.
pub open spec fn name_in(order: Seq<PackageNameV>, n: PackageNameV) -> bool {
    name_in_prefix(order, n, order.len() as int)
}

/// All foreign references of `p` occur in `order` before position `k`.
pub open spec fn pkg_deps_before(p: WitPackageV, order: Seq<PackageNameV>, k: int) -> bool {
    forall|j: int|
        0 <= j < p.foreign_deps.len() ==> name_in_prefix(order, #[trigger] p.foreign_deps[j], k)
}

/// Every occurrence in `order` of a dependency package's name is preceded
/// by the names of all packages that package references.
pub open spec fn topo_sorted(deps: Seq<WitPackageV>, order: Seq<PackageNameV>) -> bool {
    forall|i: int, k: int|
        #![trigger deps[i], order[k]]
        0 <= i < deps.len() && 0 <= k < order.len() && order[k] == deps[i].name
            ==> pkg_deps_before(deps[i], order, k)
}

/// A closed reference walk among the dependency packages: at least one
/// step, ending at its starting package.
pub open spec fn is_ref_cycle(deps: Seq<WitPackageV>, c: Seq<int>) -> bool {
    &&& c.len() >= 2
    &&& c[0] == c[c.len() - 1]
    &&& forall|t: int| 0 <= t < c.len() ==> 0 <= #[trigger] c[t] < deps.len()
    &&& forall|t: int|
        0 <= t < c.len() - 1 ==> references(deps[#[trigger] c[t]], deps[c[t + 1]].name)
}

/// Some package depends on itself, directly or transitively.
pub open spec fn has_ref_cycle(deps: Seq<WitPackageV>) -> bool {
    exists|c: Seq<int>| is_ref_cycle(deps, c)
}

/// Every foreign reference of `p` names a present dependency package.
pub open spec fn pkg_refs_ok(deps: Seq<WitPackageV>, p: WitPackageV) -> bool {
    forall|j: int|
        0 <= j < p.foreign_deps.len() ==> dep_names_has(deps, #[trigger] p.foreign_deps[j])
}

/// Every foreign reference of the root and of each dependency package
/// names a present dependency package.
pub open spec fn refs_resolvable(root: WitPackageV, deps: Seq<WitPackageV>) -> bool {
    &&& pkg_refs_ok(deps, root)
    &&& forall|i: int| 0 <= i < deps.len() ==> pkg_refs_ok(deps, #[trigger] deps[i])
}

/// No two dependency packages share an identity.
pub open spec fn unique_dep_names(deps: Seq<WitPackageV>) -> bool {
    forall|i: int, j: int|
        #![trigger deps[i].name, deps[j].name]
        0 <= i < j < deps.len() ==> deps[i].name != deps[j].name
}

/// Package identity is unique across the root and the dependency set.
pub open spec fn distinct_identities(root: WitPackageV, deps: Seq<WitPackageV>) -> bool {
    &&& unique_dep_names(deps)
    &&& forall|i: int| 0 <= i < deps.len() ==> (#[trigger] deps[i].name) != root.name
}

/// No name occurs twice in `order`.
pub open spec fn distinct_entries(order: Seq<PackageNameV>) -> bool {
    forall|k1: int, k2: int|
        #![trigger order[k1], order[k2]]
        0 <= k1 < k2 < order.len() ==> order[k1] != order[k2]
}

/// Every entry of `order` is the name of a dependency package whose
/// foreign references all name present dependency packages.
pub open spec fn entries_justified(deps: Seq<WitPackageV>, order: Seq<PackageNameV>) -> bool {
    forall|k: int|
        0 <= k < order.len()
            ==> dep_names_has(deps, #[trigger] order[k]) && (forall|i: int|
            0 <= i < deps.len() && deps[i].name == order[k] ==> pkg_refs_ok(deps, #[trigger] deps[i]))
}

/// `b` extends `a` without changing the entries `a` already had.
pub open spec fn order_extends(b: Seq<PackageNameV>, a: Seq<PackageNameV>) -> bool {
    &&& a.len() <= b.len()
    &&& forall|k: int| 0 <= k < a.len() ==> a[k] == #[trigger] b[k]
}

// ---------------------------------------------------------------------------
// Counting marks, for termination of the traversal.
// ---------------------------------------------------------------------------

pub closed spec fn count_marked(s: Seq<bool>) -> int
    decreases s.len(),
{
    if s.len() == 0 {
        0
    } else {
        count_marked(s.drop_last()) + if s.last() {
            1int
        } else {
            0int
        }
    }
}

proof fn lemma_count_marked_bounds(s: Seq<bool>)
    ensures
        0 <= count_marked(s) <= s.len(),
    decreases s.len(),
{
    if s.len() > 0 {
        lemma_count_marked_bounds(s.drop_last());
    }
}

proof fn lemma_count_marked_all_false(s: Seq<bool>)
    requires
        forall|i: int| 0 <= i < s.len() ==> !s[i],
    ensures
        count_marked(s) == 0,
    decreases s.len(),
{
    if s.len() > 0 {
        assert(forall|i: int| 0 <= i < s.drop_last().len() ==> !s.drop_last()[i]);
        lemma_count_marked_all_false(s.drop_last());
    }
}

proof fn lemma_count_marked_update(s: Seq<bool>, i: int, b: bool)
    requires
        0 <= i < s.len(),
        s[i] != b,
    ensures
        count_marked(s.update(i, b)) == count_marked(s) + if b {
            1int
        } else {
            -1int
        },
    decreases s.len(),
{
    let u = s.update(i, b);
    if i == s.len() - 1 {
        assert(u.drop_last() =~= s.drop_last());
    } else {
        assert(u.drop_last() =~= s.drop_last().update(i, b));
        lemma_count_marked_update(s.drop_last(), i, b);
    }
}

// ---------------------------------------------------------------------------
// A topologically sorted complete order admits no reference cycle.
// ---------------------------------------------------------------------------

spec fn first_pos(order: Seq<PackageNameV>, n: PackageNameV) -> int
    decreases order.len(),
{
    if order.len() == 0 {
        -1
    } else if order[0] == n {
        0
    } else {
        let r = first_pos(order.drop_first(), n);
        if r < 0 {
            -1
        } else {
            r + 1
        }
    }
}

proof fn lemma_first_pos(order: Seq<PackageNameV>, n: PackageNameV)
    ensures
        name_in(order, n) ==> {
            &&& 0 <= first_pos(order, n) < order.len()
            &&& order[first_pos(order, n)] == n
            &&& forall|j: int| 0 <= j < first_pos(order, n) ==> order[j] != n
        },
        !name_in(order, n) ==> first_pos(order, n) == -1,
    decreases order.len(),
{
    if order.len() > 0 {
        let tail = order.drop_first();
        lemma_first_pos(tail, n);
        if order[0] != n {
            if name_in(order, n) {
                let k = choose|k: int| 0 <= k < order.len() && order[k] == n;
                assert(tail[k - 1] == n);
                assert(name_in(tail, n));
            }
            if name_in(tail, n) {
                let k = choose|k: int| 0 <= k < tail.len() && tail[k] == n;
                assert(order[k + 1] == n);
                assert(name_in(order, n));
            }
            if name_in(order, n) {
                let r = first_pos(tail, n);
                assert(first_pos(order, n) == r + 1);
                assert(order[r + 1] == tail[r]);
                assert forall|j: int| 0 <= j < r + 1 implies order[j] != n by {
                    if j > 0 {
                        assert(tail[j - 1] != n);
                        assert(order[j] == tail[j - 1]);
                    }
                }
            }
        }
    }
}

proof fn lemma_cycle_descent(
    deps: Seq<WitPackageV>,
    order: Seq<PackageNameV>,
    c: Seq<int>,
    t: int,
)
    requires
        topo_sorted(deps, order),
        forall|i: int| 0 <= i < deps.len() ==> name_in(order, (#[trigger] deps[i]).name),
        is_ref_cycle(deps, c),
        0 <= t < c.len(),
    ensures
        first_pos(order, deps[c[t]].name) <= first_pos(order, deps[c[0]].name) - t,
    decreases t,
{
    lemma_first_pos(order, deps[c[t]].name);
    if t > 0 {
        lemma_cycle_descent(deps, order, c, t - 1);
        let a = c[t - 1];
        let b = c[t];
        lemma_first_pos(order, deps[a].name);
        let ka = first_pos(order, deps[a].name);
        assert(order[ka] == deps[a].name);
        assert(pkg_deps_before(deps[a], order, ka));
        assert(references(deps[a], deps[b].name));
        let j = choose|j: int|
            0 <= j < deps[a].foreign_deps.len() && deps[a].foreign_deps[j] == deps[b].name;
        assert(name_in_prefix(order, deps[a].foreign_deps[j], ka));
        let kb = choose|k: int| 0 <= k < ka && order[k] == deps[b].name;
        assert(kb < order.len());
        assert(name_in(order, deps[b].name));
        // the first occurrence is no later than the found occurrence
        assert(first_pos(order, deps[b].name) <= kb) by {
            lemma_first_pos(order, deps[b].name);
            if first_pos(order, deps[b].name) > kb {
                assert(order[kb] != deps[b].name);
            }
        }
    }
}

/// A complete, topologically sorted order rules out reference cycles: if
/// every dependency package occurs in an order in which each package is
/// preceded by all packages it references, then no package can depend on
/// itself, directly or transitively.
pub proof fn lemma_topo_sorted_acyclic(deps: Seq<WitPackageV>, order: Seq<PackageNameV>)
    requires
        topo_sorted(deps, order),
        forall|i: int| 0 <= i < deps.len() ==> name_in(order, (#[trigger] deps[i]).name),
    ensures
        !has_ref_cycle(deps),
{
    if has_ref_cycle(deps) {
        let c = choose|c: Seq<int>| is_ref_cycle(deps, c);
        let t = c.len() - 1;
        lemma_cycle_descent(deps, order, c, t);
        assert(c[t] == c[0]);
        assert(first_pos(order, deps[c[0]].name) <= first_pos(order, deps[c[0]].name) - t);
        assert(t <= 0);
        assert(false);
    }
}

// ---------------------------------------------------------------------------
// Executable helpers.
// ---------------------------------------------------------------------------

fn contains_name(order: &Vec<PackageName>, n: &PackageName) -> (r: bool)
    ensures
        r <==> name_in(order.deep_view(), n@),
{
    let ghost ov = order.deep_view();
    let mut k: usize = 0;
    while k < order.len()
        invariant
            k <= order.len(),
            ov == order.deep_view(),
            ov.len() == order.len(),
            forall|j: int| 0 <= j < k ==> ov[j] != n@,
        decreases order.len() - k,
    {
        assert(ov[k as int] == order[k as int]@);
        if order[k].same_as(n) {
            return true;
        }
        k += 1;
    }
    false
}

fn find_dep(deps: &Vec<WitPackage>, n: &PackageName) -> (r: Option<usize>)
    ensures
        r matches Some(i) ==> i < deps.len() && deps.deep_view()[i as int].name == n@,
        r is None ==> !dep_names_has(deps.deep_view(), n@),
{
    let ghost dv = deps.deep_view();
    let mut k: usize = 0;
    while k < deps.len()
        invariant
            k <= deps.len(),
            dv == deps.deep_view(),
            dv.len() == deps.len(),
            forall|j: int| 0 <= j < k ==> (#[trigger] dv[j]).name != n@,
        decreases deps.len() - k,
    {
        assert(dv[k as int] == deps[k as int]@);
        if deps[k].name.same_as(n) {
            return Some(k);
        }
        k += 1;
    }
    None
}

// ---------------------------------------------------------------------------
// Depth-first traversal.
// ---------------------------------------------------------------------------

/// The marked packages are exactly the members of the ghost chain, and the
/// chain is a path of references.
spec fn chain_ok(deps: Seq<WitPackageV>, visiting: Seq<bool>, ch: Seq<int>) -> bool {
    &&& visiting.len() == deps.len()
    &&& forall|t: int| 0 <= t < ch.len() ==> 0 <= #[trigger] ch[t] < deps.len()
    &&& forall|i: int|
        0 <= i < deps.len()
            ==> ((#[trigger] visiting[i]) <==> exists|t: int| 0 <= t < ch.len() && ch[t] == i)
    &&& forall|t: int|
        0 <= t < ch.len() - 1 ==> references(deps[#[trigger] ch[t]], deps[ch[t + 1]].name)
}

fn visit(
    deps: &Vec<WitPackage>,
    pkg: &WitPackage,
    visiting: &mut Vec<bool>,
    chain: Ghost<Seq<int>>,
    order: &mut Vec<PackageName>,
    remaining: usize,
) -> (r: Result<(), GraphError>)
    requires
        unique_dep_names(deps.deep_view()),
        exists|i: int| 0 <= i < deps.deep_view().len() && deps.deep_view()[i] == pkg@,
        old(visiting).len() == deps.len(),
        remaining == deps.len() - count_marked(old(visiting)@),
        chain_ok(deps.deep_view(), old(visiting)@, chain@),
        chain@.len() > 0 ==> deps.deep_view()[chain@[chain@.len() - 1]] == pkg@,
        topo_sorted(deps.deep_view(), old(order).deep_view()),
        entries_justified(deps.deep_view(), old(order).deep_view()),
        distinct_entries(old(order).deep_view()),
    ensures
        final(visiting)@ == old(visiting)@,
        order_extends(final(order).deep_view(), old(order).deep_view()),
        topo_sorted(deps.deep_view(), final(order).deep_view()),
        entries_justified(deps.deep_view(), final(order).deep_view()),
        distinct_entries(final(order).deep_view()),
        r is Ok ==> name_in(final(order).deep_view(), pkg@.name),
        r matches Err(GraphError::CyclicDependency(n)) ==> has_ref_cycle(deps.deep_view()),
        r matches Err(GraphError::MissingDependency(n)) ==> !dep_names_has(deps.deep_view(), n@)
            && (references(pkg@, n@) || exists|i: int|
            0 <= i < deps.deep_view().len() && references(#[trigger] deps.deep_view()[i], n@)),
        r is Err ==> !(r matches Err(GraphError::DuplicatePackage(_))),
    decreases remaining, 1int,
{
    if contains_name(order, &pkg.name) {
        return Ok(());
    }
    let res = visit_edges(deps, pkg, visiting, chain, order, remaining);
    match res {
        Err(e) => Err(e),
        Ok(()) => {
            let ghost depsv = deps.deep_view();
            let ghost before = order.deep_view();
            if !contains_name(order, &pkg.name) {
                let ghost i0 = choose|i: int| 0 <= i < depsv.len() && depsv[i] == pkg@;
                order.push(pkg.name.duplicate());
                proof {
                    let after = order.deep_view();
                    let len = before.len() as int;
                    assert(after.len() == len + 1);
                    assert(forall|k: int| 0 <= k < len ==> after[k] == before[k]);
                    assert(after[len] == pkg@.name);
                    // only the package itself carries its name
                    assert(0 <= i0 < depsv.len() && depsv[i0] == pkg@);
                    assert(dep_names_has(depsv, pkg@.name));
                    assert forall|i: int|
                        0 <= i < depsv.len() && (#[trigger] depsv[i]).name
                            == pkg@.name implies depsv[i] == pkg@ by {
                        if i != i0 {
                            assert(depsv[i].name != depsv[i0].name);
                        }
                    }
                    // the new entry is justified and fresh
                    assert(entries_justified(depsv, after)) by {
                        assert forall|k: int| 0 <= k < after.len() implies dep_names_has(
                            depsv,
                            #[trigger] after[k],
                        ) && (forall|i: int|
                            0 <= i < depsv.len() && depsv[i].name == after[k] ==> pkg_refs_ok(
                                depsv,
                                #[trigger] depsv[i],
                            )) by {
                            if k < len {
                                assert(after[k] == before[k]);
                            } else {
                                assert(after[k] == pkg@.name);
                            }
                        }
                    }
                    assert(distinct_entries(after)) by {
                        assert forall|k1: int, k2: int|
                            #![trigger after[k1], after[k2]]
                            0 <= k1 < k2 < after.len() implies after[k1] != after[k2] by {
                            if k2 == len {
                                assert(after[k1] == before[k1]);
                                assert(!name_in(before, pkg@.name));
                                if after[k1] == pkg@.name {
                                    assert(name_in_prefix(before, pkg@.name, len));
                                }
                            }
                        }
                    }
                    // topological sorting is preserved
                    assert forall|i: int, k: int|
                        #![trigger depsv[i], after[k]]
                        0 <= i < depsv.len() && 0 <= k < after.len() && after[k]
                            == depsv[i].name implies pkg_deps_before(depsv[i], after, k) by {
                        if k < len {
                            assert(pkg_deps_before(depsv[i], before, k));
                            assert forall|j: int| 0 <= j < depsv[i].foreign_deps.len() implies
                                name_in_prefix(after, #[trigger] depsv[i].foreign_deps[j], k) by {
                                let p = choose|p: int|
                                    0 <= p < k && before[p] == depsv[i].foreign_deps[j];
                                assert(after[p] == depsv[i].foreign_deps[j]);
                            }
                        } else {
                            assert(depsv[i] == pkg@);
                            assert(pkg_deps_before(pkg@, before, len));
                            assert forall|j: int| 0 <= j < depsv[i].foreign_deps.len() implies
                                name_in_prefix(after, #[trigger] depsv[i].foreign_deps[j], k) by {
                                let p = choose|p: int|
                                    0 <= p < len && before[p] == pkg@.foreign_deps[j];
                                assert(after[p] == depsv[i].foreign_deps[j]);
                            }
                        }
                    }
                    assert(name_in(after, pkg@.name)) by {
                        assert(after[len] == pkg@.name);
                    }
                }
            }
            Ok(())
        },
    }
}

fn visit_edges(
    deps: &Vec<WitPackage>,
    pkg: &WitPackage,
    visiting: &mut Vec<bool>,
    chain: Ghost<Seq<int>>,
    order: &mut Vec<PackageName>,
    remaining: usize,
) -> (r: Result<(), GraphError>)
    requires
        unique_dep_names(deps.deep_view()),
        old(visiting).len() == deps.len(),
        remaining == deps.len() - count_marked(old(visiting)@),
        chain_ok(deps.deep_view(), old(visiting)@, chain@),
        chain@.len() > 0 ==> deps.deep_view()[chain@[chain@.len() - 1]] == pkg@,
        topo_sorted(deps.deep_view(), old(order).deep_view()),
        entries_justified(deps.deep_view(), old(order).deep_view()),
        distinct_entries(old(order).deep_view()),
    ensures
        final(visiting)@ == old(visiting)@,
        order_extends(final(order).deep_view(), old(order).deep_view()),
        topo_sorted(deps.deep_view(), final(order).deep_view()),
        entries_justified(deps.deep_view(), final(order).deep_view()),
        distinct_entries(final(order).deep_view()),
        r is Ok ==> pkg_refs_ok(deps.deep_view(), pkg@) && pkg_deps_before(
            pkg@,
            final(order).deep_view(),
            final(order).deep_view().len() as int,
        ),
        r matches Err(GraphError::CyclicDependency(n)) ==> has_ref_cycle(deps.deep_view()),
        r matches Err(GraphError::MissingDependency(n)) ==> !dep_names_has(deps.deep_view(), n@)
            && (references(pkg@, n@) || exists|i: int|
            0 <= i < deps.deep_view().len() && references(#[trigger] deps.deep_view()[i], n@)),
        r is Err ==> !(r matches Err(GraphError::DuplicatePackage(_))),
    decreases remaining, 0int,
{
    let ghost depsv = deps.deep_view();
    let ghost visiting0 = visiting@;
    let mut j: usize = 0;
    while j < pkg.foreign_deps.len()
        invariant
            unique_dep_names(depsv),
            depsv == deps.deep_view(),
            pkg.foreign_deps.deep_view() == pkg@.foreign_deps,
            pkg.foreign_deps.len() == pkg@.foreign_deps.len(),
            j <= pkg.foreign_deps.len(),
            visiting@ == visiting0,
            visiting0 == old(visiting)@,
            visiting.len() == deps.len(),
            remaining == deps.len() - count_marked(visiting@),
            chain_ok(depsv, visiting@, chain@),
            chain@.len() > 0 ==> depsv[chain@[chain@.len() - 1]] == pkg@,
            topo_sorted(depsv, order.deep_view()),
            entries_justified(depsv, order.deep_view()),
            distinct_entries(order.deep_view()),
            order_extends(order.deep_view(), old(order).deep_view()),
            forall|t: int|
                0 <= t < j ==> name_in(order.deep_view(), #[trigger] pkg@.foreign_deps[t])
                    && dep_names_has(depsv, pkg@.foreign_deps[t]),
        decreases pkg.foreign_deps.len() - j,
    {
        let n = &pkg.foreign_deps[j];
        assert(n@ == pkg@.foreign_deps[j as int]);
        let found = find_dep(deps, n);
        match found {
            None => {
                proof {
                    assert(references(pkg@, n@));
                }
                return Err(GraphError::MissingDependency(n.duplicate()));
            },
            Some(di) => {
                assert(depsv[di as int].name == n@);
                if visiting[di] {
                    // a marked package reached again: close the chain into a cycle
                    proof {
                        let t = choose|t: int| 0 <= t < chain@.len() && chain@[t] == di as int;
                        let c = chain@.subrange(t, chain@.len() as int).push(di as int);
                        assert(c.len() >= 2);
                        assert(c[0] == di as int);
                        assert(c[c.len() - 1] == di as int);
                        assert forall|u: int| 0 <= u < c.len() - 1 implies references(
                            depsv[c[u]],
                            depsv[#[trigger] c[u + 1]].name,
                        ) by {
                            if u < c.len() - 2 {
                                assert(c[u] == chain@[t + u]);
                                assert(c[u + 1] == chain@[t + u + 1]);
                            } else {
                                assert(c[u] == chain@[chain@.len() - 1]);
                                assert(depsv[c[u]] == pkg@);
                                assert(c[u + 1] == di as int);
                                assert(pkg@.foreign_deps[j as int] == depsv[di as int].name);
                                assert(references(pkg@, depsv[di as int].name));
                            }
                        }
                        assert(is_ref_cycle(depsv, c));
                    }
                    return Err(GraphError::CyclicDependency(n.duplicate()));
                }
                proof {
                    lemma_count_marked_update(visiting@, di as int, true);
                    lemma_count_marked_bounds(visiting@);
                }
                visiting.set(di, true);
                assert(count_marked(visiting@) == count_marked(visiting0) + 1);
                let ghost chain2 = chain@.push(di as int);
                proof {
                    // the extended chain matches the extended marking
                    assert forall|i: int| 0 <= i < depsv.len() implies ((#[trigger] visiting@[i])
                        <==> exists|t: int| 0 <= t < chain2.len() && chain2[t] == i) by {
                        if visiting@[i] {
                            if i == di as int {
                                assert(chain2[chain2.len() - 1] == i);
                            } else {
                                assert(visiting0[i]);
                                let t = choose|t: int|
                                    0 <= t < chain@.len() && chain@[t] == i;
                                assert(chain2[t] == i);
                            }
                        }
                        if exists|t: int| 0 <= t < chain2.len() && chain2[t] == i {
                            let t = choose|t: int| 0 <= t < chain2.len() && chain2[t] == i;
                            if t < chain@.len() {
                                assert(visiting0[i]);
                            } else {
                                assert(i == di as int);
                            }
                        }
                    }
                    assert forall|t: int| 0 <= t < chain2.len() - 1 implies references(
                        depsv[chain2[t]],
                        depsv[#[trigger] chain2[t + 1]].name,
                    ) by {
                        if t == chain2.len() - 2 {
                            if chain@.len() > 0 {
                                assert(chain2[t] == chain@[chain@.len() - 1]);
                                assert(depsv[chain2[t]] == pkg@);
                                assert(pkg@.foreign_deps[j as int] == depsv[di as int].name);
                                assert(references(pkg@, depsv[di as int].name));
                            }
                        } else {
                            assert(chain2[t] == chain@[t]);
                            assert(chain2[t + 1] == chain@[t + 1]);
                        }
                    }
                    if chain@.len() == 0 {
                        assert(chain2.len() == 1);
                    }
                    assert(chain_ok(depsv, visiting@, chain2));
                    assert(depsv[chain2[chain2.len() - 1]] == depsv[di as int]);
                    assert(depsv[di as int] == deps[di as int]@);
                    lemma_count_marked_bounds(visiting@);
                    assert(remaining >= 1);
                }
                let ghost order_before_call = order.deep_view();
                let res = visit(deps, &deps[di], visiting, Ghost(chain2), order, remaining - 1);
                match res {
                    Err(e) => {
                        proof {
                            lemma_count_marked_update(visiting@, di as int, false);
                        }
                        visiting.set(di, false);
                        assert(visiting@ =~= visiting0);
                        proof {
                            match &e {
                                GraphError::MissingDependency(m) => {
                                    if references(depsv[di as int], m@) {
                                        assert(0 <= (di as int) < depsv.len() && references(
                                            depsv[di as int],
                                            m@,
                                        ));
                                    }
                                },
                                _ => {},
                            }
                        }
                        return Err(e);
                    },
                    Ok(()) => {
                        proof {
                            lemma_count_marked_update(visiting@, di as int, false);
                        }
                        visiting.set(di, false);
                        assert(visiting@ =~= visiting0);
                        proof {
                            assert(name_in(order_before_call, depsv[di as int].name) || name_in(
                                order.deep_view(),
                                depsv[di as int].name,
                            ));
                            // the callee's entry also stands in the extended order
                            if name_in(order_before_call, depsv[di as int].name) {
                                let p = choose|p: int|
                                    0 <= p < order_before_call.len() && order_before_call[p]
                                        == depsv[di as int].name;
                                assert(order.deep_view()[p] == depsv[di as int].name);
                            }
                            assert(name_in(order.deep_view(), pkg@.foreign_deps[j as int]));
                            // earlier edges stay present as the order only grows
                            assert forall|t: int| 0 <= t < j + 1 implies name_in(
                                order.deep_view(),
                                #[trigger] pkg@.foreign_deps[t],
                            ) && dep_names_has(depsv, pkg@.foreign_deps[t]) by {
                                if t < j {
                                    let p = choose|p: int|
                                        0 <= p < order_before_call.len() && order_before_call[p]
                                            == pkg@.foreign_deps[t];
                                    assert(order.deep_view()[p] == pkg@.foreign_deps[t]);
                                }
                            }
                        }
                    },
                }
            },
        }
        j += 1;
    }
    proof {
        assert forall|t: int| 0 <= t < pkg@.foreign_deps.len() implies name_in_prefix(
            order.deep_view(),
            #[trigger] pkg@.foreign_deps[t],
            order.deep_view().len() as int,
        ) by {
            assert(name_in(order.deep_view(), pkg@.foreign_deps[t]));
        }
    }
    Ok(())
}

// ---------------------------------------------------------------------------
// The resolver.
// ---------------------------------------------------------------------------

/// Orders the dependency packages of `root` so that every package appears
/// after all packages it references.
///
/// Resolution succeeds exactly when package identities are distinct, every
/// foreign reference names a present dependency package, and no package
/// depends on itself, directly or transitively.  On success the returned
/// order lists each dependency package's name exactly once, topologically
/// sorted; re-running on the same input yields the same order.
pub fn resolve_dependency_order(root: &WitPackage, deps: &Vec<WitPackage>) -> (r: Result<
    Vec<PackageName>,
    GraphError,
>)
    ensures
        r is Ok <==> (distinct_identities(root@, deps.deep_view()) && refs_resolvable(
            root@,
            deps.deep_view(),
        ) && !has_ref_cycle(deps.deep_view())),
        r matches Ok(order) ==> {
            &&& topo_sorted(deps.deep_view(), order.deep_view())
            &&& distinct_entries(order.deep_view())
            &&& forall|i: int|
                0 <= i < deps.deep_view().len() ==> name_in(
                    order.deep_view(),
                    (#[trigger] deps.deep_view()[i]).name,
                )
            &&& forall|k: int|
                0 <= k < order.deep_view().len() ==> dep_names_has(
                    deps.deep_view(),
                    #[trigger] order.deep_view()[k],
                )
        },
        r matches Err(GraphError::CyclicDependency(n)) ==> has_ref_cycle(deps.deep_view()),
        r matches Err(GraphError::MissingDependency(n)) ==> !refs_resolvable(
            root@,
            deps.deep_view(),
        ),
        r matches Err(GraphError::DuplicatePackage(n)) ==> !distinct_identities(
            root@,
            deps.deep_view(),
        ),
{
    let ghost depsv = deps.deep_view();
    let ghost rootv = root@;

    // fail fast on duplicate identities
    let mut i: usize = 0;
    while i < deps.len()
        invariant
            depsv == deps.deep_view(),
            depsv.len() == deps.len(),
            rootv == root@,
            i <= deps.len(),
            forall|a: int, b: int|
                #![trigger depsv[a].name, depsv[b].name]
                0 <= a < b < deps.len() && a < i ==> depsv[a].name != depsv[b].name,
            forall|a: int| 0 <= a < i ==> (#[trigger] depsv[a]).name != rootv.name,
        decreases deps.len() - i,
    {
        let mut j: usize = i + 1;
        while j < deps.len()
            invariant
                depsv == deps.deep_view(),
                depsv.len() == deps.len(),
                i < deps.len(),
                i + 1 <= j <= deps.len(),
                forall|b: int| i < b < j ==> depsv[i as int].name != (#[trigger] depsv[b]).name,
            decreases deps.len() - j,
        {
            assert(depsv[i as int] == deps[i as int]@);
            assert(depsv[j as int] == deps[j as int]@);
            if deps[i].name.same_as(&deps[j].name) {
                proof {
                    assert(depsv[i as int].name == depsv[j as int].name);
                    assert(!unique_dep_names(depsv));
                }
                return Err(GraphError::DuplicatePackage(deps[j].name.duplicate()));
            }
            j += 1;
        }
        assert(depsv[i as int] == deps[i as int]@);
        if deps[i].name.same_as(&root.name) {
            proof {
                assert(depsv[i as int].name == rootv.name);
                assert(!distinct_identities(rootv, depsv));
            }
            return Err(GraphError::DuplicatePackage(deps[i].name.duplicate()));
        }
        i += 1;
    }
    assert(distinct_identities(rootv, depsv));

    let mut visiting: Vec<bool> = Vec::new();
    let mut k: usize = 0;
    while k < deps.len()
        invariant
            k <= deps.len(),
            visiting.len() == k,
            forall|t: int| 0 <= t < k ==> !visiting@[t],
        decreases deps.len() - k,
    {
        visiting.push(false);
        k += 1;
    }
    proof {
        lemma_count_marked_all_false(visiting@);
    }

    let mut order: Vec<PackageName> = Vec::new();
    let remaining = deps.len();
    let ghost empty_chain: Seq<int> = Seq::empty();

    let mut t: usize = 0;
    while t < deps.len()
        invariant
            depsv == deps.deep_view(),
            depsv.len() == deps.len(),
            rootv == root@,
            t <= deps.len(),
            empty_chain.len() == 0,
            distinct_identities(rootv, depsv),
            visiting.len() == deps.len(),
            forall|u: int| 0 <= u < visiting@.len() ==> !visiting@[u],
            remaining == deps.len(),
            topo_sorted(depsv, order.deep_view()),
            entries_justified(depsv, order.deep_view()),
            distinct_entries(order.deep_view()),
            forall|u: int| 0 <= u < t ==> name_in(order.deep_view(), (#[trigger] depsv[u]).name),
        decreases deps.len() - t,
    {
        proof {
            lemma_count_marked_all_false(visiting@);
            assert(chain_ok(depsv, visiting@, empty_chain));
            assert(depsv[t as int] == deps[t as int]@);
        }
        let ghost order_before = order.deep_view();
        let res = visit(deps, &deps[t], &mut visiting, Ghost(empty_chain), &mut order, remaining);
        match res {
            Err(e) => {
                proof {
                    match &e {
                        GraphError::MissingDependency(n) => {
                            assert(!refs_resolvable(rootv, depsv)) by {
                                if references(depsv[t as int], n@) {
                                    let j = choose|j: int|
                                        0 <= j < depsv[t as int].foreign_deps.len()
                                            && depsv[t as int].foreign_deps[j] == n@;
                                    assert(!dep_names_has(depsv, depsv[t as int].foreign_deps[j]));
                                } else {
                                    let i2 = choose|i2: int|
                                        0 <= i2 < depsv.len() && references(depsv[i2], n@);
                                    let j = choose|j: int|
                                        0 <= j < depsv[i2].foreign_deps.len()
                                            && depsv[i2].foreign_deps[j] == n@;
                                    assert(!dep_names_has(depsv, depsv[i2].foreign_deps[j]));
                                }
                            }
                        },
                        _ => {},
                    }
                }
                return Err(e);
            },
            Ok(()) => {
                proof {
                    assert forall|u: int| 0 <= u < t + 1 implies name_in(
                        order.deep_view(),
                        (#[trigger] depsv[u]).name,
                    ) by {
                        if u < t {
                            let p = choose|p: int|
                                0 <= p < order_before.len() && order_before[p] == depsv[u].name;
                            assert(order.deep_view()[p] == depsv[u].name);
                        }
                    }
                }
            },
        }
        t += 1;
    }

    // check the root's own references without placing the root in the order
    proof {
        lemma_count_marked_all_false(visiting@);
        assert(chain_ok(depsv, visiting@, empty_chain));
    }
    let ghost order_before_root = order.deep_view();
    let res = visit_edges(deps, root, &mut visiting, Ghost(empty_chain), &mut order, remaining);
    match res {
        Err(e) => {
            proof {
                match &e {
                    GraphError::MissingDependency(n) => {
                        assert(!refs_resolvable(rootv, depsv)) by {
                            if references(rootv, n@) {
                                let j = choose|j: int|
                                    0 <= j < rootv.foreign_deps.len() && rootv.foreign_deps[j]
                                        == n@;
                                assert(!dep_names_has(depsv, rootv.foreign_deps[j]));
                            } else {
                                let i2 = choose|i2: int|
                                    0 <= i2 < depsv.len() && references(depsv[i2], n@);
                                let j = choose|j: int|
                                    0 <= j < depsv[i2].foreign_deps.len()
                                        && depsv[i2].foreign_deps[j] == n@;
                                assert(!dep_names_has(depsv, depsv[i2].foreign_deps[j]));
                            }
                        }
                    },
                    _ => {},
                }
            }
            Err(e)
        },
        Ok(()) => {
            proof {
                let ov = order.deep_view();
                assert forall|u: int| 0 <= u < depsv.len() implies name_in(
                    ov,
                    (#[trigger] depsv[u]).name,
                ) by {
                    let p = choose|p: int|
                        0 <= p < order_before_root.len() && order_before_root[p] == depsv[u].name;
                    assert(ov[p] == depsv[u].name);
                }
                assert(refs_resolvable(rootv, depsv)) by {
                    assert forall|i2: int| 0 <= i2 < depsv.len() implies pkg_refs_ok(
                        depsv,
                        #[trigger] depsv[i2],
                    ) by {
                        assert(name_in(ov, depsv[i2].name));
                        let p = choose|p: int| 0 <= p < ov.len() && ov[p] == depsv[i2].name;
                        assert(dep_names_has(depsv, ov[p]));
                    }
                }
                lemma_topo_sorted_acyclic(depsv, ov);
            }
            Ok(order)
        },
    }
}

} // verus!
