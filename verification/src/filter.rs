//! The non-dev reachability filter: the subset of a classified graph
//! reachable from Local packages via Normal and Build edges, with
//! best-effort name/version matching.
use vstd::prelude::*;
use crate::classify::classified;
use crate::classify::classify;
use crate::graph::DepKind;
use crate::graph::PackageGraph;
use crate::graph::PkgSource;
use crate::graph::SourcedPackage;
use crate::graph::SourcedPackageView;
use crate::graph::graph_wf;
use crate::graph::sourced_ids_distinct;
use crate::graph::views_of;
use crate::reqs::Dep;
use crate::reqs::dep_matches_pkg;
use crate::graph::Package;

verus! {

/// `p` has a Normal or Build edge whose requirement admits `q`.
pub open spec fn nondev_match(p: crate::graph::PackageView, q: crate::graph::PackageView) -> bool {
    exists|e: int|
        0 <= e < p.dependencies.len() && p.dependencies[e].kind != DepKind::Development
            && dep_matches_pkg(p.dependencies[e].name, p.dependencies[e].req, q)
}

/// The package at index `j` is reachable from a Local package in at
/// most `n` Normal/Build matching steps.
pub open spec fn reach(s: Seq<SourcedPackageView>, j: int, n: nat) -> bool
    decreases n,
{
    0 <= j < s.len() && (s[j].source == PkgSource::Local || (n > 0 && exists|i: int|
        0 <= i < s.len() && reach(s, i, (n - 1) as nat) && nondev_match(s[i].package, s[j].package)))
}

/// The package at index `j` is reachable from a Local package via
/// Normal/Build matching steps.
pub open spec fn reachable(s: Seq<SourcedPackageView>, j: int) -> bool {
    exists|n: nat| reach(s, j, n)
}

/// `x` is one of the reachable elements of `s`.
pub open spec fn reachable_element(s: Seq<SourcedPackageView>, x: SourcedPackageView) -> bool {
    exists|j: int| #![trigger s[j]] 0 <= j < s.len() && reachable(s, j) && x == s[j]
}

/// What the filter returns: every element of `r` is a reachable element
/// of `s`, every reachable element of `s` is in `r`, and `r` has no
/// duplicate identifiers.
pub open spec fn filter_post(s: Seq<SourcedPackageView>, r: Seq<SourcedPackageView>) -> bool {
    &&& forall|k: int| #![trigger r[k]] 0 <= k < r.len() ==> reachable_element(s, r[k])
    &&& forall|j: int| 0 <= j < s.len() && reachable(s, j) ==> r.contains(s[j])
    &&& forall|k1: int, k2: int|
        0 <= k1 < k2 < r.len() ==> r[k1].package.id != r[k2].package.id
}

/// Index `j` occurs in the index list `f`.
spec fn in_f(f: Seq<usize>, j: int) -> bool {
    exists|k: int| 0 <= k < f.len() && f[k] as int == j
}

/// The working set `deps` holds the requirement key (`name`, `req`).
spec fn key_in_deps(deps: Seq<Dep>, name: Seq<char>, req: Seq<char>) -> bool {
    exists|k: int| 0 <= k < deps.len() && deps[k].name@ == name && deps[k].req@ == req
}

/// Some package listed in `f` has a Normal/Build edge with the
/// requirement key (`name`, `req`).
spec fn frontier_has_key(
    views: Seq<SourcedPackageView>,
    f: Seq<usize>,
    name: Seq<char>,
    req: Seq<char>,
) -> bool {
    exists|k: int, e: int|
        0 <= k < f.len() && 0 <= e < views[f[k] as int].package.dependencies.len()
            && views[f[k] as int].package.dependencies[e].kind != DepKind::Development
            && views[f[k] as int].package.dependencies[e].name == name
            && views[f[k] as int].package.dependencies[e].req == req
}

/// How many of the first `k` entries are false.
spec fn count_false_upto(v: Seq<bool>, k: int) -> nat
    decreases k,
{
    if k <= 0 {
        0
    } else {
        count_false_upto(v, k - 1) + (if v[k - 1] {
            0nat
        } else {
            1nat
        })
    }
}

proof fn lemma_count_false_update(v: Seq<bool>, j: int, k: int)
    requires
        0 <= j < v.len(),
        k <= v.len(),
        !v[j],
    ensures
        count_false_upto(v.update(j, true), k) + (if j < k {
            1nat
        } else {
            0nat
        }) == count_false_upto(v, k),
    decreases k,
{
    if k <= 0 {
    } else {
        lemma_count_false_update(v, j, k - 1);
        assert(v.update(j, true)[k - 1] == (if k - 1 == j {
            true
        } else {
            v[k - 1]
        }));
    }
}

/// One matching step out of a reachable package reaches the target.
proof fn lemma_step_reachable(views: Seq<SourcedPackageView>, i: int, j: int)
    requires
        0 <= i < views.len(),
        0 <= j < views.len(),
        reachable(views, i),
        nondev_match(views[i].package, views[j].package),
    ensures
        reachable(views, j),
{
    let n0 = choose|n0: nat| reach(views, i, n0);
    let n1: nat = n0 + 1;
    assert(n1 > 0 && reach(views, i, (n1 - 1) as nat));
    assert(reach(views, j, n1));
}

/// Every package reachable in some number of steps is marked, provided
/// the marked set covers the Local packages and is closed under
/// matching steps.
proof fn lemma_reach_visited(
    views: Seq<SourcedPackageView>,
    visited: Seq<bool>,
    done: Seq<int>,
    j: int,
    n: nat,
)
    requires
        visited.len() == views.len(),
        forall|j2: int| 0 <= j2 < views.len() && views[j2].source == PkgSource::Local
            ==> visited[j2],
        forall|j2: int| 0 <= j2 < visited.len() ==> (visited[j2] <==> done.contains(j2)),
        forall|ki: int, j2: int|
            0 <= ki < done.len() && 0 <= j2 < views.len() && nondev_match(
                views[done[ki]].package,
                views[j2].package,
            ) ==> visited[j2],
        reach(views, j, n),
    ensures
        visited[j],
    decreases n,
{
    if views[j].source == PkgSource::Local {
    } else {
        let i = choose|i: int|
            0 <= i < views.len() && reach(views, i, (n - 1) as nat) && nondev_match(
                views[i].package,
                views[j].package,
            );
        lemma_reach_visited(views, visited, done, i, (n - 1) as nat);
        assert(done.contains(i));
        let ki = choose|ki: int| 0 <= ki < done.len() && done[ki] == i;
        assert(nondev_match(views[done[ki]].package, views[j].package));
    }
}

/// Whether the working set holds the key (`name`, `req`).
fn deps_contains(deps: &Vec<Dep>, name: &String, req: &String) -> (r: bool)
    ensures
        r == key_in_deps(deps@, name@, req@),
{
    let mut k: usize = 0;
    while k < deps.len()
        invariant
            k <= deps@.len(),
            forall|k2: int| 0 <= k2 < k ==> !(deps@[k2].name@ == name@ && deps@[k2].req@ == req@),
        decreases deps@.len() - k,
    {
        if crate::strcmp::string_eq(&deps[k].name, name) && crate::strcmp::string_eq(
            &deps[k].req,
            req,
        ) {
            return true;
        }
        k = k + 1;
    }
    false
}

/// Whether any requirement key in the working set admits the package.
fn matches_any(deps: &Vec<Dep>, pkg: &Package) -> (r: bool)
    ensures
        r == exists|k: int|
            0 <= k < deps@.len() && dep_matches_pkg(deps@[k].name@, deps@[k].req@, pkg@),
{
    let mut k: usize = 0;
    while k < deps.len()
        invariant
            k <= deps@.len(),
            forall|k2: int|
                0 <= k2 < k ==> !dep_matches_pkg(deps@[k2].name@, deps@[k2].req@, pkg@),
        decreases deps@.len() - k,
    {
        if deps[k].matches(pkg) {
            return true;
        }
        k = k + 1;
    }
    false
}

/// Start with the Local packages, then iteratively add every package
/// admitted by a Normal/Build requirement of a package already taken,
/// until no more can be added; return exactly the packages so reached.
///
/// Matching is best effort: a requirement is compared against a
/// candidate's name and version only, never its origin, so the result
/// over-approximates rather than ever dropping a real dependency.
#[verifier::loop_isolation(false)]
#[verifier::rlimit(100)]
pub fn extract_non_dev_dependencies(s: &Vec<SourcedPackage>) -> (r: Vec<SourcedPackage>)
    requires
        sourced_ids_distinct(views_of(s@)),
    ensures
        filter_post(views_of(s@), views_of(r@)),
{
    let ghost views = views_of(s@);
    let n = s.len();
    assert(views.len() == n);

    let mut visited: Vec<bool> = Vec::new();
    let mut i: usize = 0;
    while i < n
        invariant
            i <= n,
            visited@.len() == i,
            forall|j: int| 0 <= j < i ==> !visited@[j],
        decreases n - i,
    {
        visited.push(false);
        i = i + 1;
    }

    let mut frontier: Vec<usize> = Vec::new();
    let mut i: usize = 0;
    while i < n
        invariant
            i <= n,
            visited@.len() == n,
            forall|k: int| 0 <= k < frontier@.len() ==> (frontier@[k] as int) < i,
            forall|k1: int, k2: int|
                0 <= k1 < k2 < frontier@.len() ==> frontier@[k1] != frontier@[k2],
            forall|j: int| 0 <= j < n ==> (visited@[j] <==> in_f(frontier@, j)),
            forall|k: int|
                0 <= k < frontier@.len() ==> views[frontier@[k] as int].source
                    == PkgSource::Local,
            forall|j: int| 0 <= j < i && views[j].source == PkgSource::Local ==> visited@[j],
        decreases n - i,
    {
        if s[i].source == PkgSource::Local {
            let ghost frontier0 = frontier@;
            frontier.push(i);
            visited[i] = true;
            proof {
                assert(views[i as int].source == PkgSource::Local);
                assert(in_f(frontier@, i as int)) by {
                    assert(frontier@[frontier0.len() as int] as int == i as int);
                }
                assert forall|j: int| 0 <= j < n && j != i implies (in_f(frontier0, j) <==> in_f(
                    frontier@,
                    j,
                )) by {
                    if in_f(frontier0, j) {
                        let k = choose|k: int| 0 <= k < frontier0.len() && frontier0[k] as int == j;
                        assert(frontier@[k] as int == j);
                    }
                    if in_f(frontier@, j) {
                        let k = choose|k: int|
                            0 <= k < frontier@.len() && frontier@[k] as int == j;
                        assert(k < frontier0.len());
                        assert(frontier0[k] as int == j);
                    }
                }
            }
        }
        i = i + 1;
    }

    let mut result: Vec<SourcedPackage> = Vec::new();
    let ghost mut done: Seq<int> = Seq::empty();

    proof {
        assert(forall|j: int|
            0 <= j < n && visited@[j] ==> #[trigger] reachable(views, j)) by {
            assert forall|j: int| 0 <= j < n && visited@[j] implies #[trigger] reachable(
                views,
                j,
            ) by {
                assert(views[j].source == PkgSource::Local);
                assert(reach(views, j, 0));
            }
        }
    }

    while frontier.len() > 0
        invariant
            visited@.len() == n,
            forall|k: int| 0 <= k < frontier@.len() ==> (frontier@[k] as int) < n,
            forall|k1: int, k2: int|
                0 <= k1 < k2 < frontier@.len() ==> frontier@[k1] != frontier@[k2],
            forall|k: int| 0 <= k < done.len() ==> 0 <= #[trigger] done[k] < n,
            forall|k1: int, k2: int| 0 <= k1 < k2 < done.len() ==> done[k1] != done[k2],
            forall|k: int| 0 <= k < frontier@.len() ==> !done.contains(frontier@[k] as int),
            result@.len() == done.len(),
            forall|k: int| #![trigger done[k]] 0 <= k < done.len() ==> result@[k]@ == views[done[k]],
            forall|j: int|
                0 <= j < n ==> (visited@[j] <==> (done.contains(j) || in_f(frontier@, j))),
            forall|j: int| 0 <= j < n && visited@[j] ==> #[trigger] reachable(views, j),
            forall|j: int|
                0 <= j < n && views[j].source == PkgSource::Local ==> visited@[j],
            forall|ki: int, j2: int|
                0 <= ki < done.len() && 0 <= j2 < n && nondev_match(
                    views[done[ki]].package,
                    views[j2].package,
                ) ==> visited@[j2],
        decreases count_false_upto(visited@, n as int) + frontier@.len(),
    {
        let ghost visited0 = visited@;
        let ghost frontier_snap = frontier@;
        let ghost done0 = done;

        // Collect the deduplicated working set of requirement keys from
        // every Normal/Build edge of the frontier.
        let mut deps: Vec<Dep> = Vec::new();
        let mut fi: usize = 0;
        while fi < frontier.len()
            invariant
                fi <= frontier@.len(),
                frontier@ == frontier_snap,
                visited@ == visited0,
                done == done0,
                forall|dk: int|
                    0 <= dk < deps@.len() ==> frontier_has_key(
                        views,
                        frontier@,
                        deps@[dk].name@,
                        deps@[dk].req@,
                    ),
                forall|k: int, e: int|
                    0 <= k < fi && 0 <= e < views[frontier@[k] as int].package.dependencies.len()
                        && views[frontier@[k] as int].package.dependencies[e].kind
                        != DepKind::Development ==> key_in_deps(
                        deps@,
                        views[frontier@[k] as int].package.dependencies[e].name,
                        views[frontier@[k] as int].package.dependencies[e].req,
                    ),
            decreases frontier@.len() - fi,
        {
            let idx: usize = frontier[fi];
            let ndeps = s[idx].package.dependencies.len();
            proof {
                assert(views[idx as int] == s@[idx as int]@);
                assert(views[idx as int].package.dependencies.len() == ndeps);
            }
            let mut e: usize = 0;
            while e < ndeps
                invariant
                    e <= ndeps,
                    idx == frontier@[fi as int],
                    fi < frontier@.len(),
                    frontier@ == frontier_snap,
                    visited@ == visited0,
                    done == done0,
                    ndeps == views[idx as int].package.dependencies.len(),
                    forall|dk: int|
                        0 <= dk < deps@.len() ==> frontier_has_key(
                            views,
                            frontier@,
                            deps@[dk].name@,
                            deps@[dk].req@,
                        ),
                    forall|k: int, e2: int|
                        0 <= k < fi && 0 <= e2 < views[frontier@[
                            k] as int].package.dependencies.len() && views[frontier@[
                            k] as int].package.dependencies[e2].kind != DepKind::Development
                            ==> key_in_deps(
                            deps@,
                            views[frontier@[k] as int].package.dependencies[e2].name,
                            views[frontier@[k] as int].package.dependencies[e2].req,
                        ),
                    forall|e2: int|
                        0 <= e2 < e && views[idx as int].package.dependencies[e2].kind
                            != DepKind::Development ==> key_in_deps(
                            deps@,
                            views[idx as int].package.dependencies[e2].name,
                            views[idx as int].package.dependencies[e2].req,
                        ),
                decreases ndeps - e,
            {
                let d = &s[idx].package.dependencies[e];
                proof {
                    assert(views[idx as int].package.dependencies[e as int] == d@);
                }
                if !(d.kind == DepKind::Development) {
                    if !deps_contains(&deps, &d.name, &d.req) {
                        let ghost deps0 = deps@;
                        deps.push(Dep::from_dependency(d));
                        proof {
                            assert(frontier_has_key(views, frontier@, d.name@, d.req@)) by {
                                assert(0 <= fi < frontier@.len());
                                assert(views[frontier@[fi as int] as int] == views[idx as int]);
                                assert(0 <= e < views[frontier@[
                                    fi as int] as int].package.dependencies.len());
                                assert(views[frontier@[fi as int] as int].package.dependencies[
                                    e as int].kind != DepKind::Development);
                                assert(views[frontier@[fi as int] as int].package.dependencies[
                                    e as int].name == d.name@);
                                assert(views[frontier@[fi as int] as int].package.dependencies[
                                    e as int].req == d.req@);
                            }
                            assert(forall|dk: int|
                                0 <= dk < deps0.len() ==> deps@[dk] == deps0[dk]);
                            assert(deps@[deps0.len() as int].name@ == d.name@);
                            assert(deps@[deps0.len() as int].req@ == d.req@);
                        }
                    }
                    assert(key_in_deps(deps@, d.name@, d.req@));
                }
                e = e + 1;
            }
            fi = fi + 1;
        }

        // Move the frontier into the result, keeping each package's
        // classification.
        let ghost result_len0 = result@.len() as int;
        let mut fi: usize = 0;
        while fi < frontier.len()
            invariant
                fi <= frontier@.len(),
                frontier@ == frontier_snap,
                visited@ == visited0,
                done == done0,
                result@.len() == result_len0 + fi,
                forall|k: int| 0 <= k < result_len0 ==> result@[k]@ == views[done[k]],
                forall|k: int|
                    0 <= k < fi ==> result@[result_len0 + k]@ == views[frontier@[k] as int],
            decreases frontier@.len() - fi,
        {
            let idx: usize = frontier[fi];
            result.push(s[idx].duplicate());
            proof {
                assert(s@[idx as int]@ == views[idx as int]);
            }
            fi = fi + 1;
        }
        proof {
            done = done + frontier@.map_values(|u: usize| u as int);
            assert(forall|k: int|
                0 <= k < frontier@.len() ==> done[done0.len() + k] == frontier@[k] as int);
            assert(forall|k: int| 0 <= k < done0.len() ==> done[k] == done0[k]);
            assert(forall|j: int|
                done.contains(j) <==> (done0.contains(j) || in_f(frontier@, j))) by {
                assert forall|j: int| done.contains(j) implies (done0.contains(j) || in_f(
                    frontier@,
                    j,
                )) by {
                    let k = choose|k: int| 0 <= k < done.len() && done[k] == j;
                    if k < done0.len() {
                        assert(done0[k] == j);
                    } else {
                        assert(frontier@[k - done0.len()] as int == j);
                    }
                }
                assert forall|j: int| (done0.contains(j) || in_f(frontier@, j)) implies done
                    .contains(j) by {
                    if done0.contains(j) {
                        let k = choose|k: int| 0 <= k < done0.len() && done0[k] == j;
                        assert(done[k] == j);
                    } else {
                        let k = choose|k: int|
                            0 <= k < frontier@.len() && frontier@[k] as int == j;
                        assert(done[done0.len() + k] == j);
                    }
                }
            }
        }

        // Scan the unvisited pool for packages admitted by some key of
        // the working set: they form the next frontier.
        let mut new_frontier: Vec<usize> = Vec::new();
        let mut j: usize = 0;
        while j < n
            invariant
                j <= n,
                visited@.len() == n,
                forall|k: int| 0 <= k < new_frontier@.len() ==> (new_frontier@[k] as int) < j,
                forall|k1: int, k2: int|
                    0 <= k1 < k2 < new_frontier@.len() ==> new_frontier@[k1] != new_frontier@[k2],
                forall|j2: int|
                    0 <= j2 < n ==> (visited@[j2] <==> (visited0[j2] || in_f(new_frontier@, j2))),
                forall|k: int|
                    0 <= k < new_frontier@.len() ==> !visited0[new_frontier@[k] as int],
                forall|k: int| #![trigger new_frontier@[k]]
                    0 <= k < new_frontier@.len() ==> exists|dk: int|
                        0 <= dk < deps@.len() && #[trigger] dep_matches_pkg(
                            deps@[dk].name@,
                            deps@[dk].req@,
                            views[new_frontier@[k] as int].package,
                        ),
                forall|j2: int| #![trigger views[j2]]
                    0 <= j2 < j && (exists|dk: int|
                        0 <= dk < deps@.len() && #[trigger] dep_matches_pkg(
                            deps@[dk].name@,
                            deps@[dk].req@,
                            views[j2].package,
                        )) ==> visited@[j2],
                count_false_upto(visited@, n as int) + new_frontier@.len() == count_false_upto(
                    visited0,
                    n as int,
                ),
            decreases n - j,
        {
            let take = if visited[j] {
                false
            } else {
                matches_any(&deps, &s[j].package)
            };
            if take {
                let ghost visited_pre = visited@;
                let ghost nf0 = new_frontier@;
                visited[j] = true;
                new_frontier.push(j);
                proof {
                    assert(s@[j as int]@ == views[j as int]);
                    lemma_count_false_update(visited_pre, j as int, n as int);
                    assert(in_f(new_frontier@, j as int)) by {
                        assert(new_frontier@[nf0.len() as int] as int == j as int);
                    }
                    assert forall|j2: int| 0 <= j2 < n && j2 != j implies (in_f(nf0, j2) <==> in_f(
                        new_frontier@,
                        j2,
                    )) by {
                        if in_f(nf0, j2) {
                            let k = choose|k: int| 0 <= k < nf0.len() && nf0[k] as int == j2;
                            assert(new_frontier@[k] as int == j2);
                        }
                        if in_f(new_frontier@, j2) {
                            let k = choose|k: int|
                                0 <= k < new_frontier@.len() && new_frontier@[k] as int == j2;
                            assert(k < nf0.len());
                            assert(nf0[k] as int == j2);
                        }
                    }
                }
            }
            j = j + 1;
        }

        proof {
            // Soundness: every newly visited package took one matching
            // step from a frontier package, which was reachable.
            assert forall|j2: int| 0 <= j2 < n && visited@[j2] implies #[trigger] reachable(
                views,
                j2,
            ) by {
                if !visited0[j2] {
                    assert(in_f(new_frontier@, j2));
                    let kk = choose|kk: int|
                        0 <= kk < new_frontier@.len() && new_frontier@[kk] as int == j2;
                    assert(views[new_frontier@[kk] as int] == views[j2]);
                    let dk = choose|dk: int|
                        0 <= dk < deps@.len() && dep_matches_pkg(
                            deps@[dk].name@,
                            deps@[dk].req@,
                            views[j2].package,
                        );
                    assert(frontier_has_key(views, frontier_snap, deps@[dk].name@, deps@[dk].req@));
                    let (k, e) = choose|k: int, e: int|
                        0 <= k < frontier_snap.len() && 0 <= e < views[frontier_snap[
                            k] as int].package.dependencies.len() && views[frontier_snap[
                            k] as int].package.dependencies[e].kind != DepKind::Development
                            && views[frontier_snap[k] as int].package.dependencies[e].name
                            == deps@[dk].name@ && views[frontier_snap[
                            k] as int].package.dependencies[e].req == deps@[dk].req@;
                    let i0 = frontier_snap[k] as int;
                    assert(nondev_match(views[i0].package, views[j2].package));
                    assert(visited0[i0]);
                    lemma_step_reachable(views, i0, j2);
                }
            }
            // Closure: every Normal/Build match out of a package now in
            // the result lands on a visited package.
            assert forall|ki: int, j2: int|
                0 <= ki < done.len() && 0 <= j2 < n && nondev_match(
                    views[done[ki]].package,
                    views[j2].package,
                ) implies visited@[j2] by {
                if ki < done0.len() {
                    assert(visited0[j2]);
                } else {
                    let i0 = done[ki];
                    assert(i0 == frontier_snap[ki - done0.len()] as int);
                    let e = choose|e: int|
                        0 <= e < views[i0].package.dependencies.len()
                            && views[i0].package.dependencies[e].kind != DepKind::Development
                            && dep_matches_pkg(
                            views[i0].package.dependencies[e].name,
                            views[i0].package.dependencies[e].req,
                            views[j2].package,
                        );
                    assert(key_in_deps(
                        deps@,
                        views[i0].package.dependencies[e].name,
                        views[i0].package.dependencies[e].req,
                    ));
                    let dk = choose|dk: int|
                        0 <= dk < deps@.len() && deps@[dk].name@ == views[
                            i0].package.dependencies[e].name && deps@[dk].req@ == views[
                            i0].package.dependencies[e].req;
                    assert(dep_matches_pkg(deps@[dk].name@, deps@[dk].req@, views[j2].package));
                }
            }
            // The marked set is exactly what was taken plus the new
            // frontier.
            assert forall|j2: int| 0 <= j2 < n implies (visited@[j2] <==> (done.contains(j2)
                || in_f(new_frontier@, j2))) by {
                assert(visited@[j2] <==> (visited0[j2] || in_f(new_frontier@, j2)));
                assert(visited0[j2] <==> (done0.contains(j2) || in_f(frontier_snap, j2)));
                assert(done.contains(j2) <==> (done0.contains(j2) || in_f(frontier_snap, j2)));
            }
            // Marks only grow, so the Local packages stay marked.
            assert forall|j2: int|
                0 <= j2 < n && views[j2].source == PkgSource::Local implies visited@[j2] by {
                assert(visited0[j2]);
            }
            // The new frontier is disjoint from what was taken.
            assert forall|k: int| 0 <= k < new_frontier@.len() implies !done.contains(
                new_frontier@[k] as int,
            ) by {
                if done.contains(new_frontier@[k] as int) {
                    assert(visited0[new_frontier@[k] as int]);
                }
            }
        }
        frontier = new_frontier;
    }

    proof {
        let rv = views_of(result@);
        assert(rv.len() == result@.len());
        assert(frontier@.len() == 0);
        assert forall|j: int| 0 <= j < n implies (visited@[j] <==> done.contains(j)) by {
            assert(!in_f(frontier@, j));
        }
        assert forall|j: int| 0 <= j < n && reachable(views, j) implies rv.contains(
            views[j],
        ) by {
            let nn = choose|nn: nat| reach(views, j, nn);
            lemma_reach_visited(views, visited@, done, j, nn);
            assert(done.contains(j));
            let k = choose|k: int| 0 <= k < done.len() && done[k] == j;
            assert(result@[k]@ == views[done[k]]);
            assert(rv[k] == result@[k]@);
            assert(rv[k] == views[j]);
        }
        assert forall|k: int| #![trigger rv[k]] 0 <= k < rv.len() implies reachable_element(
            views,
            rv[k],
        ) by {
            let jj = done[k];
            assert(0 <= jj < n);
            assert(done.contains(jj)) by {
                assert(0 <= k < done.len() && done[k] == jj);
            }
            assert(visited@[jj]);
            assert(reachable(views, jj));
            assert(rv[k] == views[jj]);
        }
        assert(forall|k1: int, k2: int|
            0 <= k1 < k2 < rv.len() ==> rv[k1].package.id != rv[k2].package.id) by {
            assert forall|k1: int, k2: int| 0 <= k1 < k2 < rv.len() implies rv[k1].package.id
                != rv[k2].package.id by {
                let j1 = done[k1];
                let j2 = done[k2];
                assert(j1 != j2);
                assert(views[j1].package.id != views[j2].package.id);
            }
        }
        assert(filter_post(views, rv));
    }
    result
}

/// The classified dependency list of a graph: every package paired with
/// its classification; where `no_dev` is set, narrowed to the packages
/// reachable from Local ones via Normal/Build edges.
pub fn sourced_dependencies(g: &PackageGraph, no_dev: bool) -> (r: Vec<SourcedPackage>)
    requires
        graph_wf(g@),
    ensures
        !no_dev ==> views_of(r@) == classified(g@),
        no_dev ==> filter_post(classified(g@), views_of(r@)),
{
    let c = classify(g);
    if no_dev {
        proof {
            assert(sourced_ids_distinct(views_of(c@)));
        }
        extract_non_dev_dependencies(&c)
    } else {
        c
    }
}

} // verus!
