//! Laws of the classifier and the filter, proved from their contracts.
use vstd::prelude::*;
use crate::classify::classification;
use crate::classify::classified;
use crate::filter::filter_post;
use crate::filter::nondev_match;
use crate::filter::reach;
use crate::filter::reachable;
use crate::filter::reachable_element;
use crate::graph::PackageGraphView;
use crate::graph::PkgSource;
use crate::graph::SourcedPackageView;
use crate::graph::graph_wf;
use crate::graph::is_member;
use crate::graph::sourced_ids_distinct;

verus! {

/// Totality: in a well-formed graph, every identifier present in the
/// graph occurs at exactly one position of the classified sequence, so
/// it receives exactly one classification.
pub proof fn lemma_classification_total(g: PackageGraphView, id: Seq<char>)
    requires
        graph_wf(g),
        exists|i: int| #![trigger g.packages[i]] 0 <= i < g.packages.len() && g.packages[i].id == id,
    ensures
        exists|i: int| #![trigger classified(g)[i]]
            0 <= i < classified(g).len() && classified(g)[i].package.id == id,
        forall|i: int, j: int|
            0 <= i < classified(g).len() && 0 <= j < classified(g).len() && classified(
                g,
            )[i].package.id == id && classified(g)[j].package.id == id ==> i == j,
{
    let i = choose|i: int| #![trigger g.packages[i]]
        0 <= i < g.packages.len() && g.packages[i].id == id;
    assert(classified(g)[i].package.id == id);
    assert forall|i1: int, j1: int|
        0 <= i1 < classified(g).len() && 0 <= j1 < classified(g).len() && classified(
            g,
        )[i1].package.id == id && classified(g)[j1].package.id == id implies i1 == j1 by {
        assert(classified(g)[i1].package == g.packages[i1]);
        assert(classified(g)[j1].package == g.packages[j1]);
    }
}

/// Local precedence: a workspace member is classified Local whatever
/// its origin locator says.
pub proof fn lemma_local_precedence(g: PackageGraphView, i: int)
    requires
        0 <= i < g.packages.len(),
        is_member(g.workspace_members, g.packages[i].id),
    ensures
        classification(g, i) == PkgSource::Local,
        classified(g)[i].source == PkgSource::Local,
{
}

/// Filter subset: the filtered sequence holds only elements of the
/// input, and holds every Local element of the input.
pub proof fn lemma_filter_subset_and_locals(s: Seq<SourcedPackageView>, r: Seq<SourcedPackageView>)
    requires
        filter_post(s, r),
    ensures
        forall|k: int| #![trigger r[k]] 0 <= k < r.len() ==> s.contains(r[k]),
        forall|j: int| #![trigger s[j]]
            0 <= j < s.len() && s[j].source == PkgSource::Local ==> r.contains(s[j]),
{
    assert forall|k: int| 0 <= k < r.len() implies s.contains(#[trigger] r[k]) by {
        assert(reachable_element(s, r[k]));
        let j = choose|j: int| #![trigger s[j]] 0 <= j < s.len() && reachable(s, j) && r[k] == s[j];
        assert(s[j] == r[k]);
    }
    assert forall|j: int|
        0 <= j < s.len() && #[trigger] s[j].source == PkgSource::Local implies r.contains(
        s[j],
    ) by {
        assert(reach(s, j, 0));
        assert(reachable(s, j));
    }
}

/// A step of the filter's matching relation carries a reachability
/// derivation from the input over to the filtered sequence.
proof fn lemma_reach_transfer(
    s: Seq<SourcedPackageView>,
    r: Seq<SourcedPackageView>,
    j: int,
    n: nat,
)
    requires
        filter_post(s, r),
        reach(s, j, n),
    ensures
        exists|k: int| #![trigger r[k]] 0 <= k < r.len() && r[k] == s[j] && reach(r, k, n),
    decreases n,
{
    assert(reachable(s, j));
    assert(r.contains(s[j]));
    let k = choose|k: int| 0 <= k < r.len() && r[k] == s[j];
    if s[j].source == PkgSource::Local {
        assert(reach(r, k, 0));
        if n > 0 {
            assert(reach(r, k, n));
        }
    } else {
        let i = choose|i: int|
            0 <= i < s.len() && reach(s, i, (n - 1) as nat) && nondev_match(
                s[i].package,
                s[j].package,
            );
        lemma_reach_transfer(s, r, i, (n - 1) as nat);
        let ki = choose|ki: int| #![trigger r[ki]]
            0 <= ki < r.len() && r[ki] == s[i] && reach(r, ki, (n - 1) as nat);
        assert(nondev_match(r[ki].package, r[k].package));
        assert(reach(r, k, n));
    }
}

/// Fixpoint idempotence: filtering a filtered sequence changes nothing
/// — the two hold the same elements.
pub proof fn lemma_filter_idempotent(
    s: Seq<SourcedPackageView>,
    r: Seq<SourcedPackageView>,
    r2: Seq<SourcedPackageView>,
)
    requires
        filter_post(s, r),
        filter_post(r, r2),
    ensures
        forall|x: SourcedPackageView| r2.contains(x) <==> r.contains(x),
{
    assert forall|x: SourcedPackageView| r2.contains(x) <==> r.contains(x) by {
        if r2.contains(x) {
            let k = choose|k: int| 0 <= k < r2.len() && r2[k] == x;
            assert(reachable_element(r, r2[k]));
            let j = choose|j: int| #![trigger r[j]]
                0 <= j < r.len() && reachable(r, j) && r2[k] == r[j];
            assert(r[j] == x);
            assert(r.contains(x));
        }
        if r.contains(x) {
            let k = choose|k: int| 0 <= k < r.len() && r[k] == x;
            assert(reachable_element(s, r[k]));
            let j = choose|j: int| #![trigger s[j]]
                0 <= j < s.len() && reachable(s, j) && r[k] == s[j];
            let nn = choose|nn: nat| reach(s, j, nn);
            lemma_reach_transfer(s, r, j, nn);
            let kk = choose|kk: int| #![trigger r[kk]]
                0 <= kk < r.len() && r[kk] == s[j] && reach(r, kk, nn);
            assert(reachable(r, kk));
            assert(r2.contains(r[kk]));
            assert(r[kk] == x);
        }
    }
}

/// Dev-edge isolation: a package with no Normal/Build path from a Local
/// package — for instance one referred to only by Development edges —
/// is absent from the filtered sequence.
pub proof fn lemma_unreachable_excluded(
    s: Seq<SourcedPackageView>,
    r: Seq<SourcedPackageView>,
    j: int,
)
    requires
        sourced_ids_distinct(s),
        filter_post(s, r),
        0 <= j < s.len(),
        !reachable(s, j),
    ensures
        forall|k: int| #![trigger r[k]] 0 <= k < r.len() ==> r[k].package.id != s[j].package.id,
{
    assert forall|k: int| 0 <= k < r.len() implies #[trigger] r[k].package.id
        != s[j].package.id by {
        assert(reachable_element(s, r[k]));
        let j2 = choose|j2: int| #![trigger s[j2]]
            0 <= j2 < s.len() && reachable(s, j2) && r[k] == s[j2];
        assert(j2 != j);
        if j2 < j {
            assert(s[j2].package.id != s[j].package.id);
        } else {
            assert(s[j].package.id != s[j2].package.id);
        }
    }
}

} // verus!
