//! The source classifier: a total provenance mapping over a graph.
use vstd::prelude::*;
use crate::graph::PackageGraph;
use crate::graph::PackageGraphView;
use crate::graph::PkgSource;
use crate::graph::SourcedPackage;
use crate::graph::SourcedPackageView;
use crate::graph::is_member;
use crate::graph::views_of;
use crate::strcmp::string_eq;

verus! {

/// The origin locator that identifies the crates.io registry.
pub open spec fn crates_io_origin() -> Seq<char> {
    "registry+https://github.com/rust-lang/crates.io-index"@
}

/// Whether an origin locator identifies the crates.io registry.
pub open spec fn origin_is_crates_io(origin: Option<Seq<char>>) -> bool {
    match origin {
        Some(o) => o == crates_io_origin(),
        None => false,
    }
}

/// The classification of the package at index `i`: every package is
/// Foreign, unless its origin locator identifies crates.io (then
/// Registry), unless its identifier is a workspace member (then Local —
/// the override with final precedence).
pub open spec fn classification(g: PackageGraphView, i: int) -> PkgSource {
    if is_member(g.workspace_members, g.packages[i].id) {
        PkgSource::Local
    } else if origin_is_crates_io(g.packages[i].origin) {
        PkgSource::CratesIo
    } else {
        PkgSource::Foreign
    }
}

/// The whole classified graph: each package paired with its
/// classification.
pub open spec fn classified(g: PackageGraphView) -> Seq<SourcedPackageView> {
    Seq::new(
        g.packages.len(),
        |i: int|
            SourcedPackageView { source: classification(g, i), package: g.packages[i] },
    )
}

/// Whether `id` is one of the workspace member identifiers.
fn id_is_member(members: &Vec<String>, id: &String) -> (r: bool)
    ensures
        r == is_member(members@.map_values(|m: String| m@), id@),
{
    let ghost views = members@.map_values(|m: String| m@);
    let mut k: usize = 0;
    while k < members.len()
        invariant
            k <= members.len(),
            views == members@.map_values(|m: String| m@),
            forall|j: int| 0 <= j < k ==> views[j] != id@,
        decreases members.len() - k,
    {
        if string_eq(&members[k], id) {
            assert(views[k as int] == id@);
            return true;
        }
        k = k + 1;
    }
    false
}

/// Whether the package's recorded origin identifies crates.io.
/// Mirrors what cargo_metadata's `Source::is_crates_io` answers: its
/// whole behaviour is equality of the locator with one fixed string.
fn origin_matches_crates_io(origin: &Option<String>) -> (r: bool)
    ensures
        r == origin_is_crates_io(
            match *origin {
                Some(o) => Some(o@),
                None => None,
            },
        ),
{
    let lit: String = "registry+https://github.com/rust-lang/crates.io-index".to_owned();
    match origin {
        Some(o) => string_eq(o, &lit),
        None => false,
    }
}

/// The source classifier: pairs every package of the graph with exactly
/// one classification — Local for workspace members regardless of their
/// origin locator, Registry for packages whose origin identifies
/// crates.io, Foreign otherwise.
pub fn classify(g: &PackageGraph) -> (r: Vec<SourcedPackage>)
    ensures
        views_of(r@) == classified(g@),
{
    let mut r: Vec<SourcedPackage> = Vec::new();
    let mut i: usize = 0;
    while i < g.packages.len()
        invariant
            i <= g.packages.len(),
            r@.len() == i,
            forall|k: int| 0 <= k < i ==> #[trigger] r@[k]@ == classified(g@)[k],
        decreases g.packages.len() - i,
    {
        let p = &g.packages[i];
        let source: PkgSource = if id_is_member(&g.workspace_members, &p.id) {
            PkgSource::Local
        } else if origin_matches_crates_io(&p.origin) {
            PkgSource::CratesIo
        } else {
            PkgSource::Foreign
        };
        let sp = SourcedPackage { source, package: p.duplicate() };
        proof {
            assert(g@.packages[i as int] == g.packages@.map_values(|q: crate::graph::Package| q@)[i as int]);
            assert(sp@ =~= classified(g@)[i as int]);
        }
        r.push(sp);
        i = i + 1;
    }
    proof {
        assert(views_of(r@) =~= classified(g@));
    }
    r
}

} // verus!
