//! The package graph model: packages, dependency edges, and provenance.
use vstd::prelude::*;

verus! {

/// Provenance of a package: built in the local workspace, fetched from
/// the crates.io registry, or of unknown/foreign origin.
#[derive(Debug, Copy, Clone, Eq, PartialEq, Hash, Structural)]
pub enum PkgSource {
    Local,
    CratesIo,
    Foreign,
}

/// Kind of a declared dependency edge.
#[derive(Debug, Copy, Clone, Eq, PartialEq, Hash, Structural)]
pub enum DepKind {
    Normal,
    Build,
    Development,
}

/// A declared dependency edge: the target's name and the version
/// requirement it must satisfy, plus the edge's kind.
#[derive(Debug)]
pub struct Dependency {
    pub name: String,
    pub req: String,
    pub kind: DepKind,
}

/// A package: a unique identifier, a name, a semantic version written
/// out as text, an optional origin locator (absent for local/path
/// packages), and its declared dependency edges.
#[derive(Debug)]
pub struct Package {
    pub id: String,
    pub name: String,
    pub version: String,
    pub origin: Option<String>,
    pub dependencies: Vec<Dependency>,
}

/// A package paired with its provenance classification.
#[derive(Debug)]
pub struct SourcedPackage {
    pub source: PkgSource,
    pub package: Package,
}

/// The whole graph: the packages, and the identifiers of the
/// workspace/local members.
#[derive(Debug)]
pub struct PackageGraph {
    pub packages: Vec<Package>,
    pub workspace_members: Vec<String>,
}

/// Mathematical model of a dependency edge.
#[verifier::ext_equal]
pub struct DepView {
    pub name: Seq<char>,
    pub req: Seq<char>,
    pub kind: DepKind,
}

/// Mathematical model of a package.
#[verifier::ext_equal]
pub struct PackageView {
    pub id: Seq<char>,
    pub name: Seq<char>,
    pub version: Seq<char>,
    pub origin: Option<Seq<char>>,
    pub dependencies: Seq<DepView>,
}

/// Mathematical model of a classified package.
#[verifier::ext_equal]
pub struct SourcedPackageView {
    pub source: PkgSource,
    pub package: PackageView,
}

/// Mathematical model of a graph.
#[verifier::ext_equal]
pub struct PackageGraphView {
    pub packages: Seq<PackageView>,
    pub workspace_members: Seq<Seq<char>>,
}

impl View for Dependency {
    type V = DepView;

    open spec fn view(&self) -> DepView {
        DepView { name: self.name@, req: self.req@, kind: self.kind }
    }
}

impl View for Package {
    type V = PackageView;

    open spec fn view(&self) -> PackageView {
        PackageView {
            id: self.id@,
            name: self.name@,
            version: self.version@,
            origin: match self.origin {
                Some(o) => Some(o@),
                None => None,
            },
            dependencies: self.dependencies@.map_values(|d: Dependency| d@),
        }
    }
}

impl View for SourcedPackage {
    type V = SourcedPackageView;

    open spec fn view(&self) -> SourcedPackageView {
        SourcedPackageView { source: self.source, package: self.package@ }
    }
}

impl View for PackageGraph {
    type V = PackageGraphView;

    open spec fn view(&self) -> PackageGraphView {
        PackageGraphView {
            packages: self.packages@.map_values(|p: Package| p@),
            workspace_members: self.workspace_members@.map_values(|m: String| m@),
        }
    }
}

/// The models of a sequence of classified packages.
pub open spec fn views_of(s: Seq<SourcedPackage>) -> Seq<SourcedPackageView> {
    s.map_values(|x: SourcedPackage| x@)
}

/// No two packages share an identifier.
pub open spec fn ids_distinct(ps: Seq<PackageView>) -> bool {
    forall|i: int, j: int| 0 <= i < j < ps.len() ==> ps[i].id != ps[j].id
}

/// Well-formedness of a graph: identifiers are unique keys.
pub open spec fn graph_wf(g: PackageGraphView) -> bool {
    ids_distinct(g.packages)
}

/// No two classified packages share an identifier.
pub open spec fn sourced_ids_distinct(s: Seq<SourcedPackageView>) -> bool {
    forall|i: int, j: int| 0 <= i < j < s.len() ==> s[i].package.id != s[j].package.id
}

/// `id` is one of the workspace member identifiers.
pub open spec fn is_member(members: Seq<Seq<char>>, id: Seq<char>) -> bool {
    exists|k: int| 0 <= k < members.len() && members[k] == id
}

impl Dependency {
    /// An exact copy: the model is unchanged.
    pub fn duplicate(&self) -> (r: Dependency)
        ensures
            r@ == self@,
    {
        let r = Dependency { name: self.name.clone(), req: self.req.clone(), kind: self.kind };
        proof {
            assert(r@ =~= self@);
        }
        r
    }
}

impl Package {
    /// An exact copy: the model is unchanged.
    pub fn duplicate(&self) -> (r: Package)
        ensures
            r@ == self@,
    {
        let mut deps: Vec<Dependency> = Vec::new();
        let mut i: usize = 0;
        while i < self.dependencies.len()
            invariant
                i <= self.dependencies.len(),
                deps@.len() == i,
                forall|k: int| 0 <= k < i ==> deps@[k]@ == self.dependencies@[k]@,
            decreases self.dependencies.len() - i,
        {
            deps.push(self.dependencies[i].duplicate());
            i = i + 1;
        }
        let origin = match &self.origin {
            Some(o) => Some(o.clone()),
            None => None,
        };
        let r = Package {
            id: self.id.clone(),
            name: self.name.clone(),
            version: self.version.clone(),
            origin,
            dependencies: deps,
        };
        proof {
            assert(r@.dependencies =~= self@.dependencies);
            assert(r@ =~= self@);
        }
        r
    }
}

impl SourcedPackage {
    /// An exact copy: the model is unchanged.
    pub fn duplicate(&self) -> (r: SourcedPackage)
        ensures
            r@ == self@,
    {
        SourcedPackage { source: self.source, package: self.package.duplicate() }
    }
}

} // verus!
