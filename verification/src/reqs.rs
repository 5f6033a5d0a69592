//! Best-effort matching of a dependency requirement against a package.
//!
//! A dependency edge carries only a target name and a version-requirement
//! range, not a full identifier, so a requirement is matched against a
//! candidate package by name equality and version-range satisfaction alone.
use vstd::prelude::*;
use crate::graph::Dependency;
use crate::graph::Package;
use crate::graph::PackageView;
use crate::strcmp::string_eq;

verus! {

/// Whether the version written in `version` satisfies the requirement
/// range written in `req`: the relation semver defines between the two
/// strings. It is a function of the two strings alone.
pub uninterp spec fn req_match(req: Seq<char>, version: Seq<char>) -> bool;

/// Whether the requirement (`name`, `req`) admits the package `p`:
/// the names are equal and `p`'s version satisfies the range.
pub open spec fn dep_matches_pkg(name: Seq<char>, req: Seq<char>, p: PackageView) -> bool {
    p.name == name && req_match(req, p.version)
}

/// Relies on semver's `VersionReq::parse`, `Version::parse` and
/// `VersionReq::matches`, reached through `cargo_metadata::semver`:
/// the result says whether the version satisfies the requirement range,
/// and depends on the two strings alone (false where either fails to
/// parse).
#[verifier::external_body]
fn version_req_matches(req: &str, version: &str) -> (r: bool)
    ensures
        r == req_match(req@, version@),
{
    match (
        cargo_metadata::semver::VersionReq::parse(req),
        cargo_metadata::semver::Version::parse(version),
    ) {
        (Ok(rq), Ok(v)) => rq.matches(&v),
        _ => false,
    }
}

/// A requirement key: the (name, version-requirement) pair of a
/// dependency edge, used inside the filter's working set.
#[derive(Debug)]
pub struct Dep {
    pub name: String,
    pub req: String,
}

impl Dep {
    /// The key of a dependency edge: its target name and range.
    pub fn from_dependency(dep: &Dependency) -> (r: Dep)
        ensures
            r.name@ == dep.name@,
            r.req@ == dep.req@,
    {
        Dep { name: dep.name.clone(), req: dep.req.clone() }
    }

    /// Whether this requirement admits the package.
    pub fn matches(&self, pkg: &Package) -> (r: bool)
        ensures
            r == dep_matches_pkg(self.name@, self.req@, pkg@),
    {
        string_eq(&self.name, &pkg.name) && version_req_matches(self.req.as_str(), pkg.version.as_str())
    }
}

} // verus!
