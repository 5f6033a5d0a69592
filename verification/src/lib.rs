pub mod classify;
pub mod filter;
pub mod graph;
pub mod laws;
pub mod names;
pub mod reqs;
pub mod strcmp;

pub use graph::DepKind;
pub use graph::Dependency;
pub use graph::Package;
pub use graph::PackageGraph;
pub use graph::PkgSource;
pub use graph::SourcedPackage;
