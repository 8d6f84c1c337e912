//! Publication planning for a family of in-tree library crates: computing the
//! dependency closure of a root package in publish order, choosing the next
//! version to publish, and rewriting each crate's manifest so it refers to the
//! published (registry) form of its local dependencies.

pub mod manifest;
pub mod metadata;
pub mod resolver;
pub mod toml_text;
pub mod version;

use vstd::prelude::*;

verus! {

/// The fatal conditions that abort a publication run.
#[derive(Clone, Copy, PartialEq, Eq, Structural, Debug)]
pub enum Error {
    /// The snapshot has no resolve node for a package that is being visited.
    MissingResolveNode,
    /// A dependency id in a resolve node matches no package in the snapshot.
    MissingPackage,
    /// The registry answered the version query with an unexpected status.
    UnexpectedRegistryStatus,
    /// A manifest does not have the expected table-of-tables shape.
    MalformedManifest,
    /// The registry answered the version query successfully but the body
    /// yielded no version.
    MalformedRegistryResponse,
}

} // verus!
