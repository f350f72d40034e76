//! Merging of single-version custom-resource descriptors into one
//! multi-version descriptor.
//!
//! Several descriptors that declare the same API group and resource kind,
//! each carrying exactly one schema version, are folded into a single
//! descriptor that lists every contributed version, with the version chosen
//! as root first. Every function is proved against the mathematical model in
//! [`model`], and the general properties of the merge are proved in [`laws`].

pub mod descriptor;
pub mod error;
pub mod laws;
pub mod merger;
pub mod model;
pub mod resource;

pub use descriptor::{ResourceDescriptor, VersionedSchema};
pub use error::CrdError;
pub use merger::CrdMerger;
pub use resource::CustomResourceExt;
