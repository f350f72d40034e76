//! The capability that a custom resource type offers.

use crate::descriptor::ResourceDescriptor;
use vstd::prelude::*;

verus! {

/// What a custom resource type declares of itself.
pub trait CustomResourceExt {
    /// The descriptor of the resource, with its schema.
    fn crd() -> ResourceDescriptor;

    /// The name under which the descriptor itself is registered. This is not
    /// the name of an instance of the resource.
    fn crd_name() -> &'static str;

    /// The short names that the resource type declares.
    fn shortnames() -> &'static [&'static str];
}

} // verus!
