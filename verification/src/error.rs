//! Why a merge can fail.

use vstd::prelude::*;

verus! {

/// The reasons for which descriptors cannot be merged.
#[derive(Debug, PartialEq, Eq)]
pub enum CrdError {
    /// No descriptor was given.
    NoDescriptors,
    /// The version that was asked to be served is not among the merged
    /// versions. The merge does not read the served selector, so it never
    /// reports this.
    MissingServedApi(String),
    /// The version that was asked for as root is declared by no descriptor.
    MissingRootVersion(String),
    /// Some descriptor does not carry exactly one version.
    TooManyVersions,
    /// Some descriptor has another API group than the root.
    ApiGroupMismatch,
    /// Some descriptor has another kind than the root.
    KindMismatch,
}

/// What a [`CrdError`] is in contracts.
pub enum CrdErrorView {
    NoDescriptors,
    MissingServedApi(Seq<char>),
    MissingRootVersion(Seq<char>),
    TooManyVersions,
    ApiGroupMismatch,
    KindMismatch,
}

impl View for CrdError {
    type V = CrdErrorView;

    open spec fn view(&self) -> CrdErrorView {
        match self {
            CrdError::NoDescriptors => CrdErrorView::NoDescriptors,
            CrdError::MissingServedApi(name) => CrdErrorView::MissingServedApi(name@),
            CrdError::MissingRootVersion(name) => CrdErrorView::MissingRootVersion(name@),
            CrdError::TooManyVersions => CrdErrorView::TooManyVersions,
            CrdError::ApiGroupMismatch => CrdErrorView::ApiGroupMismatch,
            CrdError::KindMismatch => CrdErrorView::KindMismatch,
        }
    }
}

} // verus!
