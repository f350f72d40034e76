//! The mathematical model of a merge: what each request yields.

use crate::descriptor::{ResourceDescriptorView, VersionedSchemaView};
use crate::error::CrdErrorView;
use vstd::prelude::*;

verus! {

/// What a merge request is in contracts: the descriptors in the order given,
/// and the two optional selectors.
pub struct CrdMergerView {
    pub crds: Seq<ResourceDescriptorView>,
    pub served: Option<Seq<char>>,
    pub root: Option<Seq<char>>,
}

/// The version of a descriptor that carries exactly one.
pub open spec fn sole_version(d: ResourceDescriptorView) -> VersionedSchemaView {
    d.versions[0]
}

/// The version name of a descriptor that carries exactly one version.
pub open spec fn sole_name(d: ResourceDescriptorView) -> Seq<char> {
    d.versions[0].name
}

/// Every descriptor carries exactly one version.
pub open spec fn all_single_version(crds: Seq<ResourceDescriptorView>) -> bool {
    forall|i: int| 0 <= i < crds.len() ==> (#[trigger] crds[i]).versions.len() == 1
}

/// Some descriptor declares the version `name`.
pub open spec fn declares(crds: Seq<ResourceDescriptorView>, name: Seq<char>) -> bool {
    exists|i: int| 0 <= i < crds.len() && sole_name(#[trigger] crds[i]) == name
}

/// `i` is the position of the first descriptor that declares the version
/// `name`.
pub open spec fn is_first_declaring(
    crds: Seq<ResourceDescriptorView>,
    name: Seq<char>,
    i: int,
) -> bool {
    &&& 0 <= i < crds.len()
    &&& sole_name(crds[i]) == name
    &&& forall|j: int| 0 <= j < i ==> sole_name(#[trigger] crds[j]) != name
}

/// The position of the root descriptor: the first one that declares the
/// requested version, or the first one of all where none is requested.
pub open spec fn root_position(crds: Seq<ResourceDescriptorView>, root: Option<Seq<char>>) -> int {
    match root {
        None => 0,
        Some(name) => choose|i: int| is_first_declaring(crds, name, i),
    }
}

/// The descriptor `d` has the API group and the kind of `root`.
pub open spec fn agrees(d: ResourceDescriptorView, root: ResourceDescriptorView) -> bool {
    d.group == root.group && d.kind == root.kind
}

/// Every descriptor has the API group and the kind of `root`.
pub open spec fn all_agree(crds: Seq<ResourceDescriptorView>, root: ResourceDescriptorView) -> bool {
    forall|i: int| 0 <= i < crds.len() ==> agrees(#[trigger] crds[i], root)
}

/// `k` is the position of the first descriptor whose API group or kind is not
/// that of `root`.
pub open spec fn is_first_disagreeing(
    crds: Seq<ResourceDescriptorView>,
    root: ResourceDescriptorView,
    k: int,
) -> bool {
    &&& 0 <= k < crds.len()
    &&& !agrees(crds[k], root)
    &&& forall|j: int| 0 <= j < k ==> agrees(#[trigger] crds[j], root)
}

/// The position of the first descriptor whose API group or kind is not that
/// of `root`.
pub open spec fn first_disagreeing(
    crds: Seq<ResourceDescriptorView>,
    root: ResourceDescriptorView,
) -> int {
    choose|k: int| is_first_disagreeing(crds, root, k)
}

/// The test that keeps the versions whose name is not `name`.
pub open spec fn named_otherwise(name: Seq<char>) -> spec_fn(VersionedSchemaView) -> bool {
    |v: VersionedSchemaView| v.name != name
}

/// The sole version of each descriptor, in the order of the descriptors.
pub open spec fn sole_versions(crds: Seq<ResourceDescriptorView>) -> Seq<VersionedSchemaView> {
    Seq::new(crds.len(), |i: int| sole_version(crds[i]))
}

/// The versions that join the root's: the sole version of each descriptor
/// whose version name is not `root_name`, in the order of the descriptors.
pub open spec fn joining_versions(
    crds: Seq<ResourceDescriptorView>,
    root_name: Seq<char>,
) -> Seq<VersionedSchemaView> {
    sole_versions(crds).filter(named_otherwise(root_name))
}

/// The merged descriptor with the descriptor at position `r` as root: the
/// root's group, kind and metadata, the root's version first, and then every
/// version of another name.
pub open spec fn consolidated(crds: Seq<ResourceDescriptorView>, r: int) -> ResourceDescriptorView {
    ResourceDescriptorView {
        group: crds[r].group,
        kind: crds[r].kind,
        metadata: crds[r].metadata,
        versions: seq![sole_version(crds[r])] + joining_versions(crds, sole_name(crds[r])),
    }
}

/// What a merge request yields. The checks are made in this order, and the
/// first that fails decides: the list is not empty; every descriptor carries
/// exactly one version; a requested root version is declared; every
/// descriptor has the root's API group and kind. Of the descriptors that
/// disagree with the root the first decides the error, its group before its
/// kind. The served selector has no part in it.
pub open spec fn merge_outcome(req: CrdMergerView) -> Result<
    ResourceDescriptorView,
    CrdErrorView,
> {
    if req.crds.len() == 0 {
        Err(CrdErrorView::NoDescriptors)
    } else if !all_single_version(req.crds) {
        Err(CrdErrorView::TooManyVersions)
    } else if req.root is Some && !declares(req.crds, req.root->0) {
        Err(CrdErrorView::MissingRootVersion(req.root->0))
    } else {
        let r = root_position(req.crds, req.root);
        let root = req.crds[r];
        if all_agree(req.crds, root) {
            Ok(consolidated(req.crds, r))
        } else if req.crds[first_disagreeing(req.crds, root)].group != root.group {
            Err(CrdErrorView::ApiGroupMismatch)
        } else {
            Err(CrdErrorView::KindMismatch)
        }
    }
}

/// The names of a sequence of versions, as a set.
pub open spec fn version_names(versions: Seq<VersionedSchemaView>) -> Set<Seq<char>> {
    Set::new(|name: Seq<char>| exists|i: int| 0 <= i < versions.len() && (#[trigger] versions[i]).name == name)
}

/// The first descriptor that declares a version is the one that the model
/// takes as root.
pub proof fn lemma_root_position(crds: Seq<ResourceDescriptorView>, name: Seq<char>, i: int)
    requires
        is_first_declaring(crds, name, i),
    ensures
        root_position(crds, Some(name)) == i,
{
    let c = choose|c: int| is_first_declaring(crds, name, c);
    assert(is_first_declaring(crds, name, c));
    if c < i {
        assert(sole_name(crds[c]) != name);
    }
    if i < c {
        assert(sole_name(crds[i]) != name);
    }
}

/// The first descriptor that disagrees with the root is the one that the
/// model lets decide the error.
pub proof fn lemma_first_disagreeing(
    crds: Seq<ResourceDescriptorView>,
    root: ResourceDescriptorView,
    k: int,
)
    requires
        is_first_disagreeing(crds, root, k),
    ensures
        first_disagreeing(crds, root) == k,
        !all_agree(crds, root),
{
    let c = first_disagreeing(crds, root);
    assert(is_first_disagreeing(crds, root, c));
    if c < k {
        assert(agrees(crds[c], root));
    }
    if k < c {
        assert(agrees(crds[k], root));
    }
}

} // verus!
