//! The merge request and the merge itself.

use crate::descriptor::{
    descriptor_views, version_views, ResourceDescriptor, ResourceDescriptorView, VersionedSchema,
    VersionedSchemaView,
};
use crate::error::{CrdError, CrdErrorView};
use crate::model::{
    agrees, all_agree, all_single_version, consolidated, declares, first_disagreeing,
    is_first_declaring, is_first_disagreeing, lemma_first_disagreeing, lemma_root_position,
    merge_outcome, named_otherwise, sole_name, sole_version, sole_versions, CrdMergerView,
};
use vstd::prelude::*;

verus! {

/// A request to merge single-version descriptors of one resource kind into
/// one descriptor that carries all their versions.
pub struct CrdMerger {
    crds: Vec<ResourceDescriptor>,
    served: Option<String>,
    root: Option<String>,
}

/// What an optional name is in contracts.
pub open spec fn name_view(name: Option<String>) -> Option<Seq<char>> {
    match name {
        Some(s) => Some(s@),
        None => None,
    }
}

impl View for CrdMerger {
    type V = CrdMergerView;

    closed spec fn view(&self) -> CrdMergerView {
        CrdMergerView {
            crds: descriptor_views(self.crds@),
            served: name_view(self.served),
            root: name_view(self.root),
        }
    }
}

/// Whether every descriptor carries exactly one version.
fn check_single_versions(crds: &Vec<ResourceDescriptor>) -> (ok: bool)
    ensures
        ok == all_single_version(descriptor_views(crds@)),
{
    let mut i: usize = 0;
    while i < crds.len()
        invariant
            i <= crds.len(),
            forall|j: int|
                0 <= j < i ==> (#[trigger] descriptor_views(crds@)[j]).versions.len() == 1,
        decreases crds.len() - i,
    {
        if crds[i].versions.len() != 1 {
            assert(descriptor_views(crds@)[i as int].versions.len() != 1);
            return false;
        }
        i += 1;
    }
    true
}

/// The position of the first descriptor that declares the version `name`.
fn find_declaring(crds: &Vec<ResourceDescriptor>, name: &String) -> (found: Option<usize>)
    requires
        all_single_version(descriptor_views(crds@)),
    ensures
        found is Some <==> declares(descriptor_views(crds@), name@),
        found is Some ==> is_first_declaring(descriptor_views(crds@), name@, found->0 as int),
{
    let ghost views = descriptor_views(crds@);
    let mut i: usize = 0;
    while i < crds.len()
        invariant
            i <= crds.len(),
            views == descriptor_views(crds@),
            all_single_version(views),
            forall|j: int| 0 <= j < i ==> sole_name(#[trigger] views[j]) != name@,
        decreases crds.len() - i,
    {
        assert(views[i as int].versions.len() == 1);
        if crds[i].versions[0].name.eq(name) {
            return Some(i);
        }
        i += 1;
    }
    None
}

/// Whether every descriptor has the API group and the kind of the one at
/// position `r`, and if not, which error the first other one gives.
fn check_agreement(crds: &Vec<ResourceDescriptor>, r: usize) -> (res: Result<(), CrdError>)
    requires
        r < crds.len(),
    ensures
        res is Ok <==> all_agree(descriptor_views(crds@), crds@[r as int]@),
        res is Err ==> {
            let views = descriptor_views(crds@);
            let k = first_disagreeing(views, views[r as int]);
            &&& is_first_disagreeing(views, views[r as int], k)
            &&& views[k].group != views[r as int].group ==> res == Err::<(), CrdError>(
                CrdError::ApiGroupMismatch,
            )
            &&& views[k].group == views[r as int].group ==> res == Err::<(), CrdError>(
                CrdError::KindMismatch,
            )
        },
{
    let ghost views = descriptor_views(crds@);
    let ghost root = views[r as int];
    let mut i: usize = 0;
    while i < crds.len()
        invariant
            i <= crds.len(),
            r < crds.len(),
            views == descriptor_views(crds@),
            root == views[r as int],
            forall|j: int| 0 <= j < i ==> agrees(#[trigger] views[j], root),
        decreases crds.len() - i,
    {
        if !crds[i].group.eq(&crds[r].group) {
            proof {
                lemma_first_disagreeing(views, root, i as int);
            }
            return Err(CrdError::ApiGroupMismatch);
        }
        if !crds[i].kind.eq(&crds[r].kind) {
            proof {
                lemma_first_disagreeing(views, root, i as int);
            }
            return Err(CrdError::KindMismatch);
        }
        i += 1;
    }
    Ok(())
}

/// The merged descriptor with the descriptor at position `r` as root.
fn consolidate(crds: &Vec<ResourceDescriptor>, r: usize) -> (out: ResourceDescriptor)
    requires
        r < crds.len(),
        all_single_version(descriptor_views(crds@)),
    ensures
        out@ == consolidated(descriptor_views(crds@), r as int),
{
    let ghost views = descriptor_views(crds@);
    let ghost root_name = sole_name(views[r as int]);
    let ghost keep = named_otherwise(root_name);
    assert(views[r as int].versions.len() == 1);
    let mut versions: Vec<VersionedSchema> = Vec::new();
    versions.push(crds[r].versions[0].clone());
    proof {
        reveal(Seq::filter);
        assert(sole_versions(views).take(0) =~= Seq::<VersionedSchemaView>::empty());
        assert(version_views(versions@) =~= seq![sole_version(views[r as int])]);
    }
    let mut i: usize = 0;
    while i < crds.len()
        invariant
            i <= crds.len(),
            r < crds.len(),
            views == descriptor_views(crds@),
            all_single_version(views),
            root_name == sole_name(views[r as int]),
            keep == named_otherwise(root_name),
            version_views(versions@) == seq![sole_version(views[r as int])]
                + sole_versions(views).take(i as int).filter(keep),
        decreases crds.len() - i,
    {
        assert(views[i as int].versions.len() == 1);
        let ghost before = version_views(versions@);
        let ghost prefix = sole_versions(views).take(i as int);
        let ghost next = sole_versions(views).take(i as int + 1);
        proof {
            reveal(Seq::filter);
            assert(next.drop_last() =~= prefix);
        }
        if !crds[i].versions[0].name.eq(&crds[r].versions[0].name) {
            versions.push(crds[i].versions[0].clone());
            assert(version_views(versions@) =~= before.push(next.last()));
        }
        i += 1;
    }
    assert(sole_versions(views).take(crds.len() as int) =~= sole_versions(views));
    ResourceDescriptor {
        group: crds[r].group.clone(),
        kind: crds[r].kind.clone(),
        metadata: crds[r].metadata.clone(),
        versions,
    }
}

impl CrdMerger {
    /// A request to merge `crds`, with no selector set.
    pub fn new(crds: Vec<ResourceDescriptor>) -> (res: Self)
        ensures
            res@ == (CrdMergerView {
                crds: descriptor_views(crds@),
                served: None,
                root: None,
            }),
    {
        CrdMerger { crds, served: None, root: None }
    }

    /// The same request with `served_apiversion` as the version to be served.
    pub fn served(self, served_apiversion: &str) -> (res: Self)
        ensures
            res@ == (CrdMergerView { served: Some(served_apiversion@), ..self@ }),
    {
        CrdMerger {
            crds: self.crds,
            served: Some(served_apiversion.to_owned()),
            root: self.root,
        }
    }

    /// The same request with `root_apiversion` as the version whose
    /// descriptor becomes the root of the merge.
    pub fn root(self, root_apiversion: &str) -> (res: Self)
        ensures
            res@ == (CrdMergerView { root: Some(root_apiversion@), ..self@ }),
    {
        CrdMerger {
            crds: self.crds,
            served: self.served,
            root: Some(root_apiversion.to_owned()),
        }
    }

    /// Merges the descriptors of the request into one, or says why they
    /// cannot be merged.
    pub fn merge(self) -> (res: Result<ResourceDescriptor, CrdError>)
        ensures
            match res {
                Ok(d) => merge_outcome(self@) == Ok::<ResourceDescriptorView, CrdErrorView>(d@),
                Err(e) => merge_outcome(self@) == Err::<ResourceDescriptorView, CrdErrorView>(e@),
            },
    {
        let ghost views = descriptor_views(self.crds@);
        if self.crds.len() == 0 {
            return Err(CrdError::NoDescriptors);
        }
        if !check_single_versions(&self.crds) {
            return Err(CrdError::TooManyVersions);
        }
        let r: usize = match &self.root {
            Some(name) => match find_declaring(&self.crds, name) {
                None => {
                    return Err(CrdError::MissingRootVersion(name.clone()));
                },
                Some(i) => {
                    proof {
                        lemma_root_position(views, name@, i as int);
                    }
                    i
                },
            },
            None => 0,
        };
        match check_agreement(&self.crds, r) {
            Err(e) => Err(e),
            Ok(()) => Ok(consolidate(&self.crds, r)),
        }
    }
}

} // verus!
