//! General properties of the merge, proved of the model that the merge is
//! held to.

use crate::descriptor::{ResourceDescriptorView, VersionedSchemaView};
use crate::error::CrdErrorView;
use crate::model::{
    agrees, all_agree, all_single_version, consolidated, declares, first_disagreeing,
    is_first_declaring, is_first_disagreeing, joining_versions, lemma_root_position,
    merge_outcome, named_otherwise, root_position, sole_name, sole_versions, version_names,
    CrdMergerView,
};
use vstd::prelude::*;

verus! {

/// Every two descriptors have the same API group and the same kind.
pub open spec fn share_group_and_kind(crds: Seq<ResourceDescriptorView>) -> bool {
    forall|i: int, j: int|
        0 <= i < crds.len() && 0 <= j < crds.len() ==> agrees(#[trigger] crds[i], #[trigger] crds[j])
}

/// No name other than `root_name` is declared by two descriptors.
pub open spec fn other_names_distinct(
    crds: Seq<ResourceDescriptorView>,
    root_name: Seq<char>,
) -> bool {
    forall|i: int, j: int|
        0 <= i < j < crds.len() && sole_name(#[trigger] crds[i]) != root_name ==> sole_name(
            #[trigger] crds[j],
        ) != sole_name(crds[i])
}

/// No two versions have the same name.
pub open spec fn names_distinct(versions: Seq<VersionedSchemaView>) -> bool {
    forall|i: int, j: int|
        0 <= i < j < versions.len() ==> (#[trigger] versions[i]).name != (
        #[trigger] versions[j]).name
}

/// A descriptor of several versions as single-version descriptors, one for
/// each version, in order.
pub open spec fn split(d: ResourceDescriptorView) -> Seq<ResourceDescriptorView> {
    Seq::new(
        d.versions.len(),
        |i: int|
            ResourceDescriptorView {
                group: d.group,
                kind: d.kind,
                metadata: d.metadata,
                versions: seq![d.versions[i]],
            },
    )
}

/// Where some descriptor at or before position `i` declares `name`, one of
/// them is the first to do so.
proof fn lemma_some_first_declaring(crds: Seq<ResourceDescriptorView>, name: Seq<char>, i: int)
    requires
        0 <= i < crds.len(),
        sole_name(crds[i]) == name,
    ensures
        exists|k: int| is_first_declaring(crds, name, k),
    decreases i,
{
    if exists|j: int| 0 <= j < i && sole_name(#[trigger] crds[j]) == name {
        let j = choose|j: int| 0 <= j < i && sole_name(#[trigger] crds[j]) == name;
        lemma_some_first_declaring(crds, name, j);
    } else {
        assert(is_first_declaring(crds, name, i));
    }
}

/// Where some descriptor at or before position `i` disagrees with `root`,
/// one of them is the first to do so.
proof fn lemma_some_first_disagreeing(
    crds: Seq<ResourceDescriptorView>,
    root: ResourceDescriptorView,
    i: int,
)
    requires
        0 <= i < crds.len(),
        !agrees(crds[i], root),
    ensures
        exists|k: int| is_first_disagreeing(crds, root, k),
    decreases i,
{
    if exists|j: int| 0 <= j < i && !agrees(#[trigger] crds[j], root) {
        let j = choose|j: int| 0 <= j < i && !agrees(#[trigger] crds[j], root);
        lemma_some_first_disagreeing(crds, root, j);
    } else {
        assert(is_first_disagreeing(crds, root, i));
    }
}

/// The root of a request that passes the first three checks is one of its
/// descriptors, and where a root version is requested, the first that
/// declares it.
pub proof fn lemma_root_in_range(req: CrdMergerView)
    requires
        req.crds.len() > 0,
        req.root is Some ==> declares(req.crds, req.root->0),
    ensures
        0 <= root_position(req.crds, req.root) < req.crds.len(),
        req.root is Some ==> is_first_declaring(
            req.crds,
            req.root->0,
            root_position(req.crds, req.root),
        ),
{
    if req.root is Some {
        let name = req.root->0;
        let i = choose|i: int| 0 <= i < req.crds.len() && sole_name(#[trigger] req.crds[i]) == name;
        lemma_some_first_declaring(req.crds, name, i);
    }
}

/// The versions that are kept of a sequence are versions of the sequence
/// that pass the test, and each version that passes is kept.
proof fn lemma_kept(versions: Seq<VersionedSchemaView>, name: Seq<char>)
    ensures
        forall|a: int|
            0 <= a < versions.filter(named_otherwise(name)).len() ==> {
                &&& (#[trigger] versions.filter(named_otherwise(name))[a]).name != name
                &&& versions.contains(versions.filter(named_otherwise(name))[a])
            },
        forall|i: int|
            0 <= i < versions.len() && (#[trigger] versions[i]).name != name
                ==> versions.filter(named_otherwise(name)).contains(versions[i]),
{
    let keep = named_otherwise(name);
    let kept = versions.filter(keep);
    assert forall|a: int| 0 <= a < kept.len() implies (#[trigger] kept[a]).name != name
        && versions.contains(kept[a]) by {
        versions.lemma_filter_pred(keep, a);
        assert(kept.contains(kept[a]));
        versions.lemma_filter_contains_rev(keep, kept[a]);
    }
    assert forall|i: int| 0 <= i < versions.len() && (#[trigger] versions[i]).name
        != name implies kept.contains(versions[i]) by {
        assert(keep(versions[i]));
        versions.lemma_filter_contains(keep, i);
    }
}

/// The merged descriptor carries the version names of the descriptors it was
/// merged from, and no others.
pub proof fn lemma_consolidated_names(crds: Seq<ResourceDescriptorView>, r: int)
    requires
        0 <= r < crds.len(),
    ensures
        version_names(consolidated(crds, r).versions) == version_names(sole_versions(crds)),
{
    let all = sole_versions(crds);
    let root_name = sole_name(crds[r]);
    let kept = joining_versions(crds, root_name);
    let out = consolidated(crds, r).versions;
    lemma_kept(all, root_name);
    assert forall|name: Seq<char>| version_names(out).contains(name) implies version_names(
        all,
    ).contains(name) by {
        let a = choose|a: int| 0 <= a < out.len() && (#[trigger] out[a]).name == name;
        if a == 0 {
            assert(all[r].name == name);
        } else {
            assert(out[a] == kept[a - 1]);
            assert(all.contains(kept[a - 1]));
            let i = choose|i: int| 0 <= i < all.len() && all[i] == kept[a - 1];
            assert(all[i].name == name);
        }
    }
    assert forall|name: Seq<char>| version_names(all).contains(name) implies version_names(
        out,
    ).contains(name) by {
        let i = choose|i: int| 0 <= i < all.len() && (#[trigger] all[i]).name == name;
        if name == root_name {
            assert(out[0].name == name);
        } else {
            assert(kept.contains(all[i]));
            let a = choose|a: int| 0 <= a < kept.len() && kept[a] == all[i];
            assert(out[a + 1].name == name);
        }
    }
    assert(version_names(out) =~= version_names(all));
}

/// Where no two versions that pass the test have the same name, no two of
/// the versions that are kept have.
proof fn lemma_kept_distinct(versions: Seq<VersionedSchemaView>, name: Seq<char>)
    requires
        forall|i: int, j: int|
            0 <= i < j < versions.len() && (#[trigger] versions[i]).name != name ==> (
            #[trigger] versions[j]).name != versions[i].name,
    ensures
        names_distinct(versions.filter(named_otherwise(name))),
    decreases versions.len(),
{
    reveal(Seq::filter);
    let keep = named_otherwise(name);
    if versions.len() > 0 {
        let front = versions.drop_last();
        assert forall|i: int, j: int|
            0 <= i < j < front.len() && (#[trigger] front[i]).name != name implies (
        #[trigger] front[j]).name != front[i].name by {
            assert(front[i] == versions[i] && front[j] == versions[j]);
        }
        lemma_kept_distinct(front, name);
        lemma_kept(front, name);
        let kept = front.filter(keep);
        if keep(versions.last()) {
            let out = kept.push(versions.last());
            assert forall|a: int, b: int| 0 <= a < b < out.len() implies (#[trigger] out[a]).name != (
            #[trigger] out[b]).name by {
                if b == kept.len() {
                    assert(front.contains(kept[a]));
                    let i = choose|i: int| 0 <= i < front.len() && front[i] == kept[a];
                    assert(versions[i].name != name);
                    assert(versions[versions.len() - 1].name != versions[i].name);
                } else {
                    assert(kept[a].name != kept[b].name);
                }
            }
        }
    }
}

/// With no root requested, descriptors that each carry one version and all
/// share group and kind are merged with the first as root: the merged
/// descriptor has the first descriptor's group, kind and metadata, its first
/// version is the first descriptor's, and the versions after it are those of
/// the descriptors of another version name, in the order of the descriptors.
/// It carries exactly the version names that the descriptors declare.
pub proof fn law_first_is_default_root(req: CrdMergerView)
    requires
        req.crds.len() > 0,
        all_single_version(req.crds),
        share_group_and_kind(req.crds),
        req.root is None,
    ensures
        merge_outcome(req) is Ok,
        merge_outcome(req)->Ok_0.group == req.crds[0].group,
        merge_outcome(req)->Ok_0.kind == req.crds[0].kind,
        merge_outcome(req)->Ok_0.metadata == req.crds[0].metadata,
        merge_outcome(req)->Ok_0.versions[0] == req.crds[0].versions[0],
        merge_outcome(req)->Ok_0.versions.skip(1) == joining_versions(
            req.crds,
            req.crds[0].versions[0].name,
        ),
        version_names(merge_outcome(req)->Ok_0.versions) == version_names(sole_versions(req.crds)),
{
    let root = req.crds[0];
    assert(all_agree(req.crds, root));
    let out = consolidated(req.crds, 0);
    assert(out.versions.skip(1) =~= joining_versions(req.crds, sole_name(root)));
    lemma_consolidated_names(req.crds, 0);
}

/// Where a merge with a requested root version succeeds, the merged
/// descriptor is that of the first descriptor that declares the version: it
/// has that descriptor's group, kind and metadata, and its first version is
/// that descriptor's and has the requested name.
pub proof fn law_requested_root_is_first(req: CrdMergerView, name: Seq<char>)
    requires
        req.root == Some(name),
        merge_outcome(req) is Ok,
    ensures
        is_first_declaring(req.crds, name, root_position(req.crds, req.root)),
        merge_outcome(req)->Ok_0.group == req.crds[root_position(req.crds, req.root)].group,
        merge_outcome(req)->Ok_0.kind == req.crds[root_position(req.crds, req.root)].kind,
        merge_outcome(req)->Ok_0.metadata == req.crds[root_position(req.crds, req.root)].metadata,
        merge_outcome(req)->Ok_0.versions[0] == req.crds[root_position(
            req.crds,
            req.root,
        )].versions[0],
        merge_outcome(req)->Ok_0.versions[0].name == name,
{
    lemma_root_in_range(req);
}

/// Where a merge succeeds on descriptors of which no two declare the same
/// version name other than the root's, no two versions of the merged
/// descriptor have the same name.
pub proof fn law_merged_names_distinct(req: CrdMergerView)
    requires
        merge_outcome(req) is Ok,
        other_names_distinct(req.crds, merge_outcome(req)->Ok_0.versions[0].name),
    ensures
        names_distinct(merge_outcome(req)->Ok_0.versions),
{
    lemma_root_in_range(req);
    let r = root_position(req.crds, req.root);
    let root_name = sole_name(req.crds[r]);
    let all = sole_versions(req.crds);
    let kept = joining_versions(req.crds, root_name);
    let out = consolidated(req.crds, r).versions;
    assert(out[0].name == root_name);
    assert forall|i: int, j: int|
        0 <= i < j < all.len() && (#[trigger] all[i]).name != root_name implies (
    #[trigger] all[j]).name != all[i].name by {
        assert(sole_name(req.crds[i]) != root_name);
        assert(sole_name(req.crds[j]) != sole_name(req.crds[i]));
    }
    lemma_kept_distinct(all, root_name);
    lemma_kept(all, root_name);
    assert forall|a: int, b: int| 0 <= a < b < out.len() implies (#[trigger] out[a]).name != (
    #[trigger] out[b]).name by {
        assert(out[b] == kept[b - 1]);
        if a == 0 {
            assert(kept[b - 1].name != root_name);
        } else {
            assert(out[a] == kept[a - 1]);
            assert(kept[a - 1].name != kept[b - 1].name);
        }
    }
}

/// Merging again what a merge gave, each version as a descriptor of its own
/// and with the same selectors, succeeds and gives a descriptor with the same
/// set of version names.
pub proof fn law_remerge_keeps_names(req: CrdMergerView)
    requires
        merge_outcome(req) is Ok,
    ensures
        merge_outcome(
            CrdMergerView {
                crds: split(merge_outcome(req)->Ok_0),
                served: req.served,
                root: req.root,
            },
        ) is Ok,
        version_names(
            merge_outcome(
                CrdMergerView {
                    crds: split(merge_outcome(req)->Ok_0),
                    served: req.served,
                    root: req.root,
                },
            )->Ok_0.versions,
        ) == version_names(merge_outcome(req)->Ok_0.versions),
{
    lemma_root_in_range(req);
    let r = root_position(req.crds, req.root);
    let d = consolidated(req.crds, r);
    assert(merge_outcome(req) == Ok::<ResourceDescriptorView, CrdErrorView>(d));
    let parts = split(d);
    let again = CrdMergerView { crds: parts, served: req.served, root: req.root };
    assert(parts.len() > 0);
    assert(all_single_version(parts));
    assert(sole_name(parts[0]) == sole_name(req.crds[r]));
    if req.root is Some {
        assert(is_first_declaring(parts, req.root->0, 0));
        lemma_root_position(parts, req.root->0, 0);
    }
    assert(root_position(parts, req.root) == 0);
    assert(all_agree(parts, parts[0]));
    assert(merge_outcome(again) == Ok::<ResourceDescriptorView, CrdErrorView>(
        consolidated(parts, 0),
    ));
    lemma_consolidated_names(parts, 0);
    assert(sole_versions(parts) =~= d.versions);
}

/// An empty list of descriptors is refused as such, whatever the selectors.
pub proof fn law_empty_is_refused(req: CrdMergerView)
    requires
        req.crds.len() == 0,
    ensures
        merge_outcome(req) == Err::<ResourceDescriptorView, CrdErrorView>(
            CrdErrorView::NoDescriptors,
        ),
{
}

/// A descriptor that does not carry exactly one version has the whole merge
/// refused, wherever it stands in the list and whatever the others hold.
pub proof fn law_version_count_is_checked(req: CrdMergerView, i: int)
    requires
        0 <= i < req.crds.len(),
        req.crds[i].versions.len() != 1,
    ensures
        merge_outcome(req) == Err::<ResourceDescriptorView, CrdErrorView>(
            CrdErrorView::TooManyVersions,
        ),
{
}

/// A requested root version that no descriptor declares is reported by its
/// name.
pub proof fn law_missing_root_is_named(req: CrdMergerView, name: Seq<char>)
    requires
        req.crds.len() > 0,
        all_single_version(req.crds),
        req.root == Some(name),
        forall|i: int| 0 <= i < req.crds.len() ==> (#[trigger] req.crds[i]).versions[0].name != name,
    ensures
        merge_outcome(req) == Err::<ResourceDescriptorView, CrdErrorView>(
            CrdErrorView::MissingRootVersion(name),
        ),
{
}

/// Where all descriptors have the same kind and two of them have different
/// API groups, the merge reports the groups.
pub proof fn law_group_mismatch(req: CrdMergerView, i: int, j: int)
    requires
        req.crds.len() > 0,
        all_single_version(req.crds),
        req.root is Some ==> declares(req.crds, req.root->0),
        forall|a: int, b: int|
            0 <= a < req.crds.len() && 0 <= b < req.crds.len() ==> (#[trigger] req.crds[a]).kind == (
            #[trigger] req.crds[b]).kind,
        0 <= i < req.crds.len(),
        0 <= j < req.crds.len(),
        req.crds[i].group != req.crds[j].group,
    ensures
        merge_outcome(req) == Err::<ResourceDescriptorView, CrdErrorView>(
            CrdErrorView::ApiGroupMismatch,
        ),
{
    lemma_root_in_range(req);
    let r = root_position(req.crds, req.root);
    let root = req.crds[r];
    if !agrees(req.crds[i], root) {
        lemma_some_first_disagreeing(req.crds, root, i);
    } else {
        lemma_some_first_disagreeing(req.crds, root, j);
    }
    let k = first_disagreeing(req.crds, root);
    assert(is_first_disagreeing(req.crds, root, k));
    assert(req.crds[k].kind == req.crds[r].kind);
}

/// Where all descriptors have the same API group and two of them have
/// different kinds, the merge reports the kinds.
pub proof fn law_kind_mismatch(req: CrdMergerView, i: int, j: int)
    requires
        req.crds.len() > 0,
        all_single_version(req.crds),
        req.root is Some ==> declares(req.crds, req.root->0),
        forall|a: int, b: int|
            0 <= a < req.crds.len() && 0 <= b < req.crds.len() ==> (#[trigger] req.crds[a]).group
                == (#[trigger] req.crds[b]).group,
        0 <= i < req.crds.len(),
        0 <= j < req.crds.len(),
        req.crds[i].kind != req.crds[j].kind,
    ensures
        merge_outcome(req) == Err::<ResourceDescriptorView, CrdErrorView>(
            CrdErrorView::KindMismatch,
        ),
{
    lemma_root_in_range(req);
    let r = root_position(req.crds, req.root);
    let root = req.crds[r];
    if !agrees(req.crds[i], root) {
        lemma_some_first_disagreeing(req.crds, root, i);
    } else {
        lemma_some_first_disagreeing(req.crds, root, j);
    }
    let k = first_disagreeing(req.crds, root);
    assert(is_first_disagreeing(req.crds, root, k));
    assert(req.crds[k].group == req.crds[r].group);
}

/// The served selector changes nothing of what a merge yields, and no merge
/// reports a missing served version.
pub proof fn law_served_is_not_read(req: CrdMergerView, served: Option<Seq<char>>)
    ensures
        merge_outcome(CrdMergerView { crds: req.crds, served: served, root: req.root })
            == merge_outcome(req),
        !(merge_outcome(req) matches Err(CrdErrorView::MissingServedApi(_))),
{
}

} // verus!
