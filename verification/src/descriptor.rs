//! The descriptors that are merged, and their mathematical views.

use vstd::prelude::*;

verus! {

/// One named schema version of a resource kind.
#[derive(Debug, PartialEq, Eq)]
pub struct VersionedSchema {
    /// Name of the version, such as `v1`.
    pub name: String,
    /// Whether the version is offered to clients.
    pub served: bool,
    /// Whether the version is the one used for persisted objects.
    pub storage: bool,
    /// The schema document of the version. It is never inspected, only
    /// carried along.
    pub schema: String,
}

/// What a [`VersionedSchema`] is in contracts.
pub struct VersionedSchemaView {
    pub name: Seq<char>,
    pub served: bool,
    pub storage: bool,
    pub schema: Seq<char>,
}

impl View for VersionedSchema {
    type V = VersionedSchemaView;

    open spec fn view(&self) -> VersionedSchemaView {
        VersionedSchemaView {
            name: self.name@,
            served: self.served,
            storage: self.storage,
            schema: self.schema@,
        }
    }
}

impl Clone for VersionedSchema {
    fn clone(&self) -> (res: Self)
        ensures
            res@ == self@,
    {
        VersionedSchema {
            name: self.name.clone(),
            served: self.served,
            storage: self.storage,
            schema: self.schema.clone(),
        }
    }
}

/// A schema declaration for one custom resource kind, covering one or more
/// versions.
#[derive(Debug, PartialEq, Eq)]
pub struct ResourceDescriptor {
    /// API group of the resource.
    pub group: String,
    /// Kind of the resource.
    pub kind: String,
    /// Plural, singular and short names of the resource. They are never
    /// inspected, only carried along.
    pub metadata: String,
    /// The versions of the resource, in order.
    pub versions: Vec<VersionedSchema>,
}

/// What a [`ResourceDescriptor`] is in contracts.
pub struct ResourceDescriptorView {
    pub group: Seq<char>,
    pub kind: Seq<char>,
    pub metadata: Seq<char>,
    pub versions: Seq<VersionedSchemaView>,
}

/// The views of a sequence of versions, in the same order.
pub open spec fn version_views(versions: Seq<VersionedSchema>) -> Seq<VersionedSchemaView> {
    Seq::new(versions.len(), |i: int| versions[i]@)
}

/// The views of a sequence of descriptors, in the same order.
pub open spec fn descriptor_views(crds: Seq<ResourceDescriptor>) -> Seq<ResourceDescriptorView> {
    Seq::new(crds.len(), |i: int| crds[i]@)
}

impl View for ResourceDescriptor {
    type V = ResourceDescriptorView;

    open spec fn view(&self) -> ResourceDescriptorView {
        ResourceDescriptorView {
            group: self.group@,
            kind: self.kind@,
            metadata: self.metadata@,
            versions: version_views(self.versions@),
        }
    }
}

impl Clone for ResourceDescriptor {
    fn clone(&self) -> (res: Self)
        ensures
            res@ == self@,
    {
        let mut versions: Vec<VersionedSchema> = Vec::new();
        let mut i: usize = 0;
        while i < self.versions.len()
            invariant
                i <= self.versions.len(),
                versions.len() == i,
                forall|j: int| 0 <= j < i ==> (#[trigger] versions@[j])@ == self.versions@[j]@,
            decreases self.versions.len() - i,
        {
            versions.push(self.versions[i].clone());
            i += 1;
        }
        let res = ResourceDescriptor {
            group: self.group.clone(),
            kind: self.kind.clone(),
            metadata: self.metadata.clone(),
            versions,
        };
        assert(res@.versions =~= self@.versions);
        res
    }
}

} // verus!
