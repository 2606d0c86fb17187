use crate::data_types::engine::Mesh;
use crate::table::NameTable;
use vstd::prelude::*;

pub mod resource;
pub mod resources_data;
pub mod typed;

verus! {

/// A resource value of one of two kinds.
#[derive(Debug, PartialEq, Eq)]
pub enum ResourcesData {
    U32(u32),
    GgezMesh(Mesh),
}

impl ResourcesData {
    /// The number, where the resource is one.
    pub fn extract_u32(&self) -> (number: Option<u32>)
        ensures
            number == (match self {
                ResourcesData::U32(data) => Some(*data),
                _ => None,
            }),
    {
        if let ResourcesData::U32(data) = self {
            Some(*data)
        } else {
            None
        }
    }

    /// The mesh, where the resource is one.
    pub fn extract_ggez_mesh(&self) -> (mesh: Option<&Mesh>)
        ensures
            mesh == (match self {
                ResourcesData::GgezMesh(mesh) => Some(mesh),
                _ => None,
            }),
    {
        if let Self::GgezMesh(mesh) = self {
            Some(mesh)
        } else {
            None
        }
    }
}

/// Resources of the two kinds, each stored under a name.
pub struct Resources {
    pub data: NameTable<ResourcesData>,
}

impl Resources {
    /// No name has two resources.
    pub open spec fn wf(&self) -> bool {
        self.data.wf()
    }

    /// The resource stored under every name.
    pub open spec fn view(&self) -> Map<Seq<char>, ResourcesData> {
        self.data@
    }

    /// No name has a resource yet.
    pub fn new() -> (resources: Self)
        ensures
            resources.wf(),
            resources@ == Map::<Seq<char>, ResourcesData>::empty(),
    {
        Self::default()
    }

    /// Stores `resource` under `name`, in place of the resource that the name
    /// had.
    pub fn insert(&mut self, name: &str, resource: ResourcesData)
        requires
            old(self).wf(),
        ensures
            final(self).wf(),
            final(self)@ == old(self)@.insert(name@, resource),
    {
        self.data.insert(name.to_owned(), resource);
    }

    /// The resource stored under `name`, if there is one.
    pub fn get(&self, name: &str) -> (found: Option<&ResourcesData>)
        requires
            self.wf(),
        ensures
            found == (if self@.contains_key(name@) {
                Some(&self@[name@])
            } else {
                None
            }),
    {
        self.data.get(name)
    }
}

impl Default for Resources {
    fn default() -> (resources: Self)
        ensures
            resources.wf(),
            resources@ == Map::<Seq<char>, ResourcesData>::empty(),
    {
        Self { data: NameTable::new() }
    }
}

} // verus!
