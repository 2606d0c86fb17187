use crate::errors::BbEcsError;
use crate::resources::resource::Resource;
use crate::table::NameTable;
use vstd::prelude::*;

verus! {

/// The resources of a world: values that belong to no entity, each stored
/// under a name.
pub struct ResourcesData {
    resources: NameTable<Resource>,
}

impl ResourcesData {
    /// No name has two resources.
    pub closed spec fn wf(&self) -> bool {
        self.resources.wf()
    }

    /// The resource stored under every name.
    pub closed spec fn view(&self) -> Map<Seq<char>, Resource> {
        self.resources@
    }

    /// No name has a resource yet.
    pub fn new() -> (store: Self)
        ensures
            store.wf(),
            store@ == Map::<Seq<char>, Resource>::empty(),
    {
        Self { resources: NameTable::new() }
    }

    /// Inserts a resource into storage, overwriting any resource that had the same name
    pub fn insert(&mut self, name: String, resource: Resource)
        requires
            old(self).wf(),
        ensures
            final(self).wf(),
            final(self)@ == old(self)@.insert(name@, resource),
    {
        self.resources.insert(name, resource);
    }

    /// The resource stored under `name`.
    pub fn get(&self, name: &str) -> (res: Result<&Resource, BbEcsError>)
        requires
            self.wf(),
        ensures
            self@.contains_key(name@) ==> res == Ok::<&Resource, BbEcsError>(&self@[name@]),
            !self@.contains_key(name@) ==> (res matches Err(BbEcsError::ResourceNotFound(missing))
                && missing@ == name@),
    {
        if let Some(resource) = self.resources.get(name) {
            Ok(resource)
        } else {
            Err(BbEcsError::ResourceNotFound(name.to_owned()))
        }
    }

    /// The resource stored under `name`, for writing.
    pub fn get_mut(&mut self, name: &str) -> (res: Result<&mut Resource, BbEcsError>)
        requires
            old(self).wf(),
        ensures
            old(self)@.contains_key(name@) ==> (res matches Ok(resource) && *resource == old(
                self,
            )@[name@] && final(self).wf() && final(self)@ == old(self)@.insert(
                name@,
                *final(resource),
            )),
            !old(self)@.contains_key(name@) ==> (res matches Err(
                BbEcsError::ResourceNotFound(missing),
            ) && missing@ == name@ && *final(self) == *old(self)),
    {
        proof {
            if self@.contains_key(name@) {
                let i = crate::table::position_of(self.resources.names@, name@);
                assert(self.resources.names@[i]@ == name@);
                assert forall|after: ResourcesData|
                    after.resources.names@ == self.resources.names@ && after.resources.values@
                        == self.resources.values@.update(
                        i,
                        after.resources.values@[i],
                    ) implies #[trigger] after.wf() && after@ == self@.insert(
                    name@,
                    after.resources.values@[i],
                ) by {
                    crate::table::lemma_update_is_insert(self.resources, after.resources, i);
                }
            }
        }
        match self.resources.get_mut(name) {
            Some(resource) => Ok(resource),
            None => Err(BbEcsError::ResourceNotFound(name.to_owned())),
        }
    }
}

impl Default for ResourcesData {
    fn default() -> (store: Self)
        ensures
            store.wf(),
            store@ == Map::<Seq<char>, Resource>::empty(),
    {
        Self { resources: NameTable::new() }
    }
}

} // verus!
