use crate::table::item_mut;
use crate::type_key::find_type;
use core::any::TypeId;
use vstd::prelude::*;

verus! {

/// Resources keyed by their type: at most one resource per type.
pub struct Resources<R> {
    /// The types that have a resource, in the order in which they were first
    /// added.
    pub type_ids: Vec<TypeId>,
    /// The resource of every type of `type_ids`.
    pub data: Vec<R>,
}

impl<R> Resources<R> {
    /// Every type has one resource, and no type occurs twice.
    pub open spec fn wf(&self) -> bool {
        &&& self.type_ids@.len() == self.data@.len()
        &&& self.type_ids@.no_duplicates()
    }

    /// The resource of every type that has one.
    pub open spec fn view(&self) -> Map<TypeId, R> {
        Map::new(
            |type_id: TypeId| self.type_ids@.contains(type_id),
            |type_id: TypeId| self.data@[self.type_ids@.index_of(type_id)],
        )
    }

    /// No type has a resource yet.
    pub fn new() -> (resources: Self)
        ensures
            resources.wf(),
            resources@ == Map::<TypeId, R>::empty(),
    {
        let resources = Self { type_ids: Vec::new(), data: Vec::new() };
        assert(resources@ =~= Map::<TypeId, R>::empty());
        resources
    }

    /// Stores `resource` as the resource of the type `type_id`, in place of
    /// the one that the type had.
    pub fn add(&mut self, type_id: TypeId, resource: R)
        requires
            old(self).wf(),
        ensures
            final(self).wf(),
            final(self)@ == old(self)@.insert(type_id, resource),
    {
        match find_type(&self.type_ids, &type_id) {
            Some(i) => {
                self.data[i] = resource;
                proof {
                    assert forall|t: TypeId| self.type_ids@.contains(t) implies #[trigger] self@[t]
                        == old(self)@.insert(type_id, resource)[t] by {
                        let k = self.type_ids@.index_of(t);
                        assert(self.type_ids@[k] == t);
                    }
                    assert(self@ =~= old(self)@.insert(type_id, resource));
                }
            },
            None => {
                self.type_ids.push(type_id);
                self.data.push(resource);
                proof {
                    let n = old(self).type_ids@.len() as int;
                    assert forall|t: TypeId|
                        self.type_ids@.contains(t) <==> old(self).type_ids@.contains(t) || t
                            == type_id by {
                        if self.type_ids@.contains(t) {
                            let k = self.type_ids@.index_of(t);
                            assert(self.type_ids@[k] == t);
                            if k < n {
                                assert(old(self).type_ids@[k] == t);
                            }
                        }
                        if old(self).type_ids@.contains(t) {
                            let k = old(self).type_ids@.index_of(t);
                            assert(self.type_ids@[k] == t);
                        }
                        if t == type_id {
                            assert(self.type_ids@[n] == t);
                        }
                    }
                    assert forall|t: TypeId| self.type_ids@.contains(t) implies #[trigger] self@[t]
                        == old(self)@.insert(type_id, resource)[t] by {
                        let k = self.type_ids@.index_of(t);
                        assert(self.type_ids@[k] == t);
                        if t == type_id {
                            assert(self.type_ids@[n] == t);
                        } else {
                            let j = old(self).type_ids@.index_of(t);
                            assert(old(self).type_ids@[j] == t);
                            assert(self.type_ids@[j] == t);
                        }
                    }
                    assert(self@ =~= old(self)@.insert(type_id, resource));
                }
            },
        }
    }

    /// The resource of the type `type_id`, if it has one.
    pub fn get(&self, type_id: &TypeId) -> (found: Option<&R>)
        requires
            self.wf(),
        ensures
            found == (if self@.contains_key(*type_id) {
                Some(&self@[*type_id])
            } else {
                None
            }),
    {
        match find_type(&self.type_ids, type_id) {
            Some(i) => {
                proof {
                    assert(self.type_ids@.index_of(*type_id) == i);
                }
                Some(&self.data[i])
            },
            None => None,
        }
    }

    /// The resource of the type `type_id`, for writing, if it has one.
    pub fn get_mut(&mut self, type_id: &TypeId) -> (found: Option<&mut R>)
        requires
            old(self).wf(),
        ensures
            found.is_some() == old(self)@.contains_key(*type_id),
            found matches Some(resource) ==> *resource == old(self)@[*type_id] && final(self).wf()
                && final(self)@ == old(self)@.insert(*type_id, *final(resource)),
            found is None ==> *final(self) == *old(self),
    {
        match find_type(&self.type_ids, type_id) {
            Some(i) => {
                proof {
                    assert(self.type_ids@.index_of(*type_id) == i);
                    assert forall|after: Self, value: R|
                        after.type_ids@ == self.type_ids@ && after.data@ == #[trigger] self.data@.update(
                            i as int,
                            value,
                        ) implies #[trigger] after.wf() && after@ == self@.insert(
                        *type_id,
                        value,
                    ) by {
                        assert forall|t: TypeId| after.type_ids@.contains(t) implies #[trigger] after@[t]
                            == self@.insert(*type_id, value)[t] by {
                            let k = self.type_ids@.index_of(t);
                            assert(self.type_ids@[k] == t);
                        }
                        assert(after@ =~= self@.insert(*type_id, value));
                    }
                }
                Some(item_mut(&mut self.data, i))
            },
            None => None,
        }
    }
}

impl<R> Default for Resources<R> {
    fn default() -> (resources: Self)
        ensures
            resources.wf(),
            resources@ == Map::<TypeId, R>::empty(),
    {
        Self::new()
    }
}

} // verus!
