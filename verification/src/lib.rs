use crate::entities::Entities;
use crate::query_builder::Query;
use crate::resources::typed::Resources;
use core::any::TypeId;
use vstd::prelude::*;

pub mod components;
pub mod data_types;
pub mod dense;
pub mod entities;
pub mod errors;
pub mod query_builder;
pub mod resources;
pub mod storable;
pub mod table;
pub mod type_key;
pub mod world;

verus! {

/// A world whose components and resources are keyed by their type: the
/// entities with their components of type `C`, and one resource of type `R`
/// per resource type.
pub struct World<C, R> {
    resources: Resources<R>,
    entities: Entities<C>,
}

impl<C, R> World<C, R> {
    /// The entities of the world.
    pub closed spec fn entities(&self) -> Entities<C> {
        self.entities
    }

    /// The resource of every type that has one.
    pub closed spec fn resources(&self) -> Map<TypeId, R> {
        self.resources@
    }

    /// The resources are well-formed.
    pub closed spec fn resources_wf(&self) -> bool {
        self.resources.wf()
    }

    /// The world is well-formed: its entities and its resources are.
    pub open spec fn wf(&self) -> bool {
        &&& self.entities().wf()
        &&& self.resources_wf()
    }

    /// A world without entities and without resources.
    pub fn new() -> (world: Self)
        ensures
            world.wf(),
            world.entities().count() == 0,
            world.entities().type_ids@.len() == 0,
            world.resources() == Map::<TypeId, R>::empty(),
    {
        Self { resources: Resources::new(), entities: Entities::new() }
    }

    /// Stores `resource` as the resource of the type `type_id`, in place of
    /// the one that the type had.
    pub fn add_resource(&mut self, type_id: TypeId, resource: R)
        requires
            old(self).resources_wf(),
        ensures
            final(self).resources_wf(),
            final(self).entities() == old(self).entities(),
            final(self).resources() == old(self).resources().insert(type_id, resource),
    {
        self.resources.add(type_id, resource);
    }

    /// The resource of the type `type_id`, if it has one.
    pub fn get_resource(&self, type_id: &TypeId) -> (found: Option<&R>)
        requires
            self.resources_wf(),
        ensures
            found == (if self.resources().contains_key(*type_id) {
                Some(&self.resources()[*type_id])
            } else {
                None
            }),
    {
        self.resources.get(type_id)
    }

    /// The resource of the type `type_id`, for writing, if it has one.
    pub fn get_resource_mut(&mut self, type_id: &TypeId) -> (found: Option<&mut R>)
        requires
            old(self).resources_wf(),
        ensures
            found.is_some() == old(self).resources().contains_key(*type_id),
            found matches Some(resource) ==> *resource == old(self).resources()[*type_id]
                && final(self).resources_wf() && final(self).entities() == old(self).entities()
                && final(self).resources() == old(self).resources().insert(
                *type_id,
                *final(resource),
            ),
            found is None ==> *final(self) == *old(self),
    {
        self.resources.get_mut(type_id)
    }

    /// Adds an entity that has no component yet, and hands out the entities,
    /// so that the new entity can be given its components.
    pub fn register_entity(&mut self) -> (entities: &mut Entities<C>)
        requires
            old(self).entities().wf(),
            old(self).entities().count() < usize::MAX,
        ensures
            entities.wf(),
            entities.count() == old(self).entities().count() + 1,
            entities.type_ids@ == old(self).entities().type_ids@,
            entities.masks() == old(self).entities().masks(),
            entities.bitmask@ == old(self).entities().bitmask@.push(0),
            entities.components@.len() == old(self).entities().components@.len(),
            forall|i: int|
                0 <= i < old(self).entities().components@.len() ==> (
                #[trigger] entities.components@[i])@ == old(self).entities().components@[i]@.push(
                    None,
                ),
            final(self).entities() == *final(entities),
            final(self).resources() == old(self).resources(),
            final(self).resources_wf() == old(self).resources_wf(),
    {
        self.entities.register_entity()
    }

    /// A new query about the entities of the world.
    pub fn query(&self) -> (query: Query<'_, C>)
        ensures
            query.type_ids@.len() == 0,
            query.indexes@.len() == 0,
            *query.entities() == self.entities(),
    {
        self.entities.new_query()
    }

    /// Takes the component of the type `type_id` away from what the entity
    /// `index` is made of, by flipping the type's bit in the entity's bitmask.
    pub fn remove_component(&mut self, type_id: &TypeId, index: usize)
        requires
            old(self).entities().wf(),
            old(self).entities().type_ids@.contains(*type_id),
            index < old(self).entities().count(),
        ensures
            final(self).resources() == old(self).resources(),
            final(self).resources_wf() == old(self).resources_wf(),
            final(self).entities().type_ids == old(self).entities().type_ids,
            final(self).entities().components == old(self).entities().components,
            final(self).entities().count() == old(self).entities().count(),
            final(self).entities().masks() == old(self).entities().masks(),
            final(self).entities().bitmask@ == old(self).entities().bitmask@.update(
                index as int,
                old(self).entities().bitmask@[index as int] ^ old(self).entities().masks()[old(
                    self,
                ).entities().number_of(*type_id)],
            ),
            old(self).entities().contains_type(
                *type_id,
                old(self).entities().bitmask@[index as int],
            ) ==> final(self).entities().wf() && !final(self).entities().contains_type(
                *type_id,
                final(self).entities().bitmask@[index as int],
            ),
    {
        self.entities.remove_component(type_id, index);
    }
}

impl<C, R> Default for World<C, R> {
    fn default() -> (world: Self)
        ensures
            world.wf(),
            world.entities().count() == 0,
            world.resources() == Map::<TypeId, R>::empty(),
    {
        Self::new()
    }
}

} // verus!
