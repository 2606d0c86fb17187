use crate::components::{CastComponents, ComponentData};
use crate::dense::{
    ascending_below, count_true, keep_mask, lemma_compaction, lemma_gather_all,
    lemma_keep_mask_count, lemma_rank_all, listed,
};
use crate::errors::BbEcsError;
use crate::resources::resource::Resource;
use crate::resources::resources_data::ResourcesData;
use crate::storable::Storable;
use crate::table::{lemma_position_of_unique, lemma_update_is_insert, position_of, NameTable};
use vstd::prelude::*;

pub mod bitmap;
pub mod data;
pub mod entity_data;
pub mod laws;
pub mod query;
pub mod state;

pub use self::state::{ENTITY_ID, TO_BE_DELETED};

use self::bitmap::{all_known, first_unknown, is_first_unknown, names_hold, BitMap};
use self::entity_data::{presence_of, shared_mask, values_of, EntityData, EntityDataTraits};
use self::state::{
    entity_id, lemma_delete_by_id_keeps_inv, lemma_register_keeps_inv,
    lemma_reserved_names_differ, lemma_spawn_keeps_inv, lemma_update_keeps_inv,
    lemma_with_component_keeps_inv, to_be_deleted, WorldView,
};

verus! {

/// The names of a query as sequences of characters.
pub open spec fn name_views(names: Seq<&str>) -> Seq<Seq<char>> {
    Seq::new(names.len(), |k: int| names[k]@)
}

/// Storing a value of type `T` in a world: as a component of the entity
/// spawned last, or as a resource.
pub trait WorldMethods<T>: Sized {
    /// Whether the world is well-formed.
    spec fn sound(&self) -> bool;

    /// The entities of the world.
    spec fn entities(&self) -> WorldView;

    /// The resources of the world.
    spec fn stored_resources(&self) -> Map<Seq<char>, Resource>;

    /// The component that holds `data`.
    spec fn as_component(data: T) -> ComponentData;

    /// The resource that holds `data`.
    spec fn as_resource(data: T) -> Resource;

    /// Gives the entity spawned last the value `data` for the component
    /// `name`, or fails with `NeedToRegister` where `name` was never
    /// registered. The world stays well-formed if the entity had no value
    /// for `name` before.
    fn with_component(&mut self, name: &str, data: T) -> (res: Result<&mut Self, BbEcsError>)
        requires
            old(self).sound(),
            old(self).entities().registered(name@) ==> old(self).entities().slots > 0,
        ensures
            old(self).entities().registered(name@) ==> (res matches Ok(world) && world.entities()
                == old(self).entities().with_component(name@, Self::as_component(data))
                && world.stored_resources() == old(self).stored_resources() && *final(self)
                == *final(world) && (!old(self).entities().presence[name@][old(
                self,
            ).entities().slots - 1] ==> world.sound())),
            !old(self).entities().registered(name@) ==> (res matches Err(e) && e
                == BbEcsError::NeedToRegister && *final(self) == *old(self)),
    ;

    /// Stores `data` as the resource `name`, in place of the resource that the
    /// name had.
    fn add_resource(&mut self, name: String, data: T)
        requires
            old(self).sound(),
        ensures
            final(self).sound(),
            final(self).entities() == old(self).entities(),
            final(self).stored_resources() == old(self).stored_resources().insert(
                name@,
                Self::as_resource(data),
            ),
    ;
}

/// A world of entities. An entity is a slot; what it is made of are the
/// components that the slot holds a value for. Every entity has an id and a
/// flag that marks it for removal.
pub struct World {
    pub entity_data: EntityData,
    resources: ResourcesData,
    is_empty: bool,
    next_entity_id: u32,
    bitmap: BitMap,
}

impl<T: Storable> WorldMethods<T> for World {
    open spec fn sound(&self) -> bool {
        self.wf()
    }

    open spec fn entities(&self) -> WorldView {
        self@
    }

    open spec fn stored_resources(&self) -> Map<Seq<char>, Resource> {
        self.resources()
    }

    open spec fn as_component(data: T) -> ComponentData {
        data.component()
    }

    open spec fn as_resource(data: T) -> Resource {
        data.resource()
    }

    fn with_component(&mut self, name: &str, data: T) -> (res: Result<&mut Self, BbEcsError>) {
        let ghost before = self@;
        let ghost component = data.component();
        self.entity_data.insert(name, data)?;
        self.bitmap.insert(name)?;
        proof {
            assert(self@.presence =~= before.with_component(name@, component).presence);
            assert(self@.columns =~= before.with_component(name@, component).columns);
            if !before.presence[name@][before.slots - 1] {
                lemma_with_component_keeps_inv(before, name@, component);
            }
        }
        Ok(self)
    }

    fn add_resource(&mut self, name: String, data: T) {
        self.resources.insert(name, data.into_resource());
    }
}

impl World {
    /// The tables that make up the world are well-formed each.
    pub closed spec fn parts_wf(&self) -> bool {
        &&& self.bitmap.wf()
        &&& self.entity_data.wf()
        &&& self.resources.wf()
    }

    /// The entities of the world, as mathematics.
    pub closed spec fn view(&self) -> WorldView {
        WorldView {
            presence: self.bitmap.presence(),
            columns: self.entity_data.columns(),
            slots: self.bitmap.slot_count(),
            next_id: self.next_entity_id as nat,
        }
    }

    /// The resources of the world.
    pub closed spec fn resources(&self) -> Map<Seq<char>, Resource> {
        self.resources@
    }

    /// The world is well-formed: its parts are, and its invariant holds.
    pub open spec fn wf(&self) -> bool {
        &&& self.parts_wf()
        &&& self@.inv()
    }

    /// A world without entities and without resources, in which only the two
    /// reserved names are registered.
    pub fn new() -> (world: Self)
        ensures
            world.wf(),
            world@ == WorldView::empty(),
            world.resources() == Map::<Seq<char>, Resource>::empty(),
    {
        Self::default()
    }

    /// The number of entity slots.
    pub fn len(&self) -> (n: usize)
        ensures
            n == self@.slots,
    {
        self.bitmap.len()
    }

    /// The id that the next entity gets.
    pub fn next_id(&self) -> (id: u32)
        ensures
            id == self@.next_id,
    {
        self.next_entity_id
    }

    /// Whether the entity in slot `slot` has a value for the component `name`.
    pub fn contains(&self, name: &str, slot: usize) -> (present: bool)
        requires
            self.wf(),
        ensures
            present == (self@.component(name@, slot as int) is Some),
    {
        proof {
            if self@.registered(name@) {
                assert(self@.presence.contains_key(name@));
            }
        }
        self.bitmap.is_present(name, slot)
    }

    /// Whether `name` is a registered component name.
    pub fn is_registered(&self, name: &str) -> (registered: bool)
        requires
            self.wf(),
        ensures
            registered == self@.registered(name@),
    {
        self.entity_data.components.contains_key(name)
    }

    /// Registers the component name `name`, or fails with
    /// `ComponentAlreadyRegistered` where it is registered already. The world
    /// stays well-formed if it has no entity yet.
    pub fn register(&mut self, name: &str) -> (res: Result<(), BbEcsError>)
        requires
            old(self).wf(),
        ensures
            old(self)@.registered(name@) ==> (res matches Err(
                BbEcsError::ComponentAlreadyRegistered(taken),
            ) && taken@ == name@ && *final(self) == *old(self)),
            !old(self)@.registered(name@) ==> res is Ok && final(self)@ == old(self)@.register(
                name@,
            ) && final(self).resources() == old(self).resources() && final(self).parts_wf(),
            !old(self)@.registered(name@) && old(self)@.slots == 0 ==> final(self).wf(),
    {
        match self.entity_data.register(name.to_owned()) {
            Ok(()) => {},
            Err(e) => {
                return Err(e);
            },
        }
        self.bitmap.register(name.to_owned());
        proof {
            if old(self)@.slots == 0 {
                lemma_register_keeps_inv(old(self)@, name@);
            }
        }
        Ok(())
    }

    /// Spawns an entity: a new last slot that holds the next id and a clear
    /// removal flag.
    pub fn spawn_entity(&mut self) -> (res: Result<&mut Self, BbEcsError>)
        requires
            old(self).wf(),
            old(self)@.slots < usize::MAX,
            old(self)@.next_id < u32::MAX,
        ensures
            res matches Ok(world) && world.wf() && world@ == old(self)@.spawn()
                && world.resources() == old(self).resources() && *final(self) == *final(world),
    {
        proof {
            lemma_reserved_names_differ();
        }
        let ghost before = self@;
        self.entity_data.insert(TO_BE_DELETED, false)?;
        self.entity_data.insert(ENTITY_ID, self.next_entity_id)?;
        self.bitmap.spawn_entity();
        proof {
            assert(before.presence.contains_key(to_be_deleted()));
            assert(before.presence.contains_key(entity_id()));
        }
        self.bitmap.insert(TO_BE_DELETED)?;
        self.bitmap.insert(ENTITY_ID)?;
        self.is_empty = false;
        self.next_entity_id += 1;
        proof {
            let n = before.slots as int;
            assert forall|name: Seq<char>| #[trigger]
                before.presence.contains_key(name) implies self@.presence[name]
                == before.spawn().presence[name] by {
                let bits = before.presence[name];
                assert(bits.len() == n);
                assert(bits.push(false).update(n, true) =~= bits.push(true));
            }
            assert(self@.presence =~= before.spawn().presence);
            assert(self@.columns =~= before.spawn().columns);
            lemma_spawn_keeps_inv(before);
        }
        Ok(self)
    }

    /// For each of the names the values of the entities that have a value for
    /// every one of them, in the order in which the entities were spawned:
    /// row `k` of every column returned belongs to the same entity.
    pub fn query<'a>(&'a self, names: Vec<&str>) -> (res: Result<
        NameTable<Vec<&'a ComponentData>>,
        BbEcsError,
    >)
        requires
            self.wf(),
        ensures
            res is Ok <==> all_known(names@, self@.columns),
            res matches Ok(found) ==> {
                &&& found.wf()
                &&& forall|name: Seq<char>| found.contains(name) <==> names_hold(names@, name)
                &&& forall|name: Seq<char>| #[trigger]
                    found.contains(name) ==> values_of(found.value(name)@) == self@.query(
                        name_views(names@),
                    )[name]
            },
            res matches Err(e) ==> (e matches BbEcsError::ComponentNotFound(missing)
                && is_first_unknown(names@, self@.columns, missing@)),
    {
        let ghost w = self@;
        let bitmap_query = match self.bitmap.query(names) {
            Ok(bitmap_query) => bitmap_query,
            Err(e) => {
                proof {
                    let missing = e->ComponentNotFound_0@;
                    let k = choose|k: int| #[trigger]
                        first_unknown(names@, w.presence, k) && names@[k]@ == missing;
                    assert(first_unknown(names@, w.columns, k)) by {
                        assert forall|j: int| 0 <= j < k implies w.columns.contains_key(
                            #[trigger] names@[j]@,
                        ) by {
                            assert(w.presence.contains_key(names@[j]@));
                        }
                    }
                }
                return Err(e);
            },
        };
        proof {
            assert forall|k: int| 0 <= k < names@.len() implies w.columns.contains_key(
                #[trigger] names@[k]@,
            ) by {
                assert(w.presence.contains_key(names@[k]@));
            }
            assert(presence_of(bitmap_query).dom() =~= Set::new(
                |name: Seq<char>| bitmap_query.contains(name),
            ));
            assert(entity_data::all_of_length(presence_of(bitmap_query), w.slots as int)) by {
                assert forall|name: Seq<char>| #[trigger]
                    presence_of(bitmap_query).contains_key(name) implies presence_of(
                    bitmap_query,
                )[name].len() == w.slots by {
                    assert(bitmap_query.contains(name));
                    let k = choose|k: int| 0 <= k < names@.len() && #[trigger] names@[k]@ == name;
                    assert(w.presence.contains_key(names@[k]@));
                }
            }
            assert forall|name: Seq<char>| #[trigger]
                bitmap_query.contains(name) && self.entity_data.columns().contains_key(
                    name,
                ) implies count_true(bitmap_query.value(name)@)
                <= self.entity_data.columns()[name].len() by {
                assert(w.columns.contains_key(name));
            }
            assert forall|name: Seq<char>|
                bitmap_query.contains(name) implies self.entity_data.columns().contains_key(
                name,
            ) by {
                let k = choose|k: int| 0 <= k < names@.len() && #[trigger] names@[k]@ == name;
                assert(w.presence.contains_key(names@[k]@));
            }
        }
        let found = match self.entity_data.query(bitmap_query) {
            Ok(found) => found,
            Err(e) => {
                return Err(e);
            },
        };
        proof {
            assert forall|name: Seq<char>| #[trigger] found.contains(name) implies values_of(
                found.value(name)@,
            ) == w.query(name_views(names@))[name] by {
                assert(bitmap_query.contains(name));
                let k0 = choose|k: int| 0 <= k < names@.len() && #[trigger] names@[k]@ == name;
                assert(w.presence.contains_key(names@[k0]@));
                assert(name_views(names@)[k0] == name);
                assert(name_views(names@).contains(name));
                assert(bitmap_query.value(name)@ == w.presence[name]);
                let mask = shared_mask(presence_of(bitmap_query), w.slots as int);
                let wanted = w.having_all(name_views(names@));
                assert(mask =~= wanted) by {
                    assert forall|slot: int| 0 <= slot < w.slots implies mask[slot]
                        == wanted[slot] by {
                        if mask[slot] {
                            assert forall|k: int|
                                0 <= k < name_views(names@).len() implies w.presence[#[trigger] name_views(
                                names@,
                            )[k]][slot] by {
                                let n = names@[k]@;
                                assert(bitmap_query.contains(n));
                                assert(presence_of(bitmap_query).contains_key(n));
                                assert(presence_of(bitmap_query)[n] == bitmap_query.value(n)@);
                            }
                        }
                        if wanted[slot] {
                            assert forall|n: Seq<char>| #[trigger]
                                presence_of(bitmap_query).contains_key(n) implies presence_of(
                                bitmap_query,
                            )[n][slot] by {
                                assert(bitmap_query.contains(n));
                                let k = choose|k: int|
                                    0 <= k < names@.len() && #[trigger] names@[k]@ == n;
                                assert(name_views(names@)[k] == n);
                                assert(presence_of(bitmap_query)[n] == bitmap_query.value(n)@);
                            }
                        }
                    }
                }
            }
        }
        Ok(found)
    }

    /// The values of the component `name`, one for every entity that has
    /// one, in the order in which the entities were spawned.
    pub fn query_one<'a>(&'a self, name: &str) -> (res: Result<
        Vec<&'a ComponentData>,
        BbEcsError,
    >)
        requires
            self.wf(),
        ensures
            self@.registered(name@) ==> (res matches Ok(column) && values_of(column@)
                == self@.columns[name@] && values_of(column@) == self@.query(seq![name@])[name@]),
            !self@.registered(name@) ==> (res matches Err(BbEcsError::ComponentNotFound(missing))
                && missing@ == name@),
    {
        let ghost w = self@;
        let mut names: Vec<&str> = Vec::new();
        names.push(name);
        proof {
            assert(names@[0]@ == name@);
            if !w.registered(name@) {
                assert(!all_known(names@, w.columns));
            }
        }
        let mut found = match self.query(names) {
            Ok(found) => found,
            Err(e) => {
                proof {
                    let missing = e->ComponentNotFound_0@;
                    let k = choose|k: int| #[trigger]
                        first_unknown(names@, w.columns, k) && names@[k]@ == missing;
                }
                return Err(e);
            },
        };
        proof {
            assert(w.registered(name@));
            assert(w.presence.contains_key(name@));
            assert(names_hold(names@, name@));
            assert(found.contains(name@));
            assert(found.names@.len() == 1) by {
                let p = position_of(found.names@, name@);
                if found.names@.len() > 1 {
                    let q = if p == 0 {
                        1int
                    } else {
                        0int
                    };
                    lemma_position_of_unique(found.names@, q);
                    assert(found.contains(found.names@[q]@));
                    assert(names_hold(names@, found.names@[q]@));
                }
            }
            assert(name_views(names@) =~= seq![name@]);
            let bits = w.presence[name@];
            let mask = w.having_all(seq![name@]);
            assert forall|slot: int| 0 <= slot < w.slots && bits[slot] implies mask[slot] by {
                assert forall|k: int| 0 <= k < seq![name@].len() implies w.presence[#[trigger] seq![
                    name@,
                ][k]][slot] by {}
            }
            lemma_gather_all(w.columns[name@], bits, mask, w.slots as int);
            assert(w.columns[name@].take(w.columns[name@].len() as int) =~= w.columns[name@]);
            assert(seq![name@][0] == name@);
            assert(seq![name@].contains(name@));
            assert(position_of(found.names@, name@) == 0);
            assert(found.values@.last() == found.value(name@));
        }
        match found.values.pop() {
            Some(column) => Ok(column),
            None => Err(BbEcsError::ComponentNotFound(name.to_owned())),
        }
    }

    /// The resource stored under `name`.
    pub fn get_resource(&self, name: &str) -> (res: Result<&Resource, BbEcsError>)
        requires
            self.wf(),
        ensures
            self.resources().contains_key(name@) ==> res == Ok::<&Resource, BbEcsError>(
                &self.resources()[name@],
            ),
            !self.resources().contains_key(name@) ==> (res matches Err(
                BbEcsError::ResourceNotFound(missing),
            ) && missing@ == name@),
    {
        self.resources.get(name)
    }

    /// The resource stored under `name`, for writing.
    pub fn get_resource_mut(&mut self, name: &str) -> (res: Result<&mut Resource, BbEcsError>)
        requires
            old(self).wf(),
        ensures
            old(self).resources().contains_key(name@) ==> (res matches Ok(resource) && *resource
                == old(self).resources()[name@] && final(self).wf() && final(self)@ == old(self)@
                && final(self).resources() == old(self).resources().insert(
                name@,
                *final(resource),
            )),
            !old(self).resources().contains_key(name@) ==> (res matches Err(
                BbEcsError::ResourceNotFound(missing),
            ) && missing@ == name@ && *final(self) == *old(self)),
    {
        self.resources.get_mut(name)
    }

    /// The value at place `index` of the column of `name`, for writing. The
    /// places of a column are the rows of a query for `name` alone. A world
    /// stays well-formed whatever is written, unless `name` is one of the two
    /// reserved names.
    pub fn component_mut(&mut self, name: &str, index: usize) -> (res: Result<
        &mut ComponentData,
        BbEcsError,
    >)
        requires
            old(self).wf(),
        ensures
            old(self)@.registered(name@) && index < old(self)@.columns[name@].len() ==> (
            res matches Ok(component) && *component == old(self)@.columns[name@][index as int]
                && final(self)@ == old(self)@.replace(name@, index as int, *final(component))
                && final(self).resources() == old(self).resources() && final(self).parts_wf() && (
            name@ != entity_id() && name@ != to_be_deleted() ==> final(self).wf())),
            !old(self)@.registered(name@) ==> (res matches Err(
                BbEcsError::ComponentNotFound(missing),
            ) && missing@ == name@ && *final(self) == *old(self)),
            old(self)@.registered(name@) && index >= old(self)@.columns[name@].len() ==> (
            res matches Err(e) && e == BbEcsError::OutOfRangeInVector && *final(self) == *old(self)),
    {
        proof {
            let w = self@;
            if w.registered(name@) && index < w.columns[name@].len() {
                let column = w.columns[name@];
                assert forall|after: World, value: ComponentData|
                    after.bitmap == self.bitmap && after.resources == self.resources
                        && after.next_entity_id == self.next_entity_id && after.entity_data.wf()
                        && after.entity_data.columns() == self.entity_data.columns().insert(
                        name@,
                        #[trigger] column.update(index as int, value),
                    ) implies #[trigger] after.parts_wf() && after@ == w.replace(
                    name@,
                    index as int,
                    value,
                ) && (name@ != entity_id() && name@ != to_be_deleted() ==> after.wf()) by {
                    if name@ != entity_id() && name@ != to_be_deleted() {
                        state::lemma_replace_keeps_inv(w, name@, index as int, value);
                    }
                }
            }
        }
        self.entity_data.component_mut(name, index)
    }

    /// Marks every entity whose id is `id` for removal. Nothing moves: the
    /// entity stays in its slot, with all its values, until the next sweep.
    pub fn delete_by_id(&mut self, id: u32) -> (res: Result<(), BbEcsError>)
        requires
            old(self).wf(),
        ensures
            res is Ok,
            final(self).wf(),
            final(self)@ == old(self)@.delete_by_id(id),
            final(self).resources() == old(self).resources(),
    {
        let ghost w = self@;
        let ghost ids = w.columns[entity_id()];
        let ghost flags = w.columns[to_be_deleted()];
        proof {
            lemma_reserved_names_differ();
            assert(w.presence.contains_key(entity_id()));
            assert(w.presence.contains_key(to_be_deleted()));
            lemma_rank_all(w.presence[entity_id()], w.slots as int);
            lemma_rank_all(w.presence[to_be_deleted()], w.slots as int);
        }
        let mut rows: Vec<usize> = Vec::new();
        let query_ids = self.query_one(ENTITY_ID)?;
        let mut index: usize = 0;
        while index < query_ids.len()
            invariant
                index <= query_ids@.len(),
                values_of(query_ids@) == ids,
                ids.len() == w.slots,
                forall|slot: int| 0 <= slot < w.slots ==> #[trigger] ids[slot] is U32,
                forall|k: int| 0 <= k < rows@.len() ==> #[trigger] rows@[k] < index,
                forall|slot: int|
                    0 <= slot < index ==> (listed(rows@, slot) <==> ids[slot]
                        == ComponentData::U32(id)),
            decreases query_ids@.len() - index,
        {
            proof {
                assert(*query_ids@[index as int] == values_of(query_ids@)[index as int]);
                assert(ids[index as int] is U32);
                assert(<u32 as Storable>::component(ids[index as int]->U32_0) == ids[index as int]);
            }
            let component_id: &u32 = query_ids[index].cast()?;
            let ghost before = rows@;
            if *component_id == id {
                rows.push(index);
            }
            proof {
                assert forall|slot: int| 0 <= slot < index + 1 implies (listed(rows@, slot)
                    <==> ids[slot] == ComponentData::U32(id)) by {
                    if listed(rows@, slot) {
                        let k = choose|k: int|
                            0 <= k < rows@.len() && #[trigger] rows@[k] as int == slot;
                        if k < before.len() {
                            assert(before[k] as int == slot);
                        }
                    }
                    if listed(before, slot) {
                        let k = choose|k: int|
                            0 <= k < before.len() && #[trigger] before[k] as int == slot;
                        assert(rows@[k] as int == slot);
                    }
                    if slot == index && *component_id == id {
                        assert(rows@[before.len() as int] as int == slot);
                    }
                }
            }
            index += 1;
        }
        let position = self.entity_data.components.position(TO_BE_DELETED);
        proof {
            assert(self.entity_data.columns().contains_key(to_be_deleted()));
        }
        let column = position.unwrap();
        let mut k: usize = 0;
        while k < rows.len()
            invariant
                k <= rows@.len(),
                column < self.entity_data.components.values@.len(),
                self.entity_data.components.values@.len() == old(
                    self,
                ).entity_data.components.values@.len(),
                self.entity_data.components.names@ == old(self).entity_data.components.names@,
                self.entity_data.components.values@ == old(self).entity_data.components.values@.update(
                    column as int,
                    self.entity_data.components.values@[column as int],
                ),
                old(self).entity_data.components.values@[column as int]@ == flags,
                self.resources == old(self).resources,
                self.bitmap == old(self).bitmap,
                self.next_entity_id == old(self).next_entity_id,
                flags.len() == w.slots,
                forall|m: int| 0 <= m < rows@.len() ==> #[trigger] rows@[m] < w.slots,
                self.entity_data.components.values@[column as int]@.len() == flags.len(),
                forall|slot: int|
                    0 <= slot < w.slots ==> #[trigger] self.entity_data.components.values@[column as int]@[slot]
                        == if listed(rows@.take(k as int), slot) {
                        ComponentData::Bool(true)
                    } else {
                        flags[slot]
                    },
            decreases rows@.len() - k,
        {
            let row = rows[k];
            self.entity_data.components.values[column][row] = ComponentData::Bool(true);
            proof {
                assert(self.entity_data.components.values@ =~= old(
                    self,
                ).entity_data.components.values@.update(
                    column as int,
                    self.entity_data.components.values@[column as int],
                ));
                let done = rows@.take(k as int);
                let next = rows@.take(k + 1);
                assert forall|slot: int| 0 <= slot < w.slots implies (listed(next, slot) <==> listed(
                    done,
                    slot,
                ) || slot == row) by {
                    if listed(next, slot) {
                        let m = choose|m: int|
                            0 <= m < next.len() && #[trigger] next[m] as int == slot;
                        if m < k {
                            assert(done[m] as int == slot);
                        }
                    }
                    if listed(done, slot) {
                        let m = choose|m: int|
                            0 <= m < done.len() && #[trigger] done[m] as int == slot;
                        assert(next[m] as int == slot);
                    }
                    if slot == row {
                        assert(next[k as int] as int == slot);
                    }
                }
            }
            k += 1;
        }
        proof {
            assert(rows@.take(k as int) =~= rows@);
            lemma_update_is_insert(
                old(self).entity_data.components,
                self.entity_data.components,
                column as int,
            );
            let after = w.delete_by_id(id);
            assert(self.entity_data.components.values@[column as int]@ =~= after.columns[to_be_deleted()]);
            assert(self@.columns =~= after.columns);
            lemma_delete_by_id_keeps_inv(w, id);
        }
        Ok(())
    }

    /// The sweep: removes every entity that is marked for removal, from
    /// every presence vector and every column. The entities that are left
    /// keep their order and their values.
    pub fn update(&mut self) -> (res: Result<(), BbEcsError>)
        requires
            old(self).wf(),
        ensures
            res is Ok,
            final(self).wf(),
            final(self)@ == old(self)@.update(),
            final(self).resources() == old(self).resources(),
    {
        let ghost w = self@;
        let ghost flags = w.columns[to_be_deleted()];
        proof {
            lemma_reserved_names_differ();
            assert(w.presence.contains_key(to_be_deleted()));
            lemma_rank_all(w.presence[to_be_deleted()], w.slots as int);
        }
        let mut bitmap_indexes_to_delete: Vec<usize> = Vec::new();
        let to_be_deleted_query = self.query_one(TO_BE_DELETED)?;
        let mut index: usize = 0;
        while index < to_be_deleted_query.len()
            invariant
                index <= to_be_deleted_query@.len(),
                values_of(to_be_deleted_query@) == flags,
                flags == w.columns[to_be_deleted()],
                flags.len() == w.slots,
                forall|slot: int| 0 <= slot < w.slots ==> #[trigger] flags[slot] is Bool,
                forall|k: int|
                    0 <= k < bitmap_indexes_to_delete@.len()
                        ==> #[trigger] bitmap_indexes_to_delete@[k] < index,
                forall|a: int, b: int|
                    0 <= a < b < bitmap_indexes_to_delete@.len() ==> bitmap_indexes_to_delete@[a]
                        < bitmap_indexes_to_delete@[b],
                forall|slot: int|
                    0 <= slot < index ==> (listed(bitmap_indexes_to_delete@, slot) <==> w.doomed(
                        slot,
                    )),
            decreases to_be_deleted_query@.len() - index,
        {
            proof {
                assert(*to_be_deleted_query@[index as int] == values_of(to_be_deleted_query@)[index as int]);
                assert(flags[index as int] is Bool);
                assert(<bool as Storable>::component(flags[index as int]->Bool_0)
                    == flags[index as int]);
            }
            let to_be_deleted: &bool = to_be_deleted_query[index].cast()?;
            let ghost before = bitmap_indexes_to_delete@;
            if *to_be_deleted {
                bitmap_indexes_to_delete.push(index);
            }
            proof {
                let now = bitmap_indexes_to_delete@;
                assert forall|slot: int| 0 <= slot < index + 1 implies (listed(now, slot)
                    <==> w.doomed(slot)) by {
                    if listed(now, slot) {
                        let k = choose|k: int| 0 <= k < now.len() && #[trigger] now[k] as int == slot;
                        if k < before.len() {
                            assert(before[k] as int == slot);
                        }
                    }
                    if listed(before, slot) {
                        let k = choose|k: int|
                            0 <= k < before.len() && #[trigger] before[k] as int == slot;
                        assert(now[k] as int == slot);
                    }
                    if slot == index && *to_be_deleted {
                        assert(now[before.len() as int] as int == slot);
                    }
                }
            }
            index += 1;
        }
        let ghost removed = bitmap_indexes_to_delete@;
        let ghost keep = w.survivors();
        proof {
            assert(ascending_below(removed, w.slots as int));
            assert(keep_mask(removed, w.slots as int) =~= keep);
            lemma_keep_mask_count(removed, w.slots as int);
            assert forall|name: Seq<char>| #[trigger]
                self.bitmap.presence().contains_key(name) implies ascending_below(
                removed,
                self.bitmap.presence()[name].len() as int,
            ) by {
                assert(w.presence.contains_key(name));
            }
        }
        let component_indexes_to_delete = self.bitmap.calculate_component_indexes_to_delete(
            bitmap_indexes_to_delete.as_slice(),
        )?;
        proof {
            assert forall|name: Seq<char>| #[trigger]
                component_indexes_to_delete.contains(name) && self.entity_data.columns().contains_key(
                    name,
                ) implies ascending_below(
                component_indexes_to_delete.value(name)@,
                self.entity_data.columns()[name].len() as int,
            ) by {
                assert(w.columns.contains_key(name));
                assert(w.presence.contains_key(name));
                lemma_compaction(w.columns[name], w.presence[name], removed, keep);
            }
        }
        self.bitmap.delete_entities_by_index(bitmap_indexes_to_delete)?;
        self.entity_data.delete_entities_by_index(component_indexes_to_delete)?;
        proof {
            let after = w.update();
            assert(self@.presence =~= after.presence) by {
                assert forall|name: Seq<char>| #[trigger]
                    w.presence.contains_key(name) implies self@.presence[name]
                    == after.presence[name] by {}
            }
            assert(self@.columns =~= after.columns) by {
                assert forall|name: Seq<char>| #[trigger]
                    w.columns.contains_key(name) implies self@.columns[name]
                    == after.columns[name] by {
                    assert(w.presence.contains_key(name));
                    assert(component_indexes_to_delete.contains(name));
                    lemma_compaction(w.columns[name], w.presence[name], removed, keep);
                }
            }
            lemma_update_keeps_inv(w);
        }
        Ok(())
    }
}

impl Default for World {
    fn default() -> (world: Self)
        ensures
            world.wf(),
            world@ == WorldView::empty(),
            world.resources() == Map::<Seq<char>, Resource>::empty(),
    {
        let mut entity_data = EntityData::new();
        let mut bitmap = BitMap::new();
        proof {
            lemma_reserved_names_differ();
        }
        entity_data.register(TO_BE_DELETED.to_owned()).unwrap();
        bitmap.register(TO_BE_DELETED.to_owned());
        entity_data.register(ENTITY_ID.to_owned()).unwrap();
        bitmap.register(ENTITY_ID.to_owned());
        let world = Self {
            entity_data,
            resources: ResourcesData::new(),
            is_empty: true,
            next_entity_id: 0,
            bitmap,
        };
        proof {
            assert(world@.presence =~= WorldView::empty().presence);
            assert(world@.columns =~= WorldView::empty().columns);
            state::lemma_empty_inv();
        }
        world
    }
}

} // verus!
