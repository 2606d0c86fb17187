use crate::components::ComponentData;
use crate::dense::{
    ascending_below, count_true, falses_before, gather, keep_mask, lemma_rank_bounds,
    lemma_rank_strict, pick, rank, remove_ascending,
};
use crate::errors::BbEcsError;
use crate::storable::Storable;
use crate::table::{lemma_position_of_unique, position_of, NameTable};
use vstd::prelude::*;

verus! {

/// The component store: for every registered component name one dense
/// column, which holds the values of the slots that have the component, in
/// slot order.
pub struct EntityData {
    pub components: NameTable<Vec<ComponentData>>,
}

/// The values behind a sequence of references.
pub open spec fn values_of<V>(refs: Seq<&V>) -> Seq<V> {
    Seq::new(refs.len(), |i: int| *refs[i])
}

/// The presence vectors that a table of borrowed vectors holds.
pub open spec fn presence_of(bitmap: NameTable<&Vec<bool>>) -> Map<Seq<char>, Seq<bool>> {
    bitmap@.map_values(|bits: &Vec<bool>| bits@)
}

/// Whether slot `slot` is present in every vector of `presence`.
pub open spec fn every_present(presence: Map<Seq<char>, Seq<bool>>, slot: int) -> bool {
    forall|name: Seq<char>| #[trigger] presence.contains_key(name) ==> presence[name][slot]
}

/// The mask over `len` slots that selects the slots present in every vector
/// of `presence`.
pub open spec fn shared_mask(presence: Map<Seq<char>, Seq<bool>>, len: int) -> Seq<bool> {
    Seq::new(len as nat, |slot: int| every_present(presence, slot))
}

/// Every vector of `presence` has `len` entries.
pub open spec fn all_of_length(presence: Map<Seq<char>, Seq<bool>>, len: int) -> bool {
    forall|name: Seq<char>| #[trigger] presence.contains_key(name) ==> presence[name].len() == len
}

/// Storing a value of type `T` as a component.
pub trait EntityDataTraits<T>: Sized {
    /// Whether the store is well-formed.
    spec fn sound(&self) -> bool;

    /// The dense column of every registered name.
    spec fn stored(&self) -> Map<Seq<char>, Seq<ComponentData>>;

    /// The component that holds `data`.
    spec fn as_component(data: T) -> ComponentData;

    /// Appends `data` to the column of `name`, or fails with `NeedToRegister`
    /// where `name` was never registered.
    fn insert(&mut self, name: &str, data: T) -> (res: Result<(), BbEcsError>)
        requires
            old(self).sound(),
        ensures
            final(self).sound(),
            old(self).stored().contains_key(name@) ==> res is Ok && final(self).stored() == old(
                self,
            ).stored().insert(name@, old(self).stored()[name@].push(Self::as_component(data))),
            !old(self).stored().contains_key(name@) ==> res == Err::<(), BbEcsError>(
                BbEcsError::NeedToRegister,
            ) && *final(self) == *old(self),
    ;
}

impl<T: Storable> EntityDataTraits<T> for EntityData {
    open spec fn sound(&self) -> bool {
        self.wf()
    }

    open spec fn stored(&self) -> Map<Seq<char>, Seq<ComponentData>> {
        self.columns()
    }

    open spec fn as_component(data: T) -> ComponentData {
        data.component()
    }

    fn insert(&mut self, name: &str, data: T) -> (res: Result<(), BbEcsError>) {
        self.insert_component(name, data.into_component())
    }
}

impl EntityData {
    /// No name has two columns.
    pub open spec fn wf(&self) -> bool {
        self.components.wf()
    }

    /// The dense column of every registered name.
    pub open spec fn columns(&self) -> Map<Seq<char>, Seq<ComponentData>> {
        self.components@.map_values(|column: Vec<ComponentData>| column@)
    }

    /// A store with no registered name.
    pub fn new() -> (store: Self)
        ensures
            store.wf(),
            store.columns() == Map::<Seq<char>, Seq<ComponentData>>::empty(),
    {
        let store = Self { components: NameTable::new() };
        assert(store.columns() =~= Map::<Seq<char>, Seq<ComponentData>>::empty());
        store
    }

    /// Gives `name` an empty column, unless the name is registered already.
    pub fn register(&mut self, name: String) -> (res: Result<(), BbEcsError>)
        requires
            old(self).wf(),
        ensures
            final(self).wf(),
            old(self).columns().contains_key(name@) ==> res == Err::<(), BbEcsError>(
                BbEcsError::ComponentAlreadyRegistered(name),
            ) && *final(self) == *old(self),
            !old(self).columns().contains_key(name@) ==> res is Ok && final(self).columns() == old(
                self,
            ).columns().insert(name@, Seq::<ComponentData>::empty()),
    {
        if self.components.contains_key(name.as_str()) {
            return Err(BbEcsError::ComponentAlreadyRegistered(name));
        }
        let ghost key = name@;
        let components: Vec<ComponentData> = Vec::new();
        self.components.insert(name, components);
        assert(self.columns() =~= old(self).columns().insert(key, Seq::<ComponentData>::empty()));
        Ok(())
    }

    /// Appends `data` to the column of `name`.
    pub fn insert_component(&mut self, name: &str, data: ComponentData) -> (res: Result<
        (),
        BbEcsError,
    >)
        requires
            old(self).wf(),
        ensures
            final(self).wf(),
            old(self).columns().contains_key(name@) ==> res is Ok && final(self).columns() == old(
                self,
            ).columns().insert(name@, old(self).columns()[name@].push(data)),
            !old(self).columns().contains_key(name@) ==> res == Err::<(), BbEcsError>(
                BbEcsError::NeedToRegister,
            ) && *final(self) == *old(self),
    {
        match self.components.position(name) {
            Some(i) => {
                self.components.values[i].push(data);
                proof {
                    crate::table::lemma_update_is_insert(old(self).components, self.components, i as int);
                    assert(self.columns() =~= old(self).columns().insert(
                        name@,
                        old(self).columns()[name@].push(data),
                    ));
                }
                Ok(())
            },
            None => Err(BbEcsError::NeedToRegister),
        }
    }

    /// The value at place `index` of the column of `name`, for writing.
    pub fn component_mut(&mut self, name: &str, index: usize) -> (res: Result<
        &mut ComponentData,
        BbEcsError,
    >)
        requires
            old(self).wf(),
        ensures
            old(self).columns().contains_key(name@) && index < old(self).columns()[name@].len()
                ==> (res matches Ok(component) && *component == old(
                self,
            ).columns()[name@][index as int] && final(self).wf() && final(self).columns() == old(
                self,
            ).columns().insert(
                name@,
                old(self).columns()[name@].update(index as int, *final(component)),
            )),
            !old(self).columns().contains_key(name@) ==> (res matches Err(
                BbEcsError::ComponentNotFound(missing),
            ) && missing@ == name@ && *final(self) == *old(self)),
            old(self).columns().contains_key(name@) && index >= old(self).columns()[name@].len()
                ==> (res matches Err(e) && e == BbEcsError::OutOfRangeInVector && *final(self)
                == *old(self)),
    {
        let position = match self.components.position(name) {
            Some(position) => position,
            None => {
                return Err(BbEcsError::ComponentNotFound(name.to_owned()));
            },
        };
        if index >= self.components.values[position].len() {
            return Err(BbEcsError::OutOfRangeInVector);
        }
        proof {
            let column = self.components.values@[position as int]@;
            assert forall|after: EntityData, value: ComponentData|
                after.components.names@ == self.components.names@ && after.components.values@
                    == self.components.values@.update(
                    position as int,
                    after.components.values@[position as int],
                ) && after.components.values@[position as int]@ == #[trigger] column.update(
                    index as int,
                    value,
                ) implies #[trigger] after.wf() && after.columns() == self.columns().insert(
                name@,
                column.update(index as int, value),
            ) by {
                crate::table::lemma_update_is_insert(
                    self.components,
                    after.components,
                    position as int,
                );
                assert(after.columns() =~= self.columns().insert(
                    name@,
                    column.update(index as int, value),
                ));
            }
        }
        let column = crate::table::item_mut(&mut self.components.values, position);
        Ok(crate::table::item_mut(column, index))
    }

    /// For every name of `bitmap`, the values of the slots that are present
    /// in every vector of `bitmap`, in slot order: row `k` of every column
    /// returned belongs to the same slot.
    pub fn query<'a>(&'a self, bitmap: NameTable<&Vec<bool>>) -> (res: Result<
        NameTable<Vec<&'a ComponentData>>,
        BbEcsError,
    >)
        requires
            self.wf(),
            bitmap.wf(),
            exists|len: int| all_of_length(presence_of(bitmap), len),
            forall|name: Seq<char>| #[trigger]
                bitmap.contains(name) && self.columns().contains_key(name) ==> count_true(
                    bitmap.value(name)@,
                ) <= self.columns()[name].len(),
        ensures
            res is Ok <==> forall|name: Seq<char>|
                bitmap.contains(name) ==> self.columns().contains_key(name),
            res matches Ok(found) ==> {
                &&& found.wf()
                &&& forall|name: Seq<char>| found.contains(name) <==> bitmap.contains(name)
                &&& forall|name: Seq<char>| #[trigger]
                    found.contains(name) ==> values_of(found.value(name)@) == gather(
                        self.columns()[name],
                        bitmap.value(name)@,
                        shared_mask(presence_of(bitmap), bitmap.value(name)@.len() as int),
                        bitmap.value(name)@.len() as int,
                    )
            },
            res matches Err(e) ==> (e matches BbEcsError::ComponentNotFound(missing) && exists|
                i: int,
            | #[trigger] first_absent(bitmap.names@, self.columns(), i) && missing@ == bitmap.names@[i]@),
    {
        let mut results: NameTable<Vec<&ComponentData>> = NameTable::new();
        let ghost len = choose|len: int| all_of_length(presence_of(bitmap), len);
        let mut i: usize = 0;
        while i < bitmap.names.len()
            invariant
                i <= bitmap.names@.len(),
                self.wf(),
                bitmap.wf(),
                all_of_length(presence_of(bitmap), len),
                forall|name: Seq<char>| #[trigger]
                    bitmap.contains(name) && self.columns().contains_key(name) ==> count_true(
                        bitmap.value(name)@,
                    ) <= self.columns()[name].len(),
                results.wf(),
                results.names@ == bitmap.names@.take(i as int),
                forall|j: int|
                    0 <= j < i ==> self.columns().contains_key(#[trigger] bitmap.names@[j]@),
                forall|j: int|
                    0 <= j < i ==> values_of((#[trigger] results.values@[j])@) == gather(
                        self.columns()[bitmap.names@[j]@],
                        bitmap.values@[j]@,
                        shared_mask(presence_of(bitmap), bitmap.values@[j]@.len() as int),
                        bitmap.values@[j]@.len() as int,
                    ),
            decreases bitmap.names@.len() - i,
        {
            let name = &bitmap.names[i];
            let map: &Vec<bool> = bitmap.values[i];
            proof {
                lemma_position_of_unique(bitmap.names@, i as int);
                assert(presence_of(bitmap).contains_key(name@));
            }
            match self.components.get(name.as_str()) {
                Some(components_list) => {
                    let ghost column = components_list@;
                    let ghost mask = shared_mask(presence_of(bitmap), map@.len() as int);
                    let mut missing_components_count: usize = 0;
                    let mut component_results: Vec<&ComponentData> = Vec::new();
                    let mut index: usize = 0;
                    proof {
                        assert(self.columns().contains_key(name@));
                        assert(values_of(component_results@) =~= gather(column, map@, mask, 0));
                    }
                    while index < map.len()
                        invariant
                            index <= map@.len(),
                            bitmap.wf(),
                            map@.len() == len,
                            all_of_length(presence_of(bitmap), len),
                            column == components_list@,
                            count_true(map@) <= column.len(),
                            mask == shared_mask(presence_of(bitmap), map@.len() as int),
                            missing_components_count == falses_before(map@, index as int),
                            values_of(component_results@) == gather(
                                column,
                                map@,
                                mask,
                                index as int,
                            ),
                        decreases map@.len() - index,
                    {
                        proof {
                            lemma_rank_bounds(map@, index as int);
                        }
                        if map[index] {
                            proof {
                                assert forall|n: Seq<char>| #[trigger]
                                    bitmap.contains(n) implies index < bitmap.value(n)@.len() by {
                                    assert(presence_of(bitmap).contains_key(n));
                                }
                            }
                            if self.does_entity_have_all_components(&bitmap, index) {
                                proof {
                                    lemma_rank_strict(map@, index as int, map@.len() as int);
                                }
                                let ghost before = component_results@;
                                component_results.push(
                                    &components_list[index - missing_components_count],
                                );
                                proof {
                                    assert(values_of(component_results@) =~= values_of(before).push(
                                        column[rank(map@, index as int)],
                                    ));
                                }
                            }
                        } else {
                            missing_components_count += 1;
                        }
                        index += 1;
                    }
                    proof {
                        assert(!results.contains(name@)) by {
                            if results.contains(name@) {
                                let j = position_of(results.names@, name@);
                                assert(bitmap.names@[j]@ == bitmap.names@[i as int]@);
                            }
                        }
                    }
                    results.insert(name.clone(), component_results);
                    proof {
                        assert(results.names@ =~= bitmap.names@.take(i + 1));
                    }
                },
                None => {
                    proof {
                        assert(first_absent(bitmap.names@, self.columns(), i as int));
                    }
                    return Err(BbEcsError::ComponentNotFound(name.clone()));
                },
            }
            i += 1;
        }
        proof {
            assert(bitmap.names@.take(i as int) =~= bitmap.names@);
            assert forall|name: Seq<char>| bitmap.contains(name) implies self.columns().contains_key(
                name,
            ) by {
                let j = position_of(bitmap.names@, name);
                assert(bitmap.names@[j]@ == name);
            }
            assert forall|name: Seq<char>| #[trigger] results.contains(name) implies values_of(
                results.value(name)@,
            ) == gather(
                self.columns()[name],
                bitmap.value(name)@,
                shared_mask(presence_of(bitmap), bitmap.value(name)@.len() as int),
                bitmap.value(name)@.len() as int,
            ) by {
                let j = position_of(results.names@, name);
                assert(results.names@[j]@ == name);
                assert(bitmap.names@[j]@ == name);
            }
        }
        Ok(results)
    }

    /// Whether the slot `entity_index` is present in every vector of `bitmap`.
    pub fn does_entity_have_all_components(
        &self,
        bitmap: &NameTable<&Vec<bool>>,
        entity_index: usize,
    ) -> (all: bool)
        requires
            bitmap.wf(),
            forall|name: Seq<char>| #[trigger]
                bitmap.contains(name) ==> entity_index < bitmap.value(name)@.len(),
        ensures
            all == every_present(presence_of(*bitmap), entity_index as int),
    {
        let mut i: usize = 0;
        while i < bitmap.values.len()
            invariant
                i <= bitmap.values@.len(),
                bitmap.wf(),
                forall|name: Seq<char>| #[trigger]
                    bitmap.contains(name) ==> entity_index < bitmap.value(name)@.len(),
                forall|j: int| 0 <= j < i ==> (#[trigger] bitmap.values@[j])@[entity_index as int],
            decreases bitmap.values@.len() - i,
        {
            proof {
                lemma_position_of_unique(bitmap.names@, i as int);
                assert(bitmap.contains(bitmap.names@[i as int]@));
            }
            let components: &Vec<bool> = bitmap.values[i];
            if !components[entity_index] {
                proof {
                    assert(presence_of(*bitmap).contains_key(bitmap.names@[i as int]@));
                }
                return false;
            }
            i += 1;
        }
        proof {
            assert forall|name: Seq<char>| #[trigger]
                presence_of(*bitmap).contains_key(name) implies presence_of(
                *bitmap,
            )[name][entity_index as int] by {
                let j = position_of(bitmap.names@, name);
                assert(bitmap.names@[j]@ == name);
            }
        }
        true
    }

    /// Removes from the column of every name of `bitmap` the physical indexes
    /// listed for that name, the highest first. A name of `bitmap` that has no
    /// column is passed over.
    pub fn delete_entities_by_index(&mut self, bitmap: NameTable<Vec<usize>>) -> (res: Result<
        (),
        BbEcsError,
    >)
        requires
            old(self).wf(),
            bitmap.wf(),
            forall|name: Seq<char>| #[trigger]
                bitmap.contains(name) && old(self).columns().contains_key(name) ==> ascending_below(
                    bitmap.value(name)@,
                    old(self).columns()[name].len() as int,
                ),
        ensures
            res is Ok,
            final(self).wf(),
            final(self).columns().dom() == old(self).columns().dom(),
            forall|name: Seq<char>| #[trigger]
                old(self).columns().contains_key(name) ==> final(self).columns()[name] == if bitmap.contains(
                    name,
                ) {
                    pick(
                        old(self).columns()[name],
                        keep_mask(bitmap.value(name)@, old(self).columns()[name].len() as int),
                        old(self).columns()[name].len() as int,
                    )
                } else {
                    old(self).columns()[name]
                },
    {
        let mut i: usize = 0;
        while i < bitmap.names.len()
            invariant
                i <= bitmap.names@.len(),
                old(self).wf(),
                bitmap.wf(),
                self.components.names@ == old(self).components.names@,
                self.components.values@.len() == old(self).components.values@.len(),
                forall|name: Seq<char>| #[trigger]
                    bitmap.contains(name) && old(self).columns().contains_key(name)
                        ==> ascending_below(
                        bitmap.value(name)@,
                        old(self).columns()[name].len() as int,
                    ),
                forall|p: int|
                    0 <= p < self.components.values@.len() ==> (
                    #[trigger] self.components.values@[p])@ == if has_before(
                        bitmap.names@,
                        i as int,
                        self.components.names@[p]@,
                    ) {
                        pick(
                            old(self).components.values@[p]@,
                            keep_mask(
                                bitmap.value(self.components.names@[p]@)@,
                                old(self).components.values@[p]@.len() as int,
                            ),
                            old(self).components.values@[p]@.len() as int,
                        )
                    } else {
                        old(self).components.values@[p]@
                    },
            decreases bitmap.names@.len() - i,
        {
            let component_name = &bitmap.names[i];
            proof {
                lemma_position_of_unique(bitmap.names@, i as int);
            }
            match self.components.position(component_name.as_str()) {
                Some(p) => {
                    proof {
                        lemma_position_of_unique(old(self).components.names@, p as int);
                        assert(old(self).columns().contains_key(component_name@));
                        assert(bitmap.contains(component_name@));
                        assert(!has_before(bitmap.names@, i as int, component_name@)) by {
                            if has_before(bitmap.names@, i as int, component_name@) {
                                let j = choose|j: int|
                                    0 <= j < i && #[trigger] bitmap.names@[j]@ == component_name@;
                                assert(j == i);
                            }
                        }
                    }
                    remove_ascending(&mut self.components.values[p], &bitmap.values[i]);
                },
                None => {},
            }
            proof {
                assert forall|p: int|
                    0 <= p < self.components.values@.len() implies has_before(
                    bitmap.names@,
                    i + 1,
                    self.components.names@[p]@,
                ) == (has_before(bitmap.names@, i as int, self.components.names@[p]@)
                    || self.components.names@[p]@ == component_name@) by {
                    let n = self.components.names@[p]@;
                    if has_before(bitmap.names@, i as int, n) {
                        let j = choose|j: int| 0 <= j < i && #[trigger] bitmap.names@[j]@ == n;
                        assert(bitmap.names@[j]@ == n);
                    }
                    if has_before(bitmap.names@, i + 1, n) {
                        let j = choose|j: int| 0 <= j < i + 1 && #[trigger] bitmap.names@[j]@ == n;
                        if j < i {
                            assert(bitmap.names@[j]@ == n);
                        }
                    }
                    if n == component_name@ {
                        assert(bitmap.names@[i as int]@ == n);
                    }
                }
            }
            i += 1;
        }
        proof {
            assert(self.columns().dom() =~= old(self).columns().dom());
            assert forall|name: Seq<char>| #[trigger]
                old(self).columns().contains_key(name) implies self.columns()[name] == if bitmap.contains(
                name,
            ) {
                pick(
                    old(self).columns()[name],
                    keep_mask(bitmap.value(name)@, old(self).columns()[name].len() as int),
                    old(self).columns()[name].len() as int,
                )
            } else {
                old(self).columns()[name]
            } by {
                let p = position_of(self.components.names@, name);
                assert(self.components.names@[p]@ == name);
                if bitmap.contains(name) {
                    let j = position_of(bitmap.names@, name);
                    assert(bitmap.names@[j]@ == name);
                    assert(has_before(bitmap.names@, bitmap.names@.len() as int, name));
                } else {
                    if has_before(bitmap.names@, bitmap.names@.len() as int, name) {
                        let j = choose|j: int|
                            0 <= j < bitmap.names@.len() && #[trigger] bitmap.names@[j]@ == name;
                        assert(bitmap.contains(name));
                    }
                }
            }
        }
        Ok(())
    }
}

/// Whether `i` is the first position of `names` whose name is no key of `known`.
pub open spec fn first_absent<V>(names: Seq<String>, known: Map<Seq<char>, V>, i: int) -> bool {
    &&& 0 <= i < names.len()
    &&& !known.contains_key(names[i]@)
    &&& forall|j: int| 0 <= j < i ==> known.contains_key(#[trigger] names[j]@)
}

/// Whether one of the first `k` names of `names` is `name`.
pub open spec fn has_before(names: Seq<String>, k: int, name: Seq<char>) -> bool {
    exists|j: int| 0 <= j < k && #[trigger] names[j]@ == name
}

} // verus!
