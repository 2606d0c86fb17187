use crate::dense::{listed, pick};
use crate::errors::Errors;
use crate::query_builder::Query;
use crate::type_key::find_type;
use core::any::TypeId;
use vstd::prelude::*;

verus! {

/// The bit that stands for the component type registered as number `i`.
pub open spec fn type_bit(i: int) -> u128 {
    1u128 << (i as u32)
}

/// Whether every bit of `mask` is set in `bitmask`.
pub open spec fn has_bits(bitmask: u128, mask: u128) -> bool {
    bitmask & mask == mask
}

/// The mask over the positions of a column that selects the positions listed
/// in `indexes`.
pub open spec fn listed_mask(indexes: Seq<usize>, len: int) -> Seq<bool> {
    Seq::new(len as nat, |p: int| listed(indexes, p))
}

/// The column that a new component type gets in a store of `count`
/// entities: empty for every entity but the last, which holds `component`.
pub open spec fn first_column<C>(count: nat, component: C) -> Seq<Option<C>> {
    Seq::new(
        count,
        |e: int|
            if e == count - 1 {
                Some(component)
            } else {
                None
            },
    )
}

/// Whether `copies` holds, in order, a clone of what is in every cell of
/// `cells`, none of which is empty.
pub open spec fn clones_of<C: Clone>(cells: Seq<Option<C>>, copies: Seq<C>) -> bool {
    &&& copies.len() == cells.len()
    &&& forall|k: int|
        0 <= k < cells.len() ==> (#[trigger] cells[k]) is Some && cloned(cells[k]->0, copies[k])
}

proof fn lemma_type_bits(i: u32, j: u32)
    requires
        i < 128,
        j < 128,
    ensures
        (1u128 << i) != 0,
        i != j ==> (1u128 << i) & (1u128 << j) == 0,
{
    assert((1u128 << i) != 0) by (bit_vector)
        requires
            i < 128,
    ;
    if i != j {
        assert((1u128 << i) & (1u128 << j) == 0) by (bit_vector)
            requires
                i < 128,
                j < 128,
                i != j,
        ;
    }
}

proof fn lemma_set_bits(m: u128, a: u128, b: u128)
    ensures
        has_bits(m | a, a),
        a & b == 0 ==> has_bits(m | a, b) == has_bits(m, b),
        a & b == 0 ==> has_bits(m ^ a, b) == has_bits(m, b),
        a != 0 && has_bits(m, a) ==> !has_bits(m ^ a, a),
        a != 0 ==> !has_bits(0, a),
{
    assert((m | a) & a == a) by (bit_vector);
    if a & b == 0 {
        assert(((m | a) & b == b) == (m & b == b)) by (bit_vector)
            requires
                a & b == 0,
        ;
        assert(((m ^ a) & b == b) == (m & b == b)) by (bit_vector)
            requires
                a & b == 0,
        ;
    }
    if a != 0 && m & a == a {
        assert((m ^ a) & a != a) by (bit_vector)
            requires
                a != 0,
                m & a == a,
        ;
    }
    if a != 0 {
        assert(0u128 & a != a) by (bit_vector)
            requires
                a != 0,
        ;
    }
}

/// Entities whose components are keyed by their type. An entity is a
/// position; for every component type there is one column with one cell per
/// entity, which is empty where the entity has no component of the type.
/// Each entity has a bitmask with one bit per component type, which says
/// which components the entity is made of.
pub struct Entities<C> {
    /// The columns, in the order in which their types were first seen.
    pub components: Vec<Vec<Option<C>>>,
    /// The type of every column.
    pub type_ids: Vec<TypeId>,
    /// The number of entities.
    pub entity_count: usize,
    /// For every entity the bits of the component types that it has.
    pub bitmask: Vec<u128>,
    /// The bit of every component type, in the order of `type_ids`.
    pub bitmap: Vec<u128>,
}

impl<C> Entities<C> {
    /// The number of entities.
    pub open spec fn count(&self) -> nat {
        self.entity_count as nat
    }

    /// The bit of every component type, in the order of `type_ids`.
    pub open spec fn masks(&self) -> Seq<u128> {
        self.bitmap@
    }

    /// Every component type is known once and has a bit of its own.
    pub open spec fn types_wf(&self) -> bool {
        &&& self.type_ids@.no_duplicates()
        &&& self.type_ids@.len() == self.components@.len()
        &&& self.type_ids@.len() == self.masks().len()
        &&& self.type_ids@.len() <= 128
        &&& forall|i: int| 0 <= i < self.masks().len() ==> #[trigger] self.masks()[i] == type_bit(i)
    }

    /// Every column has `n` cells.
    pub open spec fn columns_of_length(&self, n: nat) -> bool {
        forall|i: int|
            0 <= i < self.components@.len() ==> (#[trigger] self.components@[i])@.len() == n
    }

    /// Whether the bitmask of entity `e` says that it has a component of the
    /// type numbered `i`.
    pub open spec fn has(&self, e: int, i: int) -> bool {
        has_bits(self.bitmask@[e], self.masks()[i])
    }

    /// No bitmask has a bit set that stands for no component type yet.
    pub open spec fn unused_bits_clear(&self) -> bool {
        forall|e: int, i: int|
            0 <= e < self.bitmask@.len() && self.type_ids@.len() <= i < 128 ==> !has_bits(
                #[trigger] self.bitmask@[e],
                #[trigger] type_bit(i),
            )
    }

    /// The store is well-formed: there is one cell and one bitmask per entity,
    /// and where a bitmask says that an entity has a component, the cell holds
    /// one.
    pub open spec fn wf(&self) -> bool {
        &&& self.types_wf()
        &&& self.columns_of_length(self.count())
        &&& self.bitmask@.len() == self.count()
        &&& self.unused_bits_clear()
        &&& forall|e: int, i: int|
            0 <= e < self.count() && 0 <= i < self.type_ids@.len() && #[trigger] self.has(e, i)
                ==> self.components@[i]@[e] is Some
    }

    /// Whether `type_id` is a known component type whose bit is set in
    /// `bitmask`.
    pub open spec fn contains_type(&self, type_id: TypeId, bitmask: u128) -> bool {
        exists|i: int|
            0 <= i < self.type_ids@.len() && #[trigger] self.type_ids@[i] == type_id && has_bits(
                bitmask,
                self.masks()[i],
            )
    }

    /// Whether entity `e` has a component of every type of `type_ids`.
    pub open spec fn has_all(&self, type_ids: Seq<TypeId>, e: int) -> bool {
        forall|t: int|
            0 <= t < type_ids.len() ==> self.contains_type(#[trigger] type_ids[t], self.bitmask@[e])
    }

    /// The number of the component type `type_id`, which must be known.
    pub open spec fn number_of(&self, type_id: TypeId) -> int {
        self.type_ids@.index_of(type_id)
    }

    /// A store without entities and without component types.
    pub fn new() -> (entities: Self)
        ensures
            entities.wf(),
            entities.count() == 0,
            entities.type_ids@.len() == 0,
    {
        Entities {
            components: Vec::new(),
            type_ids: Vec::new(),
            entity_count: 0,
            bitmask: Vec::new(),
            bitmap: Vec::new(),
        }
    }

    /// The number of entities.
    pub fn entity_count(&self) -> (n: usize)
        ensures
            n == self.count(),
    {
        self.entity_count
    }

    /// Adds an entity that has no component yet.
    pub fn register_entity(&mut self) -> (entities: &mut Self)
        requires
            old(self).wf(),
            old(self).count() < usize::MAX,
        ensures
            entities.wf(),
            entities.count() == old(self).count() + 1,
            entities.type_ids@ == old(self).type_ids@,
            entities.masks() == old(self).masks(),
            entities.bitmask@ == old(self).bitmask@.push(0),
            entities.components@.len() == old(self).components@.len(),
            forall|i: int|
                0 <= i < old(self).components@.len() ==> (#[trigger] entities.components@[i])@
                    == old(self).components@[i]@.push(None),
            *final(self) == *final(entities),
    {
        self.entity_count += 1;
        self.add_empty_cell_to_all_components();
        self.bitmask.push(0);
        proof {
            assert forall|e: int, i: int|
                0 <= e < self.count() && 0 <= i < self.type_ids@.len() && #[trigger] self.has(
                    e,
                    i,
                ) implies self.components@[i]@[e] is Some by {
                if e < old(self).count() {
                    assert(old(self).has(e, i));
                } else {
                    lemma_type_bits(i as u32, i as u32);
                    lemma_set_bits(0, self.masks()[i], self.masks()[i]);
                }
            }
            assert forall|e: int, i: int|
                0 <= e < self.bitmask@.len() && self.type_ids@.len() <= i < 128 implies !has_bits(
                #[trigger] self.bitmask@[e],
                #[trigger] type_bit(i),
            ) by {
                if e < old(self).count() {
                    assert(!has_bits(old(self).bitmask@[e], type_bit(i)));
                } else {
                    lemma_type_bits(i as u32, i as u32);
                    lemma_set_bits(0, type_bit(i), type_bit(i));
                }
            }
        }
        self
    }

    /// Gives the entity added last the component `component` of the type
    /// `type_id`, in place of the one it had of that type, if any.
    pub fn with_component(&mut self, type_id: TypeId, component: C) -> (entities: &mut Self)
        requires
            old(self).wf(),
            old(self).count() > 0,
            !old(self).type_ids@.contains(type_id) ==> old(self).type_ids@.len() < 128,
        ensures
            entities.wf(),
            entities.count() == old(self).count(),
            entities.type_ids@.contains(type_id),
            entities.bitmask@ == old(self).bitmask@.update(
                old(self).count() - 1,
                old(self).bitmask@[old(self).count() - 1] | type_bit(entities.number_of(type_id)),
            ),
            old(self).type_ids@.contains(type_id) ==> {
                &&& entities.type_ids@ == old(self).type_ids@
                &&& entities.masks() == old(self).masks()
                &&& entities.components@.len() == old(self).components@.len()
                &&& entities.components@[entities.number_of(type_id)]@ == old(
                    self,
                ).components@[entities.number_of(type_id)]@.update(
                    old(self).count() - 1,
                    Some(component),
                )
                &&& forall|i: int|
                    0 <= i < old(self).type_ids@.len() && i != entities.number_of(type_id)
                        ==> #[trigger] entities.components@[i] == old(self).components@[i]
            },
            !old(self).type_ids@.contains(type_id) ==> {
                &&& entities.type_ids@ == old(self).type_ids@.push(type_id)
                &&& entities.masks() == old(self).masks().push(
                    type_bit(old(self).type_ids@.len() as int),
                )
                &&& entities.components@.len() == old(self).components@.len() + 1
                &&& entities.components@.last()@ == first_column(old(self).count(), component)
                &&& forall|i: int|
                    0 <= i < old(self).type_ids@.len() ==> #[trigger] entities.components@[i]
                        == old(self).components@[i]
            },
            *final(self) == *final(entities),
    {
        let last = self.entity_count - 1;
        let number = match find_type(&self.type_ids, &type_id) {
            Some(number) => {
                self.components[number][last] = Some(component);
                number
            },
            None => {
                self.add_component(type_id, component);
                self.type_ids.len() - 1
            },
        };
        proof {
            assert(self.type_ids@[number as int] == type_id);
            assert(self.type_ids@.index_of(type_id) == number);
        }
        let bitmap_value = self.bitmap[number];
        let ghost before = self.bitmask@[last as int];
        self.bitmask[last] = self.bitmask[last] | bitmap_value;
        proof {
            assert forall|e: int, i: int|
                0 <= e < self.count() && 0 <= i < self.type_ids@.len() && #[trigger] self.has(
                    e,
                    i,
                ) implies self.components@[i]@[e] is Some by {
                lemma_type_bits(number as u32, i as u32);
                lemma_set_bits(before, bitmap_value, self.masks()[i]);
                if e == last && i != number {
                    assert(old(self).has(e, i));
                } else if e != last {
                    if i < old(self).type_ids@.len() {
                        assert(old(self).has(e, i));
                    }
                }
            }
            lemma_set_bits(before, bitmap_value, bitmap_value);
            assert forall|e: int, i: int|
                0 <= e < self.bitmask@.len() && self.type_ids@.len() <= i < 128 implies !has_bits(
                #[trigger] self.bitmask@[e],
                #[trigger] type_bit(i),
            ) by {
                assert(!has_bits(old(self).bitmask@[e], type_bit(i)));
                lemma_type_bits(number as u32, i as u32);
                lemma_set_bits(before, bitmap_value, type_bit(i));
            }
        }
        self
    }

    /// Adds an empty cell at the end of every column.
    pub fn add_empty_cell_to_all_components(&mut self)
        ensures
            final(self).type_ids == old(self).type_ids,
            final(self).count() == old(self).count(),
            final(self).masks() == old(self).masks(),
            final(self).bitmask == old(self).bitmask,
            final(self).components@.len() == old(self).components@.len(),
            forall|i: int|
                0 <= i < old(self).components@.len() ==> (#[trigger] final(self).components@[i])@
                    == old(self).components@[i]@.push(None),
    {
        let mut i: usize = 0;
        while i < self.components.len()
            invariant
                i <= self.components@.len(),
                self.type_ids == old(self).type_ids,
                self.entity_count == old(self).entity_count,
                self.bitmap == old(self).bitmap,
                self.bitmask == old(self).bitmask,
                self.components@.len() == old(self).components@.len(),
                forall|j: int|
                    0 <= j < i ==> (#[trigger] self.components@[j])@ == old(
                        self,
                    ).components@[j]@.push(None),
                forall|j: int|
                    i <= j < self.components@.len() ==> #[trigger] self.components@[j] == old(
                        self,
                    ).components@[j],
            decreases self.components@.len() - i,
        {
            self.components[i].push(None);
            i += 1;
        }
    }

    /// Makes `type_id`, which is not known yet, a component type: its column
    /// is empty for every entity but the last, which gets `component`.
    pub fn add_component(&mut self, type_id: TypeId, component: C)
        requires
            old(self).wf(),
            old(self).count() > 0,
            !old(self).type_ids@.contains(type_id),
            old(self).type_ids@.len() < 128,
        ensures
            final(self).wf(),
            final(self).count() == old(self).count(),
            final(self).bitmask == old(self).bitmask,
            final(self).type_ids@ == old(self).type_ids@.push(type_id),
            final(self).masks() == old(self).masks().push(type_bit(old(self).type_ids@.len() as int)),
            final(self).components@.len() == old(self).components@.len() + 1,
            forall|i: int|
                0 <= i < old(self).components@.len() ==> #[trigger] final(self).components@[i]
                    == old(self).components@[i],
            final(self).components@.last()@ == first_column(old(self).count(), component),
    {
        let mut components: Vec<Option<C>> = Vec::new();
        let mut i: usize = 0;
        while i < self.entity_count - 1
            invariant
                i <= self.entity_count - 1,
                self.entity_count > 0,
                components@.len() == i,
                forall|e: int| 0 <= e < i ==> components@[e] is None,
            decreases self.entity_count - 1 - i,
        {
            components.push(None);
            i += 1;
        }
        components.push(Some(component));
        self.components.push(components);
        self.type_ids.push(type_id);
        let number: usize = self.bitmap.len();
        let new_bitmask: u128 = 1u128 << (number as u32);
        self.bitmap.push(new_bitmask);
        proof {
            assert(self.components@.last()@ =~= first_column(old(self).count(), component));
            assert forall|e: int, i: int|
                0 <= e < self.count() && 0 <= i < self.type_ids@.len() && #[trigger] self.has(
                    e,
                    i,
                ) implies self.components@[i]@[e] is Some by {
                if i < number {
                    assert(old(self).has(e, i));
                } else {
                    assert(!has_bits(old(self).bitmask@[e], type_bit(number as int)));
                }
            }
        }
    }

    /// A new query about these entities, which asks for no type yet.
    pub fn new_query(&self) -> (query: Query<'_, C>)
        ensures
            query.type_ids@.len() == 0,
            query.indexes@.len() == 0,
            query.entities() == self,
    {
        Query::new(self)
    }

    /// Whether `type_id` is a known component type whose bit is set in
    /// `bitmask`.
    pub fn entity_contains(&self, type_id: &TypeId, bitmask: u128) -> (contained: bool)
        requires
            self.types_wf(),
        ensures
            contained == self.contains_type(*type_id, bitmask),
    {
        if let Some(number) = find_type(&self.type_ids, type_id) {
            let bitmap = self.bitmap[number];
            bitmask & bitmap == bitmap
        } else {
            false
        }
    }

    /// Flips, in the bitmask of entity `index`, the bit of the component type
    /// `type_id`. The cell keeps what it holds. Flipping a set bit removes the
    /// component from what the entity is made of.
    pub fn remove_component(&mut self, type_id: &TypeId, index: usize)
        requires
            old(self).wf(),
            old(self).type_ids@.contains(*type_id),
            index < old(self).count(),
        ensures
            final(self).type_ids == old(self).type_ids,
            final(self).components == old(self).components,
            final(self).count() == old(self).count(),
            final(self).masks() == old(self).masks(),
            final(self).bitmask@ == old(self).bitmask@.update(
                index as int,
                old(self).bitmask@[index as int] ^ old(self).masks()[old(self).number_of(*type_id)],
            ),
            old(self).contains_type(*type_id, old(self).bitmask@[index as int]) ==> final(self).wf()
                && !final(self).contains_type(*type_id, final(self).bitmask@[index as int]),
            forall|i: int|
                0 <= i < old(self).type_ids@.len() && i != old(self).number_of(*type_id)
                    ==> final(self).has(index as int, i) == old(self).has(index as int, i),
    {
        let found = find_type(&self.type_ids, type_id);
        let number = found.unwrap();
        proof {
            assert(self.type_ids@.index_of(*type_id) == number);
        }
        let bitmap_value = self.bitmap[number];
        let ghost before = self.bitmask@[index as int];
        self.bitmask[index] = self.bitmask[index] ^ bitmap_value;
        proof {
            assert forall|i: int|
                0 <= i < old(self).type_ids@.len() && i != number implies self.has(index as int, i)
                == old(self).has(index as int, i) by {
                lemma_type_bits(number as u32, i as u32);
                lemma_set_bits(before, bitmap_value, self.masks()[i]);
            }
            if old(self).contains_type(*type_id, before) {
                lemma_type_bits(number as u32, number as u32);
                lemma_set_bits(before, bitmap_value, bitmap_value);
                assert(old(self).has(index as int, number as int));
                assert forall|e: int, i: int|
                    0 <= e < self.count() && 0 <= i < self.type_ids@.len() && #[trigger] self.has(
                        e,
                        i,
                    ) implies self.components@[i]@[e] is Some by {
                    if e != index || i != number {
                        assert(old(self).has(e, i));
                    }
                }
                assert forall|e: int, i: int|
                    0 <= e < self.bitmask@.len() && self.type_ids@.len() <= i < 128 implies !has_bits(
                    #[trigger] self.bitmask@[e],
                    #[trigger] type_bit(i),
                ) by {
                    assert(!has_bits(old(self).bitmask@[e], type_bit(i)));
                    lemma_type_bits(number as u32, i as u32);
                    lemma_set_bits(before, bitmap_value, type_bit(i));
                }
            }
        }
    }
}

impl<C: Clone> Entities<C> {
    /// For every type of the query a clone of the component of that type of
    /// every entity listed in the query's indexes, in the order of the
    /// entities.
    pub fn run_query(&self, query: Query<C>) -> (res: Result<Vec<Vec<C>>, Errors>)
        requires
            self.wf(),
            forall|t: int, p: int|
                0 <= t < query.type_ids@.len() && self.type_ids@.contains(query.type_ids@[t]) && 0
                    <= p < self.count() && #[trigger] listed(query.indexes@, p)
                    ==> (#[trigger] self.components@[self.number_of(
                    query.type_ids@[t],
                )])@[p] is Some,
        ensures
            res is Ok <==> forall|t: int|
                0 <= t < query.type_ids@.len() ==> self.type_ids@.contains(
                    #[trigger] query.type_ids@[t],
                ),
            res matches Err(e) ==> e == Errors::ComponentNotFound,
            res matches Ok(result) ==> result@.len() == query.type_ids@.len() && forall|t: int|
                0 <= t < query.type_ids@.len() ==> clones_of(
                    pick(
                        self.components@[self.number_of(query.type_ids@[t])]@,
                        listed_mask(query.indexes@, self.count() as int),
                        self.count() as int,
                    ),
                    (#[trigger] result@[t])@,
                ),
    {
        let mut result: Vec<Vec<C>> = Vec::new();
        let mut t: usize = 0;
        while t < query.type_ids.len()
            invariant
                t <= query.type_ids@.len(),
                self.wf(),
                forall|t: int, p: int|
                    0 <= t < query.type_ids@.len() && self.type_ids@.contains(query.type_ids@[t])
                        && 0 <= p < self.count() && #[trigger] listed(query.indexes@, p)
                        ==> (#[trigger] self.components@[self.number_of(
                        query.type_ids@[t],
                    )])@[p] is Some,
                result@.len() == t,
                forall|s: int|
                    0 <= s < t ==> self.type_ids@.contains(#[trigger] query.type_ids@[s]),
                forall|s: int|
                    0 <= s < t ==> clones_of(
                        pick(
                            self.components@[self.number_of(query.type_ids@[s])]@,
                            listed_mask(query.indexes@, self.count() as int),
                            self.count() as int,
                        ),
                        (#[trigger] result@[s])@,
                    ),
            decreases query.type_ids@.len() - t,
        {
            let type_id = &query.type_ids[t];
            let mut queried_components: Vec<C> = Vec::new();
            let components = match find_type(&self.type_ids, type_id) {
                Some(number) => {
                    proof {
                        assert(self.type_ids@.index_of(*type_id) == number);
                    }
                    &self.components[number]
                },
                None => {
                    return Err(Errors::ComponentNotFound);
                },
            };
            let ghost mask = listed_mask(query.indexes@, self.count() as int);
            let mut index: usize = 0;
            proof {
                assert forall|p: int|
                    0 <= p < self.count() && #[trigger] listed(
                        query.indexes@,
                        p,
                    ) implies components@[p] is Some by {
                    assert(self.type_ids@.contains(query.type_ids@[t as int]));
                    assert(self.components@[self.number_of(query.type_ids@[t as int])]@[p] is Some);
                }
            }
            while index < components.len()
                invariant
                    index <= components@.len(),
                    components@.len() == self.count(),
                    mask == listed_mask(query.indexes@, self.count() as int),
                    forall|p: int|
                        0 <= p < self.count() && #[trigger] listed(query.indexes@, p)
                            ==> components@[p] is Some,
                    clones_of(pick(components@, mask, index as int), queried_components@),
                decreases components@.len() - index,
            {
                if has_index(&query.indexes, index) {
                    let ghost before = queried_components@;
                    match &components[index] {
                        Some(component) => {
                            queried_components.push(component.clone());
                        },
                        None => {},
                    }
                    proof {
                        assert(listed(query.indexes@, index as int));
                        assert(components@[index as int] is Some);
                        let picked = pick(components@, mask, index + 1);
                        assert forall|k: int| 0 <= k < picked.len() implies (#[trigger] picked[k]) is Some
                            && cloned(picked[k]->0, queried_components@[k]) by {
                            if k < before.len() {
                                assert(pick(components@, mask, index as int)[k] is Some);
                            }
                        }
                    }
                }
                index += 1;
            }
            result.push(queried_components);
            t += 1;
        }
        Ok(result)
    }
}

/// Whether `index` is one of `indexes`.
pub fn has_index(indexes: &Vec<usize>, index: usize) -> (found: bool)
    ensures
        found == listed(indexes@, index as int),
{
    let mut k: usize = 0;
    while k < indexes.len()
        invariant
            k <= indexes@.len(),
            forall|j: int| 0 <= j < k ==> indexes@[j] != index,
        decreases indexes@.len() - k,
    {
        if indexes[k] == index {
            return true;
        }
        k += 1;
    }
    false
}

} // verus!
