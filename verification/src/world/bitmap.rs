use crate::dense::{
    ascending_below, falses_before, keep_mask, lemma_keep_mask_count, lemma_pick_len,
    lemma_rank_bounds, pick, remove_ascending, translate,
};
use crate::errors::BbEcsError;
use crate::table::NameTable;
use vstd::prelude::*;

verus! {

/// The presence bitmap: for every registered component name, one vector of
/// booleans with one entry per entity slot. Entry `i` of the vector of `name`
/// says whether slot `i` holds a value for `name`.
pub struct BitMap {
    entity_map: NameTable<Vec<bool>>,
    length: usize,
}

/// Whether every name of `names` is a key of `known`.
pub open spec fn all_known<V>(names: Seq<&str>, known: Map<Seq<char>, V>) -> bool {
    forall|k: int| 0 <= k < names.len() ==> known.contains_key(#[trigger] names[k]@)
}

/// Whether `k` is the first position of `names` whose name is no key of `known`.
pub open spec fn first_unknown<V>(names: Seq<&str>, known: Map<Seq<char>, V>, k: int) -> bool {
    &&& 0 <= k < names.len()
    &&& !known.contains_key(names[k]@)
    &&& forall|j: int| 0 <= j < k ==> known.contains_key(#[trigger] names[j]@)
}

/// Whether `name` is the first name of `names` that is no key of `known`.
pub open spec fn is_first_unknown<V>(
    names: Seq<&str>,
    known: Map<Seq<char>, V>,
    name: Seq<char>,
) -> bool {
    exists|k: int| #[trigger] first_unknown(names, known, k) && names[k]@ == name
}

/// Whether `names` holds the name `name`.
pub open spec fn names_hold(names: Seq<&str>, name: Seq<char>) -> bool {
    exists|k: int| 0 <= k < names.len() && #[trigger] names[k]@ == name
}

impl BitMap {
    /// The representation is sound: no name has two presence vectors.
    pub closed spec fn wf(&self) -> bool {
        self.entity_map.wf()
    }

    /// The presence vector of every registered name.
    pub closed spec fn presence(&self) -> Map<Seq<char>, Seq<bool>> {
        self.entity_map@.map_values(|bits: Vec<bool>| bits@)
    }

    /// The number of entity slots.
    pub closed spec fn slot_count(&self) -> nat {
        self.length as nat
    }

    /// Every presence vector has one entry per entity slot.
    pub open spec fn aligned(&self) -> bool {
        forall|name: Seq<char>| #[trigger]
            self.presence().contains_key(name) ==> self.presence()[name].len() == self.slot_count()
    }

    /// A bitmap with no registered name and no slot.
    pub fn new() -> (bitmap: Self)
        ensures
            bitmap.wf(),
            bitmap.aligned(),
            bitmap.presence() == Map::<Seq<char>, Seq<bool>>::empty(),
            bitmap.slot_count() == 0,
    {
        let bitmap = BitMap { entity_map: NameTable::new(), length: 0 };
        assert(bitmap.presence() =~= Map::<Seq<char>, Seq<bool>>::empty());
        bitmap
    }

    /// The number of entity slots.
    pub fn len(&self) -> (n: usize)
        ensures
            n == self.slot_count(),
    {
        self.length
    }

    /// Whether slot `slot` holds a value for `name`.
    pub fn is_present(&self, name: &str, slot: usize) -> (present: bool)
        requires
            self.wf(),
        ensures
            present == (self.presence().contains_key(name@) && slot < self.presence()[name@].len()
                && self.presence()[name@][slot as int]),
    {
        match self.entity_map.get(name) {
            Some(bits) => slot < bits.len() && bits[slot],
            None => false,
        }
    }

    /// Gives `name` an empty presence vector, in place of the one it had if it
    /// was registered before.
    pub fn register(&mut self, name: String)
        requires
            old(self).wf(),
        ensures
            final(self).wf(),
            final(self).slot_count() == old(self).slot_count(),
            final(self).presence() == old(self).presence().insert(name@, Seq::<bool>::empty()),
            old(self).aligned() && old(self).slot_count() == 0 ==> final(self).aligned(),
    {
        let ghost key = name@;
        self.entity_map.insert(name, Vec::new());
        assert(self.presence() =~= old(self).presence().insert(key, Seq::<bool>::empty()));
    }

    /// Adds one entity slot: every presence vector grows by one clear bit.
    pub fn spawn_entity(&mut self)
        requires
            old(self).wf(),
            old(self).slot_count() < usize::MAX,
        ensures
            final(self).wf(),
            final(self).slot_count() == old(self).slot_count() + 1,
            final(self).presence().dom() == old(self).presence().dom(),
            forall|name: Seq<char>| #[trigger]
                old(self).presence().contains_key(name) ==> final(self).presence()[name] == old(
                    self,
                ).presence()[name].push(false),
            old(self).aligned() ==> final(self).aligned(),
    {
        self.length += 1;
        let mut i: usize = 0;
        while i < self.entity_map.values.len()
            invariant
                i <= self.entity_map.values@.len(),
                self.length == old(self).length + 1,
                self.entity_map.names@ == old(self).entity_map.names@,
                self.entity_map.values@.len() == old(self).entity_map.values@.len(),
                forall|j: int|
                    0 <= j < i ==> (#[trigger] self.entity_map.values@[j])@ == old(
                        self,
                    ).entity_map.values@[j]@.push(false),
                forall|j: int|
                    i <= j < self.entity_map.values@.len() ==> #[trigger] self.entity_map.values@[j]
                        == old(self).entity_map.values@[j],
            decreases self.entity_map.values@.len() - i,
        {
            self.entity_map.values[i].push(false);
            i += 1;
        }
        assert(self.presence().dom() =~= old(self).presence().dom());
    }

    /// Marks the last slot as holding a value for `name`.
    pub fn insert(&mut self, name: &str) -> (res: Result<(), BbEcsError>)
        requires
            old(self).wf(),
            old(self).presence().contains_key(name@) ==> 0 < old(self).slot_count() <= old(
                self,
            ).presence()[name@].len(),
        ensures
            final(self).wf(),
            final(self).slot_count() == old(self).slot_count(),
            old(self).presence().contains_key(name@) ==> res is Ok && final(self).presence() == old(
                self,
            ).presence().insert(
                name@,
                old(self).presence()[name@].update(old(self).slot_count() - 1, true),
            ),
            !old(self).presence().contains_key(name@) ==> res == Err::<(), BbEcsError>(
                BbEcsError::BitMapInsertBeforeRegister,
            ) && final(self).presence() == old(self).presence(),
            old(self).aligned() ==> final(self).aligned(),
    {
        match self.entity_map.position(name) {
            Some(i) => {
                let last = self.length - 1;
                self.entity_map.values[i][last] = true;
                proof {
                    crate::table::lemma_update_is_insert(old(self).entity_map, self.entity_map, i as int);
                    assert(self.presence() =~= old(self).presence().insert(
                        name@,
                        old(self).presence()[name@].update(old(self).slot_count() - 1, true),
                    ));
                    if old(self).aligned() {
                        assert forall|n: Seq<char>| #[trigger]
                            self.presence().contains_key(n) implies self.presence()[n].len()
                            == self.slot_count() by {
                            assert(old(self).presence().contains_key(n));
                        }
                    }
                }
                Ok(())
            },
            None => Err(BbEcsError::BitMapInsertBeforeRegister),
        }
    }

    /// The presence vectors of the names asked for.
    pub fn query(&self, names: Vec<&str>) -> (res: Result<NameTable<&Vec<bool>>, BbEcsError>)
        requires
            self.wf(),
        ensures
            res is Ok <==> all_known(names@, self.presence()),
            res matches Ok(found) ==> {
                &&& found.wf()
                &&& forall|name: Seq<char>| found.contains(name) <==> names_hold(names@, name)
                &&& forall|name: Seq<char>| #[trigger]
                    found.contains(name) ==> found.value(name)@ == self.presence()[name]
            },
            res matches Err(e) ==> (e matches BbEcsError::ComponentNotFound(missing)
                && is_first_unknown(names@, self.presence(), missing@)),
    {
        let mut results: NameTable<&Vec<bool>> = NameTable::new();
        let mut k: usize = 0;
        while k < names.len()
            invariant
                k <= names@.len(),
                self.wf(),
                results.wf(),
                forall|j: int| 0 <= j < k ==> self.presence().contains_key(#[trigger] names@[j]@),
                forall|name: Seq<char>|
                    results.contains(name) <==> names_hold(names@.take(k as int), name),
                forall|name: Seq<char>| #[trigger]
                    results.contains(name) ==> results.value(name)@ == self.presence()[name],
            decreases names@.len() - k,
        {
            let name: &str = names[k];
            match self.entity_map.get(name) {
                Some(bits) => {
                    let ghost before = results;
                    results.insert(name.to_owned(), bits);
                    proof {
                        assert(names@.take(k + 1).drop_last() =~= names@.take(k as int));
                        assert forall|n: Seq<char>|
                            results.contains(n) <==> names_hold(names@.take(k + 1), n) by {
                            assert(results@.contains_key(n) <==> before@.contains_key(n) || n
                                == name@);
                            if names_hold(names@.take(k as int), n) {
                                let j = choose|j: int|
                                    0 <= j < k && #[trigger] names@.take(k as int)[j]@ == n;
                                assert(names@.take(k + 1)[j]@ == n);
                            }
                            if n == name@ {
                                assert(names@.take(k + 1)[k as int]@ == n);
                            }
                            if names_hold(names@.take(k + 1), n) {
                                let j = choose|j: int|
                                    0 <= j < k + 1 && #[trigger] names@.take(k + 1)[j]@ == n;
                                if j < k {
                                    assert(names@.take(k as int)[j]@ == n);
                                }
                            }
                        }
                        assert forall|n: Seq<char>| #[trigger] results.contains(n) implies results.value(
                            n,
                        )@ == self.presence()[n] by {
                            assert(results@.contains_key(n));
                            assert(results@[n] == results.value(n));
                            if n != name@ {
                                assert(before@.contains_key(n));
                                assert(before@[n] == before.value(n));
                            }
                        }
                    }
                },
                None => {
                    proof {
                        assert(first_unknown(names@, self.presence(), k as int));
                    }
                    return Err(BbEcsError::ComponentNotFound(name.to_owned()));
                },
            }
            k += 1;
        }
        proof {
            assert(names@.take(k as int) =~= names@);
        }
        Ok(results)
    }

    /// For every registered name, the physical indexes in that name's dense
    /// column of the values that the listed slots hold. A slot that has no
    /// value for a name contributes nothing to that name's list.
    pub fn calculate_component_indexes_to_delete(&self, entity_indexes: &[usize]) -> (res: Result<
        NameTable<Vec<usize>>,
        BbEcsError,
    >)
        requires
            self.wf(),
        ensures
            res is Err <==> exists|name: Seq<char>, k: int|
                self.presence().contains_key(name) && 0 <= k < entity_indexes@.len()
                    && #[trigger] entity_indexes@[k] >= #[trigger] self.presence()[name].len(),
            res matches Err(e) ==> e == BbEcsError::OutOfRangeInVector,
            res matches Ok(found) ==> {
                &&& found.wf()
                &&& forall|name: Seq<char>|
                    found.contains(name) <==> self.presence().contains_key(name)
                &&& forall|name: Seq<char>| #[trigger]
                    found.contains(name) ==> found.value(name)@ == translate(
                        self.presence()[name],
                        entity_indexes@,
                        entity_indexes@.len() as int,
                    )
            },
    {
        let mut found: NameTable<Vec<usize>> = NameTable::new();
        let mut i: usize = 0;
        while i < self.entity_map.names.len()
            invariant
                i <= self.entity_map.names@.len(),
                self.wf(),
                found.wf(),
                found.names@ == self.entity_map.names@.take(i as int),
                forall|j: int, k: int|
                    0 <= j < i && 0 <= k < entity_indexes@.len() ==> #[trigger] entity_indexes@[k]
                        < (#[trigger] self.entity_map.values@[j])@.len(),
                forall|j: int|
                    0 <= j < i ==> (#[trigger] found.values@[j])@ == translate(
                        self.entity_map.values@[j]@,
                        entity_indexes@,
                        entity_indexes@.len() as int,
                    ),
            decreases self.entity_map.names@.len() - i,
        {
            let bits = &self.entity_map.values[i];
            let mut indexes_to_delete: Vec<usize> = Vec::new();
            let mut k: usize = 0;
            while k < entity_indexes.len()
                invariant
                    k <= entity_indexes@.len(),
                    self.wf(),
                    i < self.entity_map.names@.len(),
                    *bits == self.entity_map.values@[i as int],
                    forall|m: int| 0 <= m < k ==> #[trigger] entity_indexes@[m] < bits@.len(),
                    indexes_to_delete@ == translate(bits@, entity_indexes@, k as int),
                decreases entity_indexes@.len() - k,
            {
                let entity_index = entity_indexes[k];
                match self.count_falses_before_index(bits.as_slice(), entity_index) {
                    Ok(falses) => {
                        proof {
                            lemma_rank_bounds(bits@, entity_index as int);
                        }
                        if bits[entity_index] {
                            indexes_to_delete.push(entity_index - falses);
                        }
                    },
                    Err(e) => {
                        proof {
                            let name = self.entity_map.names@[i as int]@;
                            crate::table::lemma_position_of_unique(self.entity_map.names@, i as int);
                            assert(self.presence().contains_key(name));
                            assert(entity_indexes@[k as int] >= self.presence()[name].len());
                        }
                        return Err(e);
                    },
                }
                k += 1;
            }
            let ghost before = found;
            proof {
                assert(!before.contains(self.entity_map.names@[i as int]@)) by {
                    if before.contains(self.entity_map.names@[i as int]@) {
                        let j = crate::table::position_of(
                            before.names@,
                            self.entity_map.names@[i as int]@,
                        );
                        assert(self.entity_map.names@[j]@ == self.entity_map.names@[i as int]@);
                    }
                }
            }
            found.insert(self.entity_map.names[i].clone(), indexes_to_delete);
            proof {
                assert(found.names@ =~= self.entity_map.names@.take(i + 1));
            }
            i += 1;
        }
        proof {
            assert(self.entity_map.names@.take(i as int) =~= self.entity_map.names@);
            assert forall|name: Seq<char>| #[trigger] found.contains(name) implies found.value(name)@
                == translate(
                self.presence()[name],
                entity_indexes@,
                entity_indexes@.len() as int,
            ) by {
                let j = crate::table::position_of(found.names@, name);
                assert(found.names@[j]@ == name);
                assert(found.values@[j]@ == translate(
                    self.entity_map.values@[j]@,
                    entity_indexes@,
                    entity_indexes@.len() as int,
                ));
            }
            assert forall|name: Seq<char>, k: int|
                self.presence().contains_key(name) && 0 <= k < entity_indexes@.len() implies !(
                #[trigger] entity_indexes@[k] >= #[trigger] self.presence()[name].len()) by {
                let j = crate::table::position_of(self.entity_map.names@, name);
                assert(self.entity_map.names@[j]@ == name);
                assert(entity_indexes@[k] < self.entity_map.values@[j]@.len());
            }
        }
        Ok(found)
    }

    /// Removes the listed slots from every presence vector. The slots are
    /// taken from the highest to the lowest, so that no removal moves a slot
    /// that is still to be removed.
    pub fn delete_entities_by_index(&mut self, entity_indexes: Vec<usize>) -> (res: Result<
        (),
        BbEcsError,
    >)
        requires
            old(self).wf(),
            entity_indexes@.len() <= old(self).slot_count(),
            forall|name: Seq<char>| #[trigger]
                old(self).presence().contains_key(name) ==> ascending_below(
                    entity_indexes@,
                    old(self).presence()[name].len() as int,
                ),
        ensures
            res is Ok,
            final(self).wf(),
            final(self).slot_count() == old(self).slot_count() - entity_indexes@.len(),
            final(self).presence().dom() == old(self).presence().dom(),
            forall|name: Seq<char>| #[trigger]
                old(self).presence().contains_key(name) ==> final(self).presence()[name] == pick(
                    old(self).presence()[name],
                    keep_mask(entity_indexes@, old(self).presence()[name].len() as int),
                    old(self).presence()[name].len() as int,
                ),
            old(self).aligned() ==> final(self).aligned(),
    {
        let mut i: usize = 0;
        while i < self.entity_map.values.len()
            invariant
                i <= self.entity_map.values@.len(),
                old(self).wf(),
                self.length == old(self).length,
                self.entity_map.names@ == old(self).entity_map.names@,
                self.entity_map.values@.len() == old(self).entity_map.values@.len(),
                forall|name: Seq<char>| #[trigger]
                    old(self).presence().contains_key(name) ==> ascending_below(
                        entity_indexes@,
                        old(self).presence()[name].len() as int,
                    ),
                forall|j: int|
                    0 <= j < i ==> (#[trigger] self.entity_map.values@[j])@ == pick(
                        old(self).entity_map.values@[j]@,
                        keep_mask(entity_indexes@, old(self).entity_map.values@[j]@.len() as int),
                        old(self).entity_map.values@[j]@.len() as int,
                    ),
                forall|j: int|
                    i <= j < self.entity_map.values@.len() ==> #[trigger] self.entity_map.values@[j]
                        == old(self).entity_map.values@[j],
            decreases self.entity_map.values@.len() - i,
        {
            proof {
                let name = old(self).entity_map.names@[i as int]@;
                crate::table::lemma_position_of_unique(old(self).entity_map.names@, i as int);
                assert(old(self).presence().contains_key(name));
            }
            remove_ascending(&mut self.entity_map.values[i], &entity_indexes);
            i += 1;
        }
        self.length -= entity_indexes.len();
        proof {
            assert(self.presence().dom() =~= old(self).presence().dom());
            if old(self).aligned() {
                assert forall|name: Seq<char>| #[trigger]
                    self.presence().contains_key(name) implies self.presence()[name].len()
                    == self.slot_count() by {
                    assert(old(self).presence().contains_key(name));
                    let bits = old(self).presence()[name];
                    let n = bits.len() as int;
                    lemma_pick_len(bits, keep_mask(entity_indexes@, n), n);
                    lemma_keep_mask_count(entity_indexes@, n);
                }
            }
        }
        Ok(())
    }

    /// The number of clear bits of `components` before `index`.
    pub fn count_falses_before_index(&self, components: &[bool], index: usize) -> (res: Result<
        usize,
        BbEcsError,
    >)
        ensures
            index >= components@.len() ==> res == Err::<usize, BbEcsError>(
                BbEcsError::OutOfRangeInVector,
            ),
            index < components@.len() ==> res == Ok::<usize, BbEcsError>(
                falses_before(components@, index as int) as usize,
            ) && falses_before(components@, index as int) <= index,
    {
        if index >= components.len() {
            return Err(BbEcsError::OutOfRangeInVector);
        }
        let mut total_falses: usize = 0;
        let mut i: usize = 0;
        while i < index
            invariant
                i <= index < components@.len(),
                total_falses == falses_before(components@, i as int),
                total_falses <= i,
            decreases index - i,
        {
            if !components[i] {
                total_falses += 1;
            }
            i += 1;
        }
        Ok(total_falses)
    }
}

} // verus!
