use crate::dense::{listed, pick};
use crate::entities::{clones_of, listed_mask, Entities};
use crate::errors::Errors;
use crate::type_key::type_id_of;
use core::any::TypeId;
use vstd::prelude::*;

verus! {

/// What a query hands back: for every type asked for, one component per
/// entity found.
pub type QueryResult<C> = Vec<Vec<C>>;

/// A query for the entities that have a component of every type of a list.
pub struct Query<'a, C> {
    pub type_ids: Vec<TypeId>,
    pub indexes: Vec<usize>,
    pub entities: &'a Entities<C>,
}

/// The numbers below `n` of the entities that have a component of every type
/// of `type_ids`, in increasing order.
pub open spec fn matching<C>(entities: &Entities<C>, type_ids: Seq<TypeId>, n: int) -> Seq<usize>
    decreases n,
{
    if n <= 0 {
        Seq::empty()
    } else if entities.has_all(type_ids, n - 1) {
        matching(entities, type_ids, n - 1).push((n - 1) as usize)
    } else {
        matching(entities, type_ids, n - 1)
    }
}

impl<'a, C> Query<'a, C> {
    /// The entities that the query is about.
    pub open spec fn entities(&self) -> &Entities<C> {
        self.entities
    }

    /// A query about `entities` that asks for no type yet.
    pub fn new(entities: &'a Entities<C>) -> (query: Self)
        ensures
            query.type_ids@.len() == 0,
            query.indexes@.len() == 0,
            query.entities() == entities,
    {
        Self { type_ids: Vec::new(), indexes: Vec::new(), entities }
    }

    /// Asks for one more component type, given by its identifier.
    pub fn with_type_id(self, type_id: TypeId) -> (query: Self)
        ensures
            query.type_ids@ == self.type_ids@.push(type_id),
            query.indexes == self.indexes,
            query.entities() == self.entities(),
    {
        let mut query = self;
        query.type_ids.push(type_id);
        query
    }

    /// Asks for one more component type: the type `T`.
    pub fn with_component<T: 'static>(self) -> (query: Self)
        ensures
            query.type_ids@.len() == self.type_ids@.len() + 1,
            query.type_ids@.drop_last() == self.type_ids@,
            query.indexes == self.indexes,
            query.entities() == self.entities(),
    {
        let ghost before = self.type_ids@;
        let query = self.with_type_id(type_id_of::<T>());
        assert(query.type_ids@.drop_last() =~= before);
        query
    }
}

impl<'a, C: Clone> Query<'a, C> {
    /// Finds the entities that have a component of every type asked for, and
    /// hands back their numbers and, for every type, a clone of each one's
    /// component. Fails with `ComponentNotFound` where a type asked for is
    /// not known to the store.
    pub fn run(self) -> (res: Result<(Vec<usize>, QueryResult<C>), Errors>)
        requires
            self.entities().wf(),
            forall|p: int|
                0 <= p < self.entities().count() && #[trigger] listed(self.indexes@, p)
                    ==> self.entities().has_all(self.type_ids@, p),
        ensures
            res is Ok <==> forall|t: int|
                0 <= t < self.type_ids@.len() ==> self.entities().type_ids@.contains(
                    #[trigger] self.type_ids@[t],
                ),
            res matches Err(e) ==> e == Errors::ComponentNotFound,
            res matches Ok((indexes, result)) ==> {
                &&& indexes@ == self.indexes@ + matching(
                    self.entities(),
                    self.type_ids@,
                    self.entities().count() as int,
                )
                &&& result@.len() == self.type_ids@.len()
                &&& forall|t: int|
                    0 <= t < self.type_ids@.len() ==> clones_of(
                        pick(
                            self.entities().components@[self.entities().number_of(
                                self.type_ids@[t],
                            )]@,
                            listed_mask(indexes@, self.entities().count() as int),
                            self.entities().count() as int,
                        ),
                        (#[trigger] result@[t])@,
                    )
            },
    {
        let ghost start = self.indexes@;
        let ghost type_ids = self.type_ids@;
        let entities = self.entities;
        let mut query = self;
        let mut index: usize = 0;
        while index < entities.bitmask.len()
            invariant
                index <= entities.bitmask@.len(),
                entities.wf(),
                entities == query.entities(),
                query.type_ids@ == type_ids,
                query.indexes@ == start + matching(entities, type_ids, index as int),
            decreases entities.bitmask@.len() - index,
        {
            let entity_bitmask = entities.bitmask[index];
            let mut has_component = true;
            let mut t: usize = 0;
            while t < query.type_ids.len()
                invariant_except_break
                    has_component,
                    forall|s: int|
                        0 <= s < t ==> entities.contains_type(
                            #[trigger] type_ids[s],
                            entity_bitmask,
                        ),
                invariant
                    t <= query.type_ids@.len(),
                    entities.wf(),
                    query.type_ids@ == type_ids,
                    index < entities.bitmask@.len(),
                    entity_bitmask == entities.bitmask@[index as int],
                ensures
                    has_component == entities.has_all(type_ids, index as int),
                decreases query.type_ids@.len() - t,
            {
                if !entities.entity_contains(&query.type_ids[t], entity_bitmask) {
                    has_component = false;
                    break;
                }
                t += 1;
            }
            if has_component {
                query.indexes.push(index);
                assert(query.indexes@ =~= start + matching(entities, type_ids, index + 1));
            }
            index += 1;
        }
        proof {
            assert forall|t: int, p: int|
                0 <= t < type_ids.len() && entities.type_ids@.contains(type_ids[t]) && 0 <= p
                    < entities.count() && #[trigger] listed(query.indexes@, p) implies (
            #[trigger] entities.components@[entities.number_of(type_ids[t])])@[p] is Some by {
                lemma_listed_matches(entities, type_ids, start, entities.count() as int, p);
                assert(entities.has_all(type_ids, p));
                assert(entities.contains_type(type_ids[t], entities.bitmask@[p]));
                let i = choose|i: int|
                    0 <= i < entities.type_ids@.len() && #[trigger] entities.type_ids@[i]
                        == type_ids[t] && crate::entities::has_bits(
                        entities.bitmask@[p],
                        entities.masks()[i],
                    );
                assert(entities.type_ids@.index_of(type_ids[t]) == i);
                assert(entities.has(p, i));
            }
        }
        let indexes = query.indexes.clone();
        assert(indexes@ =~= query.indexes@);
        match entities.run_query(query) {
            Ok(result) => Ok((indexes, result)),
            Err(e) => Err(e),
        }
    }
}

/// Every entity number that `matching` lists has a component of every type
/// asked for.
pub proof fn lemma_listed_matches<C>(
    entities: &Entities<C>,
    type_ids: Seq<TypeId>,
    start: Seq<usize>,
    n: int,
    p: int,
)
    requires
        0 <= n <= usize::MAX,
        0 <= p,
        listed(start + matching(entities, type_ids, n), p),
        !listed(start, p) || entities.has_all(type_ids, p),
    ensures
        entities.has_all(type_ids, p),
{
    lemma_matching_members(entities, type_ids, n);
    let all = start + matching(entities, type_ids, n);
    let k = choose|k: int| 0 <= k < all.len() && #[trigger] all[k] as int == p;
    if k < start.len() {
        assert(start[k] as int == p);
    } else {
        assert(matching(entities, type_ids, n)[k - start.len()] as int == p);
    }
}

/// `matching` lists entity numbers below `n` that have every type asked for.
pub proof fn lemma_matching_members<C>(entities: &Entities<C>, type_ids: Seq<TypeId>, n: int)
    requires
        0 <= n <= usize::MAX,
    ensures
        forall|k: int|
            0 <= k < matching(entities, type_ids, n).len() ==> entities.has_all(
                type_ids,
                #[trigger] matching(entities, type_ids, n)[k] as int,
            ) && matching(entities, type_ids, n)[k] < n,
    decreases n,
{
    if n > 0 {
        lemma_matching_members(entities, type_ids, n - 1);
        let before = matching(entities, type_ids, n - 1);
        let now = matching(entities, type_ids, n);
        assert forall|k: int| 0 <= k < now.len() implies entities.has_all(
            type_ids,
            #[trigger] now[k] as int,
        ) && now[k] < n by {
            if k < before.len() {
                assert(now[k] == before[k]);
                assert(entities.has_all(type_ids, before[k] as int));
            }
        }
    }
}

} // verus!
