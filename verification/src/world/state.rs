use crate::components::ComponentData;
use crate::dense::{
    count_true, gather, lemma_count_true_push, lemma_count_true_set,
    lemma_gather_full_presence, lemma_gather_len, lemma_pick_len, lemma_pick_source,
    lemma_rank_all, lemma_rank_bounds, lemma_rank_monotone, pick, rank,
};
use vstd::prelude::*;

verus! {

/// The name of the component that holds an entity's id.
pub const ENTITY_ID: &'static str = "entity id";

/// The name of the component that marks an entity for removal.
pub const TO_BE_DELETED: &'static str = "to be deleted";

/// The reserved name [`ENTITY_ID`] as a sequence of characters.
pub open spec fn entity_id() -> Seq<char> {
    ENTITY_ID@
}

/// The reserved name [`TO_BE_DELETED`] as a sequence of characters.
pub open spec fn to_be_deleted() -> Seq<char> {
    TO_BE_DELETED@
}

/// The two reserved names differ.
pub proof fn lemma_reserved_names_differ()
    ensures
        entity_id() != to_be_deleted(),
{
    reveal_strlit("entity id");
    reveal_strlit("to be deleted");
    assert(entity_id().len() == 9);
    assert(to_be_deleted().len() == 13);
}

/// What a world holds, as mathematics: the presence vector and the dense
/// column of every registered name, the number of entity slots, and the id
/// that the next entity gets.
pub struct WorldView {
    pub presence: Map<Seq<char>, Seq<bool>>,
    pub columns: Map<Seq<char>, Seq<ComponentData>>,
    pub slots: nat,
    pub next_id: nat,
}

impl WorldView {
    /// Whether `name` is a registered component name.
    pub open spec fn registered(self, name: Seq<char>) -> bool {
        self.columns.contains_key(name)
    }

    /// Every presence vector has one entry per slot.
    pub open spec fn aligned(self) -> bool {
        forall|name: Seq<char>| #[trigger]
            self.presence.contains_key(name) ==> self.presence[name].len() == self.slots
    }

    /// Every column holds exactly one value per set bit of its presence vector.
    pub open spec fn dense(self) -> bool {
        forall|name: Seq<char>| #[trigger]
            self.columns.contains_key(name) ==> self.columns[name].len() == count_true(
                self.presence[name],
            )
    }

    /// The id of the entity in slot `slot`.
    pub open spec fn id_at(self, slot: int) -> u32 {
        self.columns[entity_id()][slot]->U32_0
    }

    /// Whether the entity in slot `slot` is marked for removal.
    pub open spec fn doomed(self, slot: int) -> bool {
        self.columns[to_be_deleted()][slot] == ComponentData::Bool(true)
    }

    /// Every slot has an id and a removal flag; the ids grow from slot to
    /// slot and lie below the id that the next entity gets.
    pub open spec fn reserved_columns_sound(self) -> bool {
        &&& self.registered(entity_id())
        &&& self.registered(to_be_deleted())
        &&& forall|slot: int|
            0 <= slot < self.slots ==> #[trigger] self.presence[entity_id()][slot]
        &&& forall|slot: int|
            0 <= slot < self.slots ==> #[trigger] self.presence[to_be_deleted()][slot]
        &&& forall|slot: int|
            0 <= slot < self.slots ==> #[trigger] self.columns[to_be_deleted()][slot] is Bool
        &&& forall|slot: int|
            0 <= slot < self.slots ==> #[trigger] self.columns[entity_id()][slot] is U32
                && self.id_at(slot) < self.next_id
        &&& forall|a: int, b: int|
            0 <= a < b < self.slots ==> #[trigger] self.id_at(a) < #[trigger] self.id_at(b)
    }

    /// The invariant of a world.
    pub open spec fn inv(self) -> bool {
        &&& self.presence.dom() == self.columns.dom()
        &&& self.aligned()
        &&& self.dense()
        &&& self.reserved_columns_sound()
    }

    /// The world in which only the two reserved names are registered, with no
    /// slot, whose first entity gets the id 0.
    pub open spec fn empty() -> WorldView {
        WorldView {
            presence: Map::<Seq<char>, Seq<bool>>::empty().insert(
                to_be_deleted(),
                Seq::empty(),
            ).insert(entity_id(), Seq::empty()),
            columns: Map::<Seq<char>, Seq<ComponentData>>::empty().insert(
                to_be_deleted(),
                Seq::empty(),
            ).insert(entity_id(), Seq::empty()),
            slots: 0,
            next_id: 0,
        }
    }

    /// The value that slot `slot` holds for `name`, if it holds one.
    pub open spec fn component(self, name: Seq<char>, slot: int) -> Option<ComponentData> {
        if self.registered(name) && 0 <= slot < self.slots && self.presence[name][slot] {
            Some(self.columns[name][rank(self.presence[name], slot)])
        } else {
            None
        }
    }

    /// The world after `name`, which was not registered, has been registered.
    pub open spec fn register(self, name: Seq<char>) -> WorldView {
        WorldView {
            presence: self.presence.insert(name, Seq::empty()),
            columns: self.columns.insert(name, Seq::empty()),
            ..self
        }
    }

    /// The world after one more entity has been spawned: a new last slot that
    /// holds the next id and a clear removal flag, and nothing else.
    pub open spec fn spawn(self) -> WorldView {
        WorldView {
            presence: Map::new(
                |name: Seq<char>| self.presence.contains_key(name),
                |name: Seq<char>|
                    self.presence[name].push(name == entity_id() || name == to_be_deleted()),
            ),
            columns: self.columns.insert(
                to_be_deleted(),
                self.columns[to_be_deleted()].push(ComponentData::Bool(false)),
            ).insert(
                entity_id(),
                self.columns[entity_id()].push(ComponentData::U32(self.next_id as u32)),
            ),
            slots: self.slots + 1,
            next_id: self.next_id + 1,
        }
    }

    /// The world after the last slot has been given `value` for the registered
    /// name `name`.
    pub open spec fn with_component(self, name: Seq<char>, value: ComponentData) -> WorldView {
        WorldView {
            presence: self.presence.insert(
                name,
                self.presence[name].update(self.slots - 1, true),
            ),
            columns: self.columns.insert(name, self.columns[name].push(value)),
            ..self
        }
    }

    /// The world after every entity whose id is `id` has been marked for
    /// removal.
    pub open spec fn delete_by_id(self, id: u32) -> WorldView {
        WorldView {
            columns: self.columns.insert(
                to_be_deleted(),
                Seq::new(
                    self.columns[to_be_deleted()].len(),
                    |slot: int|
                        if self.columns[entity_id()][slot] == ComponentData::U32(id) {
                            ComponentData::Bool(true)
                        } else {
                            self.columns[to_be_deleted()][slot]
                        },
                ),
            ),
            ..self
        }
    }

    /// The world after the value at place `index` of the column of `name` has
    /// been replaced by `value`.
    pub open spec fn replace(self, name: Seq<char>, index: int, value: ComponentData) -> WorldView {
        WorldView { columns: self.columns.insert(name, self.columns[name].update(index, value)), ..self }
    }

    /// The mask that selects the slots that are not marked for removal.
    pub open spec fn survivors(self) -> Seq<bool> {
        Seq::new(self.slots, |slot: int| !self.doomed(slot))
    }

    /// The world after the sweep: the slots marked for removal are gone from
    /// every presence vector, and their values from every column.
    pub open spec fn update(self) -> WorldView {
        WorldView {
            presence: Map::new(
                |name: Seq<char>| self.presence.contains_key(name),
                |name: Seq<char>| pick(self.presence[name], self.survivors(), self.slots as int),
            ),
            columns: Map::new(
                |name: Seq<char>| self.columns.contains_key(name),
                |name: Seq<char>|
                    gather(
                        self.columns[name],
                        self.presence[name],
                        self.survivors(),
                        self.slots as int,
                    ),
            ),
            slots: count_true(self.survivors()) as nat,
            next_id: self.next_id,
        }
    }

    /// The mask that selects the slots that hold a value for every name of
    /// `names`.
    pub open spec fn having_all(self, names: Seq<Seq<char>>) -> Seq<bool> {
        Seq::new(
            self.slots,
            |slot: int|
                forall|k: int| 0 <= k < names.len() ==> self.presence[#[trigger] names[k]][slot],
        )
    }

    /// The answer to a query for `names`: for each of the names the values of
    /// the slots that hold a value for every one of them, in slot order.
    pub open spec fn query(self, names: Seq<Seq<char>>) -> Map<Seq<char>, Seq<ComponentData>> {
        Map::new(
            |name: Seq<char>| names.contains(name),
            |name: Seq<char>|
                gather(
                    self.columns[name],
                    self.presence[name],
                    self.having_all(names),
                    self.slots as int,
                ),
        )
    }
}

/// The empty world satisfies the invariant.
pub proof fn lemma_empty_inv()
    ensures
        WorldView::empty().inv(),
{
    let w = WorldView::empty();
    assert(w.presence.dom() =~= w.columns.dom());
}

/// Registering a new name in a world without slots keeps the invariant.
pub proof fn lemma_register_keeps_inv(w: WorldView, name: Seq<char>)
    requires
        w.inv(),
        !w.registered(name),
        w.slots == 0,
    ensures
        w.register(name).inv(),
{
    let after = w.register(name);
    assert(after.presence.dom() =~= after.columns.dom());
    assert(after.aligned()) by {
        assert forall|n: Seq<char>| #[trigger] after.presence.contains_key(n) implies after.presence[n].len()
            == after.slots by {
            if n != name {
                assert(w.presence.contains_key(n));
            }
        }
    }
    assert(after.dense()) by {
        assert forall|n: Seq<char>| #[trigger] after.columns.contains_key(n) implies after.columns[n].len()
            == count_true(after.presence[n]) by {
            if n != name {
                assert(w.columns.contains_key(n));
            }
        }
    }
}

/// Spawning keeps the invariant, as long as the next id is a `u32`.
pub proof fn lemma_spawn_keeps_inv(w: WorldView)
    requires
        w.inv(),
        w.next_id <= u32::MAX,
    ensures
        w.spawn().inv(),
{
    let after = w.spawn();
    lemma_reserved_names_differ();
    assert(after.presence.dom() =~= after.columns.dom());
    assert(w.presence.contains_key(entity_id()));
    assert(w.presence.contains_key(to_be_deleted()));
    lemma_rank_all(w.presence[entity_id()], w.slots as int);
    lemma_rank_all(w.presence[to_be_deleted()], w.slots as int);
    assert(after.dense()) by {
        assert forall|n: Seq<char>| #[trigger] after.columns.contains_key(n) implies after.columns[n].len()
            == count_true(after.presence[n]) by {
            assert(w.columns.contains_key(n));
            assert(w.presence.contains_key(n));
            lemma_count_true_push(w.presence[n], n == entity_id() || n == to_be_deleted());
        }
    }
    assert(after.reserved_columns_sound()) by {
        assert forall|a: int, b: int| 0 <= a < b < after.slots implies #[trigger] after.id_at(a)
            < #[trigger] after.id_at(b) by {
            if b < w.slots {
                assert(w.id_at(a) < w.id_at(b));
            } else {
                assert(w.columns[entity_id()][a] is U32 && w.id_at(a) < w.next_id);
            }
        }
        assert forall|slot: int| 0 <= slot < after.slots implies #[trigger] after.columns[entity_id()][slot] is U32
            && after.id_at(slot) < after.next_id by {
            if slot < w.slots {
                assert(w.columns[entity_id()][slot] is U32 && w.id_at(slot) < w.next_id);
            }
        }
        assert forall|slot: int| 0 <= slot < after.slots implies #[trigger] after.columns[to_be_deleted()][slot] is Bool by {
            if slot < w.slots {
                assert(w.columns[to_be_deleted()][slot] is Bool);
            }
        }
        assert forall|slot: int| 0 <= slot < after.slots implies #[trigger] after.presence[entity_id()][slot] by {
            if slot < w.slots {
                assert(w.presence[entity_id()][slot]);
            }
        }
        assert forall|slot: int| 0 <= slot < after.slots implies #[trigger] after.presence[to_be_deleted()][slot] by {
            if slot < w.slots {
                assert(w.presence[to_be_deleted()][slot]);
            }
        }
    }
}

/// Giving the last slot a value for a name that it has no value for keeps the
/// invariant.
pub proof fn lemma_with_component_keeps_inv(w: WorldView, name: Seq<char>, value: ComponentData)
    requires
        w.inv(),
        w.registered(name),
        w.slots > 0,
        !w.presence[name][w.slots - 1],
    ensures
        w.with_component(name, value).inv(),
{
    let after = w.with_component(name, value);
    let last = w.slots - 1;
    assert(w.presence.contains_key(name));
    assert(w.presence[entity_id()][last]);
    assert(w.presence[to_be_deleted()][last]);
    assert(after.presence.dom() =~= after.columns.dom());
    assert(after.dense()) by {
        assert forall|n: Seq<char>| #[trigger] after.columns.contains_key(n) implies after.columns[n].len()
            == count_true(after.presence[n]) by {
            assert(w.columns.contains_key(n));
            if n == name {
                lemma_count_true_set(w.presence[name], last);
            }
        }
    }
    assert(after.reserved_columns_sound()) by {
        assert forall|a: int, b: int| 0 <= a < b < after.slots implies #[trigger] after.id_at(a)
            < #[trigger] after.id_at(b) by {
            assert(w.id_at(a) < w.id_at(b));
        }
    }
}

/// Marking entities for removal keeps the invariant.
pub proof fn lemma_delete_by_id_keeps_inv(w: WorldView, id: u32)
    requires
        w.inv(),
    ensures
        w.delete_by_id(id).inv(),
{
    let after = w.delete_by_id(id);
    lemma_reserved_names_differ();
    assert(w.presence.contains_key(to_be_deleted()));
    lemma_rank_all(w.presence[to_be_deleted()], w.slots as int);
    assert(after.presence.dom() =~= after.columns.dom());
    assert(after.dense()) by {
        assert forall|n: Seq<char>| #[trigger] after.columns.contains_key(n) implies after.columns[n].len()
            == count_true(after.presence[n]) by {
            assert(w.columns.contains_key(n));
        }
    }
    assert(after.reserved_columns_sound()) by {
        assert forall|a: int, b: int| 0 <= a < b < after.slots implies #[trigger] after.id_at(a)
            < #[trigger] after.id_at(b) by {
            assert(w.id_at(a) < w.id_at(b));
        }
        assert forall|slot: int| 0 <= slot < after.slots implies #[trigger] after.columns[to_be_deleted()][slot] is Bool by {
            assert(w.columns[to_be_deleted()][slot] is Bool);
        }
    }
}

/// Replacing a value of a component other than the id and the removal flag
/// keeps the invariant.
pub proof fn lemma_replace_keeps_inv(w: WorldView, name: Seq<char>, index: int, value: ComponentData)
    requires
        w.inv(),
        w.registered(name),
        0 <= index < w.columns[name].len(),
        name != entity_id(),
        name != to_be_deleted(),
    ensures
        w.replace(name, index, value).inv(),
{
    let after = w.replace(name, index, value);
    assert(after.presence.dom() =~= after.columns.dom());
    assert(after.dense()) by {
        assert forall|n: Seq<char>| #[trigger] after.columns.contains_key(n) implies after.columns[n].len()
            == count_true(after.presence[n]) by {
            assert(w.columns.contains_key(n));
        }
    }
    assert(after.reserved_columns_sound()) by {
        assert forall|a: int, b: int| 0 <= a < b < after.slots implies #[trigger] after.id_at(a)
            < #[trigger] after.id_at(b) by {
            assert(w.id_at(a) < w.id_at(b));
        }
    }
}

/// The sweep keeps the invariant.
pub proof fn lemma_update_keeps_inv(w: WorldView)
    requires
        w.inv(),
    ensures
        w.update().inv(),
{
    let after = w.update();
    let keep = w.survivors();
    let n = w.slots as int;
    let ids = w.columns[entity_id()];
    let flags = w.columns[to_be_deleted()];
    lemma_reserved_names_differ();
    lemma_rank_bounds(keep, n);
    assert(w.presence.contains_key(entity_id()));
    assert(w.presence.contains_key(to_be_deleted()));
    assert(after.presence.dom() =~= after.columns.dom());
    assert(after.aligned()) by {
        assert forall|name: Seq<char>| #[trigger] after.presence.contains_key(name) implies after.presence[name].len()
            == after.slots by {
            lemma_pick_len(w.presence[name], keep, n);
        }
    }
    assert(after.dense()) by {
        assert forall|name: Seq<char>| #[trigger] after.columns.contains_key(name) implies after.columns[name].len()
            == count_true(after.presence[name]) by {
            assert(w.presence.contains_key(name));
            lemma_gather_len(w.columns[name], w.presence[name], keep, n);
        }
    }
    lemma_gather_full_presence(ids, w.presence[entity_id()], keep, n);
    lemma_gather_full_presence(flags, w.presence[to_be_deleted()], keep, n);
    lemma_pick_len(ids, keep, n);
    lemma_pick_len(flags, keep, n);
    lemma_pick_len(w.presence[entity_id()], keep, n);
    lemma_pick_len(w.presence[to_be_deleted()], keep, n);
    assert(after.reserved_columns_sound()) by {
        assert forall|slot: int| 0 <= slot < after.slots implies #[trigger] after.presence[entity_id()][slot] by {
            let i = lemma_pick_source(w.presence[entity_id()], keep, n, slot);
            assert(w.presence[entity_id()][i]);
        }
        assert forall|slot: int| 0 <= slot < after.slots implies #[trigger] after.presence[to_be_deleted()][slot] by {
            let i = lemma_pick_source(w.presence[to_be_deleted()], keep, n, slot);
            assert(w.presence[to_be_deleted()][i]);
        }
        assert forall|slot: int| 0 <= slot < after.slots implies #[trigger] after.columns[to_be_deleted()][slot] is Bool by {
            let i = lemma_pick_source(flags, keep, n, slot);
            assert(w.columns[to_be_deleted()][i] is Bool);
        }
        assert forall|slot: int| 0 <= slot < after.slots implies #[trigger] after.columns[entity_id()][slot] is U32
            && after.id_at(slot) < after.next_id by {
            let i = lemma_pick_source(ids, keep, n, slot);
            assert(w.columns[entity_id()][i] is U32 && w.id_at(i) < w.next_id);
        }
        assert forall|a: int, b: int| 0 <= a < b < after.slots implies #[trigger] after.id_at(a)
            < #[trigger] after.id_at(b) by {
            let i = lemma_pick_source(ids, keep, n, a);
            let j = lemma_pick_source(ids, keep, n, b);
            if j <= i {
                lemma_rank_monotone(keep, j, i);
            }
            assert(w.id_at(i) < w.id_at(j));
        }
    }
}

} // verus!
