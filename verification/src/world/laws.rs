use crate::components::ComponentData;
use crate::dense::{
    count_true, lemma_gather_all, lemma_gather_full_presence, lemma_gather_index,
    lemma_gather_len, lemma_pick_all, lemma_pick_index, lemma_pick_len, lemma_pick_source,
    lemma_rank_all, lemma_rank_bounds, lemma_rank_set, pick, rank,
};
use crate::world::state::{
    entity_id, lemma_reserved_names_differ, lemma_update_keeps_inv, to_be_deleted, WorldView,
};
use vstd::prelude::*;

verus! {

/// One thing that happens to a world.
pub enum Step {
    /// A component name is registered.
    Register(Seq<char>),
    /// An entity is spawned.
    Spawn,
    /// The entity spawned last is given a value for a component.
    Attach(Seq<char>, ComponentData),
    /// The entities with an id are marked for removal.
    DeleteById(u32),
    /// The sweep.
    Update,
}

/// The world after `step`. Registering a name that is registered, and giving
/// a value for a name that is not registered or in a world without entities,
/// change nothing.
pub open spec fn apply(w: WorldView, step: Step) -> WorldView {
    match step {
        Step::Register(name) => if w.registered(name) {
            w
        } else {
            w.register(name)
        },
        Step::Spawn => w.spawn(),
        Step::Attach(name, value) => if w.registered(name) && w.slots > 0 {
            w.with_component(name, value)
        } else {
            w
        },
        Step::DeleteById(id) => w.delete_by_id(id),
        Step::Update => w.update(),
    }
}

/// The world after the steps of `steps`, the first of them first.
pub open spec fn run(w: WorldView, steps: Seq<Step>) -> WorldView
    decreases steps.len(),
{
    if steps.len() == 0 {
        w
    } else {
        apply(run(w, steps.drop_last()), steps.last())
    }
}

/// The same names have a presence vector and a column, the reserved names
/// among them, and every presence vector has one entry per slot.
pub open spec fn well_shaped(w: WorldView) -> bool {
    &&& w.presence.dom() == w.columns.dom()
    &&& w.registered(entity_id())
    &&& w.registered(to_be_deleted())
    &&& w.aligned()
}

/// Whether every registration among `steps` happens in a world that has no
/// entity slot.
pub open spec fn registers_first(w: WorldView, steps: Seq<Step>) -> bool
    decreases steps.len(),
{
    steps.len() == 0 || (registers_first(w, steps.drop_last()) && (steps.last() is Register ==> run(
        w,
        steps.drop_last(),
    ).slots == 0))
}

/// No step changes the shape of a world, but a registration in a world that
/// has entity slots.
pub proof fn lemma_step_keeps_shape(w: WorldView, step: Step)
    requires
        well_shaped(w),
        step is Register ==> w.slots == 0,
    ensures
        well_shaped(apply(w, step)),
{
    let after = apply(w, step);
    match step {
        Step::Register(name) => {
            if !w.registered(name) {
                assert(after.presence.dom() =~= after.columns.dom());
                assert forall|n: Seq<char>| #[trigger]
                    after.presence.contains_key(n) implies after.presence[n].len()
                    == after.slots by {
                    if n != name {
                        assert(w.presence.contains_key(n));
                    }
                }
            }
        },
        Step::Spawn => {
            assert(after.presence.dom() =~= after.columns.dom());
        },
        Step::Attach(name, value) => {
            if w.registered(name) && w.slots > 0 {
                assert(w.presence.contains_key(name));
                assert(after.presence.dom() =~= after.columns.dom());
            }
        },
        Step::DeleteById(id) => {
            assert(after.presence.dom() =~= after.columns.dom());
        },
        Step::Update => {
            assert(after.presence.dom() =~= after.columns.dom());
            lemma_rank_bounds(w.survivors(), w.slots as int);
            assert forall|name: Seq<char>| #[trigger]
                after.presence.contains_key(name) implies after.presence[name].len()
                == after.slots by {
                lemma_pick_len(w.presence[name], w.survivors(), w.slots as int);
            }
        },
    }
}

/// The presence vectors stay aligned. After any sequence of registrations,
/// spawns, values given, marks for removal and sweeps, in which every
/// registration comes before the first entity, every registered name has a
/// presence vector with exactly one entry per entity slot.
pub proof fn lemma_presence_stays_aligned(w: WorldView, steps: Seq<Step>, name: Seq<char>)
    requires
        well_shaped(w),
        registers_first(w, steps),
        run(w, steps).registered(name),
    ensures
        well_shaped(run(w, steps)),
        run(w, steps).presence[name].len() == run(w, steps).slots,
    decreases steps.len(),
{
    lemma_run_keeps_shape(w, steps);
    assert(run(w, steps).presence.contains_key(name));
}

/// No sequence of steps in which every registration comes before the first
/// entity changes the shape of a world.
pub proof fn lemma_run_keeps_shape(w: WorldView, steps: Seq<Step>)
    requires
        well_shaped(w),
        registers_first(w, steps),
    ensures
        well_shaped(run(w, steps)),
    decreases steps.len(),
{
    if steps.len() > 0 {
        lemma_run_keeps_shape(w, steps.drop_last());
        lemma_step_keeps_shape(run(w, steps.drop_last()), steps.last());
    }
}

/// A value given is the value found. After the entity spawned last has been
/// given `value` for `name`, the entity holds `value` for `name`, a query for
/// `name` returns `value` as its last row, and every other value of every
/// entity is what it was.
pub proof fn lemma_value_given_is_value_found(w: WorldView, name: Seq<char>, value: ComponentData)
    requires
        w.inv(),
        w.registered(name),
        w.slots > 0,
        !w.presence[name][w.slots - 1],
    ensures
        w.with_component(name, value).component(name, w.slots - 1) == Some(value),
        w.with_component(name, value).query(seq![name])[name].len() > 0,
        w.with_component(name, value).query(seq![name])[name].last() == value,
        forall|other: Seq<char>, slot: int|
            other != name || slot != w.slots - 1 ==> #[trigger] w.with_component(
                name,
                value,
            ).component(other, slot) == w.component(other, slot),
{
    let after = w.with_component(name, value);
    let last = w.slots - 1;
    let bits = w.presence[name];
    let set = bits.update(last, true);
    let column = w.columns[name];
    assert(w.presence.contains_key(name));
    lemma_rank_set(bits, last, last);
    lemma_rank_set(bits, last, w.slots as int);
    lemma_rank_bounds(bits, last);
    assert(rank(bits, w.slots as int) == rank(bits, last));
    assert(column.len() == rank(bits, last));
    assert(after.columns[name][rank(set, last)] == value);
    assert forall|other: Seq<char>, slot: int| other != name || slot != last implies #[trigger] after.component(
        other,
        slot,
    ) == w.component(other, slot) by {
        if other == name {
            if 0 <= slot < last {
                assert(set[slot] == bits[slot]);
                if bits[slot] {
                    lemma_rank_set(bits, last, slot);
                    crate::dense::lemma_rank_strict(bits, slot, last);
                    lemma_rank_bounds(bits, slot);
                    assert(rank(set, slot) == rank(bits, slot));
                    assert(after.columns[name][rank(bits, slot)] == column[rank(bits, slot)]);
                }
            }
        } else {
            assert(after.presence[other] == w.presence[other]);
            assert(after.columns[other] == w.columns[other]);
        }
    }
    // The query for `name` alone returns the whole column.
    let names = seq![name];
    assert(names[0] == name);
    assert(names.contains(name));
    let mask = after.having_all(names);
    assert forall|slot: int| 0 <= slot < after.slots && set[slot] implies mask[slot] by {
        assert forall|k: int| 0 <= k < names.len() implies after.presence[#[trigger] names[k]][slot] by {}
    }
    lemma_gather_all(after.columns[name], set, mask, after.slots as int);
    assert(after.columns[name].take(after.columns[name].len() as int) =~= after.columns[name]);
}

/// A row of a query belongs to one entity. For a slot that holds a value for
/// every name asked for, the row that counts the qualifying slots before it
/// holds, in the column of each name, the value of that slot; and every
/// column has one row per qualifying slot.
pub proof fn lemma_query_row(w: WorldView, names: Seq<Seq<char>>, name: Seq<char>, slot: int)
    requires
        w.inv(),
        names.contains(name),
        forall|k: int| 0 <= k < names.len() ==> w.registered(#[trigger] names[k]),
        0 <= slot < w.slots,
        w.having_all(names)[slot],
    ensures
        w.query(names)[name].len() == count_true(w.having_all(names)),
        0 <= rank(w.having_all(names), slot) < w.query(names)[name].len(),
        Some(w.query(names)[name][rank(w.having_all(names), slot)]) == w.component(name, slot),
{
    let mask = w.having_all(names);
    lemma_query_rows(w, names, name);
    let n = w.slots as int;
    let bits = w.presence[name];
    let k0 = choose|k: int| 0 <= k < names.len() && names[k] == name;
    assert(w.registered(names[k0]));
    assert(w.presence.contains_key(name));
    assert(bits[slot]);
    lemma_gather_index(w.columns[name], bits, mask, n, slot);
    lemma_picked_bits_set(bits, mask, n);
    lemma_pick_len(bits, mask, n);
    lemma_rank_bounds(mask, slot);
    crate::dense::lemma_rank_strict(mask, slot, n);
    crate::dense::lemma_rank_agrees(
        pick(bits, mask, n),
        crate::dense::full_mask(rank(mask, n)),
        rank(mask, slot),
    );
    lemma_rank_all(crate::dense::full_mask(rank(mask, n)), rank(mask, slot));
}

/// Every column of a query's answer has one row per qualifying slot.
pub proof fn lemma_query_rows(w: WorldView, names: Seq<Seq<char>>, name: Seq<char>)
    requires
        w.inv(),
        names.contains(name),
        forall|k: int| 0 <= k < names.len() ==> w.registered(#[trigger] names[k]),
    ensures
        w.query(names)[name].len() == count_true(w.having_all(names)),
{
    let mask = w.having_all(names);
    let n = w.slots as int;
    let bits = w.presence[name];
    let k0 = choose|k: int| 0 <= k < names.len() && names[k] == name;
    assert(w.registered(names[k0]));
    assert(w.presence.contains_key(name));
    assert forall|i: int| 0 <= i < n && mask[i] implies bits[i] by {
        assert(w.presence[names[k0]][i]);
    }
    lemma_gather_len(w.columns[name], bits, mask, n);
    lemma_picked_bits_set(bits, mask, n);
    lemma_pick_len(bits, mask, n);
    lemma_rank_all(pick(bits, mask, n), rank(mask, n));
    lemma_rank_bounds(mask, n);
}

/// Where a mask selects only set bits, every bit that it picks is set.
proof fn lemma_picked_bits_set(bits: Seq<bool>, mask: Seq<bool>, n: int)
    requires
        0 <= n <= mask.len(),
        forall|i: int| 0 <= i < n && mask[i] ==> bits[i],
    ensures
        forall|k: int| 0 <= k < pick(bits, mask, n).len() ==> pick(bits, mask, n)[k],
{
    assert forall|k: int| 0 <= k < pick(bits, mask, n).len() implies pick(bits, mask, n)[k] by {
        let i = lemma_pick_source(bits, mask, n, k);
    }
}

/// An id is given once. A new entity gets the id that the world holds ready
/// for it, which is greater than the id of every entity in the world, and the
/// id held ready grows by one.
pub proof fn lemma_spawn_gives_fresh_id(w: WorldView)
    requires
        w.inv(),
        w.next_id <= u32::MAX,
    ensures
        w.spawn().component(entity_id(), w.slots as int) == Some(
            ComponentData::U32(w.next_id as u32),
        ),
        w.spawn().next_id == w.next_id + 1,
        forall|slot: int| 0 <= slot < w.slots ==> #[trigger] w.spawn().id_at(slot) == w.id_at(slot),
        forall|slot: int| 0 <= slot < w.slots ==> #[trigger] w.id_at(slot) < w.next_id,
{
    let after = w.spawn();
    lemma_reserved_names_differ();
    assert(w.presence.contains_key(entity_id()));
    lemma_rank_all(w.presence[entity_id()], w.slots as int);
    assert forall|i: int| 0 <= i < w.slots implies after.presence[entity_id()][i] by {
        assert(w.presence[entity_id()][i]);
    }
    lemma_rank_all(after.presence[entity_id()], w.slots as int);
    assert forall|slot: int| 0 <= slot < w.slots implies #[trigger] w.id_at(slot) < w.next_id by {
        assert(w.columns[entity_id()][slot] is U32 && w.id_at(slot) < w.next_id);
    }
}

/// The world after `n` entities have been spawned.
pub open spec fn spawned(w: WorldView, n: nat) -> WorldView
    decreases n,
{
    if n == 0 {
        w
    } else {
        spawned(w, (n - 1) as nat).spawn()
    }
}

/// The first `n` entities of a world get the ids `0` to `n - 1`, in the
/// order in which they are spawned.
pub proof fn lemma_first_ids(n: nat)
    requires
        n <= u32::MAX,
    ensures
        spawned(WorldView::empty(), n).inv(),
        spawned(WorldView::empty(), n).slots == n,
        spawned(WorldView::empty(), n).next_id == n,
        spawned(WorldView::empty(), n).columns[entity_id()] == Seq::new(
            n,
            |i: int| ComponentData::U32(i as u32),
        ),
    decreases n,
{
    lemma_reserved_names_differ();
    if n == 0 {
        crate::world::state::lemma_empty_inv();
        assert(WorldView::empty().columns[entity_id()] =~= Seq::new(
            0,
            |i: int| ComponentData::U32(i as u32),
        ));
    } else {
        let before = spawned(WorldView::empty(), (n - 1) as nat);
        lemma_first_ids((n - 1) as nat);
        crate::world::state::lemma_spawn_keeps_inv(before);
        assert(before.spawn().columns[entity_id()] =~= Seq::new(
            n,
            |i: int| ComponentData::U32(i as u32),
        ));
    }
}

/// Neither a mark for removal nor the sweep touches the id held ready: the
/// entity spawned after a removal gets an id that no entity ever had.
pub proof fn lemma_removal_keeps_next_id(w: WorldView, id: u32)
    requires
        w.inv(),
        w.next_id <= u32::MAX,
    ensures
        w.delete_by_id(id).update().next_id == w.next_id,
        w.delete_by_id(id).update().inv(),
        w.delete_by_id(id).update().spawn().component(
            entity_id(),
            w.delete_by_id(id).update().slots as int,
        ) == Some(ComponentData::U32(w.next_id as u32)),
{
    crate::world::state::lemma_delete_by_id_keeps_inv(w, id);
    lemma_update_keeps_inv(w.delete_by_id(id));
    lemma_spawn_gives_fresh_id(w.delete_by_id(id).update());
}

/// No step takes back an id: the id held ready never gets smaller.
pub proof fn lemma_next_id_never_decreases(w: WorldView, steps: Seq<Step>)
    ensures
        run(w, steps).next_id >= w.next_id,
    decreases steps.len(),
{
    if steps.len() > 0 {
        lemma_next_id_never_decreases(w, steps.drop_last());
    }
}

/// After the sweep no entity is marked for removal.
pub proof fn lemma_update_leaves_no_mark(w: WorldView)
    requires
        w.inv(),
    ensures
        forall|slot: int| 0 <= slot < w.update().slots ==> !#[trigger] w.update().doomed(slot),
{
    let after = w.update();
    let keep = w.survivors();
    let n = w.slots as int;
    let flags = w.columns[to_be_deleted()];
    assert(w.presence.contains_key(to_be_deleted()));
    lemma_rank_all(w.presence[to_be_deleted()], n);
    lemma_gather_full_presence(flags, w.presence[to_be_deleted()], keep, n);
    lemma_pick_len(flags, keep, n);
    assert forall|slot: int| 0 <= slot < after.slots implies !#[trigger] after.doomed(slot) by {
        let i = lemma_pick_source(flags, keep, n, slot);
        assert(!w.doomed(i));
    }
}

/// The sweep is idempotent. A second sweep right after a sweep changes
/// nothing: no presence vector, no column, not the number of slots.
pub proof fn lemma_update_idempotent(w: WorldView)
    requires
        w.inv(),
    ensures
        w.update().update() == w.update(),
{
    let once = w.update();
    let twice = once.update();
    lemma_update_keeps_inv(w);
    lemma_update_leaves_no_mark(w);
    let keep = once.survivors();
    let n = once.slots as int;
    lemma_rank_all(keep, n);
    assert(twice.presence =~= once.presence) by {
        assert forall|name: Seq<char>| #[trigger] once.presence.contains_key(name) implies twice.presence[name]
            == once.presence[name] by {
            lemma_pick_all(once.presence[name], keep, n);
            assert(once.presence[name].take(n) =~= once.presence[name]);
        }
    }
    assert(twice.columns =~= once.columns) by {
        assert forall|name: Seq<char>| #[trigger] once.columns.contains_key(name) implies twice.columns[name]
            == once.columns[name] by {
            assert(once.presence.contains_key(name));
            lemma_gather_all(once.columns[name], once.presence[name], keep, n);
            assert(once.columns[name].take(once.columns[name].len() as int)
                =~= once.columns[name]);
        }
    }
}

/// The sweep removes only what is marked. An entity that is not marked for
/// removal is, after the sweep, in the slot that counts the unmarked entities
/// before it, and holds for every name what it held before.
pub proof fn lemma_update_keeps_survivors(w: WorldView, name: Seq<char>, slot: int)
    requires
        w.inv(),
        w.registered(name),
        0 <= slot < w.slots,
        !w.doomed(slot),
    ensures
        0 <= rank(w.survivors(), slot) < w.update().slots,
        w.update().component(name, rank(w.survivors(), slot)) == w.component(name, slot),
{
    let keep = w.survivors();
    let n = w.slots as int;
    let bits = w.presence[name];
    assert(w.presence.contains_key(name));
    lemma_rank_bounds(keep, slot);
    crate::dense::lemma_rank_strict(keep, slot, n);
    lemma_pick_index(bits, keep, n, slot);
    if bits[slot] {
        lemma_gather_index(w.columns[name], bits, keep, n, slot);
    }
}

/// The sweep removes what is marked: it leaves one slot per unmarked entity.
pub proof fn lemma_update_counts_survivors(w: WorldView)
    requires
        w.inv(),
    ensures
        w.update().slots == count_true(w.survivors()),
        w.update().slots <= w.slots,
{
    lemma_rank_bounds(w.survivors(), w.slots as int);
}

} // verus!
