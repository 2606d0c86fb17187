use vstd::prelude::*;

verus! {

/// The number of set bits of `bits` before position `n`.
///
/// For a slot whose own bit is set this is the slot's physical index: its
/// place in the dense column that holds one value per set bit.
pub open spec fn rank(bits: Seq<bool>, n: int) -> int
    decreases n,
{
    if n <= 0 {
        0
    } else {
        rank(bits, n - 1) + if n - 1 < bits.len() && bits[n - 1] {
            1int
        } else {
            0int
        }
    }
}

/// The number of clear bits of `bits` before position `n`.
pub open spec fn falses_before(bits: Seq<bool>, n: int) -> int
    decreases n,
{
    if n <= 0 {
        0
    } else {
        falses_before(bits, n - 1) + if n - 1 < bits.len() && !bits[n - 1] {
            1int
        } else {
            0int
        }
    }
}

/// The number of set bits of `bits`: the length of the dense column that
/// belongs to the presence vector `bits`.
pub open spec fn count_true(bits: Seq<bool>) -> int {
    rank(bits, bits.len() as int)
}

/// The items of `items` at the positions before `n` whose bit in `mask` is
/// set, in their order.
pub open spec fn pick<A>(items: Seq<A>, mask: Seq<bool>, n: int) -> Seq<A>
    decreases n,
{
    if n <= 0 {
        Seq::empty()
    } else if mask[n - 1] {
        pick(items, mask, n - 1).push(items[n - 1])
    } else {
        pick(items, mask, n - 1)
    }
}

/// The values that the dense column `column` holds for the slots before `n`
/// that are present in `bits` and selected by `mask`, in slot order. The value
/// of slot `i` is found at the physical index `rank(bits, i)`.
pub open spec fn gather<A>(column: Seq<A>, bits: Seq<bool>, mask: Seq<bool>, n: int) -> Seq<A>
    decreases n,
{
    if n <= 0 {
        Seq::empty()
    } else if bits[n - 1] && mask[n - 1] {
        gather(column, bits, mask, n - 1).push(column[rank(bits, n - 1)])
    } else {
        gather(column, bits, mask, n - 1)
    }
}

/// The physical indexes, under the presence vector `bits`, of those of the
/// first `k` slot indexes of `slots` whose bit is set, in the order given.
pub open spec fn translate(bits: Seq<bool>, slots: Seq<usize>, k: int) -> Seq<usize>
    decreases k,
{
    if k <= 0 {
        Seq::empty()
    } else if bits[slots[k - 1] as int] {
        translate(bits, slots, k - 1).push(rank(bits, slots[k - 1] as int) as usize)
    } else {
        translate(bits, slots, k - 1)
    }
}

/// Whether `p` is one of `indexes`.
pub open spec fn listed(indexes: Seq<usize>, p: int) -> bool {
    exists|k: int| 0 <= k < indexes.len() && #[trigger] indexes[k] as int == p
}

/// The mask of length `len` that is clear exactly at the positions listed in
/// `removed`.
pub open spec fn keep_mask(removed: Seq<usize>, len: int) -> Seq<bool> {
    Seq::new(len as nat, |p: int| !listed(removed, p))
}

/// A mask of length `len` with every bit set.
pub open spec fn full_mask(len: int) -> Seq<bool> {
    Seq::new(len as nat, |p: int| true)
}

/// The indexes are strictly increasing and all below `bound`.
pub open spec fn ascending_below(indexes: Seq<usize>, bound: int) -> bool {
    &&& forall|i: int, j: int| 0 <= i < j < indexes.len() ==> indexes[i] < indexes[j]
    &&& forall|i: int| 0 <= i < indexes.len() ==> indexes[i] < bound
}

/// Before position `n` there are at most `n` set bits, and within the
/// vector every bit before `n` is either set or clear.
pub proof fn lemma_rank_bounds(bits: Seq<bool>, n: int)
    requires
        0 <= n,
    ensures
        0 <= rank(bits, n) <= n,
        rank(bits, n) + falses_before(bits, n) <= n,
        n <= bits.len() ==> rank(bits, n) + falses_before(bits, n) == n,
    decreases n,
{
    if n > 0 {
        lemma_rank_bounds(bits, n - 1);
    }
}

/// The rank does not decrease from a position to a later one.
pub proof fn lemma_rank_monotone(bits: Seq<bool>, a: int, b: int)
    requires
        0 <= a <= b,
    ensures
        rank(bits, a) <= rank(bits, b),
    decreases b - a,
{
    if a < b {
        lemma_rank_monotone(bits, a, b - 1);
    }
}

/// A present slot has a smaller physical index than every later slot, and
/// one below the number of set bits.
pub proof fn lemma_rank_strict(bits: Seq<bool>, a: int, b: int)
    requires
        0 <= a < b,
        a < bits.len(),
        bits[a],
    ensures
        rank(bits, a) < rank(bits, b),
{
    lemma_rank_monotone(bits, a + 1, b);
}

/// Bits at or after position `n` do not bear on the rank at `n`.
pub proof fn lemma_rank_agrees(x: Seq<bool>, y: Seq<bool>, n: int)
    requires
        0 <= n <= x.len(),
        n <= y.len(),
        forall|i: int| 0 <= i < n ==> x[i] == y[i],
    ensures
        rank(x, n) == rank(y, n),
    decreases n,
{
    if n > 0 {
        lemma_rank_agrees(x, y, n - 1);
    }
}

/// Appending a bit adds one to the number of set bits if the bit is set.
pub proof fn lemma_count_true_push(bits: Seq<bool>, bit: bool)
    ensures
        count_true(bits.push(bit)) == count_true(bits) + if bit {
            1int
        } else {
            0int
        },
{
    lemma_rank_agrees(bits, bits.push(bit), bits.len() as int);
}

/// Setting a clear bit adds one to the number of set bits.
pub proof fn lemma_count_true_set(bits: Seq<bool>, i: int)
    requires
        0 <= i < bits.len(),
    ensures
        count_true(bits.update(i, true)) == count_true(bits) + if bits[i] {
            0int
        } else {
            1int
        },
{
    lemma_rank_set(bits, i, bits.len() as int);
}

/// Setting bit `i` adds one to the rank at every position after `i`, if the
/// bit was clear.
pub proof fn lemma_rank_set(bits: Seq<bool>, i: int, n: int)
    requires
        0 <= i < bits.len(),
        0 <= n <= bits.len(),
    ensures
        rank(bits.update(i, true), n) == rank(bits, n) + if i < n && !bits[i] {
            1int
        } else {
            0int
        },
    decreases n,
{
    if n > 0 {
        lemma_rank_set(bits, i, n - 1);
    }
}

/// A mask keeps as many items as it has set bits.
pub proof fn lemma_pick_len<A>(items: Seq<A>, mask: Seq<bool>, n: int)
    requires
        0 <= n <= mask.len(),
    ensures
        pick(items, mask, n).len() == rank(mask, n),
    decreases n,
{
    if n > 0 {
        lemma_pick_len(items, mask, n - 1);
    }
}

/// Where every bit before `n` is set, nothing is left out.
pub proof fn lemma_pick_all<A>(items: Seq<A>, mask: Seq<bool>, n: int)
    requires
        0 <= n <= items.len(),
        forall|i: int| 0 <= i < n ==> mask[i],
    ensures
        pick(items, mask, n) == items.take(n),
    decreases n,
{
    if n > 0 {
        lemma_pick_all(items, mask, n - 1);
        assert(items.take(n - 1).push(items[n - 1]) =~= items.take(n));
    } else {
        assert(items.take(n) =~= Seq::<A>::empty());
    }
}

/// Removing position `j` from what a mask keeps, where the mask keeps
/// everything up to `j`, is keeping under the mask with bit `j` cleared.
pub proof fn lemma_pick_remove<A>(items: Seq<A>, mask: Seq<bool>, j: int, n: int)
    requires
        0 <= j < n <= mask.len(),
        n <= items.len(),
        forall|i: int| 0 <= i <= j ==> mask[i],
    ensures
        j < pick(items, mask, n).len(),
        pick(items, mask, n).remove(j) == pick(items, mask.update(j, false), n),
    decreases n,
{
    let cleared = mask.update(j, false);
    if n == j + 1 {
        lemma_pick_all(items, mask, n);
        lemma_pick_all(items, cleared, j);
        assert(items.take(n).remove(j) =~= items.take(j));
    } else {
        lemma_pick_remove(items, mask, j, n - 1);
        let rest = pick(items, mask, n - 1);
        if mask[n - 1] {
            assert(rest.push(items[n - 1]).remove(j) =~= rest.remove(j).push(items[n - 1]));
        }
    }
}

/// What is gathered has one value per slot that is both present and
/// selected.
pub proof fn lemma_gather_len<A>(column: Seq<A>, bits: Seq<bool>, mask: Seq<bool>, n: int)
    requires
        0 <= n <= bits.len(),
        n <= mask.len(),
    ensures
        gather(column, bits, mask, n).len() == rank(pick(bits, mask, n), rank(mask, n)),
        gather(column, bits, mask, n).len() == count_true(pick(bits, mask, n)),
        gather(column, bits, mask, n).len() <= rank(bits, n),
    decreases n,
{
    if n > 0 {
        lemma_gather_len(column, bits, mask, n - 1);
        lemma_pick_len(bits, mask, n - 1);
        lemma_pick_len(bits, mask, n);
        let before = pick(bits, mask, n - 1);
        if mask[n - 1] {
            lemma_rank_agrees(before, before.push(bits[n - 1]), before.len() as int);
        }
    }
}

/// Selecting every slot gives back the column's first `rank(bits, n)` values.
pub proof fn lemma_gather_all<A>(column: Seq<A>, bits: Seq<bool>, mask: Seq<bool>, n: int)
    requires
        0 <= n <= bits.len(),
        rank(bits, n) <= column.len(),
        forall|i: int| 0 <= i < n && bits[i] ==> mask[i],
    ensures
        gather(column, bits, mask, n) == column.take(rank(bits, n)),
    decreases n,
{
    if n > 0 {
        lemma_rank_bounds(bits, n - 1);
        lemma_gather_all(column, bits, mask, n - 1);
        let r = rank(bits, n - 1);
        if bits[n - 1] {
            assert(column.take(r).push(column[r]) =~= column.take(r + 1));
        }
    } else {
        assert(column.take(0) =~= Seq::<A>::empty());
    }
}

/// Dropping from a dense column the physical indexes of the slots that a
/// mask leaves out keeps the values of the slots that the mask selects.
pub proof fn lemma_gather_is_pick<A>(
    column: Seq<A>,
    bits: Seq<bool>,
    mask: Seq<bool>,
    dense_mask: Seq<bool>,
    n: int,
)
    requires
        0 <= n <= bits.len(),
        forall|i: int| 0 <= i < n && bits[i] ==> dense_mask[rank(bits, i)] == mask[i],
    ensures
        gather(column, bits, mask, n) == pick(column, dense_mask, rank(bits, n)),
    decreases n,
{
    if n > 0 {
        lemma_gather_is_pick(column, bits, mask, dense_mask, n - 1);
        lemma_rank_bounds(bits, n - 1);
    }
}


/// Clearing bit `i` takes one from the rank at every position after `i`, if
/// the bit was set.
pub proof fn lemma_rank_clear(bits: Seq<bool>, i: int, n: int)
    requires
        0 <= i < bits.len(),
        0 <= n <= bits.len(),
    ensures
        rank(bits.update(i, false), n) == rank(bits, n) - if i < n && bits[i] {
            1int
        } else {
            0int
        },
    decreases n,
{
    if n > 0 {
        lemma_rank_clear(bits, i, n - 1);
    }
}

/// A mask that leaves out `removed.len()` distinct positions keeps the rest.
pub proof fn lemma_keep_mask_count(removed: Seq<usize>, len: int)
    requires
        0 <= len,
        ascending_below(removed, len),
    ensures
        count_true(keep_mask(removed, len)) == len - removed.len(),
        removed.len() <= len,
    decreases removed.len(),
{
    lemma_rank_bounds(keep_mask(removed, len), len);
    if removed.len() == 0 {
        lemma_rank_all(keep_mask(removed, len), len);
    } else {
        let rest = removed.drop_last();
        let last = removed.last() as int;
        lemma_keep_mask_count(rest, len);
        assert(!listed(rest, last)) by {
            if listed(rest, last) {
                let k = choose|k: int| 0 <= k < rest.len() && #[trigger] rest[k] as int == last;
                assert(removed[k] < removed[removed.len() - 1]);
            }
        }
        assert(keep_mask(removed, len) =~= keep_mask(rest, len).update(last, false)) by {
            assert forall|p: int| 0 <= p < len implies keep_mask(removed, len)[p] == keep_mask(
                rest,
                len,
            ).update(last, false)[p] by {
                if listed(removed, p) {
                    let k = choose|k: int|
                        0 <= k < removed.len() && #[trigger] removed[k] as int == p;
                    if k < rest.len() {
                        assert(rest[k] as int == p);
                    }
                }
                if listed(rest, p) {
                    let k = choose|k: int| 0 <= k < rest.len() && #[trigger] rest[k] as int == p;
                    assert(removed[k] as int == p);
                }
                if p == last {
                    assert(removed[removed.len() - 1] as int == p);
                }
            }
        }
        lemma_rank_clear(keep_mask(rest, len), last, len);
    }
}

/// Where every bit before `n` is set, the rank at `n` is `n`.
pub proof fn lemma_rank_all(bits: Seq<bool>, n: int)
    requires
        0 <= n <= bits.len(),
        forall|i: int| 0 <= i < n ==> bits[i],
    ensures
        rank(bits, n) == n,
    decreases n,
{
    if n > 0 {
        lemma_rank_all(bits, n - 1);
    }
}

/// Removes from `items` the positions listed in `indexes`, the highest first,
/// so that no removal moves an item that is still to be removed.
pub fn remove_ascending<T>(items: &mut Vec<T>, indexes: &Vec<usize>)
    requires
        ascending_below(indexes@, old(items)@.len() as int),
    ensures
        final(items)@ == pick(
            old(items)@,
            keep_mask(indexes@, old(items)@.len() as int),
            old(items)@.len() as int,
        ),
{
    let ghost n = items@.len() as int;
    let ghost start = items@;
    let mut k: usize = indexes.len();
    proof {
        let none = indexes@.subrange(k as int, indexes@.len() as int);
        lemma_pick_all(start, keep_mask(none, n), n);
        assert(start.take(n) =~= start);
    }
    while k > 0
        invariant
            k <= indexes@.len(),
            n == start.len(),
            ascending_below(indexes@, n),
            items@ == pick(
                start,
                keep_mask(indexes@.subrange(k as int, indexes@.len() as int), n),
                n,
            ),
        decreases k,
    {
        k -= 1;
        let j = indexes[k];
        proof {
            let done = indexes@.subrange(k + 1, indexes@.len() as int);
            let next = indexes@.subrange(k as int, indexes@.len() as int);
            assert forall|i: int| 0 <= i <= j implies keep_mask(done, n)[i] by {
                if listed(done, i) {
                    let d = choose|d: int| 0 <= d < done.len() && #[trigger] done[d] as int == i;
                    assert(indexes@[k as int] < indexes@[k + 1 + d]);
                }
            }
            lemma_pick_remove(start, keep_mask(done, n), j as int, n);
            assert(keep_mask(done, n).update(j as int, false) =~= keep_mask(next, n)) by {
                assert forall|p: int| 0 <= p < n implies keep_mask(done, n).update(j as int, false)[p]
                    == keep_mask(next, n)[p] by {
                    if listed(next, p) {
                        let d = choose|d: int|
                            0 <= d < next.len() && #[trigger] next[d] as int == p;
                        if d > 0 {
                            assert(done[d - 1] as int == p);
                        }
                    }
                    if listed(done, p) {
                        let d = choose|d: int|
                            0 <= d < done.len() && #[trigger] done[d] as int == p;
                        assert(next[d + 1] as int == p);
                    }
                    if p == j {
                        assert(next[0] as int == p);
                    }
                }
            }
        }
        items.remove(j);
    }
    proof {
        assert(indexes@.subrange(0, indexes@.len() as int) =~= indexes@);
    }
}


/// The physical indexes of increasing slots are increasing, and below the
/// rank of any bound that the slots stay under.
pub proof fn lemma_translate_ascending(bits: Seq<bool>, slots: Seq<usize>, k: int, bound: int)
    requires
        0 <= k <= slots.len(),
        forall|i: int, j: int| 0 <= i < j < slots.len() ==> slots[i] < slots[j],
        forall|j: int| 0 <= j < k ==> slots[j] < bound,
        0 <= bound <= bits.len(),
    ensures
        ascending_below(translate(bits, slots, k), rank(bits, bound)),
    decreases k,
{
    if k > 0 {
        let s = slots[k - 1] as int;
        lemma_translate_ascending(bits, slots, k - 1, s);
        lemma_rank_monotone(bits, s, bound);
        lemma_rank_bounds(bits, s);
        if bits[s] {
            lemma_rank_strict(bits, s, bound);
        }
    }
}

/// The physical index of a present slot is listed among the translated
/// indexes exactly if the slot is among those translated.
pub proof fn lemma_translate_listed(bits: Seq<bool>, slots: Seq<usize>, k: int, slot: int)
    requires
        0 <= k <= slots.len(),
        forall|j: int| 0 <= j < k ==> slots[j] < bits.len(),
        0 <= slot < bits.len(),
        bits[slot],
    ensures
        listed(translate(bits, slots, k), rank(bits, slot)) <==> listed(slots.take(k), slot),
    decreases k,
{
    if k > 0 {
        let s = slots[k - 1] as int;
        let before = translate(bits, slots, k - 1);
        lemma_translate_listed(bits, slots, k - 1, slot);
        lemma_rank_bounds(bits, s);
        assert(listed(slots.take(k), slot) <==> listed(slots.take(k - 1), slot) || s == slot) by {
            if listed(slots.take(k), slot) {
                let j = choose|j: int| 0 <= j < k && #[trigger] slots.take(k)[j] as int == slot;
                if j < k - 1 {
                    assert(slots.take(k - 1)[j] as int == slot);
                }
            }
            if listed(slots.take(k - 1), slot) {
                let j = choose|j: int|
                    0 <= j < k - 1 && #[trigger] slots.take(k - 1)[j] as int == slot;
                assert(slots.take(k)[j] as int == slot);
            }
            if s == slot {
                assert(slots.take(k)[k - 1] as int == slot);
            }
        }
        if bits[s] {
            let r = rank(bits, s) as usize;
            let after = before.push(r);
            if s < slot {
                lemma_rank_strict(bits, s, slot);
            }
            if slot < s {
                lemma_rank_strict(bits, slot, s);
            }
            assert(listed(after, rank(bits, slot)) <==> listed(before, rank(bits, slot)) || s
                == slot) by {
                if listed(after, rank(bits, slot)) {
                    let m = choose|m: int|
                        0 <= m < after.len() && #[trigger] after[m] as int == rank(bits, slot);
                    if m < before.len() {
                        assert(before[m] as int == rank(bits, slot));
                    }
                }
                if listed(before, rank(bits, slot)) {
                    let m = choose|m: int|
                        0 <= m < before.len() && #[trigger] before[m] as int == rank(bits, slot);
                    assert(after[m] as int == rank(bits, slot));
                }
                if s == slot {
                    assert(after[before.len() as int] as int == rank(bits, slot));
                }
            }
        }
    } else {
        assert(!listed(slots.take(0), slot));
    }
}

/// The sweep of one column. Removing from a dense column the physical
/// indexes of the slots listed in `removed` leaves, in slot order, the values
/// of the present slots that `removed` does not list.
pub proof fn lemma_compaction<A>(
    column: Seq<A>,
    bits: Seq<bool>,
    removed: Seq<usize>,
    mask: Seq<bool>,
)
    requires
        column.len() == count_true(bits),
        ascending_below(removed, bits.len() as int),
        mask.len() == bits.len(),
        forall|slot: int| 0 <= slot < bits.len() ==> mask[slot] == !listed(removed, slot),
    ensures
        ascending_below(translate(bits, removed, removed.len() as int), column.len() as int),
        pick(
            column,
            keep_mask(translate(bits, removed, removed.len() as int), column.len() as int),
            column.len() as int,
        ) == gather(column, bits, mask, bits.len() as int),
{
    let n = bits.len() as int;
    let physical = translate(bits, removed, removed.len() as int);
    lemma_translate_ascending(bits, removed, removed.len() as int, n);
    let dense_mask = keep_mask(physical, column.len() as int);
    assert forall|slot: int| 0 <= slot < n && bits[slot] implies dense_mask[rank(bits, slot)]
        == mask[slot] by {
        lemma_rank_strict(bits, slot, n);
        lemma_rank_bounds(bits, slot);
        lemma_translate_listed(bits, removed, removed.len() as int, slot);
        assert(removed.take(removed.len() as int) =~= removed);
    }
    lemma_gather_is_pick(column, bits, mask, dense_mask, n);
}


/// Every item that a mask keeps comes from a position whose bit is set, and
/// the items keep their order: the item at place `k` comes from the position
/// of rank `k`.
pub proof fn lemma_pick_source<A>(items: Seq<A>, mask: Seq<bool>, n: int, k: int) -> (i: int)
    requires
        0 <= n <= mask.len(),
        0 <= k < pick(items, mask, n).len(),
    ensures
        0 <= i < n,
        mask[i],
        rank(mask, i) == k,
        pick(items, mask, n)[k] == items[i],
    decreases n,
{
    lemma_pick_len(items, mask, n - 1);
    if mask[n - 1] && k == pick(items, mask, n - 1).len() {
        n - 1
    } else {
        lemma_pick_source(items, mask, n - 1, k)
    }
}

/// The item at a kept position `i` is found in what the mask keeps, at the
/// place `rank(mask, i)`.
pub proof fn lemma_pick_index<A>(items: Seq<A>, mask: Seq<bool>, n: int, i: int)
    requires
        0 <= i < n <= mask.len(),
        mask[i],
    ensures
        rank(mask, i) < pick(items, mask, n).len(),
        pick(items, mask, n)[rank(mask, i)] == items[i],
    decreases n,
{
    lemma_pick_len(items, mask, n - 1);
    lemma_pick_len(items, mask, n);
    lemma_rank_bounds(mask, i);
    if i < n - 1 {
        lemma_pick_index(items, mask, n - 1, i);
    }
}

/// Where every slot before `n` is present, the dense column is indexed by
/// slot, and gathering is picking.
pub proof fn lemma_gather_full_presence<A>(
    column: Seq<A>,
    bits: Seq<bool>,
    mask: Seq<bool>,
    n: int,
)
    requires
        0 <= n <= bits.len(),
        forall|i: int| 0 <= i < n ==> bits[i],
    ensures
        gather(column, bits, mask, n) == pick(column, mask, n),
    decreases n,
{
    if n > 0 {
        lemma_gather_full_presence(column, bits, mask, n - 1);
        lemma_rank_all(bits, n - 1);
    }
}

/// What a mask keeps of the first `m` positions begins what it keeps of the
/// first `n`.
pub proof fn lemma_pick_prefix<A>(items: Seq<A>, mask: Seq<bool>, m: int, n: int)
    requires
        0 <= m <= n,
    ensures
        pick(items, mask, m).len() <= pick(items, mask, n).len(),
        forall|j: int|
            0 <= j < pick(items, mask, m).len() ==> pick(items, mask, n)[j] == pick(
                items,
                mask,
                m,
            )[j],
    decreases n - m,
{
    if m < n {
        lemma_pick_prefix(items, mask, m, n - 1);
    }
}

/// What is gathered from the first `m` slots begins what is gathered from
/// the first `n`.
pub proof fn lemma_gather_prefix<A>(
    column: Seq<A>,
    bits: Seq<bool>,
    mask: Seq<bool>,
    m: int,
    n: int,
)
    requires
        0 <= m <= n,
    ensures
        gather(column, bits, mask, m).len() <= gather(column, bits, mask, n).len(),
        forall|j: int|
            0 <= j < gather(column, bits, mask, m).len() ==> gather(column, bits, mask, n)[j]
                == gather(column, bits, mask, m)[j],
    decreases n - m,
{
    if m < n {
        lemma_gather_prefix(column, bits, mask, m, n - 1);
    }
}

/// The value of a present and selected slot `i` is found in what is
/// gathered, at the place that counts the present and selected slots before
/// `i`.
pub proof fn lemma_gather_index<A>(
    column: Seq<A>,
    bits: Seq<bool>,
    mask: Seq<bool>,
    n: int,
    i: int,
)
    requires
        0 <= i < n <= bits.len(),
        n <= mask.len(),
        bits[i],
        mask[i],
    ensures
        rank(pick(bits, mask, n), rank(mask, i)) < gather(column, bits, mask, n).len(),
        gather(column, bits, mask, n)[rank(pick(bits, mask, n), rank(mask, i))] == column[rank(
            bits,
            i,
        )],
{
    let place = gather(column, bits, mask, i).len() as int;
    lemma_gather_len(column, bits, mask, i);
    lemma_pick_len(bits, mask, i);
    lemma_pick_len(bits, mask, n);
    lemma_pick_prefix(bits, mask, i, n);
    lemma_rank_agrees(pick(bits, mask, n), pick(bits, mask, i), rank(mask, i));
    assert(rank(pick(bits, mask, n), rank(mask, i)) == place);
    assert(gather(column, bits, mask, i + 1) == gather(column, bits, mask, i).push(
        column[rank(bits, i)],
    ));
    lemma_gather_prefix(column, bits, mask, i + 1, n);
    assert(gather(column, bits, mask, i + 1)[place] == column[rank(bits, i)]);
}

} // verus!
