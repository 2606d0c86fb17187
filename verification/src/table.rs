use vstd::prelude::*;

verus! {

/// An insertion-ordered table from component names to values.
///
/// The table keeps its names and values in two vectors of equal length; the
/// name at a position owns the value at the same position. A well-formed
/// table holds no name twice, so a name determines its position.
pub struct NameTable<V> {
    pub names: Vec<String>,
    pub values: Vec<V>,
}

/// Whether `name` is one of `names`.
pub open spec fn has_name(names: Seq<String>, name: Seq<char>) -> bool {
    exists|i: int| 0 <= i < names.len() && #[trigger] names[i]@ == name
}

/// A position at which `names` holds `name`; the only one where the names are
/// distinct.
pub open spec fn position_of(names: Seq<String>, name: Seq<char>) -> int {
    choose|i: int| 0 <= i < names.len() && #[trigger] names[i]@ == name
}

/// No two positions of `names` hold the same name.
pub open spec fn distinct_names(names: Seq<String>) -> bool {
    forall|i: int, j: int|
        0 <= i < names.len() && 0 <= j < names.len() && #[trigger] names[i]@ == #[trigger] names[j]@
            ==> i == j
}

/// In a sequence of distinct names, the position of the name found at `i` is `i`.
pub proof fn lemma_position_of_unique(names: Seq<String>, i: int)
    requires
        distinct_names(names),
        0 <= i < names.len(),
    ensures
        has_name(names, names[i]@),
        position_of(names, names[i]@) == i,
{
    let k = position_of(names, names[i]@);
    assert(names[k]@ == names[i]@);
}

impl<V> NameTable<V> {
    /// The two vectors agree in length and no name occurs twice.
    pub open spec fn wf(&self) -> bool {
        &&& self.names@.len() == self.values@.len()
        &&& distinct_names(self.names@)
    }

    /// Whether the table has an entry for `name`.
    pub open spec fn contains(&self, name: Seq<char>) -> bool {
        has_name(self.names@, name)
    }

    /// The value stored under `name`; arbitrary where the table has no such entry.
    pub open spec fn value(&self, name: Seq<char>) -> V {
        self.values@[position_of(self.names@, name)]
    }

    /// The table as a finite map from names to values.
    pub open spec fn view(&self) -> Map<Seq<char>, V> {
        Map::new(|name: Seq<char>| self.contains(name), |name: Seq<char>| self.value(name))
    }

    /// An empty table.
    pub fn new() -> (table: Self)
        ensures
            table.wf(),
            table.names@.len() == 0,
            table@ == Map::<Seq<char>, V>::empty(),
    {
        let table = NameTable { names: Vec::new(), values: Vec::new() };
        assert(table@ =~= Map::<Seq<char>, V>::empty());
        table
    }

    /// The number of entries.
    pub fn len(&self) -> (n: usize)
        ensures
            n == self.names@.len(),
    {
        self.names.len()
    }

    /// The position of the entry for `name`, if there is one.
    pub fn position(&self, name: &str) -> (found: Option<usize>)
        requires
            self.wf(),
        ensures
            found.is_some() == self.contains(name@),
            found matches Some(i) ==> i < self.names@.len() && self.names@[i as int]@ == name@
                && i == position_of(self.names@, name@),
    {
        let key = name.to_owned();
        let mut i: usize = 0;
        while i < self.names.len()
            invariant
                i <= self.names@.len(),
                key@ == name@,
                self.wf(),
                forall|j: int| 0 <= j < i ==> self.names@[j]@ != name@,
            decreases self.names@.len() - i,
        {
            if self.names[i] == key {
                proof {
                    lemma_position_of_unique(self.names@, i as int);
                }
                return Some(i);
            }
            i += 1;
        }
        None
    }

    /// Whether the table has an entry for `name`.
    pub fn contains_key(&self, name: &str) -> (found: bool)
        requires
            self.wf(),
        ensures
            found == self.contains(name@),
    {
        self.position(name).is_some()
    }

    /// The value stored under `name`, if there is one.
    pub fn get(&self, name: &str) -> (found: Option<&V>)
        requires
            self.wf(),
        ensures
            found.is_some() == self.contains(name@),
            found matches Some(v) ==> *v == self.value(name@),
    {
        match self.position(name) {
            Some(i) => Some(&self.values[i]),
            None => None,
        }
    }

    /// The value stored under `name`, for writing, if there is one. Whatever is
    /// written takes the place of the value; nothing else changes.
    pub fn get_mut(&mut self, name: &str) -> (found: Option<&mut V>)
        requires
            old(self).wf(),
        ensures
            found.is_some() == old(self).contains(name@),
            found matches Some(v) ==> *v == old(self).value(name@) && final(self).names@ == old(
                self,
            ).names@ && final(self).values@ == old(self).values@.update(
                position_of(old(self).names@, name@),
                *final(v),
            ),
            found is None ==> *final(self) == *old(self),
    {
        match self.position(name) {
            Some(i) => Some(&mut self.values[i]),
            None => None,
        }
    }

    /// Stores `value` under `name`, in place of the value that the name had, or
    /// as a new last entry.
    pub fn insert(&mut self, name: String, value: V)
        requires
            old(self).wf(),
        ensures
            final(self).wf(),
            final(self)@ == old(self)@.insert(name@, value),
            old(self).contains(name@) ==> final(self).names@ == old(self).names@
                && final(self).values@ == old(self).values@.update(
                position_of(old(self).names@, name@),
                value,
            ),
            !old(self).contains(name@) ==> final(self).names@ == old(self).names@.push(name)
                && final(self).values@ == old(self).values@.push(value),
    {
        match self.position(name.as_str()) {
            Some(i) => {
                self.values[i] = value;
                proof {
                    lemma_update_is_insert(*old(self), *self, i as int);
                }
            },
            None => {
                self.names.push(name);
                self.values.push(value);
                proof {
                    assert(self.names@.drop_last() =~= old(self).names@);
                    assert(self.values@.drop_last() =~= old(self).values@);
                    lemma_push_is_insert(*old(self), *self);
                }
            },
        }
    }
}

/// Replacing the value at position `i` is a map insertion under the name at `i`.
pub proof fn lemma_update_is_insert<V>(before: NameTable<V>, after: NameTable<V>, i: int)
    requires
        before.wf(),
        0 <= i < before.names@.len(),
        after.names@ == before.names@,
        after.values@ == before.values@.update(i, after.values@[i]),
    ensures
        after.wf(),
        after@ == before@.insert(before.names@[i]@, after.values@[i]),
{
    let name = before.names@[i]@;
    lemma_position_of_unique(before.names@, i);
    assert forall|n: Seq<char>| after@.contains_key(n) implies #[trigger] after@[n] == before@.insert(
        name,
        after.values@[i],
    )[n] by {
        let k = position_of(before.names@, n);
        assert(before.names@[k]@ == n);
    }
    assert(after@ =~= before@.insert(name, after.values@[i]));
}

/// Appending an entry under a name that the table lacks is a map insertion.
pub proof fn lemma_push_is_insert<V>(before: NameTable<V>, after: NameTable<V>)
    requires
        before.wf(),
        after.names@.len() == before.names@.len() + 1,
        after.names@.drop_last() == before.names@,
        after.values@.len() == before.values@.len() + 1,
        after.values@.drop_last() == before.values@,
        !before.contains(after.names@.last()@),
    ensures
        after.wf(),
        after@ == before@.insert(after.names@.last()@, after.values@.last()),
{
    let last = before.names@.len() as int;
    let name = after.names@.last()@;
    assert forall|i: int, j: int|
        0 <= i < after.names@.len() && 0 <= j < after.names@.len() && #[trigger] after.names@[i]@
            == #[trigger] after.names@[j]@ implies i == j by {
        if i < last {
            assert(before.names@[i] == after.names@[i]);
        }
        if j < last {
            assert(before.names@[j] == after.names@[j]);
        }
    }
    assert forall|n: Seq<char>| after.contains(n) <==> (before.contains(n) || n == name) by {
        if after.contains(n) {
            let k = position_of(after.names@, n);
            if k < last {
                assert(before.names@[k]@ == n);
            }
        }
        if before.contains(n) {
            let k = position_of(before.names@, n);
            assert(after.names@[k]@ == n);
        }
        if n == name {
            assert(after.names@[last]@ == n);
        }
    }
    assert forall|n: Seq<char>| after@.contains_key(n) implies #[trigger] after@[n] == before@.insert(
        name,
        after.values@.last(),
    )[n] by {
        let k = position_of(after.names@, n);
        assert(after.names@[k]@ == n);
        if n == name {
            assert(after.names@[last]@ == n);
        } else {
            let kb = position_of(before.names@, n);
            assert(before.names@[kb]@ == n);
            assert(after.names@[kb]@ == n);
            assert(before.values@[kb] == after.values@[kb]);
        }
    }
    assert(after@ =~= before@.insert(name, after.values@.last()));
}

/// The item at `index`, for writing.
pub fn item_mut<T>(items: &mut Vec<T>, index: usize) -> (item: &mut T)
    requires
        index < old(items)@.len(),
    ensures
        *item == old(items)@[index as int],
        final(items)@ == old(items)@.update(index as int, *final(item)),
        final(items)@[index as int] == *final(item),
{
    &mut items[index]
}

} // verus!
