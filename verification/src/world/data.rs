use crate::components::Component;
use crate::table::{position_of, NameTable};
use vstd::prelude::*;

verus! {

/// For every component name the list of the kinds of component stored under
/// it, in the order in which they were stored.
pub struct Data {
    pub data: NameTable<Vec<Component>>,
}

impl Data {
    /// No name has two lists.
    pub open spec fn wf(&self) -> bool {
        self.data.wf()
    }

    /// The list stored under every name.
    pub open spec fn view(&self) -> Map<Seq<char>, Seq<Component>> {
        self.data@.map_values(|list: Vec<Component>| list@)
    }

    /// No name has a list yet.
    pub fn new() -> (data: Self)
        ensures
            data.wf(),
            data@ == Map::<Seq<char>, Seq<Component>>::empty(),
            data.data.names@.len() == 0,
    {
        let data = NameTable::new();
        let data = Self { data };
        assert(data@ =~= Map::<Seq<char>, Seq<Component>>::empty());
        data
    }

    /// Appends `new_data` to the list of `entity_name`, which starts empty.
    pub fn insert(&mut self, entity_name: &str, new_data: Component)
        requires
            old(self).wf(),
        ensures
            final(self).wf(),
            final(self)@ == old(self)@.insert(
                entity_name@,
                if old(self)@.contains_key(entity_name@) {
                    old(self)@[entity_name@].push(new_data)
                } else {
                    seq![new_data]
                },
            ),
    {
        match self.data.position(entity_name) {
            Some(i) => {
                self.data.values[i].push(new_data);
                proof {
                    crate::table::lemma_update_is_insert(old(self).data, self.data, i as int);
                    assert(self@ =~= old(self)@.insert(
                        entity_name@,
                        old(self)@[entity_name@].push(new_data),
                    ));
                }
            },
            None => {
                let mut raw_data: Vec<Component> = Vec::new();
                raw_data.push(new_data);
                self.data.insert(entity_name.to_owned(), raw_data);
                proof {
                    assert(raw_data@ =~= seq![new_data]);
                    assert(self@ =~= old(self)@.insert(entity_name@, seq![new_data]));
                }
            },
        }
    }

    /// The list stored under `component_name`, for writing.
    pub fn query_one_mut(&mut self, component_name: &str) -> (found: Option<&mut Vec<Component>>)
        requires
            old(self).wf(),
        ensures
            found.is_some() == old(self)@.contains_key(component_name@),
            found matches Some(list) ==> list@ == old(self)@[component_name@] && final(self).wf()
                && final(self)@ == old(self)@.insert(component_name@, (*final(list))@),
            found is None ==> *final(self) == *old(self),
    {
        proof {
            if self@.contains_key(component_name@) {
                let i = position_of(self.data.names@, component_name@);
                assert(self.data.names@[i]@ == component_name@);
                assert forall|after: Data|
                    after.data.names@ == self.data.names@ && after.data.values@
                        == self.data.values@.update(i, after.data.values@[i]) implies #[trigger] after.wf()
                    && after@ == self@.insert(component_name@, after.data.values@[i]@) by {
                    crate::table::lemma_update_is_insert(self.data, after.data, i);
                    assert(after@ =~= self@.insert(component_name@, after.data.values@[i]@));
                }
            }
        }
        self.data.get_mut(component_name)
    }
}

} // verus!
