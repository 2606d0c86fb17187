use crate::type_key::type_id_of;
use core::any::TypeId;
use vstd::prelude::*;

verus! {

/// A list of the component types that a query asks for.
pub struct Query {
    pub data_keys: Vec<TypeId>,
}

impl Query {
    /// A query that asks for no type yet.
    pub fn new() -> (query: Self)
        ensures
            query.data_keys@.len() == 0,
    {
        Self { data_keys: Vec::new() }
    }

    /// Asks for one more component type, given by its identifier.
    pub fn with_key(self, type_id: TypeId) -> (query: Self)
        ensures
            query.data_keys@ == self.data_keys@.push(type_id),
    {
        let mut query = self;
        query.data_keys.push(type_id);
        query
    }

    /// Asks for one more component type: the type `T`.
    pub fn with_type<T: 'static>(self) -> (query: Self)
        ensures
            query.data_keys@.len() == self.data_keys@.len() + 1,
            query.data_keys@.drop_last() == self.data_keys@,
    {
        let ghost before = self.data_keys@;
        let query = self.with_key(type_id_of::<T>());
        assert(query.data_keys@.drop_last() =~= before);
        query
    }
}

} // verus!
