use core::any::TypeId;
use vstd::prelude::*;

verus! {

/// `core::any::TypeId`, the identifier that the language gives to a type.
/// Nothing is known of what is inside one.
#[verifier::external_type_specification]
#[verifier::external_body]
pub struct ExTypeId(TypeId);

/// `TypeId::eq`: two identifiers compare equal exactly if they are the same
/// identifier.
pub assume_specification[ <TypeId as PartialEq>::eq ](a: &TypeId, b: &TypeId) -> (same: bool)
    ensures
        same == (*a == *b),
;

/// `TypeId::of`: the identifier of the type `T`. Which identifier a type gets
/// is the compiler's choice; nothing is claimed of it.
#[verifier::external_body]
pub(crate) fn type_id_of<T: 'static>() -> (id: TypeId) {
    TypeId::of::<T>()
}

/// The position of `key` among `keys`, if it is one of them.
pub fn find_type(keys: &Vec<TypeId>, key: &TypeId) -> (found: Option<usize>)
    ensures
        found matches Some(i) ==> i < keys@.len() && keys@[i as int] == *key && forall|j: int|
            0 <= j < i ==> keys@[j] != *key,
        found is None ==> !keys@.contains(*key),
{
    let mut i: usize = 0;
    while i < keys.len()
        invariant
            i <= keys@.len(),
            forall|j: int| 0 <= j < i ==> keys@[j] != *key,
        decreases keys@.len() - i,
    {
        if keys[i] == *key {
            return Some(i);
        }
        i += 1;
    }
    None
}

} // verus!
