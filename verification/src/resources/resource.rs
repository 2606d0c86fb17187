use crate::data_types::engine::{Color, KeyCode, Mesh, SoundData, Text};
use crate::data_types::number::Float;
use crate::data_types::point::Point;
use crate::errors::BbEcsError;
use crate::storable::Storable;
use vstd::prelude::*;

verus! {

/// A resource value: one of a closed set of kinds.
#[derive(Debug, PartialEq, Eq)]
pub enum Resource {
    Color(Color),
    Mesh(Mesh),
    Point(Point),
    U32(u32),
    F32(Float),
    Usize(usize),
    Bool(bool),
    GgezKeyCode(KeyCode),
    Marker(String),
    GgezText(Text),
    GgezSound(SoundData),
}

/// Access to the value inside a resource as the type `T`.
pub trait ResourceCast<T> {
    /// A reference to the value, or `CastingResource` where the resource is of
    /// another kind.
    fn cast(&self) -> Result<&T, BbEcsError>;

    /// A mutable reference to the value, or `CastingResource` where the
    /// resource is of another kind.
    fn cast_mut(&mut self) -> Result<&mut T, BbEcsError>;
}

impl<T: Storable> ResourceCast<T> for Resource {
    fn cast(&self) -> (res: Result<&T, BbEcsError>)
        ensures
            res matches Ok(value) ==> T::resource(*value) == *self,
            res matches Err(e) ==> e == BbEcsError::CastingResource && forall|value: T|
                #[trigger] T::resource(value) != *self,
    {
        match T::of_resource(self) {
            Some(value) => Ok(value),
            None => Err(BbEcsError::CastingResource),
        }
    }

    fn cast_mut(&mut self) -> (res: Result<&mut T, BbEcsError>)
        ensures
            res matches Ok(value) ==> T::resource(*value) == *old(self)
                && *final(self) == T::resource(*final(value)),
            res matches Err(e) ==> e == BbEcsError::CastingResource && *final(self) == *old(self)
                && forall|value: T| #[trigger] T::resource(value) != *old(self),
    {
        match T::of_resource_mut(self) {
            Some(value) => Ok(value),
            None => Err(BbEcsError::CastingResource),
        }
    }
}

} // verus!
