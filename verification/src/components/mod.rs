use crate::data_types::engine::{Color, KeyCode, Mesh, SoundData, Text};
use crate::data_types::number::Float;
use crate::data_types::point::Point;
use crate::errors::BbEcsError;
use crate::storable::Storable;
use vstd::prelude::*;

verus! {

/// Access to the value inside a component as the type `T`.
pub trait CastComponents<T> {
    /// A reference to the value, or `CastingComponents` where the component is
    /// of another kind.
    fn cast(&self) -> Result<&T, BbEcsError>;
}

/// A component value: one of a closed set of kinds.
#[derive(Debug, PartialEq, Eq)]
pub enum ComponentData {
    Point(Point),
    F32(Float),
    Color(Color),
    Mesh(Mesh),
    U32(u32),
    Usize(usize),
    Bool(bool),
    GgezKeyCode(KeyCode),
    Marker(String),
    GgezText(Text),
    GgezSound(SoundData),
}

/// The kind of a component value.
#[derive(Clone, Copy, Debug, PartialEq, Eq, Structural)]
pub enum Component {
    Point,
    F32,
    Color,
    Mesh,
    U32,
    Usize,
    Bool,
    GgezKeyCode,
    Marker,
    GgezText,
}

impl<T: Storable> CastComponents<T> for ComponentData {
    fn cast(&self) -> (res: Result<&T, BbEcsError>)
        ensures
            res matches Ok(value) ==> T::component(*value) == *self,
            res matches Err(e) ==> e == BbEcsError::CastingComponents && forall|value: T|
                #[trigger] T::component(value) != *self,
    {
        match T::of_component(self) {
            Some(value) => Ok(value),
            None => Err(BbEcsError::CastingComponents),
        }
    }
}

impl ComponentData {
    /// A mutable reference to the value inside the component as the type `T`,
    /// or `CastingComponents` where the component is of another kind.
    pub fn cast_mut<T: Storable>(&mut self) -> (res: Result<&mut T, BbEcsError>)
        ensures
            res matches Ok(value) ==> T::component(*value) == *old(self)
                && *final(self) == T::component(*final(value)),
            res matches Err(e) ==> e == BbEcsError::CastingComponents && *final(self) == *old(self)
                && forall|value: T| #[trigger] T::component(value) != *old(self),
    {
        match T::of_component_mut(self) {
            Some(value) => Ok(value),
            None => Err(BbEcsError::CastingComponents),
        }
    }
}

} // verus!
