use vstd::prelude::*;
use vstd::string::StringExecFns;

verus! {

/// Failure of the type-keyed entity store.
#[derive(Debug, PartialEq, Eq, Clone, Copy)]
pub enum Errors {
    /// A query named a component type that no entity has ever carried.
    ComponentNotFound,
}

impl Errors {
    /// The text shown to a user for this error.
    pub fn message(&self) -> (text: String)
        ensures
            text@ == "Component for entity not found"@,
    {
        "Component for entity not found".to_owned()
    }
}

/// Every recoverable failure of the name-keyed world. A variant that carries
/// a `String` carries the offending component or resource name.
#[derive(Debug, PartialEq, Eq)]
pub enum BbEcsError {
    /// A value was handed to the component store under a name that was never
    /// registered.
    NeedToRegister,
    /// The name is already registered.
    ComponentAlreadyRegistered(String),
    /// A query named a component that was never registered.
    ComponentNotFound(String),
    /// No resource is stored under the name.
    ResourceNotFound(String),
    /// A stored component is of another kind than the one asked for.
    CastingComponents,
    /// A stored resource is of another kind than the one asked for.
    CastingResource,
    /// A slot index lies beyond the end of a presence vector.
    OutOfRangeInVector,
    /// A presence bit was set under a name that was never registered.
    BitMapInsertBeforeRegister,
}

impl BbEcsError {
    /// The text shown to a user for this error, as a sequence of characters.
    pub open spec fn text(&self) -> Seq<char> {
        match self {
            BbEcsError::NeedToRegister => "Components must be registered before they are used"@,
            BbEcsError::ComponentAlreadyRegistered(name) => "The component "@ + name@
                + " is already registered"@,
            BbEcsError::ComponentNotFound(name) => "The component "@ + name@ + " was not found"@,
            BbEcsError::ResourceNotFound(name) => "The resource "@ + name@ + " was not found"@,
            BbEcsError::CastingComponents => "The component is of another kind than the one asked for"@,
            BbEcsError::CastingResource => "The resource is of another kind than the one asked for"@,
            BbEcsError::OutOfRangeInVector => "A slot lies beyond the end of a presence vector"@,
            BbEcsError::BitMapInsertBeforeRegister => "A presence bit was set before the component was registered"@,
        }
    }

    /// The text shown to a user for this error.
    pub fn message(&self) -> (text: String)
        ensures
            text@ == self.text(),
    {
        match self {
            BbEcsError::NeedToRegister => "Components must be registered before they are used".to_owned(),
            BbEcsError::ComponentAlreadyRegistered(name) => "The component ".to_owned().concat(
                name.as_str(),
            ).concat(" is already registered"),
            BbEcsError::ComponentNotFound(name) => "The component ".to_owned().concat(
                name.as_str(),
            ).concat(" was not found"),
            BbEcsError::ResourceNotFound(name) => "The resource ".to_owned().concat(
                name.as_str(),
            ).concat(" was not found"),
            BbEcsError::CastingComponents => "The component is of another kind than the one asked for".to_owned(),
            BbEcsError::CastingResource => "The resource is of another kind than the one asked for".to_owned(),
            BbEcsError::OutOfRangeInVector => "A slot lies beyond the end of a presence vector".to_owned(),
            BbEcsError::BitMapInsertBeforeRegister => "A presence bit was set before the component was registered".to_owned(),
        }
    }
}

} // verus!
