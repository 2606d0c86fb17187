use crate::components::ComponentData;
use crate::data_types::engine::{Color, KeyCode, Mesh, SoundData, Text};
use crate::data_types::number::Float;
use crate::data_types::point::Point;
use crate::resources::resource::Resource;
use vstd::prelude::*;

verus! {

/// A type of value that a world stores: as a component of an entity or as a
/// resource. Each such type has one kind of component and one kind of
/// resource that hold it.
pub trait Storable: Sized {
    /// The component that holds `self`.
    spec fn component(self) -> ComponentData;

    /// The resource that holds `self`.
    spec fn resource(self) -> Resource;

    /// Wraps the value in the component that holds it.
    fn into_component(self) -> (component: ComponentData)
        ensures
            component == self.component(),
    ;

    /// Wraps the value in the resource that holds it.
    fn into_resource(self) -> (resource: Resource)
        ensures
            resource == self.resource(),
    ;

    /// The value that `component` holds, where it is of the kind for `Self`.
    fn of_component(component: &ComponentData) -> (found: Option<&Self>)
        ensures
            found matches Some(value) ==> value.component() == *component,
            found is None ==> forall|value: Self| #[trigger] value.component() != *component,
    ;

    /// The value that `component` holds, for writing.
    fn of_component_mut(component: &mut ComponentData) -> (found: Option<&mut Self>)
        ensures
            found matches Some(value) ==> value.component() == *old(component)
                && *final(component) == (*final(value)).component(),
            found is None ==> *final(component) == *old(component) && forall|value: Self|
                #[trigger] value.component() != *old(component),
    ;

    /// The value that `resource` holds, where it is of the kind for `Self`.
    fn of_resource(resource: &Resource) -> (found: Option<&Self>)
        ensures
            found matches Some(value) ==> value.resource() == *resource,
            found is None ==> forall|value: Self| #[trigger] value.resource() != *resource,
    ;

    /// The value that `resource` holds, for writing.
    fn of_resource_mut(resource: &mut Resource) -> (found: Option<&mut Self>)
        ensures
            found matches Some(value) ==> value.resource() == *old(resource) && *final(resource)
                == (*final(value)).resource(),
            found is None ==> *final(resource) == *old(resource) && forall|value: Self|
                #[trigger] value.resource() != *old(resource),
    ;
}

impl Storable for Point {
    open spec fn component(self) -> ComponentData {
        ComponentData::Point(self)
    }

    open spec fn resource(self) -> Resource {
        Resource::Point(self)
    }

    fn into_component(self) -> (component: ComponentData) {
        ComponentData::Point(self)
    }

    fn into_resource(self) -> (resource: Resource) {
        Resource::Point(self)
    }

    fn of_component(component: &ComponentData) -> (found: Option<&Self>) {
        match component {
            ComponentData::Point(value) => Some(value),
            _ => None,
        }
    }

    fn of_component_mut(component: &mut ComponentData) -> (found: Option<&mut Self>) {
        match component {
            ComponentData::Point(value) => Some(value),
            _ => None,
        }
    }

    fn of_resource(resource: &Resource) -> (found: Option<&Self>) {
        match resource {
            Resource::Point(value) => Some(value),
            _ => None,
        }
    }

    fn of_resource_mut(resource: &mut Resource) -> (found: Option<&mut Self>) {
        match resource {
            Resource::Point(value) => Some(value),
            _ => None,
        }
    }
}

impl Storable for Float {
    open spec fn component(self) -> ComponentData {
        ComponentData::F32(self)
    }

    open spec fn resource(self) -> Resource {
        Resource::F32(self)
    }

    fn into_component(self) -> (component: ComponentData) {
        ComponentData::F32(self)
    }

    fn into_resource(self) -> (resource: Resource) {
        Resource::F32(self)
    }

    fn of_component(component: &ComponentData) -> (found: Option<&Self>) {
        match component {
            ComponentData::F32(value) => Some(value),
            _ => None,
        }
    }

    fn of_component_mut(component: &mut ComponentData) -> (found: Option<&mut Self>) {
        match component {
            ComponentData::F32(value) => Some(value),
            _ => None,
        }
    }

    fn of_resource(resource: &Resource) -> (found: Option<&Self>) {
        match resource {
            Resource::F32(value) => Some(value),
            _ => None,
        }
    }

    fn of_resource_mut(resource: &mut Resource) -> (found: Option<&mut Self>) {
        match resource {
            Resource::F32(value) => Some(value),
            _ => None,
        }
    }
}

impl Storable for Color {
    open spec fn component(self) -> ComponentData {
        ComponentData::Color(self)
    }

    open spec fn resource(self) -> Resource {
        Resource::Color(self)
    }

    fn into_component(self) -> (component: ComponentData) {
        ComponentData::Color(self)
    }

    fn into_resource(self) -> (resource: Resource) {
        Resource::Color(self)
    }

    fn of_component(component: &ComponentData) -> (found: Option<&Self>) {
        match component {
            ComponentData::Color(value) => Some(value),
            _ => None,
        }
    }

    fn of_component_mut(component: &mut ComponentData) -> (found: Option<&mut Self>) {
        match component {
            ComponentData::Color(value) => Some(value),
            _ => None,
        }
    }

    fn of_resource(resource: &Resource) -> (found: Option<&Self>) {
        match resource {
            Resource::Color(value) => Some(value),
            _ => None,
        }
    }

    fn of_resource_mut(resource: &mut Resource) -> (found: Option<&mut Self>) {
        match resource {
            Resource::Color(value) => Some(value),
            _ => None,
        }
    }
}

impl Storable for Mesh {
    open spec fn component(self) -> ComponentData {
        ComponentData::Mesh(self)
    }

    open spec fn resource(self) -> Resource {
        Resource::Mesh(self)
    }

    fn into_component(self) -> (component: ComponentData) {
        ComponentData::Mesh(self)
    }

    fn into_resource(self) -> (resource: Resource) {
        Resource::Mesh(self)
    }

    fn of_component(component: &ComponentData) -> (found: Option<&Self>) {
        match component {
            ComponentData::Mesh(value) => Some(value),
            _ => None,
        }
    }

    fn of_component_mut(component: &mut ComponentData) -> (found: Option<&mut Self>) {
        match component {
            ComponentData::Mesh(value) => Some(value),
            _ => None,
        }
    }

    fn of_resource(resource: &Resource) -> (found: Option<&Self>) {
        match resource {
            Resource::Mesh(value) => Some(value),
            _ => None,
        }
    }

    fn of_resource_mut(resource: &mut Resource) -> (found: Option<&mut Self>) {
        match resource {
            Resource::Mesh(value) => Some(value),
            _ => None,
        }
    }
}

impl Storable for u32 {
    open spec fn component(self) -> ComponentData {
        ComponentData::U32(self)
    }

    open spec fn resource(self) -> Resource {
        Resource::U32(self)
    }

    fn into_component(self) -> (component: ComponentData) {
        ComponentData::U32(self)
    }

    fn into_resource(self) -> (resource: Resource) {
        Resource::U32(self)
    }

    fn of_component(component: &ComponentData) -> (found: Option<&Self>) {
        match component {
            ComponentData::U32(value) => Some(value),
            _ => None,
        }
    }

    fn of_component_mut(component: &mut ComponentData) -> (found: Option<&mut Self>) {
        match component {
            ComponentData::U32(value) => Some(value),
            _ => None,
        }
    }

    fn of_resource(resource: &Resource) -> (found: Option<&Self>) {
        match resource {
            Resource::U32(value) => Some(value),
            _ => None,
        }
    }

    fn of_resource_mut(resource: &mut Resource) -> (found: Option<&mut Self>) {
        match resource {
            Resource::U32(value) => Some(value),
            _ => None,
        }
    }
}

impl Storable for usize {
    open spec fn component(self) -> ComponentData {
        ComponentData::Usize(self)
    }

    open spec fn resource(self) -> Resource {
        Resource::Usize(self)
    }

    fn into_component(self) -> (component: ComponentData) {
        ComponentData::Usize(self)
    }

    fn into_resource(self) -> (resource: Resource) {
        Resource::Usize(self)
    }

    fn of_component(component: &ComponentData) -> (found: Option<&Self>) {
        match component {
            ComponentData::Usize(value) => Some(value),
            _ => None,
        }
    }

    fn of_component_mut(component: &mut ComponentData) -> (found: Option<&mut Self>) {
        match component {
            ComponentData::Usize(value) => Some(value),
            _ => None,
        }
    }

    fn of_resource(resource: &Resource) -> (found: Option<&Self>) {
        match resource {
            Resource::Usize(value) => Some(value),
            _ => None,
        }
    }

    fn of_resource_mut(resource: &mut Resource) -> (found: Option<&mut Self>) {
        match resource {
            Resource::Usize(value) => Some(value),
            _ => None,
        }
    }
}

impl Storable for bool {
    open spec fn component(self) -> ComponentData {
        ComponentData::Bool(self)
    }

    open spec fn resource(self) -> Resource {
        Resource::Bool(self)
    }

    fn into_component(self) -> (component: ComponentData) {
        ComponentData::Bool(self)
    }

    fn into_resource(self) -> (resource: Resource) {
        Resource::Bool(self)
    }

    fn of_component(component: &ComponentData) -> (found: Option<&Self>) {
        match component {
            ComponentData::Bool(value) => Some(value),
            _ => None,
        }
    }

    fn of_component_mut(component: &mut ComponentData) -> (found: Option<&mut Self>) {
        match component {
            ComponentData::Bool(value) => Some(value),
            _ => None,
        }
    }

    fn of_resource(resource: &Resource) -> (found: Option<&Self>) {
        match resource {
            Resource::Bool(value) => Some(value),
            _ => None,
        }
    }

    fn of_resource_mut(resource: &mut Resource) -> (found: Option<&mut Self>) {
        match resource {
            Resource::Bool(value) => Some(value),
            _ => None,
        }
    }
}

impl Storable for KeyCode {
    open spec fn component(self) -> ComponentData {
        ComponentData::GgezKeyCode(self)
    }

    open spec fn resource(self) -> Resource {
        Resource::GgezKeyCode(self)
    }

    fn into_component(self) -> (component: ComponentData) {
        ComponentData::GgezKeyCode(self)
    }

    fn into_resource(self) -> (resource: Resource) {
        Resource::GgezKeyCode(self)
    }

    fn of_component(component: &ComponentData) -> (found: Option<&Self>) {
        match component {
            ComponentData::GgezKeyCode(value) => Some(value),
            _ => None,
        }
    }

    fn of_component_mut(component: &mut ComponentData) -> (found: Option<&mut Self>) {
        match component {
            ComponentData::GgezKeyCode(value) => Some(value),
            _ => None,
        }
    }

    fn of_resource(resource: &Resource) -> (found: Option<&Self>) {
        match resource {
            Resource::GgezKeyCode(value) => Some(value),
            _ => None,
        }
    }

    fn of_resource_mut(resource: &mut Resource) -> (found: Option<&mut Self>) {
        match resource {
            Resource::GgezKeyCode(value) => Some(value),
            _ => None,
        }
    }
}

impl Storable for String {
    open spec fn component(self) -> ComponentData {
        ComponentData::Marker(self)
    }

    open spec fn resource(self) -> Resource {
        Resource::Marker(self)
    }

    fn into_component(self) -> (component: ComponentData) {
        ComponentData::Marker(self)
    }

    fn into_resource(self) -> (resource: Resource) {
        Resource::Marker(self)
    }

    fn of_component(component: &ComponentData) -> (found: Option<&Self>) {
        match component {
            ComponentData::Marker(value) => Some(value),
            _ => None,
        }
    }

    fn of_component_mut(component: &mut ComponentData) -> (found: Option<&mut Self>) {
        match component {
            ComponentData::Marker(value) => Some(value),
            _ => None,
        }
    }

    fn of_resource(resource: &Resource) -> (found: Option<&Self>) {
        match resource {
            Resource::Marker(value) => Some(value),
            _ => None,
        }
    }

    fn of_resource_mut(resource: &mut Resource) -> (found: Option<&mut Self>) {
        match resource {
            Resource::Marker(value) => Some(value),
            _ => None,
        }
    }
}

impl Storable for Text {
    open spec fn component(self) -> ComponentData {
        ComponentData::GgezText(self)
    }

    open spec fn resource(self) -> Resource {
        Resource::GgezText(self)
    }

    fn into_component(self) -> (component: ComponentData) {
        ComponentData::GgezText(self)
    }

    fn into_resource(self) -> (resource: Resource) {
        Resource::GgezText(self)
    }

    fn of_component(component: &ComponentData) -> (found: Option<&Self>) {
        match component {
            ComponentData::GgezText(value) => Some(value),
            _ => None,
        }
    }

    fn of_component_mut(component: &mut ComponentData) -> (found: Option<&mut Self>) {
        match component {
            ComponentData::GgezText(value) => Some(value),
            _ => None,
        }
    }

    fn of_resource(resource: &Resource) -> (found: Option<&Self>) {
        match resource {
            Resource::GgezText(value) => Some(value),
            _ => None,
        }
    }

    fn of_resource_mut(resource: &mut Resource) -> (found: Option<&mut Self>) {
        match resource {
            Resource::GgezText(value) => Some(value),
            _ => None,
        }
    }
}

impl Storable for SoundData {
    open spec fn component(self) -> ComponentData {
        ComponentData::GgezSound(self)
    }

    open spec fn resource(self) -> Resource {
        Resource::GgezSound(self)
    }

    fn into_component(self) -> (component: ComponentData) {
        ComponentData::GgezSound(self)
    }

    fn into_resource(self) -> (resource: Resource) {
        Resource::GgezSound(self)
    }

    fn of_component(component: &ComponentData) -> (found: Option<&Self>) {
        match component {
            ComponentData::GgezSound(value) => Some(value),
            _ => None,
        }
    }

    fn of_component_mut(component: &mut ComponentData) -> (found: Option<&mut Self>) {
        match component {
            ComponentData::GgezSound(value) => Some(value),
            _ => None,
        }
    }

    fn of_resource(resource: &Resource) -> (found: Option<&Self>) {
        match resource {
            Resource::GgezSound(value) => Some(value),
            _ => None,
        }
    }

    fn of_resource_mut(resource: &mut Resource) -> (found: Option<&mut Self>) {
        match resource {
            Resource::GgezSound(value) => Some(value),
            _ => None,
        }
    }
}

} // verus!
