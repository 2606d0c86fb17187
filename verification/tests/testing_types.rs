use bbecs::components::CastComponents;
use bbecs::data_types::engine::{Color, KeyCode, Mesh, SoundData, Text};
use bbecs::data_types::number::Float;
use bbecs::data_types::point::Point;
use bbecs::errors::BbEcsError;
use bbecs::resources::resource::{Resource, ResourceCast};
use bbecs::storable::Storable;
use bbecs::world::{World, WorldMethods};
use std::fmt::Debug;

fn resource_immutably<T: Storable + Default + PartialEq + Debug>() -> Result<(), BbEcsError> {
    let mut world = World::new();
    let new_resource = T::default();
    world.add_resource("resource".to_owned(), new_resource);

    let resource: &T = world.get_resource("resource")?.cast()?;
    let expected_result = T::default();
    assert_eq!(*resource, expected_result);
    Ok(())
}

fn resource_mutably<T: Storable + Default + PartialEq + Debug>() -> Result<(), BbEcsError> {
    let mut world = World::new();
    let new_resource = T::default();
    world.add_resource("resource".to_owned(), new_resource);

    let resource: &mut T = world.get_resource_mut("resource")?.cast_mut()?;
    let expected_result = T::default();
    assert_eq!(*resource, expected_result);
    Ok(())
}

fn component<T: Storable + Default + PartialEq + Debug>() -> Result<(), BbEcsError> {
    let mut world = World::new();
    let data = T::default();
    world.register("component")?;
    world.spawn_entity()?.with_component("component", data)?;

    let query = world.query(vec!["component"])?;
    let components = query.get("component").unwrap();
    let component: &T = components[0].cast()?;
    assert_eq!(*component, T::default());
    Ok(())
}

#[test]
fn testing_f32s_cast_resource_immutably() -> Result<(), BbEcsError> {
    resource_immutably::<Float>()
}

#[test]
fn testing_f32s_cast_resource_mutably() -> Result<(), BbEcsError> {
    resource_mutably::<Float>()
}

#[test]
fn testing_f32s_query_component() -> Result<(), BbEcsError> {
    assert_eq!(Float::default().to_bits(), 0.0_f32.to_bits());
    component::<Float>()
}

#[test]
fn testing_points_cast_resource_immutably() -> Result<(), BbEcsError> {
    resource_immutably::<Point>()
}

#[test]
fn testing_points_cast_resource_mutably() -> Result<(), BbEcsError> {
    resource_mutably::<Point>()
}

#[test]
fn testing_points_query_component() -> Result<(), BbEcsError> {
    component::<Point>()
}

#[test]
fn testing_u32s_cast_resource_immutably() -> Result<(), BbEcsError> {
    resource_immutably::<u32>()
}

#[test]
fn testing_u32s_cast_resource_mutably() -> Result<(), BbEcsError> {
    resource_mutably::<u32>()
}

#[test]
fn testing_u32s_query_component() -> Result<(), BbEcsError> {
    component::<u32>()
}

#[test]
fn testing_usizes_cast_resource_immutably() -> Result<(), BbEcsError> {
    resource_immutably::<usize>()
}

#[test]
fn testing_usizes_cast_resource_mutably() -> Result<(), BbEcsError> {
    resource_mutably::<usize>()
}

#[test]
fn testing_usizes_query_component() -> Result<(), BbEcsError> {
    component::<usize>()
}

#[test]
fn testing_booleans_cast_resource_immutably() -> Result<(), BbEcsError> {
    resource_immutably::<bool>()
}

#[test]
fn testing_booleans_cast_resource_mutably() -> Result<(), BbEcsError> {
    resource_mutably::<bool>()
}

#[test]
fn testing_booleans_query_component() -> Result<(), BbEcsError> {
    component::<bool>()
}

#[test]
fn testing_markers_cast_resource_immutably() -> Result<(), BbEcsError> {
    resource_immutably::<String>()
}

#[test]
fn testing_markers_cast_resource_mutably() -> Result<(), BbEcsError> {
    resource_mutably::<String>()
}

#[test]
fn testing_markers_query_component() -> Result<(), BbEcsError> {
    component::<String>()
}

#[test]
fn every_kind_is_stored_as_itself() -> Result<(), BbEcsError> {
    let float = Float::from_bits(1.5_f32.to_bits());
    let color = Color::new(float, float, float, float);
    let mut world = World::new();
    for name in [
        "point", "float", "color", "mesh", "u32", "usize", "bool", "key", "marker", "text",
        "sound",
    ] {
        world.register(name)?;
    }
    world
        .spawn_entity()?
        .with_component("point", Point::new(float, float))?
        .with_component("float", float)?
        .with_component("color", color)?
        .with_component("mesh", Mesh { handle: 1 })?
        .with_component("u32", 2_u32)?
        .with_component("usize", 3_usize)?
        .with_component("bool", true)?
        .with_component("key", KeyCode { code: 4 })?
        .with_component("marker", "five".to_owned())?
        .with_component("text", Text { handle: 6 })?
        .with_component("sound", SoundData { handle: 7 })?;

    let values = world.query(vec![
        "point", "float", "color", "mesh", "u32", "usize", "bool", "key", "marker", "text",
        "sound",
    ])?;
    let value = |name: &str| values.get(name).unwrap()[0];
    assert_eq!(*CastComponents::<Point>::cast(value("point"))?, Point::new(float, float));
    assert_eq!(*CastComponents::<Float>::cast(value("float"))?, float);
    assert_eq!(*CastComponents::<Color>::cast(value("color"))?, color);
    assert_eq!(*CastComponents::<Mesh>::cast(value("mesh"))?, Mesh { handle: 1 });
    assert_eq!(*CastComponents::<u32>::cast(value("u32"))?, 2);
    assert_eq!(*CastComponents::<usize>::cast(value("usize"))?, 3);
    assert_eq!(*CastComponents::<bool>::cast(value("bool"))?, true);
    assert_eq!(*CastComponents::<KeyCode>::cast(value("key"))?, KeyCode { code: 4 });
    assert_eq!(*CastComponents::<String>::cast(value("marker"))?, "five");
    assert_eq!(*CastComponents::<Text>::cast(value("text"))?, Text { handle: 6 });
    assert_eq!(*CastComponents::<SoundData>::cast(value("sound"))?, SoundData { handle: 7 });
    let wrong: Result<&Float, BbEcsError> = value("u32").cast();
    assert_eq!(wrong, Err(BbEcsError::CastingComponents));
    Ok(())
}

#[test]
fn every_kind_of_resource_is_stored_as_itself() {
    let float = Float::from_bits(1.5_f32.to_bits());
    assert_eq!(float.into_resource(), Resource::F32(float));
    assert_eq!(2_u32.into_resource(), Resource::U32(2));
    assert_eq!(3_usize.into_resource(), Resource::Usize(3));
    assert_eq!(true.into_resource(), Resource::Bool(true));
    assert_eq!("m".to_owned().into_resource(), Resource::Marker("m".to_owned()));
    assert_eq!(Mesh { handle: 1 }.into_resource(), Resource::Mesh(Mesh { handle: 1 }));
    assert_eq!(Text { handle: 1 }.into_resource(), Resource::GgezText(Text { handle: 1 }));
    assert_eq!(
        SoundData { handle: 1 }.into_resource(),
        Resource::GgezSound(SoundData { handle: 1 })
    );
    assert_eq!(
        KeyCode { code: 1 }.into_resource(),
        Resource::GgezKeyCode(KeyCode { code: 1 })
    );
    assert_eq!(
        Point::new(float, float).into_resource(),
        Resource::Point(Point::new(float, float))
    );
    let mut resource = Resource::U32(4);
    *ResourceCast::<u32>::cast_mut(&mut resource).unwrap() += 1;
    assert_eq!(resource, Resource::U32(5));
    let wrong: Result<&bool, BbEcsError> = resource.cast();
    assert_eq!(wrong, Err(BbEcsError::CastingResource));
}
