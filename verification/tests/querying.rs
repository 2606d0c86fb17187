use bbecs::components::CastComponents;
use bbecs::data_types::engine::Text;
use bbecs::data_types::number::Float;
use bbecs::data_types::point::Point;
use bbecs::errors::BbEcsError;
use bbecs::world::{World, WorldMethods};

fn float(value: f32) -> Float {
    Float::from_bits(value.to_bits())
}

fn point(x: f32, y: f32) -> Point {
    Point::new(float(x), float(y))
}

#[test]
fn querying_for_multiple_components() -> Result<(), BbEcsError> {
    let mut world = World::new();
    let location_name = "location";
    let size_name = "size";
    let location = point(0.0, 0.0);
    let size = 15_u32;

    world.register(size_name)?;
    world.register(location_name)?;

    world
        .spawn_entity()?
        .with_component(location_name, location)?
        .with_component(size_name, size)?;

    let components = world.query(vec![location_name, size_name])?;
    let locations = components.get(location_name).unwrap();
    let sizes = components.get(size_name).unwrap();

    let queried_location: &Point = locations[0].cast()?;
    let queried_size: &u32 = sizes[0].cast()?;

    assert_eq!(*queried_location, location);
    assert_eq!(*queried_size, size);
    Ok(())
}

#[test]
fn query_for_entities_when_not_all_entities_have_same_number_of_components(
) -> Result<(), BbEcsError> {
    let mut world = World::new();
    let location_name = "location";
    let size_name = "size";
    let first_location = point(0.0, 0.0);
    let second_location = point(10.0, 10.0);
    let third_location = point(15.0, 15.0);
    let size = 15_u32;
    let third_size = 30_u32;

    world.register(location_name)?;
    world.register(size_name)?;

    world
        .spawn_entity()?
        .with_component(location_name, first_location)?
        .with_component(size_name, size)?;

    world
        .spawn_entity()?
        .with_component(location_name, second_location)?;

    world
        .spawn_entity()?
        .with_component(location_name, third_location)?
        .with_component(size_name, third_size)?;

    let components = world.query(vec![location_name, size_name])?;
    let locations = components.get(location_name).unwrap();
    let sizes = components.get(size_name).unwrap();

    assert_eq!(locations.len(), sizes.len());
    assert_eq!(locations.len(), 2);
    let queried_first_location: &Point = locations[0].cast()?;
    assert_eq!(*queried_first_location, first_location);
    let queried_second_location: &Point = locations[1].cast()?;
    assert_eq!(*queried_second_location, third_location);
    let queried_first_size: &u32 = sizes[0].cast()?;
    assert_eq!(*queried_first_size, size);
    let queried_second_size: &u32 = sizes[1].cast()?;
    assert_eq!(*queried_second_size, third_size);
    Ok(())
}

#[test]
fn querying_for_messages() -> Result<(), BbEcsError> {
    let mut world = World::new();
    // The engine keeps the texts; the world keeps their handles.
    let texts = vec!["testing"];

    world.register("location")?;
    world.register("message")?;
    world.register("size")?;

    // another entity that we don't want in the query
    world
        .spawn_entity()?
        .with_component("location", point(10.0, 10.0))?
        .with_component("size", float(15.0_f32))?;

    world
        .spawn_entity()?
        .with_component("location", point(0.0, 0.0))?
        .with_component("message", Text { handle: 0 })?;

    let queries = world.query(vec!["location", "message"])?;
    let locations = queries.get("location").unwrap();
    let messages = queries.get("message").unwrap();
    assert_eq!(locations.len(), messages.len());
    assert_eq!(locations.len(), 1);
    let message: &Text = messages[0].cast()?;
    assert_eq!(texts[message.handle as usize], "testing");
    let location: &Point = locations[0].cast()?;
    assert_eq!(*location, point(0.0, 0.0));

    Ok(())
}

#[test]
fn query_for_an_unregistered_name_fails() -> Result<(), BbEcsError> {
    let mut world = World::new();
    world.register("location")?;
    world.spawn_entity()?.with_component("location", point(1.0, 2.0))?;
    let result = world.query(vec!["location", "size", "colour"]);
    assert_eq!(
        result.err(),
        Some(BbEcsError::ComponentNotFound("size".to_owned()))
    );
    assert_eq!(
        world.query_one("size").err(),
        Some(BbEcsError::ComponentNotFound("size".to_owned()))
    );
    Ok(())
}

#[test]
fn query_without_names_returns_nothing() -> Result<(), BbEcsError> {
    let mut world = World::new();
    world.spawn_entity()?;
    let result = world.query(vec![])?;
    assert_eq!(result.len(), 0);
    Ok(())
}

#[test]
fn query_with_a_name_twice_returns_one_column() -> Result<(), BbEcsError> {
    let mut world = World::new();
    world.register("size")?;
    world.spawn_entity()?.with_component("size", 4_u32)?;
    let result = world.query(vec!["size", "size"])?;
    assert_eq!(result.len(), 1);
    assert_eq!(result.get("size").unwrap().len(), 1);
    Ok(())
}

#[test]
fn value_given_is_value_found() -> Result<(), BbEcsError> {
    let mut world = World::new();
    world.register("size")?;
    world.register("name")?;
    world.spawn_entity()?.with_component("size", 1_u32)?;
    world.spawn_entity()?;
    world
        .spawn_entity()?
        .with_component("name", "third".to_owned())?
        .with_component("size", 3_u32)?;
    let sizes = world.query_one("size")?;
    assert_eq!(*CastComponents::<u32>::cast(*sizes.last().unwrap())?, 3);
    let names = world.query_one("name")?;
    assert_eq!(*CastComponents::<String>::cast(*names.last().unwrap())?, "third");
    Ok(())
}

#[test]
fn value_before_registration_is_refused() -> Result<(), BbEcsError> {
    let mut world = World::new();
    world.spawn_entity()?;
    let result = world.with_component("size", 1_u32).err();
    assert_eq!(result, Some(BbEcsError::NeedToRegister));
    assert_eq!(world.len(), 1);
    Ok(())
}

#[test]
fn registering_twice_is_refused() -> Result<(), BbEcsError> {
    let mut world = World::new();
    world.register("size")?;
    assert_eq!(
        world.register("size"),
        Err(BbEcsError::ComponentAlreadyRegistered("size".to_owned()))
    );
    assert_eq!(
        world.register("entity id"),
        Err(BbEcsError::ComponentAlreadyRegistered("entity id".to_owned()))
    );
    assert_eq!(
        world.register("to be deleted"),
        Err(BbEcsError::ComponentAlreadyRegistered(
            "to be deleted".to_owned()
        ))
    );
    Ok(())
}

#[test]
fn cast_to_another_kind_fails() -> Result<(), BbEcsError> {
    let mut world = World::new();
    world.register("size")?;
    world.spawn_entity()?.with_component("size", 4_u32)?;
    let sizes = world.query_one("size")?;
    let as_bool: Result<&bool, BbEcsError> = sizes[0].cast();
    assert_eq!(as_bool, Err(BbEcsError::CastingComponents));
    let as_usize: Result<&usize, BbEcsError> = sizes[0].cast();
    assert_eq!(as_usize, Err(BbEcsError::CastingComponents));
    let as_u32: Result<&u32, BbEcsError> = sizes[0].cast();
    assert_eq!(as_u32, Ok(&4));
    Ok(())
}
