use bbecs::components::CastComponents;
use bbecs::data_types::number::Float;
use bbecs::data_types::point::Point;
use bbecs::errors::BbEcsError;
use bbecs::resources::resource::ResourceCast;
use bbecs::world::{World, WorldMethods};

fn float(value: f32) -> Float {
    Float::from_bits(value.to_bits())
}

fn number(value: Float) -> f32 {
    f32::from_bits(value.to_bits())
}

fn point(x: f32, y: f32) -> Point {
    Point::new(float(x), float(y))
}

#[test]
fn integration_tests_point_integration_test_point_resource() -> Result<(), BbEcsError> {
    let mut world = World::new();
    let location = point(0.0, 0.0);
    let resource_name = "location";

    world.add_resource(resource_name.to_owned(), location);

    let retrieved_location: &Point = world.get_resource(resource_name)?.cast()?;

    assert_eq!(location, *retrieved_location);

    Ok(())
}

#[test]
#[allow(clippy::float_cmp)]
fn integration_tests_point_integration_test_point_resource_mut() -> Result<(), BbEcsError> {
    let mut world = World::new();
    let location = point(0.0, 0.0);
    let resource_name = "location";

    world.add_resource(resource_name.to_owned(), location);

    {
        let retrieved_location: &mut Point = world.get_resource_mut(resource_name)?.cast_mut()?;
        retrieved_location.x = float(number(retrieved_location.x) + 10.0);
    }

    let retrieved_location: &Point = world.get_resource(resource_name)?.cast()?;

    assert_eq!(number(location.x) + 10.0, number(retrieved_location.x));
    assert_eq!(number(location.y), number(retrieved_location.y));

    Ok(())
}

#[test]
fn integration_tests_point_integration_test_point_query() -> Result<(), BbEcsError> {
    let mut world = World::new();

    world.register("location")?;

    world
        .spawn_entity()?
        .with_component("location", point(0.0, 0.0))?;

    let query_results = world.query(vec!["location"])?;
    let locations = query_results.get("location").unwrap();

    let location: &Point = locations[0].cast()?;

    assert_eq!(*location, point(0.0, 0.0));
    Ok(())
}

#[test]
fn integration_tests_point_integration_test_point_query_mut() -> Result<(), BbEcsError> {
    let mut world = World::new();

    world.register("location")?;

    world
        .spawn_entity()?
        .with_component("location", point(0.0, 0.0))?;

    {
        let location: &mut Point = world.component_mut("location", 0)?.cast_mut()?;
        location.x = float(number(location.x) + 10.0);
    }

    let query_results = world.query(vec!["location"])?;
    let locations = query_results.get("location").unwrap();
    let location: &Point = locations[0].cast()?;

    assert_eq!(*location, point(10.0, 0.0));
    Ok(())
}

#[test]
fn component_mut_reports_what_is_missing() -> Result<(), BbEcsError> {
    let mut world = World::new();
    world.register("location")?;
    world.spawn_entity()?.with_component("location", point(0.0, 0.0))?;
    assert_eq!(
        world.component_mut("size", 0).err(),
        Some(BbEcsError::ComponentNotFound("size".to_owned()))
    );
    assert_eq!(
        world.component_mut("location", 1).err(),
        Some(BbEcsError::OutOfRangeInVector)
    );
    let as_u32: Result<&mut u32, BbEcsError> = world.component_mut("location", 0)?.cast_mut();
    assert_eq!(as_u32.err(), Some(BbEcsError::CastingComponents));
    Ok(())
}

#[test]
fn resources_are_kept_by_name() -> Result<(), BbEcsError> {
    let mut world = World::new();
    world.add_resource("speed".to_owned(), 3_u32);
    world.add_resource("paused".to_owned(), false);
    world.add_resource("speed".to_owned(), 4_u32);
    let speed: &u32 = world.get_resource("speed")?.cast()?;
    assert_eq!(*speed, 4);
    let paused: &bool = world.get_resource("paused")?.cast()?;
    assert_eq!(*paused, false);
    assert_eq!(
        world.get_resource("volume").err(),
        Some(BbEcsError::ResourceNotFound("volume".to_owned()))
    );
    assert_eq!(
        world.get_resource_mut("volume").err(),
        Some(BbEcsError::ResourceNotFound("volume".to_owned()))
    );
    let as_bool: Result<&bool, BbEcsError> = world.get_resource("speed")?.cast();
    assert_eq!(as_bool, Err(BbEcsError::CastingResource));
    let as_bool: Result<&mut bool, BbEcsError> = world.get_resource_mut("speed")?.cast_mut();
    assert_eq!(as_bool.err(), Some(BbEcsError::CastingResource));
    Ok(())
}
