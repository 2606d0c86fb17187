use bbecs::components::CastComponents;
use bbecs::data_types::engine::Color;
use bbecs::data_types::number::Float;
use bbecs::errors::BbEcsError;
use bbecs::resources::resource::ResourceCast;
use bbecs::world::{World, WorldMethods};

const RESOURCE_NAME: &str = "color";

fn float(value: f32) -> Float {
    Float::from_bits(value.to_bits())
}

fn number(value: Float) -> f32 {
    f32::from_bits(value.to_bits())
}

fn color(r: f32, g: f32, b: f32, a: f32) -> Color {
    Color::new(float(r), float(g), float(b), float(a))
}

fn resource() -> Color {
    color(0.5, 0.2, 0.8, 1.0)
}

#[test]
fn integration_tests_color_integration_test_point_resource() -> Result<(), BbEcsError> {
    let mut world = World::new();

    world.add_resource(RESOURCE_NAME.to_owned(), resource());

    let retrieved_resource: &Color = world.get_resource(RESOURCE_NAME)?.cast()?;

    assert_eq!(resource(), *retrieved_resource);

    Ok(())
}

#[test]
#[allow(clippy::float_cmp)]
fn integration_tests_color_integration_test_point_resource_mut() -> Result<(), BbEcsError> {
    let mut world = World::new();

    world.add_resource(RESOURCE_NAME.to_owned(), resource());

    {
        let retrieved_resource: &mut Color = world.get_resource_mut(RESOURCE_NAME)?.cast_mut()?;
        retrieved_resource.r = float(number(retrieved_resource.r) + 0.1);
    }

    let retrieved_resource: &Color = world.get_resource(RESOURCE_NAME)?.cast()?;

    assert_eq!(color(0.6, 0.2, 0.8, 1.0), *retrieved_resource);

    Ok(())
}

#[test]
fn integration_tests_color_integration_test_point_query() -> Result<(), BbEcsError> {
    let mut world = World::new();

    world.register(RESOURCE_NAME)?;

    world
        .spawn_entity()?
        .with_component(RESOURCE_NAME, resource())?;

    let query_results = world.query(vec![RESOURCE_NAME])?;
    let colors = query_results.get(RESOURCE_NAME).unwrap();

    let queried: &Color = colors[0].cast()?;

    assert_eq!(*queried, resource());
    Ok(())
}

#[test]
#[allow(clippy::float_cmp)]
fn integration_tests_color_integration_test_point_query_mut() -> Result<(), BbEcsError> {
    let mut world = World::new();

    world.register(RESOURCE_NAME)?;

    world
        .spawn_entity()?
        .with_component(RESOURCE_NAME, resource())?;

    {
        let queried: &mut Color = world.component_mut(RESOURCE_NAME, 0)?.cast_mut()?;
        queried.r = float(number(queried.r) + 0.1);
    }

    let query_results = world.query(vec![RESOURCE_NAME])?;
    let colors = query_results.get(RESOURCE_NAME).unwrap();
    let queried: &Color = colors[0].cast()?;

    assert_eq!(*queried, color(0.6, 0.2, 0.8, 1.0));
    Ok(())
}
