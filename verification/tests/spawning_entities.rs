use bbecs::components::CastComponents;
use bbecs::data_types::number::Float;
use bbecs::data_types::point::Point;
use bbecs::errors::BbEcsError;
use bbecs::world::{World, WorldMethods, ENTITY_ID, TO_BE_DELETED};

fn point(x: f32, y: f32) -> Point {
    Point::new(Float::from_bits(x.to_bits()), Float::from_bits(y.to_bits()))
}

#[test]
fn spawning_entities_includes_id() -> Result<(), BbEcsError> {
    let mut world = World::new();
    let location_name = "location";
    let location = point(0.0, 0.0);

    world.register(location_name)?;

    world
        .spawn_entity()?
        .with_component(location_name, location)?;

    world
        .spawn_entity()?
        .with_component(location_name, location)?;

    let entity_ids = world.query_one("entity id")?;
    assert_eq!(entity_ids.len(), 2);

    for (index, id) in entity_ids.iter().enumerate() {
        let id: &u32 = id.cast()?;
        assert_eq!(*id, index as u32);
    }
    Ok(())
}

#[test]
fn spawning_entities_includes_deleted_flag() -> Result<(), BbEcsError> {
    let mut world = World::new();
    let location_name = "location";
    let location = point(0.0, 0.0);

    world.register(location_name)?;

    world
        .spawn_entity()?
        .with_component(location_name, location)?;

    let is_deleted = world.query_one("to be deleted")?;
    let is_deleted: &bool = is_deleted[0].cast()?;

    assert_eq!(*is_deleted, false);
    Ok(())
}

#[test]
fn reserved_names_are_what_they_say() {
    assert_eq!(ENTITY_ID, "entity id");
    assert_eq!(TO_BE_DELETED, "to be deleted");
}

#[test]
fn ids_are_given_in_order_and_never_again() -> Result<(), BbEcsError> {
    let mut world = World::new();
    for _ in 0..5 {
        world.spawn_entity()?;
    }
    let ids: Vec<u32> = world
        .query_one(ENTITY_ID)?
        .iter()
        .map(|id| *CastComponents::<u32>::cast(*id).unwrap())
        .collect();
    assert_eq!(ids, vec![0, 1, 2, 3, 4]);
    assert_eq!(world.next_id(), 5);

    world.delete_by_id(0)?;
    world.update()?;
    world.spawn_entity()?;

    let ids: Vec<u32> = world
        .query_one(ENTITY_ID)?
        .iter()
        .map(|id| *CastComponents::<u32>::cast(*id).unwrap())
        .collect();
    assert_eq!(ids, vec![1, 2, 3, 4, 5]);
    assert_eq!(world.next_id(), 6);
    Ok(())
}

#[test]
fn a_new_world_has_only_the_reserved_names() -> Result<(), BbEcsError> {
    let world = World::new();
    assert_eq!(world.len(), 0);
    assert_eq!(world.next_id(), 0);
    assert!(world.query_one(ENTITY_ID)?.is_empty());
    assert!(world.query_one(TO_BE_DELETED)?.is_empty());
    assert!(world.query_one("location").is_err());
    Ok(())
}

#[test]
fn a_world_knows_what_its_entities_are_made_of() -> Result<(), BbEcsError> {
    let mut world = World::new();
    world.register("location")?;
    world.register("size")?;
    world.spawn_entity()?.with_component("location", point(1.0, 1.0))?;
    world.spawn_entity()?.with_component("size", 2_u32)?;
    assert!(world.is_registered("location"));
    assert!(world.is_registered(ENTITY_ID));
    assert!(!world.is_registered("colour"));
    assert!(world.contains("location", 0));
    assert!(!world.contains("location", 1));
    assert!(!world.contains("size", 0));
    assert!(world.contains("size", 1));
    assert!(world.contains(ENTITY_ID, 0));
    assert!(world.contains(TO_BE_DELETED, 1));
    assert!(!world.contains("size", 2));
    assert!(!world.contains("colour", 0));
    Ok(())
}
