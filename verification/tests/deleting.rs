use bbecs::components::CastComponents;
use bbecs::data_types::number::Float;
use bbecs::data_types::point::Point;
use bbecs::errors::BbEcsError;
use bbecs::world::{World, WorldMethods, ENTITY_ID};

fn float(value: f32) -> Float {
    Float::from_bits(value.to_bits())
}

fn point(x: f32, y: f32) -> Point {
    Point::new(float(x), float(y))
}

#[test]
fn deleting_an_entity_by_id() -> Result<(), BbEcsError> {
    let mut world = World::new();

    world.register("size")?;
    world.register("location")?;

    world
        .spawn_entity()?
        .with_component("location", point(0.0, 0.0))?
        .with_component("size", float(25.0_f32))?;

    world
        .spawn_entity()?
        .with_component("location", point(10.0, 10.0))?;

    world
        .spawn_entity()?
        .with_component("location", point(15.0, 15.0))?
        .with_component("size", float(50.0_f32))?;

    let mut ids_to_delete = vec![];
    {
        let query_results = world.query(vec!["location", ENTITY_ID])?;
        let locations = query_results.get("location").unwrap();
        let ids = query_results.get(ENTITY_ID).unwrap();

        for (index, location) in locations.iter().enumerate() {
            let location: &Point = location.cast()?;
            if *location == point(10.0, 10.0) {
                let id: &u32 = ids[index].cast()?;
                ids_to_delete.push(*id);
            }
        }
    }
    assert_eq!(ids_to_delete, vec![1]);
    for id in ids_to_delete {
        world.delete_by_id(id)?;
    }

    world.update()?;

    let query_results = world.query(vec!["location"])?;
    let queried_locations = query_results.get("location").unwrap();
    let location: &Point = queried_locations[1].cast()?;

    assert_eq!(queried_locations.len(), 2);
    assert_eq!(*location, point(15.0, 15.0));

    Ok(())
}

#[test]
#[allow(clippy::float_cmp)]
fn inserting_an_entity_after_deleting_should_work() -> Result<(), BbEcsError> {
    let mut world = World::new();
    world.register("size")?;
    world.spawn_entity()?.with_component("size", float(15.0_f32))?;

    let id = {
        let query = world.query(vec!["size", ENTITY_ID])?;
        let _size: &Float = query.get("size").unwrap()[0].cast()?;
        let id: &u32 = query.get(ENTITY_ID).unwrap()[0].cast()?;
        *id
    };

    world.delete_by_id(id)?;

    world.update()?;

    world.spawn_entity()?.with_component("size", float(30.0_f32))?;

    let query = world.query(vec!["size", ENTITY_ID])?;
    let size: &Float = query.get("size").unwrap()[0].cast()?;
    let id: &u32 = query.get(ENTITY_ID).unwrap()[0].cast()?;

    assert_eq!(1, *id);
    assert_eq!(f32::from_bits(size.to_bits()), 30.0_f32);

    Ok(())
}

#[test]
fn deleting_leaves_the_other_entities_untouched() -> Result<(), BbEcsError> {
    let mut world = World::new();
    world.register("location")?;
    world.register("size")?;
    world.register("name")?;

    world
        .spawn_entity()?
        .with_component("location", point(0.0, 0.0))?
        .with_component("size", 1_u32)?
        .with_component("name", "a".to_owned())?;
    world
        .spawn_entity()?
        .with_component("location", point(10.0, 10.0))?
        .with_component("size", 2_u32)?;
    world
        .spawn_entity()?
        .with_component("location", point(15.0, 15.0))?
        .with_component("name", "c".to_owned())?;

    world.delete_by_id(1)?;

    // Until the sweep nothing moves.
    assert_eq!(world.query_one("location")?.len(), 3);
    assert_eq!(world.len(), 3);

    world.update()?;

    assert_eq!(world.len(), 2);
    let locations = world.query_one("location")?;
    assert_eq!(locations.len(), 2);
    assert_eq!(*CastComponents::<Point>::cast(locations[0])?, point(0.0, 0.0));
    assert_eq!(*CastComponents::<Point>::cast(locations[1])?, point(15.0, 15.0));
    let sizes = world.query_one("size")?;
    assert_eq!(sizes.len(), 1);
    assert_eq!(*CastComponents::<u32>::cast(sizes[0])?, 1);
    let names = world.query_one("name")?;
    assert_eq!(names.len(), 2);
    assert_eq!(*CastComponents::<String>::cast(names[0])?, "a");
    assert_eq!(*CastComponents::<String>::cast(names[1])?, "c");
    let ids = world.query_one(ENTITY_ID)?;
    assert_eq!(*CastComponents::<u32>::cast(ids[0])?, 0);
    assert_eq!(*CastComponents::<u32>::cast(ids[1])?, 2);

    let both = world.query(vec!["name", "location"])?;
    let names = both.get("name").unwrap();
    let locations = both.get("location").unwrap();
    assert_eq!(names.len(), 2);
    assert_eq!(*CastComponents::<String>::cast(names[1])?, "c");
    assert_eq!(*CastComponents::<Point>::cast(locations[1])?, point(15.0, 15.0));
    Ok(())
}

#[test]
fn update_twice_changes_nothing_more() -> Result<(), BbEcsError> {
    let mut world = World::new();
    world.register("size")?;
    world.spawn_entity()?.with_component("size", 1_u32)?;
    world.spawn_entity()?;
    world.spawn_entity()?.with_component("size", 3_u32)?;
    world.delete_by_id(0)?;
    world.update()?;

    let sizes_once: Vec<u32> = world
        .query_one("size")?
        .iter()
        .map(|size| *CastComponents::<u32>::cast(*size).unwrap())
        .collect();
    let ids_once: Vec<u32> = world
        .query_one(ENTITY_ID)?
        .iter()
        .map(|id| *CastComponents::<u32>::cast(*id).unwrap())
        .collect();
    let slots_once = world.len();

    world.update()?;

    let sizes_twice: Vec<u32> = world
        .query_one("size")?
        .iter()
        .map(|size| *CastComponents::<u32>::cast(*size).unwrap())
        .collect();
    let ids_twice: Vec<u32> = world
        .query_one(ENTITY_ID)?
        .iter()
        .map(|id| *CastComponents::<u32>::cast(*id).unwrap())
        .collect();
    assert_eq!(sizes_once, vec![3]);
    assert_eq!(ids_once, vec![1, 2]);
    assert_eq!(slots_once, 2);
    assert_eq!(sizes_twice, sizes_once);
    assert_eq!(ids_twice, ids_once);
    assert_eq!(world.len(), slots_once);
    Ok(())
}

#[test]
fn update_of_a_world_without_entities_is_safe() -> Result<(), BbEcsError> {
    let mut world = World::new();
    world.update()?;
    world.register("size")?;
    world.update()?;
    assert_eq!(world.len(), 0);
    assert_eq!(world.next_id(), 0);
    assert!(world.query_one("size")?.is_empty());
    Ok(())
}

#[test]
fn update_without_marks_changes_nothing() -> Result<(), BbEcsError> {
    let mut world = World::new();
    world.register("size")?;
    world.spawn_entity()?.with_component("size", 7_u32)?;
    world.spawn_entity()?;
    world.update()?;
    assert_eq!(world.len(), 2);
    let sizes = world.query_one("size")?;
    assert_eq!(sizes.len(), 1);
    assert_eq!(*CastComponents::<u32>::cast(sizes[0])?, 7);
    Ok(())
}

#[test]
fn deleting_an_unknown_id_marks_nothing() -> Result<(), BbEcsError> {
    let mut world = World::new();
    world.spawn_entity()?;
    world.spawn_entity()?;
    world.delete_by_id(7)?;
    world.update()?;
    assert_eq!(world.len(), 2);
    Ok(())
}

#[test]
fn deleting_every_entity_empties_the_world() -> Result<(), BbEcsError> {
    let mut world = World::new();
    world.register("size")?;
    world.spawn_entity()?.with_component("size", 1_u32)?;
    world.spawn_entity()?.with_component("size", 2_u32)?;
    world.delete_by_id(0)?;
    world.delete_by_id(1)?;
    world.update()?;
    assert_eq!(world.len(), 0);
    assert!(world.query_one("size")?.is_empty());
    assert!(world.query_one(ENTITY_ID)?.is_empty());
    world.spawn_entity()?.with_component("size", 3_u32)?;
    let ids = world.query_one(ENTITY_ID)?;
    assert_eq!(*CastComponents::<u32>::cast(ids[0])?, 2);
    Ok(())
}
