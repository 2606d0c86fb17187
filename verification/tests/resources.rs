use bbecs::data_types::engine::Mesh;
use bbecs::resources::typed::Resources;
use bbecs::resources::ResourcesData;
use bbecs::World;
use std::any::{Any, TypeId};

struct Speed(f32);

struct Gravity(f32);

#[test]
#[allow(clippy::float_cmp)]
fn resources() {
    let mut resources: Resources<Box<dyn Any>> = Resources::new();
    resources.add(TypeId::of::<Speed>(), Box::new(Speed(42.0)));
    let speed = resources
        .get(&TypeId::of::<Speed>())
        .unwrap()
        .downcast_ref::<Speed>()
        .unwrap();
    assert_eq!(42.0, speed.0);
}

#[test]
#[allow(clippy::float_cmp)]
fn resources_hold_one_value_per_type() {
    let mut resources: Resources<Box<dyn Any>> = Resources::new();
    resources.add(TypeId::of::<Speed>(), Box::new(Speed(1.0)));
    resources.add(TypeId::of::<Gravity>(), Box::new(Gravity(9.5)));
    resources.add(TypeId::of::<Speed>(), Box::new(Speed(2.0)));
    assert_eq!(resources.data.len(), 2);
    assert!(resources.get(&TypeId::of::<u8>()).is_none());
    assert!(resources.get_mut(&TypeId::of::<u8>()).is_none());
    resources
        .get_mut(&TypeId::of::<Gravity>())
        .unwrap()
        .downcast_mut::<Gravity>()
        .unwrap()
        .0 += 0.5;
    let speed = resources.get(&TypeId::of::<Speed>()).unwrap();
    assert_eq!(speed.downcast_ref::<Speed>().unwrap().0, 2.0);
    let gravity = resources.get(&TypeId::of::<Gravity>()).unwrap();
    assert_eq!(gravity.downcast_ref::<Gravity>().unwrap().0, 10.0);
}

#[test]
fn named_resources_of_two_kinds() {
    let mut resources = bbecs::resources::Resources::new();
    resources.insert("lives", ResourcesData::U32(3));
    resources.insert("ship", ResourcesData::GgezMesh(Mesh { handle: 7 }));
    resources.insert("lives", ResourcesData::U32(2));
    assert_eq!(resources.get("lives").unwrap().extract_u32(), Some(2));
    assert_eq!(resources.get("lives").unwrap().extract_ggez_mesh(), None);
    assert_eq!(
        resources.get("ship").unwrap().extract_ggez_mesh(),
        Some(&Mesh { handle: 7 })
    );
    assert_eq!(resources.get("ship").unwrap().extract_u32(), None);
    assert!(resources.get("score").is_none());
}

#[test]
fn typed_world_keeps_entities_and_resources() {
    let mut world: World<u32, u64> = World::new();
    world.add_resource(TypeId::of::<Speed>(), 5);
    world
        .register_entity()
        .with_component(TypeId::of::<Speed>(), 1)
        .with_component(TypeId::of::<Gravity>(), 2);
    world
        .register_entity()
        .with_component(TypeId::of::<Speed>(), 3);

    assert_eq!(world.get_resource(&TypeId::of::<Speed>()), Some(&5));
    assert_eq!(world.get_resource(&TypeId::of::<Gravity>()), None);
    *world.get_resource_mut(&TypeId::of::<Speed>()).unwrap() += 1;
    assert_eq!(world.get_resource(&TypeId::of::<Speed>()), Some(&6));

    let (indexes, result) = world
        .query()
        .with_component::<Speed>()
        .run()
        .unwrap();
    assert_eq!(indexes, vec![0, 1]);
    assert_eq!(result, vec![vec![1, 3]]);

    world.remove_component(&TypeId::of::<Speed>(), 0);
    let (indexes, result) = world
        .query()
        .with_component::<Speed>()
        .run()
        .unwrap();
    assert_eq!(indexes, vec![1]);
    assert_eq!(result, vec![vec![3]]);
}
