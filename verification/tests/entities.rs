use bbecs::entities::Entities;
use bbecs::errors::Errors;
use std::any::{Any, TypeId};
use std::cell::RefCell;
use std::rc::Rc;

type Cell = Rc<RefCell<dyn Any>>;

#[derive(Debug)]
struct Size(f32);

#[derive(Debug)]
struct Location(f32, f32);

#[derive(Debug)]
struct DisplayVision;

fn cell<T: Any>(component: T) -> Cell {
    Rc::new(RefCell::new(component))
}

fn id<T: Any>() -> TypeId {
    TypeId::of::<T>()
}

#[test]
fn test_adding_entity() {
    let mut entities: Entities<Cell> = Entities::new();
    entities
        .register_entity()
        .with_component(id::<Size>(), cell(Size(10.0)))
        .with_component(id::<Location>(), cell(Location(0.0, 0.0)));
    assert_eq!(entities.components.len(), 2);
    for components in entities.components.iter() {
        assert_eq!(components.len(), entities.entity_count());
    }
}

#[test]
#[allow(clippy::float_cmp)]
fn test_querying_for_entities() {
    let mut entities: Entities<Cell> = Entities::new();
    entities
        .register_entity()
        .with_component(id::<Size>(), cell(Size(10.0)))
        .with_component(id::<Location>(), cell(Location(0.0, 0.0)));

    entities
        .register_entity()
        .with_component(id::<Size>(), cell(Size(11.0)))
        .with_component(id::<Location>(), cell(Location(1.0, 1.0)));

    entities
        .register_entity()
        .with_component(id::<Size>(), cell(Size(12.0)));

    let query = entities
        .new_query()
        .with_component::<Location>()
        .with_component::<Size>()
        .run()
        .unwrap()
        .1;

    assert_eq!(query.len(), 2);
    assert_eq!(query[0].len(), 2);
    assert_eq!(
        query[0][0].borrow().downcast_ref::<Location>().unwrap().0,
        0.0
    );
    assert_eq!(
        query[0][1].borrow().downcast_ref::<Location>().unwrap().1,
        1.0
    );
    assert_eq!(query[1][0].borrow().downcast_ref::<Size>().unwrap().0, 10.0);
    assert_eq!(query[1][1].borrow().downcast_ref::<Size>().unwrap().0, 11.0);
}

#[allow(clippy::float_cmp)]
#[test]
fn adding_component_later_should_work() {
    let mut entities: Entities<Cell> = Entities::new();
    entities
        .register_entity()
        .with_component(id::<Size>(), cell(Size(10.0)));

    entities
        .register_entity()
        .with_component(id::<Size>(), cell(Size(11.0)));

    entities
        .register_entity()
        .with_component(id::<Size>(), cell(Size(12.0)))
        .with_component(id::<DisplayVision>(), cell(DisplayVision));

    let query = entities
        .new_query()
        .with_component::<Size>()
        .with_component::<DisplayVision>()
        .run()
        .unwrap()
        .1;
    assert_eq!(query[0].len(), 1);
    let wrapped_size = query[0][0].borrow();
    let size = wrapped_size.downcast_ref::<Size>().unwrap();
    assert_eq!(size.0, 12.0);
}

#[test]
fn query_reports_the_entities_it_found() {
    let mut entities: Entities<u32> = Entities::new();
    entities.register_entity().with_component(id::<Size>(), 1);
    entities.register_entity().with_component(id::<Location>(), 2);
    entities
        .register_entity()
        .with_component(id::<Size>(), 3)
        .with_component(id::<Location>(), 4);
    entities.register_entity().with_component(id::<Size>(), 5);

    let (indexes, result) = entities
        .new_query()
        .with_type_id(id::<Size>())
        .run()
        .unwrap();
    assert_eq!(indexes, vec![0, 2, 3]);
    assert_eq!(result, vec![vec![1, 3, 5]]);

    let (indexes, result) = entities
        .new_query()
        .with_type_id(id::<Location>())
        .with_type_id(id::<Size>())
        .run()
        .unwrap();
    assert_eq!(indexes, vec![2]);
    assert_eq!(result, vec![vec![4], vec![3]]);
}

#[test]
fn query_without_types_finds_every_entity() {
    let mut entities: Entities<u32> = Entities::new();
    entities.register_entity().with_component(id::<Size>(), 1);
    entities.register_entity();
    let (indexes, result) = entities.new_query().run().unwrap();
    assert_eq!(indexes, vec![0, 1]);
    assert!(result.is_empty());
}

#[test]
fn query_for_an_unknown_type_fails() {
    let mut entities: Entities<u32> = Entities::new();
    entities.register_entity().with_component(id::<Size>(), 1);
    let result = entities
        .new_query()
        .with_component::<Size>()
        .with_component::<DisplayVision>()
        .run();
    assert_eq!(result, Err(Errors::ComponentNotFound));
    assert_eq!(
        Errors::ComponentNotFound.message(),
        "Component for entity not found"
    );
}

#[test]
fn component_types_get_one_bit_each() {
    let mut entities: Entities<u32> = Entities::new();
    entities
        .register_entity()
        .with_component(id::<Size>(), 1)
        .with_component(id::<Location>(), 2);
    entities.register_entity().with_component(id::<Location>(), 3);
    assert_eq!(entities.bitmap, vec![1, 2]);
    assert_eq!(entities.bitmask, vec![3, 2]);
    assert!(entities.entity_contains(&id::<Size>(), entities.bitmask[0]));
    assert!(!entities.entity_contains(&id::<Size>(), entities.bitmask[1]));
    assert!(!entities.entity_contains(&id::<DisplayVision>(), entities.bitmask[0]));
    assert_eq!(entities.components[0], vec![Some(1), None]);
    assert_eq!(entities.components[1], vec![Some(2), Some(3)]);
}

#[test]
fn with_component_replaces_the_component_of_the_last_entity() {
    let mut entities: Entities<u32> = Entities::new();
    entities
        .register_entity()
        .with_component(id::<Size>(), 1)
        .with_component(id::<Size>(), 9);
    assert_eq!(entities.components[0], vec![Some(9)]);
    assert_eq!(entities.bitmask, vec![1]);
}

#[test]
fn removed_component_is_not_found_by_queries() {
    let mut entities: Entities<u32> = Entities::new();
    entities.register_entity().with_component(id::<Size>(), 1);
    entities.register_entity().with_component(id::<Size>(), 2);
    entities.remove_component(&id::<Size>(), 0);
    assert_eq!(entities.bitmask, vec![0, 1]);
    let (indexes, result) = entities
        .new_query()
        .with_component::<Size>()
        .run()
        .unwrap();
    assert_eq!(indexes, vec![1]);
    assert_eq!(result, vec![vec![2]]);
}

#[test]
fn add_empty_cell_to_all_components_grows_every_column() {
    let mut entities: Entities<u32> = Entities::new();
    entities
        .register_entity()
        .with_component(id::<Size>(), 1)
        .with_component(id::<Location>(), 2);
    entities.add_empty_cell_to_all_components();
    assert_eq!(entities.components[0], vec![Some(1), None]);
    assert_eq!(entities.components[1], vec![Some(2), None]);
    assert_eq!(entities.entity_count(), 1);
}
