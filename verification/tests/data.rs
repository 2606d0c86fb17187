use bbecs::components::Component;
use bbecs::world::data::Data;
use bbecs::world::query::Query;
use std::any::Any;

#[test]
fn create_new_data() {
    let data = Data::new();
    assert_eq!(data.data.len(), 0);
}

#[test]
fn insert_data() {
    let mut data = Data::new();
    let location = Component::Point;
    data.insert("location", location);
    let locations = data.query_one_mut("location").unwrap();
    assert!(matches!(locations[0], Component::Point));
}

#[test]
fn insert_multiple_data() {
    let mut data = Data::new();
    let location1 = Component::Point;
    let location2 = Component::Point;
    let component_name = "location";
    data.insert(component_name, location1);
    data.insert(component_name, location2);
    let components = data.data.get(component_name).unwrap();
    assert_eq!(components.len(), 2);
}

#[test]
fn test_querying_one_component_mutably() {
    let mut data = Data::new();
    let location = Component::Point;
    data.insert("location", location);
    let locations_after_query = data.query_one_mut("location").unwrap();
    for queried_location in locations_after_query.iter_mut() {
        *queried_location = Component::F32;
    }
    let location_after_mutation = data.data.get("location").unwrap()[0];
    assert!(matches!(location_after_mutation, Component::F32));
}

#[test]
fn query_one_mut_of_an_unknown_name_finds_nothing() {
    let mut data = Data::new();
    data.insert("location", Component::Point);
    assert!(data.query_one_mut("size").is_none());
    assert_eq!(data.data.len(), 1);
}

#[test]
fn create_a_query() {
    let query = Query::new().with_type::<f32>();
    let expected_result = vec![42.0_f32.type_id()];
    assert_eq!(query.data_keys, expected_result);
}

#[test]
fn query_keeps_the_order_of_its_types() {
    let query = Query::new().with_type::<f32>().with_key(7_u8.type_id()).with_type::<bool>();
    assert_eq!(
        query.data_keys,
        vec![1.0_f32.type_id(), 0_u8.type_id(), true.type_id()]
    );
}
