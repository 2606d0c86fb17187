use bbecs::components::{CastComponents, ComponentData};
use bbecs::dense::remove_ascending;
use bbecs::errors::BbEcsError;
use bbecs::table::NameTable;
use bbecs::world::entity_data::{EntityData, EntityDataTraits};

fn numbers(column: &Vec<&ComponentData>) -> Vec<u32> {
    column
        .iter()
        .map(|value| *CastComponents::<u32>::cast(*value).unwrap())
        .collect()
}

#[test]
fn store_register_twice_is_refused() {
    let mut store = EntityData::new();
    assert_eq!(store.register("a".to_owned()), Ok(()));
    assert_eq!(
        store.register("a".to_owned()),
        Err(BbEcsError::ComponentAlreadyRegistered("a".to_owned()))
    );
    assert_eq!(store.components.len(), 1);
}

#[test]
fn store_insert_before_register_is_refused() {
    let mut store = EntityData::new();
    assert_eq!(store.insert("a", 1_u32), Err(BbEcsError::NeedToRegister));
    assert_eq!(
        store.insert_component("a", ComponentData::Bool(true)),
        Err(BbEcsError::NeedToRegister)
    );
    store.register("a".to_owned()).unwrap();
    assert_eq!(store.insert("a", 1_u32), Ok(()));
    assert_eq!(store.insert("a", true), Ok(()));
    assert_eq!(
        store.components.get("a"),
        Some(&vec![ComponentData::U32(1), ComponentData::Bool(true)])
    );
}

#[test]
fn store_query_translates_slots_to_places() {
    // slots:  0      1      2      3
    // a:      10     -      12     13
    // b:      -      21     22     -
    let mut store = EntityData::new();
    store.register("a".to_owned()).unwrap();
    store.register("b".to_owned()).unwrap();
    for value in [10_u32, 12, 13] {
        store.insert("a", value).unwrap();
    }
    for value in [21_u32, 22] {
        store.insert("b", value).unwrap();
    }
    let a = vec![true, false, true, true];
    let b = vec![false, true, true, false];

    let mut both: NameTable<&Vec<bool>> = NameTable::new();
    both.insert("a".to_owned(), &a);
    both.insert("b".to_owned(), &b);
    let found = store.query(both).unwrap();
    assert_eq!(numbers(found.get("a").unwrap()), vec![12]);
    assert_eq!(numbers(found.get("b").unwrap()), vec![22]);

    let mut only_a: NameTable<&Vec<bool>> = NameTable::new();
    only_a.insert("a".to_owned(), &a);
    let found = store.query(only_a).unwrap();
    assert_eq!(numbers(found.get("a").unwrap()), vec![10, 12, 13]);

    let mut unknown: NameTable<&Vec<bool>> = NameTable::new();
    unknown.insert("a".to_owned(), &a);
    unknown.insert("c".to_owned(), &b);
    assert_eq!(
        store.query(unknown).err(),
        Some(BbEcsError::ComponentNotFound("c".to_owned()))
    );

    let nothing: NameTable<&Vec<bool>> = NameTable::new();
    assert_eq!(store.query(nothing).unwrap().len(), 0);
}

#[test]
fn store_checks_a_slot_against_every_vector() {
    let store = EntityData::new();
    let a = vec![true, false, true];
    let b = vec![true, true, false];
    let mut both: NameTable<&Vec<bool>> = NameTable::new();
    both.insert("a".to_owned(), &a);
    both.insert("b".to_owned(), &b);
    assert!(store.does_entity_have_all_components(&both, 0));
    assert!(!store.does_entity_have_all_components(&both, 1));
    assert!(!store.does_entity_have_all_components(&both, 2));
    let nothing: NameTable<&Vec<bool>> = NameTable::new();
    assert!(store.does_entity_have_all_components(&nothing, 5));
}

#[test]
fn store_delete_removes_the_listed_places() {
    let mut store = EntityData::new();
    store.register("a".to_owned()).unwrap();
    store.register("b".to_owned()).unwrap();
    for value in [10_u32, 11, 12, 13, 14] {
        store.insert("a", value).unwrap();
    }
    store.insert("b", 20_u32).unwrap();
    let mut places: NameTable<Vec<usize>> = NameTable::new();
    places.insert("a".to_owned(), vec![0, 2, 3]);
    places.insert("c".to_owned(), vec![5]);
    store.delete_entities_by_index(places).unwrap();
    assert_eq!(
        store.components.get("a"),
        Some(&vec![ComponentData::U32(11), ComponentData::U32(14)])
    );
    assert_eq!(
        store.components.get("b"),
        Some(&vec![ComponentData::U32(20)])
    );
}

#[test]
fn store_component_mut_reaches_one_value() {
    let mut store = EntityData::new();
    store.register("a".to_owned()).unwrap();
    store.insert("a", 1_u32).unwrap();
    store.insert("a", 2_u32).unwrap();
    *store.component_mut("a", 1).unwrap() = ComponentData::Bool(false);
    assert_eq!(
        store.components.get("a"),
        Some(&vec![ComponentData::U32(1), ComponentData::Bool(false)])
    );
    assert_eq!(
        store.component_mut("a", 2).err(),
        Some(BbEcsError::OutOfRangeInVector)
    );
    assert_eq!(
        store.component_mut("b", 0).err(),
        Some(BbEcsError::ComponentNotFound("b".to_owned()))
    );
}

#[test]
fn remove_ascending_removes_what_is_listed() {
    let mut items = vec![10, 11, 12, 13, 14];
    remove_ascending(&mut items, &vec![1, 3]);
    assert_eq!(items, vec![10, 12, 14]);
    remove_ascending(&mut items, &vec![]);
    assert_eq!(items, vec![10, 12, 14]);
    remove_ascending(&mut items, &vec![0, 1, 2]);
    assert!(items.is_empty());
}

#[test]
fn name_table_keeps_one_value_per_name() {
    let mut table: NameTable<u32> = NameTable::new();
    assert_eq!(table.len(), 0);
    table.insert("a".to_owned(), 1);
    table.insert("b".to_owned(), 2);
    table.insert("a".to_owned(), 3);
    assert_eq!(table.len(), 2);
    assert_eq!(table.get("a"), Some(&3));
    assert_eq!(table.get("b"), Some(&2));
    assert_eq!(table.get("c"), None);
    assert_eq!(table.position("b"), Some(1));
    assert_eq!(table.position(""), None);
    assert!(table.contains_key("a"));
    assert!(!table.contains_key("ab"));
    *table.get_mut("b").unwrap() += 5;
    assert_eq!(table.get("b"), Some(&7));
    assert!(table.get_mut("c").is_none());
    assert_eq!(table.names, vec!["a".to_owned(), "b".to_owned()]);
    assert_eq!(table.values, vec![3, 7]);
}
