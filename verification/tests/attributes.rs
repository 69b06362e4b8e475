//! The attribute store.

use psp34::data::PSP34Event;
use psp34::id::Id;
use psp34::metadata::Data;

#[test]
fn missing_attribute_is_absent() {
    let store = Data::new();
    assert_eq!(store.get_attribute(Id::U8(1), b"name".to_vec()), None);
    let by_default = Data::default();
    assert_eq!(by_default.get_attribute(Id::U8(1), b"name".to_vec()), None);
}

#[test]
fn set_attribute_stores_and_reports() {
    let mut store = Data::new();
    let events = store
        .set_attribute(Id::U8(1), b"name".to_vec(), b"Sample".to_vec())
        .unwrap();
    assert_eq!(
        events,
        vec![PSP34Event::AttributeSet {
            id: Id::U8(1),
            key: b"name".to_vec(),
            data: b"Sample".to_vec(),
        }]
    );
    assert_eq!(
        store.get_attribute(Id::U8(1), b"name".to_vec()),
        Some(b"Sample".to_vec())
    );
    assert_eq!(store.get_attribute(Id::U8(2), b"name".to_vec()), None);
    assert_eq!(store.get_attribute(Id::U8(1), b"other".to_vec()), None);
}

#[test]
fn set_attribute_overwrites() {
    let mut store = Data::new();
    assert!(store
        .set_attribute(Id::U8(1), b"name".to_vec(), b"first".to_vec())
        .is_ok());
    assert!(store
        .set_attribute(Id::U8(1), b"name".to_vec(), b"second".to_vec())
        .is_ok());
    assert_eq!(
        store.get_attribute(Id::U8(1), b"name".to_vec()),
        Some(b"second".to_vec())
    );
}

#[test]
fn attributes_of_distinct_id_variants_do_not_collide() {
    let mut store = Data::new();
    assert!(store
        .set_attribute(Id::U8(1), b"k".to_vec(), b"eight".to_vec())
        .is_ok());
    assert!(store
        .set_attribute(Id::U16(1), b"k".to_vec(), b"sixteen".to_vec())
        .is_ok());
    assert_eq!(
        store.get_attribute(Id::U8(1), b"k".to_vec()),
        Some(b"eight".to_vec())
    );
    assert_eq!(
        store.get_attribute(Id::U16(1), b"k".to_vec()),
        Some(b"sixteen".to_vec())
    );
}
