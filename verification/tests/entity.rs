//! Entities, values and operations.

use questdb_sink::entity::is_finite;
use questdb_sink::text::list_text;
use questdb_sink::{
    default_queue_capacity, BlockTime, DeploymentHash, Entity, EntityChangeOperation, EntityType,
    Value,
};

fn names(entity: &Entity) -> Vec<String> {
    entity.sorted_ref().iter().map(|field| field.0.clone()).collect()
}

#[test]
fn operations_have_stable_identifiers() {
    assert_eq!(EntityChangeOperation::Insert.as_str(), "insert");
    assert_eq!(EntityChangeOperation::Overwrite.as_str(), "overwrite");
    assert_eq!(EntityChangeOperation::Remove.as_str(), "remove");
}

#[test]
fn fields_are_kept_in_the_order_of_their_names() {
    let mut entity = Entity::new();
    for name in ["to", "from", "amount", "b", "a", "Z", "\u{e9}", "ab"] {
        entity.insert(name.to_string(), Value::Null);
    }
    assert_eq!(names(&entity), vec!["Z", "a", "ab", "amount", "b", "from", "to", "\u{e9}"]);
}

#[test]
fn names_are_ordered_by_code_points() {
    let mut entity = Entity::new();
    for name in ["\u{10000}", "\u{ffff}", "z"] {
        entity.insert(name.to_string(), Value::Null);
    }
    assert_eq!(names(&entity), vec!["z", "\u{ffff}", "\u{10000}"]);
}

#[test]
fn setting_a_field_again_replaces_its_value() {
    let mut entity = Entity::new();
    entity.insert("a".to_string(), Value::Int(1));
    entity.insert("b".to_string(), Value::Int(2));
    entity.insert("a".to_string(), Value::Int(3));
    assert_eq!(names(&entity), vec!["a", "b"]);
    assert!(matches!(entity.sorted_ref()[0].1, Value::Int(3)));
    assert!(matches!(entity.sorted_ref()[1].1, Value::Int(2)));
}

#[test]
fn new_entity_has_no_fields() {
    assert!(Entity::new().sorted_ref().is_empty());
}

#[test]
fn block_time_in_nanoseconds() {
    assert_eq!(BlockTime { seconds: 1_700_000_000 }.as_nanos(), 1_700_000_000_000_000_000);
    assert_eq!(BlockTime { seconds: -1 }.as_nanos(), -1_000_000_000);
    assert_eq!(BlockTime { seconds: 0 }.as_nanos(), 0);
}

#[test]
fn block_time_range() {
    assert!(BlockTime { seconds: 9_223_372_036 }.fits_nanos());
    assert!(BlockTime { seconds: -9_223_372_036 }.fits_nanos());
    assert!(!BlockTime { seconds: 9_223_372_037 }.fits_nanos());
    assert!(!BlockTime { seconds: -9_223_372_037 }.fits_nanos());
    assert_eq!(
        BlockTime { seconds: 9_223_372_036 }.as_nanos(),
        9_223_372_036_000_000_000
    );
}

#[test]
fn finite_doubles_are_told_from_the_others() {
    for number in [0.0, -0.0, 1.5, -1.5, f64::MAX, f64::MIN, f64::MIN_POSITIVE, 5e-324] {
        assert!(is_finite(f64::to_bits(number)));
    }
    for number in [f64::INFINITY, f64::NEG_INFINITY, f64::NAN, -f64::NAN] {
        assert!(!is_finite(number.to_bits()));
    }
}

#[test]
fn lists_are_bracketed() {
    assert_eq!(list_text(&vec![]), "[]");
    assert_eq!(list_text(&vec!["Int(1)".to_string()]), "[Int(1)]");
    assert_eq!(
        list_text(&vec!["Int(1)".to_string(), "Null".to_string(), "x".to_string()]),
        "[Int(1), Null, x]"
    );
    assert_eq!(
        list_text(&vec!["1".to_string(), "2".to_string()]),
        format!("{:?}", vec![1, 2])
    );
}

#[test]
fn ids_and_types_as_text() {
    assert_eq!(DeploymentHash { id: "QmHash".to_string() }.as_str(), "QmHash");
    assert_eq!(EntityType { name: "Transfer".to_string() }.as_str(), "Transfer");
}

#[test]
fn queue_capacity_has_a_default() {
    assert_eq!(default_queue_capacity(), 10_000);
}

#[test]
fn copied_entity_has_the_same_fields() {
    let mut entity = Entity::new();
    entity.insert("b".to_string(), Value::Int(2));
    entity.insert("a".to_string(), Value::String("x".to_string()));
    let copy = entity.clone();
    entity.insert("c".to_string(), Value::Null);
    assert_eq!(names(&copy), vec!["a", "b"]);
    assert!(matches!(&copy.sorted_ref()[0].1, Value::String(text) if text == "x"));
    assert!(matches!(copy.sorted_ref()[1].1, Value::Int(2)));
}
