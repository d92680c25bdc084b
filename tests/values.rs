use json_schema_core::helpers::{alter_fragment_path, connect, serialize_schema_path};
use json_schema_core::schema::generate_id;
use json_schema_core::{Json, Number, PrimitiveType, Scope};

#[test]
fn decimal_numbers_compare_by_value() {
    let three = Number::from_int(3);
    let three_point_zero = Number::decimal(30, 1).unwrap();
    let three_point_five = Number::decimal(35, 1).unwrap();
    assert!(three.num_equals(&three_point_zero));
    assert!(three.lt(&three_point_five));
    assert!(!three_point_five.le(&three));
    assert!(three_point_zero.is_integer());
    assert!(!three_point_five.is_integer());
    assert_eq!(three_point_zero.as_count(), Some(3));
    assert_eq!(Number::from_int(-1).as_count(), None);
    assert!(Number::decimal(1, 19).is_none());
}

#[test]
fn multiples_are_exact() {
    let cent = Number::decimal(1, 2).unwrap();
    assert!(Number::decimal(3, 1).unwrap().is_multiple_of(&cent));
    assert!(!Number::decimal(3, 3).unwrap().is_multiple_of(&cent));
    assert!(!Number::from_int(7).is_multiple_of(&Number::from_int(3)));
    assert!(Number::from_int(-9).is_multiple_of(&Number::from_int(3)));
}

#[test]
fn primitive_type_names() {
    assert_eq!(PrimitiveType::parse("integer"), Some(PrimitiveType::Integer));
    assert_eq!(PrimitiveType::parse("float"), None);
    assert_eq!(PrimitiveType::Object.name(), "object");
}

#[test]
fn generated_ids_are_fresh() {
    let a = generate_id();
    let b = generate_id();
    assert!(a.starts_with("json-schema://"));
    assert_eq!(a.len(), "json-schema://".len() + 36);
    assert_ne!(a, b);
}

#[test]
fn document_without_id_gets_one() {
    let mut scope = Scope::new();
    let compiled = scope.compile_and_return(Json::Object(vec![]), false).ok().unwrap();
    let id = compiled.schema.id.clone().unwrap();
    assert!(id.starts_with("json-schema://"));
    assert!(scope.resolve(&id).is_some());
}

#[test]
fn schema_paths_split_fragments() {
    let (key, pointer) = serialize_schema_path("http://x.org/a.json#/definitions/b");
    assert_eq!(key, "http://x.org/a.json");
    assert_eq!(pointer, Some("/definitions/b".to_string()));
    let (key, pointer) = serialize_schema_path("http://x.org/a.json#item/properties/c");
    assert_eq!(key, "http://x.org/a.json#item");
    assert_eq!(pointer, Some("/properties/c".to_string()));
    let (key, pointer) = serialize_schema_path("http://x.org/a.json#");
    assert_eq!(key, "http://x.org/a.json");
    assert_eq!(pointer, None);
}

#[test]
fn fragments_are_replaced() {
    assert_eq!(
        alter_fragment_path("http://x.org/a.json", "/properties/b"),
        "http://x.org/a.json#/properties/b"
    );
    assert_eq!(
        alter_fragment_path("http://x.org/a.json#item", "properties/b"),
        "http://x.org/a.json#item/properties/b"
    );
    assert_eq!(
        connect(&vec!["properties".to_string(), "a/b".to_string()]),
        "properties/a%7E1b"
    );
}
