use datastore::deserialization::error::DecodeError;
use datastore::deserialization::pairs::{Node, Field};
use datastore::deserialization::shape::{from_map, from_map_with_prefix, FieldShape, Shape};
use datastore::flat_map::FlatMap;
use serde_json::Value;

fn flat(pairs: &[(&str, &str)]) -> FlatMap {
    let mut map = FlatMap::new();
    for (key, value) in pairs {
        map.insert(key.to_string(), value.to_string());
    }
    map
}

fn field(name: &str, shape: Shape) -> FieldShape {
    FieldShape { name: name.to_string(), shape }
}

fn record(name: &str, fields: Vec<FieldShape>) -> Shape {
    Shape::Record { name: name.to_string(), fields }
}

fn optional(inner: Shape) -> Shape {
    Shape::Optional { inner: Box::new(inner) }
}

fn mapping(values: Shape) -> Shape {
    Shape::Mapping { values: Box::new(values) }
}

fn shape_c() -> Shape {
    record("C", vec![field("boolean", Shape::Scalar)])
}

fn shape_b() -> Shape {
    record(
        "B",
        vec![
            field("a", Shape::Scalar),
            field("b", Shape::Scalar),
            field("c", optional(Shape::Scalar)),
            field("d", optional(shape_c())),
        ],
    )
}

fn shape_a() -> Shape {
    record(
        "A",
        vec![
            field("id", optional(Shape::Scalar)),
            field("name", Shape::Scalar),
            field("list", Shape::Scalar),
            field("nested", shape_b()),
            field("map", mapping(Shape::Scalar)),
        ],
    )
}

fn parts(value: &Node) -> &Vec<Field> {
    match value {
        Node::Compound(fields) => fields,
        other => panic!("not a nested value: {:?}", other),
    }
}

fn part<'a>(value: &'a Node, name: &str) -> &'a Node {
    let found: Vec<&Field> = parts(value).iter().filter(|f| f.name == name).collect();
    assert_eq!(found.len(), 1);
    &found[0].value
}

fn names(value: &Node) -> Vec<String> {
    parts(value).iter().map(|f| f.name.clone()).collect()
}

fn leaf(value: &Node) -> &Value {
    match value {
        Node::Scalar(s) => s.value(),
        other => panic!("not a leaf: {:?}", other),
    }
}

fn present(value: &Node) -> &Node {
    match value {
        Node::Present(inner) => inner,
        other => panic!("not a present value: {:?}", other),
    }
}

#[test]
fn basic_struct_works() {
    let c = from_map(&shape_c(), &flat(&[("c.boolean", "true")])).unwrap();
    assert_eq!(names(&c), vec!["boolean"]);
    assert_eq!(leaf(part(&c, "boolean")), &Value::Bool(true));
}

#[test]
fn deep_struct_works() {
    let a = from_map(
        &shape_a(),
        &flat(&[
            ("a.id", "1"),
            ("a.name", "\"it's my name\""),
            ("a.list", "[1,2, 3, 4]"),
            ("a.map.a", "\"answer is always map\""),
            ("a.nested.a", "\"quite nested\""),
            ("a.nested.b", "false"),
            ("a.nested.c", "null"),
            ("a.nested.d.boolean", "true"),
        ]),
    )
    .unwrap();
    assert_eq!(names(&a), vec!["id", "name", "list", "nested", "map"]);
    assert_eq!(leaf(present(part(&a, "id"))), &Value::from(1u64));
    assert_eq!(leaf(part(&a, "name")), &Value::String("it's my name".to_string()));
    assert_eq!(
        leaf(part(&a, "list")),
        &Value::Array(vec![Value::from(1u8), Value::from(2u8), Value::from(3u8), Value::from(4u8)])
    );
    let map = part(&a, "map");
    assert_eq!(names(map), vec!["a"]);
    assert_eq!(leaf(part(map, "a")), &Value::String("answer is always map".to_string()));
    let nested = part(&a, "nested");
    assert_eq!(names(nested), vec!["a", "b", "c", "d"]);
    assert_eq!(leaf(part(nested, "a")), &Value::String("quite nested".to_string()));
    assert_eq!(leaf(part(nested, "b")), &Value::Bool(false));
    assert!(matches!(part(nested, "c"), Node::Absent));
    let d = present(part(nested, "d"));
    assert_eq!(names(d), vec!["boolean"]);
    assert_eq!(leaf(part(d, "boolean")), &Value::Bool(true));
}

#[test]
fn map_doesnt_work_at_root() {
    let a = from_map(
        &mapping(Shape::Scalar),
        &flat(&[("a", "\"it's a\""), ("b", "\"it's b\"")]),
    );
    a.unwrap_err();
}

#[test]
fn map_works_at_root_with_prefix() {
    let map = flat(&[("x.boolean", "true")]);
    let x = from_map_with_prefix(&mapping(Shape::Scalar), Some("x".to_string()), &map).unwrap();
    assert_eq!(names(&x), vec!["boolean"]);
    assert_eq!(leaf(part(&x, "boolean")), &Value::Bool(true));
}

#[test]
fn disallowed_data_type() {
    let bad = from_map(
        &record("Bad", vec![field("id", Shape::Scalar)]),
        &flat(&[("id", "42")]),
    );
    bad.unwrap_err();
}

#[test]
fn root_mapping_without_prefix_is_bad_root() {
    let r = from_map(&mapping(Shape::Scalar), &flat(&[("x.boolean", "true")]));
    assert!(matches!(r, Err(DecodeError::BadRoot)));
}

#[test]
fn root_scalar_is_bad_root() {
    let r = from_map(&Shape::Scalar, &flat(&[("x", "1")]));
    assert!(matches!(r, Err(DecodeError::BadRoot)));
}

#[test]
fn absent_fields_decode_as_absent_options() {
    let a = from_map(
        &record(
            "A",
            vec![
                field("id", optional(Shape::Scalar)),
                field("name", Shape::Scalar),
                field(
                    "nested",
                    record(
                        "B",
                        vec![
                            field("a", Shape::Scalar),
                            field("c", optional(Shape::Scalar)),
                            field("d", optional(shape_c())),
                        ],
                    ),
                ),
            ],
        ),
        &flat(&[
            ("a.id", "1"),
            ("a.name", "\"x\""),
            ("a.nested.a", "\"y\""),
            ("a.nested.d.boolean", "true"),
        ]),
    )
    .unwrap();
    assert_eq!(leaf(present(part(&a, "id"))), &Value::from(1u64));
    assert_eq!(leaf(part(&a, "name")), &Value::String("x".to_string()));
    let nested = part(&a, "nested");
    assert_eq!(leaf(part(nested, "a")), &Value::String("y".to_string()));
    assert!(matches!(part(nested, "c"), Node::Absent));
    assert_eq!(leaf(part(present(part(nested, "d")), "boolean")), &Value::Bool(true));
}

#[test]
fn missing_field_is_reported_by_name() {
    match from_map(&shape_c(), &flat(&[("c.other", "true")])) {
        Err(DecodeError::Message { msg }) => assert_eq!(msg, "missing field `boolean`"),
        other => panic!("unexpected: {:?}", other),
    }
}

#[test]
fn duplicate_field_is_reported_by_name() {
    let r = from_map(
        &record("C", vec![field("x", Shape::Scalar)]),
        &flat(&[("c.x", "1"), ("c.x.y", "2")]),
    );
    match r {
        Err(DecodeError::Message { msg }) => assert_eq!(msg, "duplicate field `x`"),
        other => panic!("unexpected: {:?}", other),
    }
}

#[test]
fn malformed_scalar_names_its_key() {
    match from_map(&shape_c(), &flat(&[("c.boolean", "tru")])) {
        Err(DecodeError::DeserializeScalar { key, .. }) => assert_eq!(key, "c.boolean"),
        other => panic!("unexpected: {:?}", other),
    }
}

#[test]
fn record_name_is_lowercased_for_the_prefix() {
    let r = from_map(
        &record("MyRecord", vec![field("x", Shape::Scalar)]),
        &flat(&[("myrecord.x", "7")]),
    )
    .unwrap();
    assert_eq!(leaf(part(&r, "x")), &Value::from(7u64));
}

#[test]
fn branch_is_entered_once_for_many_keys() {
    let r = from_map_with_prefix(
        &mapping(mapping(Shape::Scalar)),
        Some("p".to_string()),
        &flat(&[("p.a.b", "1"), ("p.z", "0"), ("p.a.c", "2")]),
    )
    .unwrap();
    assert_eq!(names(&r), vec!["a", "z"]);
    assert_eq!(names(part(&r, "a")), vec!["b", "c"]);
    assert_eq!(leaf(part(part(&r, "a"), "c")), &Value::from(2u64));
}
