use openapi_paths::path_item::PathItem;
use openapi_paths::paths::Paths;
use openapi_paths::router::{partition, KeyRule};
use openapi_paths::value::ValueKind;
use openapi_paths::{Codec, DecodeError, Operation, Parameter, ReferenceOr, Server, Value};

fn text(s: &str) -> Value {
    Value::Text(s.to_string())
}

fn obj(entries: Vec<(&str, Value)>) -> Value {
    Value::Object(entries.into_iter().map(|(k, v)| (k.to_string(), v)).collect())
}

fn entries(list: Vec<(&str, Value)>) -> Vec<(String, Value)> {
    list.into_iter().map(|(k, v)| (k.to_string(), v)).collect()
}

#[test]
fn test_path_item_iterators() {
    let operation = Operation::default();

    let path_item = PathItem {
        get: Some(Operation::default()),
        post: Some(Operation::default()),
        delete: Some(Operation::default()),
        ..Default::default()
    };

    let expected = vec![
        ("get", &operation),
        ("post", &operation),
        ("delete", &operation),
    ];
    assert_eq!(path_item.iter(), expected);

    let expected = vec![
        ("get".to_string(), Operation::default()),
        ("post".to_string(), Operation::default()),
        ("delete".to_string(), Operation::default()),
    ];
    assert_eq!(path_item.into_operations(), expected);
}

#[test]
fn round_trip_groups_buckets_and_keeps_values() {
    let source = obj(vec![
        ("x-custom", obj(vec![("a", Value::Int(1))])),
        ("get", obj(vec![("x", text("y"))])),
        ("summary", text("s")),
    ]);
    let item = PathItem::decode(source).unwrap();
    let encoded = item.encode();
    // encode groups fixed fields first, in canonical order, then extensions
    let expected = obj(vec![
        ("summary", text("s")),
        ("get", obj(vec![("x", text("y"))])),
        ("x-custom", obj(vec![("a", Value::Int(1))])),
    ]);
    assert_eq!(encoded, expected);
}

#[test]
fn routing_sends_each_key_to_exactly_one_bucket() {
    let fixed = vec!["summary".to_string()];
    let es = entries(vec![
        ("summary", text("s")),
        ("/widgets", obj(vec![])),
        ("x-note", Value::Bool(true)),
    ]);
    let (f, d, e) = partition(es, &fixed, KeyRule::PathTemplate);
    assert_eq!(f, entries(vec![("summary", text("s"))]));
    assert_eq!(d, entries(vec![("/widgets", obj(vec![]))]));
    assert_eq!(e, entries(vec![("x-note", Value::Bool(true))]));
    assert_eq!(f.len() + d.len() + e.len(), 3);
}

#[test]
fn reference_discrimination_by_exact_singleton_shape() {
    let reference = obj(vec![("$ref", text("X"))]);
    let node = ReferenceOr::<PathItem>::decode(reference).unwrap();
    assert_eq!(
        node,
        ReferenceOr::Reference { reference: "X".to_string() }
    );

    // the locator beside any other field is no reference object
    let inline = obj(vec![("$ref", text("X")), ("description", text("Y"))]);
    let node = ReferenceOr::<PathItem>::decode(inline).unwrap();
    match node {
        ReferenceOr::Item(item) => {
            assert_eq!(item.description, Some("Y".to_string()));
            assert_eq!(item.extensions, entries(vec![("$ref", text("X"))]));
        }
        ReferenceOr::Reference { .. } => panic!("decoded as a reference"),
    }
}

#[test]
fn canonical_verb_ordering_ignores_source_order() {
    let source = obj(vec![
        ("post", obj(vec![])),
        ("get", obj(vec![])),
        ("delete", obj(vec![])),
    ]);
    let item = PathItem::decode(source).unwrap();
    let verbs: Vec<&str> = item.iter().into_iter().map(|(m, _)| m).collect();
    assert_eq!(verbs, vec!["get", "post", "delete"]);
}

#[test]
fn absent_verbs_expose_nothing_and_encode_to_no_verb_fields() {
    let item = PathItem::decode(obj(vec![("summary", text("s"))])).unwrap();
    assert_eq!(item.iter(), Vec::<(&str, &Operation)>::new());
    let encoded = item.encode();
    assert_eq!(encoded, obj(vec![("summary", text("s"))]));
}

#[test]
fn extension_entries_pass_through_unchanged() {
    let source = obj(vec![
        ("x-custom", obj(vec![("a", Value::Int(1))])),
        ("get", obj(vec![])),
    ]);
    let item = PathItem::decode(source).unwrap();
    assert_eq!(
        item.extensions,
        entries(vec![("x-custom", obj(vec![("a", Value::Int(1))]))])
    );
    let encoded = item.encode();
    assert_eq!(
        encoded,
        obj(vec![
            ("get", obj(vec![])),
            ("x-custom", obj(vec![("a", Value::Int(1))])),
        ])
    );
}

#[test]
fn null_verb_means_not_offered() {
    let item = PathItem::decode(obj(vec![("get", Value::Null)])).unwrap();
    assert_eq!(item.get, None);
    assert_eq!(item.iter().len(), 0);
    assert_eq!(item.encode(), obj(vec![]));
}

#[test]
fn wrong_verb_payload_is_a_type_mismatch() {
    let err = PathItem::decode(obj(vec![("get", Value::Int(5))])).unwrap_err();
    assert_eq!(
        err,
        DecodeError::TypeMismatch { key: "get".to_string(), expected: ValueKind::Object }
    );
}

#[test]
fn wrong_summary_payload_is_a_type_mismatch() {
    let err = PathItem::decode(obj(vec![("summary", Value::Int(3))])).unwrap_err();
    assert_eq!(
        err,
        DecodeError::TypeMismatch { key: "summary".to_string(), expected: ValueKind::Text }
    );
}

#[test]
fn wrong_servers_payload_is_a_type_mismatch() {
    let err = PathItem::decode(obj(vec![("servers", Value::Int(5))])).unwrap_err();
    assert_eq!(
        err,
        DecodeError::TypeMismatch { key: "servers".to_string(), expected: ValueKind::List }
    );
    let err =
        PathItem::decode(obj(vec![("servers", Value::List(vec![Value::Int(1)]))])).unwrap_err();
    assert_eq!(
        err,
        DecodeError::TypeMismatch { key: "servers".to_string(), expected: ValueKind::Object }
    );
}

#[test]
fn first_bad_fixed_field_wins() {
    let source = obj(vec![
        ("summary", Value::Int(1)),
        ("get", Value::Int(2)),
    ]);
    let err = PathItem::decode(source).unwrap_err();
    assert_eq!(
        err,
        DecodeError::TypeMismatch { key: "summary".to_string(), expected: ValueKind::Text }
    );
}

#[test]
fn bad_reference_target_is_a_payload_mismatch() {
    let err = ReferenceOr::<PathItem>::decode(obj(vec![("$ref", Value::Int(5))])).unwrap_err();
    assert_eq!(err, DecodeError::PayloadMismatch);
    let err = ReferenceOr::<Parameter>::decode(Value::Null).unwrap_err();
    assert_eq!(err, DecodeError::PayloadMismatch);
    assert_eq!(err.describe(), "neither a reference object nor a valid inline payload");
}

#[test]
fn paths_collect_templates_and_extensions() {
    let source = obj(vec![
        ("/pets", obj(vec![("get", obj(vec![]))])),
        ("x-info", text("n")),
        ("/stores", obj(vec![("$ref", text("#/components/pathItems/stores"))])),
    ]);
    let paths = Paths::decode(source).unwrap();
    assert_eq!(paths.iter().len(), 2);
    assert_eq!(paths.paths[0].0, "/pets");
    match paths.get(&"/stores".to_string()) {
        Some(ReferenceOr::Reference { reference }) => {
            assert_eq!(reference, "#/components/pathItems/stores");
        }
        _ => panic!("expected a reference"),
    }
    assert!(paths.get(&"/missing".to_string()).is_none());
    assert_eq!(paths.extensions, entries(vec![("x-info", text("n"))]));

    let encoded = paths.encode();
    assert_eq!(
        encoded,
        obj(vec![
            ("/pets", obj(vec![("get", obj(vec![]))])),
            ("/stores", obj(vec![("$ref", text("#/components/pathItems/stores"))])),
            ("x-info", text("n")),
        ])
    );
}

#[test]
fn bad_path_value_propagates_unchanged() {
    let err = Paths::decode(obj(vec![("/pets", Value::Int(7))])).unwrap_err();
    assert_eq!(err, DecodeError::PayloadMismatch);
    let err = Paths::decode(obj(vec![("/pets", obj(vec![("get", Value::Int(1))]))])).unwrap_err();
    assert_eq!(
        err,
        DecodeError::TypeMismatch { key: "get".to_string(), expected: ValueKind::Object }
    );
}

#[test]
fn servers_and_parameters_are_carried() {
    let source = obj(vec![
        ("servers", Value::List(vec![obj(vec![("url", text("https://a"))])])),
        (
            "parameters",
            Value::List(vec![
                obj(vec![("$ref", text("#/p"))]),
                obj(vec![("name", text("id"))]),
            ]),
        ),
    ]);
    let item = PathItem::decode(source).unwrap();
    assert_eq!(item.servers, vec![Server { fields: entries(vec![("url", text("https://a"))]) }]);
    assert_eq!(item.parameters.len(), 2);
    assert_eq!(
        item.parameters[0],
        ReferenceOr::Reference { reference: "#/p".to_string() }
    );
    assert_eq!(
        item.parameters[1],
        ReferenceOr::Item(Parameter { fields: entries(vec![("name", text("id"))]) })
    );
    // re-encode keeps both lists
    let encoded = item.encode();
    assert_eq!(
        encoded,
        obj(vec![
            ("servers", Value::List(vec![obj(vec![("url", text("https://a"))])])),
            (
                "parameters",
                Value::List(vec![
                    obj(vec![("$ref", text("#/p"))]),
                    obj(vec![("name", text("id"))]),
                ]),
            ),
        ])
    );
}

#[test]
fn take_operations_drains_in_canonical_order() {
    let mut item = PathItem {
        put: Some(Operation::default()),
        get: Some(Operation { fields: entries(vec![("x", Value::Int(1))]) }),
        ..Default::default()
    };
    let taken = item.take_operations();
    assert_eq!(
        taken,
        vec![
            ("get".to_string(), Operation { fields: entries(vec![("x", Value::Int(1))]) }),
            ("put".to_string(), Operation::default()),
        ]
    );
    assert_eq!(item.get, None);
    assert_eq!(item.put, None);
}
