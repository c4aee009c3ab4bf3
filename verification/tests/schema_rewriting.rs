use openapi2discovery::json::JsonValue;
use openapi2discovery::parser::downgrade_oas31_types;
use openapi2discovery::transform::schemas::to_discovery_schema;

fn s(text: &str) -> JsonValue {
    JsonValue::Str(text.to_string())
}

fn obj(entries: Vec<(&str, JsonValue)>) -> JsonValue {
    JsonValue::Object(entries.into_iter().map(|(k, v)| (k.to_string(), v)).collect())
}

fn arr(items: Vec<JsonValue>) -> JsonValue {
    JsonValue::Array(items)
}

fn text_at<'a>(v: &'a JsonValue, path: &[&str]) -> Option<&'a str> {
    let mut cur = v;
    for key in path {
        cur = cur.get(key)?;
    }
    cur.as_str()
}

fn simplify_refs_input() -> JsonValue {
    obj(vec![("properties", obj(vec![("owner", obj(vec![("$ref", s("#/components/schemas/User"))]))]))])
}

fn strips_input() -> JsonValue {
    obj(vec![
        ("type", s("object")),
        ("required", arr(vec![s("name")])),
        ("nullable", JsonValue::Bool(true)),
        ("additionalProperties", obj(vec![("type", s("string"))])),
        ("properties", obj(vec![("name", obj(vec![("type", s("string"))]))])),
    ])
}

fn flattens_input() -> JsonValue {
    obj(vec![(
        "oneOf",
        arr(vec![obj(vec![("type", s("null"))]), obj(vec![("$ref", s("#/components/schemas/Foo"))])]),
    )])
}

fn check_simplify_refs() {
    let output = to_discovery_schema(simplify_refs_input());
    assert_eq!(text_at(&output, &["properties", "owner", "$ref"]), Some("User"));
}

fn check_strips() {
    let output = to_discovery_schema(strips_input());
    assert!(output.get("required").is_none());
    assert!(output.get("nullable").is_none());
    assert!(output.get("additionalProperties").is_none());
    assert_eq!(text_at(&output, &["properties", "name", "type"]), Some("string"));
}

fn check_flattens() {
    let output = to_discovery_schema(flattens_input());
    assert!(output.get("oneOf").is_none());
    assert_eq!(text_at(&output, &["$ref"]), Some("Foo"));
}

#[test]
fn schemas_simplify_refs_rewrites_component_refs() {
    check_simplify_refs();
}

#[test]
fn transform_simplify_refs_rewrites_component_refs() {
    check_simplify_refs();
}

#[test]
fn schemas_strips_openapi_only_keys() {
    check_strips();
}

#[test]
fn transform_strips_openapi_only_keys() {
    check_strips();
}

#[test]
fn schemas_flattens_oneof_nullable() {
    check_flattens();
}

#[test]
fn transform_flattens_oneof_nullable() {
    check_flattens();
}

#[test]
fn other_refs_are_kept() {
    let output = to_discovery_schema(obj(vec![("$ref", s("#/components/responses/Error"))]));
    assert_eq!(text_at(&output, &["$ref"]), Some("#/components/responses/Error"));
}

#[test]
fn anyof_nullable_is_flattened_and_overrides() {
    let input = obj(vec![
        ("description", s("outer")),
        (
            "anyOf",
            arr(vec![
                obj(vec![("$ref", s("#/components/schemas/Bar")), ("description", s("inner"))]),
                obj(vec![("type", s("null"))]),
            ]),
        ),
    ]);
    let output = to_discovery_schema(input);
    assert!(output.get("anyOf").is_none());
    assert_eq!(text_at(&output, &["$ref"]), Some("Bar"));
    assert_eq!(text_at(&output, &["description"]), Some("inner"));
}

#[test]
fn multi_variant_union_is_dropped() {
    let input = obj(vec![(
        "oneOf",
        arr(vec![obj(vec![("type", s("string"))]), obj(vec![("type", s("integer"))])]),
    )]);
    let output = to_discovery_schema(input);
    assert!(output.get("oneOf").is_none());
    assert!(output.get("type").is_none());
}

#[test]
fn single_all_of_fills_missing_keys_only() {
    let input = obj(vec![
        ("description", s("outer")),
        (
            "allOf",
            arr(vec![obj(vec![("$ref", s("#/components/schemas/Base")), ("description", s("inner"))])]),
        ),
    ]);
    let output = to_discovery_schema(input);
    assert!(output.get("allOf").is_none());
    assert_eq!(text_at(&output, &["$ref"]), Some("Base"));
    assert_eq!(text_at(&output, &["description"]), Some("outer"));
}

#[test]
fn rewriting_reaches_array_items() {
    let input = obj(vec![(
        "items",
        arr(vec![obj(vec![("$ref", s("#/components/schemas/Pet")), ("readOnly", JsonValue::Bool(true))])]),
    )]);
    let output = to_discovery_schema(input);
    let items = output.get("items").and_then(|v| v.as_array()).expect("items kept");
    assert_eq!(items.len(), 1);
    assert_eq!(text_at(&items[0], &["$ref"]), Some("Pet"));
    assert!(items[0].get("readOnly").is_none());
}

#[test]
fn scalars_are_unchanged() {
    assert_eq!(to_discovery_schema(s("x")).as_str(), Some("x"));
    assert!(to_discovery_schema(JsonValue::Null).is_null());
}

#[test]
fn type_array_with_null_is_downgraded() {
    let mut v = obj(vec![("type", arr(vec![s("string"), s("null")]))]);
    downgrade_oas31_types(&mut v);
    assert_eq!(text_at(&v, &["type"]), Some("string"));
    assert!(matches!(v.get("nullable"), Some(JsonValue::Bool(true))));

    let mut w = obj(vec![("type", arr(vec![s("null"), s("integer")]))]);
    downgrade_oas31_types(&mut w);
    assert_eq!(text_at(&w, &["type"]), Some("integer"));
    assert!(matches!(w.get("nullable"), Some(JsonValue::Bool(true))));
}

#[test]
fn type_array_without_null_is_narrowed() {
    let mut v = obj(vec![("type", arr(vec![s("boolean")]))]);
    downgrade_oas31_types(&mut v);
    assert_eq!(text_at(&v, &["type"]), Some("boolean"));
    assert!(v.get("nullable").is_none());
}

#[test]
fn ambiguous_type_array_is_kept() {
    let mut v = obj(vec![("type", arr(vec![s("string"), s("integer"), s("null")]))]);
    downgrade_oas31_types(&mut v);
    assert_eq!(v.get("type").and_then(|t| t.as_array()).map(|a| a.len()), Some(3));
    assert!(v.get("nullable").is_none());
}

#[test]
fn nested_type_arrays_are_downgraded() {
    let mut v = obj(vec![(
        "components",
        obj(vec![(
            "schemas",
            obj(vec![("Pet", obj(vec![("properties", obj(vec![("tag", obj(vec![("type", arr(vec![s("string"), s("null")]))]))]))]))]),
        )]),
    )]);
    downgrade_oas31_types(&mut v);
    assert_eq!(text_at(&v, &["components", "schemas", "Pet", "properties", "tag", "type"]), Some("string"));
    let tag = v
        .get("components")
        .and_then(|c| c.get("schemas"))
        .and_then(|c| c.get("Pet"))
        .and_then(|c| c.get("properties"))
        .and_then(|c| c.get("tag"))
        .expect("tag kept");
    assert!(matches!(tag.get("nullable"), Some(JsonValue::Bool(true))));
}

#[test]
fn duplicate_copies_every_level() {
    let v = strips_input();
    let c = v.duplicate();
    assert_eq!(text_at(&c, &["properties", "name", "type"]), Some("string"));
    assert!(matches!(c.get("nullable"), Some(JsonValue::Bool(true))));
}

#[test]
fn rewriting_twice_changes_nothing() {
    for input in [simplify_refs_input(), strips_input(), flattens_input()] {
        let once = to_discovery_schema(input);
        let twice = to_discovery_schema(once.duplicate());
        assert_eq!(format!("{once:?}"), format!("{twice:?}"));
    }
}

#[test]
fn downgrade_leaves_other_keys_alone() {
    let mut v = obj(vec![
        ("type", arr(vec![s("string"), s("null")])),
        ("description", s("kept")),
        ("items", arr(vec![obj(vec![("type", arr(vec![s("integer")]))])])),
    ]);
    downgrade_oas31_types(&mut v);
    assert_eq!(text_at(&v, &["description"]), Some("kept"));
    let items = v.get("items").and_then(|i| i.as_array()).unwrap();
    assert_eq!(text_at(&items[0], &["type"]), Some("integer"));
}

#[test]
fn repeated_openapi_only_keys_are_all_removed() {
    let input = obj(vec![
        ("required", arr(vec![s("a")])),
        ("type", s("object")),
        ("required", arr(vec![s("b")])),
        ("example", s("x")),
        ("example", s("y")),
    ]);
    let output = to_discovery_schema(input);
    assert!(output.get("required").is_none());
    assert!(output.get("example").is_none());
    match &output {
        JsonValue::Object(entries) => assert_eq!(entries.len(), 1),
        _ => panic!("object expected"),
    }
}
