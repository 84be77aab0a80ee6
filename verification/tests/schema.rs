use sara::llm::schema::{inline_schema_for_openai, JsonValue};

fn text(s: &str) -> JsonValue {
    JsonValue::Text(s.to_string())
}

fn obj(members: Vec<(&str, JsonValue)>) -> JsonValue {
    JsonValue::Object(members.into_iter().map(|(k, v)| (k.to_string(), v)).collect())
}

fn typed(t: &str) -> JsonValue {
    obj(vec![("type", text(t))])
}

#[test]
fn nested_refs_are_inlined_and_objects_closed() {
    let schema = obj(vec![
        ("$schema", text("http://json-schema.org/draft-07/schema#")),
        ("title", text("EnrichmentResponse")),
        ("type", text("object")),
        (
            "properties",
            obj(vec![
                (
                    "files",
                    obj(vec![
                        ("type", text("array")),
                        ("items", obj(vec![("$ref", text("#/$defs/RelevantFile"))])),
                    ]),
                ),
                ("name", typed("string")),
            ]),
        ),
        (
            "$defs",
            obj(vec![(
                "RelevantFile",
                obj(vec![
                    ("type", text("object")),
                    ("properties", obj(vec![("path", typed("string"))])),
                ]),
            )]),
        ),
    ]);
    let expected = obj(vec![
        ("title", text("EnrichmentResponse")),
        ("type", text("object")),
        (
            "properties",
            obj(vec![
                (
                    "files",
                    obj(vec![
                        ("type", text("array")),
                        (
                            "items",
                            obj(vec![
                                ("type", text("object")),
                                ("properties", obj(vec![("path", typed("string"))])),
                                ("additionalProperties", JsonValue::Bool(false)),
                                ("required", JsonValue::Array(vec![text("path")])),
                            ]),
                        ),
                    ]),
                ),
                ("name", typed("string")),
            ]),
        ),
        ("additionalProperties", JsonValue::Bool(false)),
        ("required", JsonValue::Array(vec![text("files"), text("name")])),
    ]);
    assert_eq!(inline_schema_for_openai(schema), Some(expected));
}

#[test]
fn definitions_are_used_without_defs_and_branches_are_resolved() {
    let schema = obj(vec![
        (
            "anyOf",
            JsonValue::Array(vec![obj(vec![("$ref", text("#/definitions/A"))]), typed("null")]),
        ),
        (
            "definitions",
            obj(vec![("A", obj(vec![("properties", obj(vec![("x", typed("integer"))]))]))]),
        ),
    ]);
    let expected = obj(vec![(
        "anyOf",
        JsonValue::Array(vec![
            obj(vec![
                ("properties", obj(vec![("x", typed("integer"))])),
                ("additionalProperties", JsonValue::Bool(false)),
                ("required", JsonValue::Array(vec![text("x")])),
            ]),
            typed("null"),
        ]),
    )]);
    assert_eq!(inline_schema_for_openai(schema), Some(expected));
}

#[test]
fn unknown_refs_are_dropped() {
    let schema = obj(vec![("$ref", text("#/$defs/Missing")), ("type", text("string"))]);
    assert_eq!(inline_schema_for_openai(schema), Some(typed("string")));
}

#[test]
fn existing_required_and_additional_properties_are_replaced() {
    let schema = obj(vec![
        ("additionalProperties", JsonValue::Bool(true)),
        ("required", JsonValue::Array(vec![])),
        ("properties", obj(vec![("a", JsonValue::Number("1".to_string()))])),
    ]);
    let expected = obj(vec![
        ("additionalProperties", JsonValue::Bool(false)),
        ("required", JsonValue::Array(vec![text("a")])),
        ("properties", obj(vec![("a", JsonValue::Number("1".to_string()))])),
    ]);
    assert_eq!(inline_schema_for_openai(schema), Some(expected));
}

#[test]
fn non_object_schemas_pass_through() {
    assert_eq!(inline_schema_for_openai(JsonValue::Bool(true)), Some(JsonValue::Bool(true)));
    assert_eq!(inline_schema_for_openai(JsonValue::Null), Some(JsonValue::Null));
}

#[test]
fn a_definition_that_refers_to_itself_is_refused() {
    let node = obj(vec![
        ("type", text("object")),
        ("properties", obj(vec![("next", obj(vec![("$ref", text("#/$defs/Node"))]))])),
    ]);
    let schema = obj(vec![("$ref", text("#/$defs/Node")), ("$defs", obj(vec![("Node", node)]))]);
    assert_eq!(inline_schema_for_openai(schema), None);
}
