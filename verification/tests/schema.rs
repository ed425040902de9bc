use mail_mcp::schema::{portable_schema, split_types};
use rmcp::handler::server::wrapper::Parameters;
use rmcp::schemars::{JsonSchema, Schema, SchemaGenerator};
use serde_json::Value;
use std::borrow::Cow;

struct ListInput;

fn object(members: Vec<(&str, Value)>) -> Value {
    let mut map = serde_json::Map::new();
    for (key, value) in members {
        map.insert(key.to_string(), value);
    }
    Value::Object(map)
}

fn text(s: &str) -> Value {
    Value::String(s.to_string())
}

fn types(names: &[&str]) -> Value {
    Value::Array(names.iter().map(|n| text(n)).collect())
}

fn portable(value: Value) -> Value {
    let mut schema = Schema::try_from(value).unwrap();
    portable_schema(&mut schema);
    schema.to_value()
}

impl JsonSchema for ListInput {
    fn schema_name() -> Cow<'static, str> {
        "ListInput".into()
    }

    fn json_schema(generator: &mut SchemaGenerator) -> Schema {
        let properties = object(vec![
            ("folder", generator.subschema_for::<Option<String>>().to_value()),
            ("limit", generator.subschema_for::<Option<u32>>().to_value()),
        ]);
        let mut schema = Schema::try_from(object(vec![("type", text("object")), ("properties", properties)])).unwrap();
        portable_schema(&mut schema);
        schema
    }
}

fn assert_no_type_arrays(value: &Value) {
    match value {
        Value::Object(object) => {
            assert!(!object.get("type").is_some_and(Value::is_array));
            for value in object.values() {
                assert_no_type_arrays(value);
            }
        }
        Value::Array(values) => {
            for value in values {
                assert_no_type_arrays(value);
            }
        }
        _ => {}
    }
}

#[test]
fn input_schemas_use_portable_nullable_unions() {
    let schema = rmcp::handler::server::common::schema_for_input::<Parameters<ListInput>>()
        .expect("list input schema");
    let properties = schema
        .get("properties")
        .and_then(Value::as_object)
        .expect("input schema properties");
    let folder = properties.get("folder").expect("folder property");
    assert!(folder.get("type").is_none());
    let branches = folder["anyOf"].as_array().expect("nullable branches");
    assert_eq!(branches.len(), 2);
    assert_eq!(branches[0]["type"], "string");
    assert_eq!(branches[1]["type"], "null");

    assert_no_type_arrays(&Value::Object(schema.as_ref().clone()));
}

#[test]
fn branches_keep_the_other_members() {
    let schema = object(vec![("type", types(&["integer", "null"])), ("minimum", Value::from(0)), ("description", text("d"))]);
    let branch = |t: &str| object(vec![("type", text(t)), ("minimum", Value::from(0)), ("description", text("d"))]);
    let expected = object(vec![
        ("minimum", Value::from(0)),
        ("description", text("d")),
        ("anyOf", Value::Array(vec![branch("integer"), branch("null")])),
    ]);
    assert_eq!(portable(schema), expected);
}

#[test]
fn schemas_without_unions_are_unchanged() {
    for schema in [
        object(vec![]),
        object(vec![("type", text("string"))]),
        object(vec![("type", types(&["string"]))]),
        object(vec![("type", types(&[]))]),
        object(vec![("enum", types(&["a", "b"])), ("default", object(vec![("type", types(&["x", "y"]))]))]),
        Value::Bool(true),
    ] {
        assert_eq!(portable(schema.clone()), schema);
    }
}

#[test]
fn subschemas_are_rewritten_wherever_they_stand() {
    let union = || object(vec![("type", types(&["a", "b"]))]);
    let split = || {
        let branch = |t: &str| object(vec![("type", text(t))]);
        object(vec![("anyOf", Value::Array(vec![branch("a"), branch("b")]))])
    };
    for key in ["not", "if", "then", "else", "contains", "additionalProperties", "propertyNames", "additionalItems", "items"] {
        assert_eq!(portable(object(vec![(key, union())])), object(vec![(key, split())]), "{key}");
    }
    for key in ["allOf", "anyOf", "oneOf", "prefixItems", "items"] {
        let list = |v: Value| Value::Array(vec![v, Value::Bool(false), Value::Null]);
        assert_eq!(portable(object(vec![(key, list(union()))])), object(vec![(key, list(split()))]), "{key}");
    }
    for key in ["properties", "patternProperties", "$defs", "definitions"] {
        let table = |v: Value| object(vec![("x", v), ("type", text("kept"))]);
        assert_eq!(portable(object(vec![(key, table(union()))])), object(vec![(key, table(split()))]), "{key}");
    }
    for key in ["const", "examples", "default", "enum", "x"] {
        assert_eq!(portable(object(vec![(key, union())])), object(vec![(key, union())]), "{key}");
    }
}

#[test]
fn nested_unions_are_all_rewritten() {
    let inner = object(vec![("type", types(&["string", "null"]))]);
    let list = object(vec![("type", types(&["array", "null"])), ("items", inner)]);
    let result = portable(object(vec![("type", text("object")), ("properties", object(vec![("p", list)]))]));
    assert_no_type_arrays(&result);
    assert_eq!(result["properties"]["p"]["anyOf"][0]["items"]["anyOf"][1]["type"], "null");
    assert_eq!(portable(result.clone()), result);
}

#[test]
fn an_older_union_moves_into_the_branches() {
    let mut members = serde_json::Map::new();
    members.insert("type".to_string(), types(&["a", "b"]));
    members.insert("anyOf".to_string(), Value::Array(vec![Value::Bool(true)]));
    split_types(&mut members);
    assert!(members.get("type").is_none());
    assert_eq!(members["anyOf"][0]["anyOf"][0], Value::Bool(true));
    assert_eq!(members["anyOf"][1]["type"], "b");
}

fn is_type(name: &Value, value: &Value) -> bool {
    match name.as_str() {
        Some("null") => value.is_null(),
        Some("string") => value.is_string(),
        Some("array") => value.is_array(),
        _ => false,
    }
}

fn valid(schema: &Value, value: &Value) -> bool {
    let members = match schema {
        Value::Object(members) => members,
        other => return *other != Value::Bool(false),
    };
    let typed = match members.get("type") {
        Some(Value::Array(names)) => names.iter().any(|name| is_type(name, value)),
        Some(name) => is_type(name, value),
        None => true,
    };
    let any = match members.get("anyOf") {
        Some(Value::Array(branches)) => branches.iter().any(|branch| valid(branch, value)),
        _ => true,
    };
    let items = match (members.get("items"), value) {
        (Some(item), Value::Array(values)) => values.iter().all(|v| valid(item, v)),
        _ => true,
    };
    typed && any && items && members.get("const").map_or(true, |c| c == value)
}

#[test]
fn the_same_values_are_accepted() {
    let schemas = vec![
        object(vec![("type", types(&["string", "null"]))]),
        object(vec![("type", types(&["string", "null"])), ("const", text("x"))]),
        object(vec![("type", types(&["array", "null"])), ("items", object(vec![("type", types(&["string", "null"]))]))]),
        object(vec![
            ("type", types(&["array", "string"])),
            ("anyOf", Value::Array(vec![object(vec![("type", types(&["null", "string"]))]), object(vec![("const", text("x"))])])),
        ]),
    ];
    let values = vec![
        Value::Null,
        Value::Bool(true),
        text("x"),
        text("y"),
        Value::Array(vec![]),
        Value::Array(vec![text("x"), Value::Null]),
        Value::Array(vec![Value::Bool(true)]),
    ];
    for schema in schemas {
        let after = portable(schema.clone());
        assert_ne!(after, schema);
        for value in &values {
            assert_eq!(valid(&after, value), valid(&schema, value), "{schema} {value}");
        }
    }
}
