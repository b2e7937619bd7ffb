use trailbase_records::jsonschema::{
    get_compiled_schema, get_schema, get_schemas, jsonschema_by_name, jsonschema_by_name_with_extra_args,
    jsonschema_matches, set_schema, set_schemas, CustomValidator, SchemaCheckFailure, SchemaEntry,
    SchemaRegistry,
};

const TEXT0_SCHEMA: &str = r#"
        {
          "type": "object",
          "properties": {
            "name": { "type": "string" },
            "age": { "type": "integer", "minimum": 0 }
          },
          "required": ["name"]
        }
    "#;

#[test]
fn test_explicit_jsonschema() {
    let text1_schema = r#"{ "type": "string" }"#;

    assert_eq!(jsonschema_matches(TEXT0_SCHEMA, Some(r#"{"name": "foo"}"#)), Ok(true));
    assert_eq!(jsonschema_matches(text1_schema, Some(r#""text""#)), Ok(true));

    assert_eq!(jsonschema_matches(TEXT0_SCHEMA, Some(r#"{"name": "foo", "age": -5}"#)), Ok(false));
    assert_eq!(jsonschema_matches(TEXT0_SCHEMA, None), Ok(true));
    assert_eq!(jsonschema_matches("not json", Some("1")), Err(SchemaCheckFailure::InvalidSchema));
    assert_eq!(jsonschema_matches(text1_schema, Some("not json")), Err(SchemaCheckFailure::InvalidJson));
}

fn starts_with(v: &serde_json::Value, param: Option<&str>) -> bool {
    if let Some(param) = param {
        if let serde_json::Value::Object(map) = v {
            if let Some(serde_json::Value::String(str)) = map.get("name") {
                if str.starts_with(param) {
                    return true;
                }
            }
        }
    }
    return false;
}

#[test]
fn test_registerd_jsonschema() {
    let mut registry = SchemaRegistry::new();
    set_schema(
        &mut registry,
        "name0",
        Some(SchemaEntry::from(TEXT0_SCHEMA.to_string(), Some(CustomValidator::new(starts_with))).unwrap()),
    );

    assert_eq!(
        jsonschema_by_name_with_extra_args(&registry, "name0", Some(r#"{"name": "prefix_foo"}"#), Some("prefix")),
        Ok(true)
    );
    assert_eq!(
        jsonschema_by_name_with_extra_args(
            &registry,
            "name0",
            Some(r#"{"name": "WRONG_PREFIX_foo"}"#),
            Some("prefix")
        ),
        Ok(false)
    );
}

#[test]
fn registry_lookups() {
    let mut registry = SchemaRegistry::new();
    assert!(get_schema(&registry, "a").is_none());
    assert_eq!(jsonschema_by_name(&registry, "a", Some("1")), Err(SchemaCheckFailure::SchemaNotFound));
    set_schema(&mut registry, "a", Some(SchemaEntry::from(r#"{"type":"integer"}"#.to_string(), None).unwrap()));
    assert_eq!(get_schema(&registry, "a"), Some(r#"{"type":"integer"}"#.to_string()));
    assert!(get_compiled_schema(&registry, "a").is_some());
    assert_eq!(jsonschema_by_name(&registry, "a", Some("1")), Ok(true));
    assert_eq!(jsonschema_by_name(&registry, "a", Some("\"x\"")), Ok(false));
    assert_eq!(jsonschema_by_name(&registry, "a", Some("{")), Err(SchemaCheckFailure::InvalidJson));
    assert_eq!(jsonschema_by_name(&registry, "missing", Some("{")), Err(SchemaCheckFailure::InvalidJson));
    assert!(SchemaEntry::from("{".to_string(), None).is_err());
    set_schemas(
        &mut registry,
        Some(vec![
            ("b".to_string(), SchemaEntry::from("{}".to_string(), None).unwrap()),
            ("c".to_string(), SchemaEntry::from("true".to_string(), None).unwrap()),
        ]),
    );
    assert!(get_schema(&registry, "a").is_none());
    let mut all: Vec<String> = get_schemas(&registry).into_iter().map(|(n, _)| n).collect();
    all.sort();
    assert_eq!(all, vec!["b".to_string(), "c".to_string()]);
    set_schema(&mut registry, "b", None);
    assert!(get_compiled_schema(&registry, "b").is_none());
}
