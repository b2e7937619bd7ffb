use base64::Engine;
use trailbase_records::files::FileUploadInput;
use trailbase_records::jsonschema::{set_schema, SchemaEntry, SchemaRegistry, JsonSchemaError};
use trailbase_records::metadata::TableMetadata;
use trailbase_records::params::{
    json_string_to_value, simple_json_value_to_param, try_json_array_to_blob, ColumnError,
    FileInputError, LazyParams, Params, ParamsError, ValueKind,
};
use trailbase_records::schema::{Column, ColumnDataType, ColumnOption, QualifiedName, Table};
use trailbase_records::value::{JsonNumber, JsonValue, SqlValue};

fn column(name: &str, data_type: ColumnDataType, options: Vec<ColumnOption>) -> Column {
    Column { name: name.to_string(), data_type, options }
}

fn test_table() -> TableMetadata {
    let table = Table {
        name: QualifiedName { name: "test".to_string(), database_schema: None },
        columns: vec![
            column("id", ColumnDataType::Integer, vec![ColumnOption::Unique { is_primary: true }]),
            column("blob", ColumnDataType::Blob, vec![]),
            column("text", ColumnDataType::Text, vec![]),
            column("num", ColumnDataType::Integer, vec![]),
            column("real", ColumnDataType::Real, vec![]),
            column(
                "json_col",
                ColumnDataType::Text,
                vec![ColumnOption::Check("jsonschema('test.TestSchema', json_col)".to_string())],
            ),
            column(
                "file",
                ColumnDataType::Text,
                vec![ColumnOption::Check("jsonschema('std.FileUpload', file)".to_string())],
            ),
            column(
                "files",
                ColumnDataType::Text,
                vec![ColumnOption::Check("jsonschema('std.FileUploads', files)".to_string())],
            ),
        ],
        strict: true,
        temporary: false,
    };
    TableMetadata::new(table)
}

fn registry() -> SchemaRegistry {
    let mut registry = SchemaRegistry::new();
    let schema = r#"{"type": "object", "properties": {"foo": {"type": "string"}}, "required": ["foo"]}"#;
    set_schema(
        &mut registry,
        "test.TestSchema",
        Some(SchemaEntry::from(schema.to_string(), None).unwrap()),
    );
    registry
}

fn s(v: &str) -> JsonValue {
    JsonValue::String(v.to_string())
}

fn num_value(i: i64) -> JsonValue {
    JsonValue::Number(JsonNumber::Int(i))
}

fn row(members: Vec<(&str, JsonValue)>) -> Vec<(String, JsonValue)> {
    members.into_iter().map(|(k, v)| (k.to_string(), v)).collect()
}

fn values(p: &Params) -> Vec<(String, SqlValue)> {
    p.named_params().clone()
}

#[test]
fn scalars_convert_by_column_type() {
    let meta = test_table();
    let reg = registry();
    let json = row(vec![
        ("num", s("5")),
        ("text", s("some text :)")),
        ("real", s("1.5")),
        ("id", JsonValue::Bool(true)),
        ("blob", JsonValue::Null),
    ]);
    let p = Params::from(&meta, &reg, json, None).unwrap();
    assert_eq!(
        p.column_names(),
        &vec!["num".to_string(), "text".to_string(), "real".to_string(), "id".to_string(), "blob".to_string()]
    );
    assert_eq!(
        values(&p),
        vec![
            (":num".to_string(), SqlValue::Integer(5)),
            (":text".to_string(), SqlValue::Text("some text :)".to_string())),
            (":real".to_string(), SqlValue::Real("1.5".to_string())),
            (":id".to_string(), SqlValue::Integer(1)),
            (":blob".to_string(), SqlValue::Null),
        ]
    );
    assert_eq!(p.table_name(), "test");
}

#[test]
fn numbers_map_to_integer_and_real() {
    assert_eq!(
        simple_json_value_to_param(ColumnDataType::Integer, num_value(-7)),
        Ok(SqlValue::Integer(-7))
    );
    assert_eq!(
        simple_json_value_to_param(
            ColumnDataType::Real,
            JsonValue::Number(JsonNumber::Float("2.25".to_string()))
        ),
        Ok(SqlValue::Real("2.25".to_string()))
    );
    assert_eq!(
        simple_json_value_to_param(ColumnDataType::Integer, JsonValue::Bool(false)),
        Ok(SqlValue::Integer(0))
    );
    assert_eq!(
        simple_json_value_to_param(ColumnDataType::Integer, JsonValue::Number(JsonNumber::UInt(u64::MAX))),
        Ok(SqlValue::Integer(-1))
    );
}

#[test]
fn byte_arrays_become_blobs() {
    let arr = vec![num_value(0), num_value(65), num_value(255)];
    assert_eq!(try_json_array_to_blob(&arr), Ok(vec![0u8, 65, 255]));
    assert_eq!(try_json_array_to_blob(&vec![]), Ok(vec![]));
    assert_eq!(
        try_json_array_to_blob(&vec![num_value(1), num_value(256)]),
        Err(ParamsError::UnexpectedType(ValueKind::NonByteNumber))
    );
    assert_eq!(
        try_json_array_to_blob(&vec![num_value(-1)]),
        Err(ParamsError::UnexpectedType(ValueKind::NonByteNumber))
    );
    assert_eq!(try_json_array_to_blob(&vec![num_value(1), s("x")]), Err(ParamsError::InhomogenousArray));
    let meta = test_table();
    let p = Params::from(
        &meta,
        &registry(),
        row(vec![("blob", JsonValue::Array(vec![num_value(16), num_value(128)]))]),
        None,
    )
    .unwrap();
    assert_eq!(values(&p), vec![(":blob".to_string(), SqlValue::Blob(vec![16, 128]))]);
}

#[test]
fn arrays_rejected_on_unsuitable_columns() {
    assert_eq!(
        simple_json_value_to_param(ColumnDataType::Text, JsonValue::Array(vec![])),
        Err(ParamsError::UnexpectedType(ValueKind::Array))
    );
    assert_eq!(
        simple_json_value_to_param(ColumnDataType::Text, JsonValue::Object(vec![])),
        Err(ParamsError::UnexpectedType(ValueKind::Object))
    );
    let meta = test_table();
    let r = Params::from(&meta, &registry(), row(vec![("num", JsonValue::Array(vec![num_value(1)]))]), None);
    assert_eq!(r.err(), Some(ParamsError::NestedArray("num".to_string())));
    let r = Params::from(&meta, &registry(), row(vec![("text", JsonValue::Object(vec![]))]), None);
    assert_eq!(r.err(), Some(ParamsError::NestedObject("text".to_string())));
    let r = Params::from(&meta, &registry(), row(vec![("num", JsonValue::Object(vec![]))]), None);
    assert_eq!(r.err(), Some(ParamsError::NestedObject("num".to_string())));
}

#[test]
fn unknown_keys_are_dropped() {
    let meta = test_table();
    let reg = registry();
    let with_unknown = Params::from(
        &meta,
        &reg,
        row(vec![("foo", JsonValue::Array(vec![s("bad")])), ("num", num_value(3)), ("bar", JsonValue::Object(vec![]))]),
        None,
    )
    .unwrap();
    assert_eq!(with_unknown.column_names(), &vec!["num".to_string()]);
    assert_eq!(values(&with_unknown), vec![(":num".to_string(), SqlValue::Integer(3))]);
    let empty = Params::from(&meta, &reg, row(vec![("unknown", num_value(1))]), None).unwrap();
    assert!(empty.column_names().is_empty());
}

#[test]
fn string_parse_errors() {
    assert_eq!(json_string_to_value(ColumnDataType::Integer, "5x".to_string()), Err(ParamsError::ParseInt));
    assert_eq!(
        json_string_to_value(ColumnDataType::Integer, "9223372036854775808".to_string()),
        Err(ParamsError::ParseInt)
    );
    assert_eq!(
        json_string_to_value(ColumnDataType::BigInt, "-9223372036854775808".to_string()),
        Ok(SqlValue::Integer(i64::MIN))
    );
    assert_eq!(json_string_to_value(ColumnDataType::Real, "1.2.3".to_string()), Err(ParamsError::ParseFloat));
    assert_eq!(
        json_string_to_value(ColumnDataType::Double, "-1e10".to_string()),
        Ok(SqlValue::Real("-1e10".to_string()))
    );
    assert_eq!(
        json_string_to_value(ColumnDataType::Float, "inf".to_string()),
        Ok(SqlValue::Real("inf".to_string()))
    );
    assert_eq!(json_string_to_value(ColumnDataType::Blob, "!!".to_string()), Err(ParamsError::Decode));
    assert_eq!(json_string_to_value(ColumnDataType::Null, "x".to_string()), Ok(SqlValue::Null));
    assert_eq!(
        json_string_to_value(ColumnDataType::JSONB, "{}".to_string()),
        Ok(SqlValue::Blob(b"{}".to_vec()))
    );
}

#[test]
fn test_json_string_to_value() {
    let uuid = "01950408-de17-7f13-8ef5-66d90b890bfd";
    let expected: Vec<u8> = vec![
        0x01, 0x95, 0x04, 0x08, 0xde, 0x17, 0x7f, 0x13, 0x8e, 0xf5, 0x66, 0xd9, 0x0b, 0x89, 0x0b, 0xfd,
    ];
    match json_string_to_value(ColumnDataType::Blob, uuid.to_string()) {
        Ok(SqlValue::Blob(b)) => {
            assert_eq!(b.len(), 16);
            assert_eq!(b, expected);
        }
        other => panic!("Not a blob: {other:?}"),
    }
    assert_eq!(
        json_string_to_value(ColumnDataType::Text, "mytext".to_string()),
        Ok(SqlValue::Text("mytext".to_string()))
    );
    // "AQID" is base64 for [1, 2, 3].
    assert_eq!(
        json_string_to_value(ColumnDataType::Blob, "AQID".to_string()),
        Ok(SqlValue::Blob(vec![1, 2, 3]))
    );
}

#[test]
fn schema_checked_json_is_stored_as_text() {
    let meta = test_table();
    let reg = registry();
    let value = JsonValue::Object(vec![("foo".to_string(), s("a\"b"))]);
    let p = Params::from(&meta, &reg, row(vec![("json_col", value)]), None).unwrap();
    assert_eq!(
        values(&p),
        vec![(":json_col".to_string(), SqlValue::Text(r#"{"foo":"a\"b"}"#.to_string()))]
    );
    let bad = JsonValue::Object(vec![("foo".to_string(), num_value(5))]);
    let r = Params::from(&meta, &reg, row(vec![("json_col", bad)]), None);
    assert_eq!(r.err(), Some(ParamsError::JsonValidation(JsonSchemaError::Validation)));
    let r = Params::from(
        &meta,
        &SchemaRegistry::new(),
        row(vec![("json_col", JsonValue::Object(vec![]))]),
        None,
    );
    assert_eq!(r.err(), Some(ParamsError::JsonValidation(JsonSchemaError::NotFound)));
}

#[test]
fn file_descriptors_are_split_out() {
    let meta = test_table();
    let reg = registry();
    let descriptor = JsonValue::Object(vec![
        ("filename".to_string(), s("a.txt")),
        ("content_type".to_string(), s("text/plain")),
        ("data".to_string(), JsonValue::Array(vec![num_value(104), num_value(105)])),
    ]);
    let p = Params::from(&meta, &reg, row(vec![("file", descriptor)]), None).unwrap();
    assert_eq!(p.file_column_names(), &vec!["file".to_string()]);
    let (named, files) = p.into_parts();
    assert_eq!(files.len(), 1);
    let (upload, content) = &files[0];
    assert_eq!(content, &b"hi".to_vec());
    assert_eq!(upload.filename.as_deref(), Some("a.txt"));
    assert_eq!(upload.id.len(), 32);
    let expected = format!(
        r#"{{"id":"{}","filename":"a.txt","content_type":"text/plain","mime_type":"text/plain"}}"#,
        upload.id
    );
    assert_eq!(named, vec![(":file".to_string(), SqlValue::Text(expected))]);
}

#[test]
fn file_lists_are_split_out() {
    let meta = test_table();
    let d = |data: i64| JsonValue::Object(vec![("data".to_string(), JsonValue::Array(vec![num_value(data)]))]);
    let p = Params::from(&meta, &registry(), row(vec![("files", JsonValue::Array(vec![d(1), d(2)]))]), None)
        .unwrap();
    let (named, files) = p.into_parts();
    assert_eq!(files.len(), 2);
    assert_eq!(files[0].1, vec![1u8]);
    assert_eq!(files[1].1, vec![2u8]);
    let text = format!(
        r#"[{{"id":"{}","filename":null,"content_type":null,"mime_type":null}},{{"id":"{}","filename":null,"content_type":null,"mime_type":null}}]"#,
        files[0].0.id, files[1].0.id
    );
    assert_eq!(named, vec![(":files".to_string(), SqlValue::Text(text))]);
}

#[test]
fn malformed_file_descriptors() {
    let meta = test_table();
    let reg = registry();
    let no_data = JsonValue::Object(vec![("filename".to_string(), s("a"))]);
    let r = Params::from(&meta, &reg, row(vec![("file", no_data)]), None);
    assert_eq!(r.err(), Some(ParamsError::FileInput(FileInputError::MissingData)));
    let bad_name = JsonValue::Object(vec![
        ("filename".to_string(), num_value(1)),
        ("data".to_string(), JsonValue::Array(vec![])),
    ]);
    let r = Params::from(&meta, &reg, row(vec![("file", bad_name)]), None);
    assert_eq!(r.err(), Some(ParamsError::FileInput(FileInputError::NotAString)));
    let r = Params::from(&meta, &reg, row(vec![("files", JsonValue::Array(vec![num_value(1)]))]), None);
    assert_eq!(r.err(), Some(ParamsError::FileInput(FileInputError::NotAnObject)));
}

fn upload(name: Option<&str>, data: &[u8]) -> FileUploadInput {
    FileUploadInput {
        name: name.map(|n| n.to_string()),
        filename: None,
        content_type: None,
        data: data.to_vec(),
    }
}

#[test]
fn multipart_uploads() {
    let meta = test_table();
    let reg = registry();
    let p = Params::from(
        &meta,
        &reg,
        row(vec![("num", num_value(1))]),
        Some(vec![upload(Some("file"), b"a"), upload(Some("files"), b"b"), upload(Some("other"), b"c")]),
    )
    .unwrap();
    assert_eq!(
        p.column_names(),
        &vec!["num".to_string(), "file".to_string(), "files".to_string()]
    );
    assert_eq!(p.file_column_names(), &vec!["file".to_string(), "files".to_string()]);
    let (named, files) = p.into_parts();
    // The upload for the unknown field "other" is dropped with its file.
    assert_eq!(files.len(), 2);
    assert_eq!(files[0].1, b"a".to_vec());
    assert_eq!(files[1].1, b"b".to_vec());
    let expected = format!(
        r#"{{"id":"{}","filename":null,"content_type":null,"mime_type":null}}"#,
        files[0].0.id
    );
    assert_eq!(named[1], (":file".to_string(), SqlValue::Text(expected)));

    let r = Params::from(&meta, &reg, vec![], Some(vec![upload(None, b"a")]));
    assert_eq!(r.err(), Some(ParamsError::Column(ColumnError::MissingName)));
    let r = Params::from(
        &meta,
        &reg,
        vec![],
        Some(vec![upload(Some("file"), b"a"), upload(Some("file"), b"b")]),
    );
    assert_eq!(r.err(), Some(ParamsError::Column(ColumnError::Collision)));
    let r = Params::from(&meta, &reg, vec![], Some(vec![upload(Some("text"), b"a")]));
    assert_eq!(r.err(), Some(ParamsError::Column(ColumnError::ExpectedJsonColumn)));
    let r = Params::from(&meta, &reg, vec![], Some(vec![upload(Some("json_col"), b"a")]));
    assert_eq!(r.err(), Some(ParamsError::Column(ColumnError::MismatchingSchema)));
    let ok = Params::from(
        &meta,
        &reg,
        vec![],
        Some(vec![upload(Some("files"), b"a"), upload(Some("files"), b"b")]),
    )
    .unwrap();
    assert_eq!(ok.column_names().len(), 2);
}

#[test]
fn lazy_params_build_once() {
    let meta = test_table();
    let reg = registry();
    let mut lazy = LazyParams::new(&meta, &reg, row(vec![("num", s("12"))]), None);
    {
        let p = lazy.params().unwrap();
        assert_eq!(p.named_params()[0].1, SqlValue::Integer(12));
    }
    let p = lazy.consume().unwrap();
    assert_eq!(p.column_names(), &vec!["num".to_string()]);

    let mut failing = LazyParams::new(&meta, &reg, row(vec![("num", s("x"))]), None);
    assert_eq!(failing.params().err(), Some(ParamsError::ParseInt));
    assert_eq!(failing.params().err(), Some(ParamsError::ParseInt));
    assert_eq!(failing.consume().err(), Some(ParamsError::ParseInt));
}

fn b64(bytes: &[u8]) -> String {
    base64::engine::general_purpose::URL_SAFE.encode(bytes)
}

fn byte_array(bytes: &[u8]) -> JsonValue {
    JsonValue::Array(bytes.iter().map(|b| num_value(*b as i64)).collect())
}

#[test]
fn test_json_to_sql() {
    const SCHEMA_NAME: &str = "test.TestSchema";
    const ID_COL: &str = "myid";
    const ID_COL_PLACEHOLDER: &str = ":myid";
    let schema = r#"{
        "type": "object",
        "properties": {
            "text": { "type": "string" },
            "array": { "type": ["array", "null"] },
            "blob": { "type": ["array", "null"], "items": { "type": "integer", "minimum": 0, "maximum": 255 } }
        },
        "required": ["text"]
    }"#;
    let table = Table {
        name: QualifiedName { name: "user".to_string(), database_schema: None },
        columns: vec![
            column(ID_COL, ColumnDataType::Blob, vec![ColumnOption::NotNull]),
            column("blob", ColumnDataType::Blob, vec![ColumnOption::NotNull]),
            column("text", ColumnDataType::Text, vec![ColumnOption::NotNull]),
            column(
                "json_col",
                ColumnDataType::Text,
                vec![ColumnOption::NotNull, ColumnOption::Check(format!("jsonschema('{SCHEMA_NAME}', json_col)"))],
            ),
            column("num", ColumnDataType::Integer, vec![ColumnOption::NotNull, ColumnOption::Default("42".to_string())]),
            column("real", ColumnDataType::Real, vec![ColumnOption::NotNull, ColumnOption::Default("23.0".to_string())]),
        ],
        strict: false,
        temporary: false,
    };
    let mut registry = SchemaRegistry::new();
    set_schema(&mut registry, SCHEMA_NAME, Some(SchemaEntry::from(schema.to_string(), None).unwrap()));
    let metadata = TableMetadata::new(table);

    let id: Vec<u8> = (0..16).collect();
    let blob: Vec<u8> = [0; 128].to_vec();
    let text = "some text :)";

    let assert_params = |p: &Params| {
        assert!(p.named_params().len() >= 5, "{:?}", p.named_params());
        for (param, value) in p.named_params() {
            match param.as_str() {
                ID_COL_PLACEHOLDER => {
                    assert!(matches!(value, SqlValue::Blob(x) if *x == id), "VALUE: {value:?}");
                }
                ":blob" => assert!(matches!(value, SqlValue::Blob(x) if *x == blob)),
                ":text" => assert!(matches!(value, SqlValue::Text(x) if x.contains("some text :)"))),
                ":num" => assert!(matches!(value, SqlValue::Integer(x) if *x == 5)),
                ":real" => {
                    assert!(matches!(value, SqlValue::Real(x) if x.parse::<f64>().unwrap() == 3.0))
                }
                ":json_col" => assert!(matches!(value, SqlValue::Text(_x))),
                x => assert!(false, "{x}"),
            }
        }
    };

    {
        // Blob columns can be passed as base64.
        let value = row(vec![
            (ID_COL, s(&b64(&id))),
            ("blob", s(&b64(&blob))),
            ("text", s(text)),
            ("num", num_value(5)),
            ("real", JsonValue::Number(JsonNumber::Float("3.0".to_string()))),
        ]);
        assert_params(&Params::from(&metadata, &registry, value, None).unwrap());
    }

    {
        // Blob columns can be passed as int arrays and numbers as strings.
        let value = row(vec![
            (ID_COL, byte_array(&id)),
            ("blob", byte_array(&blob)),
            ("text", s(text)),
            ("num", s("5")),
            ("real", s("3")),
        ]);
        assert_params(&Params::from(&metadata, &registry, value, None).unwrap());
    }

    {
        let value = row(vec![
            (ID_COL, byte_array(&id)),
            ("blob", byte_array(&blob)),
            ("text", JsonValue::Object(vec![("email".to_string(), s(text))])),
            ("num", s("5")),
            ("real", s("3")),
        ]);
        assert!(Params::from(&metadata, &registry, value, None).is_err());

        // A nested JSON object can be passed.
        let value = row(vec![
            (ID_COL, byte_array(&id)),
            ("blob", byte_array(&blob)),
            ("text", s(text)),
            ("json_col", JsonValue::Object(vec![("text".to_string(), s(text))])),
            ("num", s("5")),
            ("real", s("3")),
        ]);
        assert_params(&Params::from(&metadata, &registry, value, None).unwrap());
    }

    {
        let value = row(vec![
            (ID_COL, byte_array(&id)),
            ("blob", byte_array(&blob)),
            (
                "text",
                JsonValue::Array(vec![s(text), num_value(1), num_value(2), num_value(3), num_value(4), s("foo")]),
            ),
            ("num", s("5")),
            ("real", s("3")),
        ]);
        assert!(Params::from(&metadata, &registry, value, None).is_err());

        // A nested JSON array can be passed.
        let nested_json_blob: Vec<u8> = vec![65, 66, 67, 68];
        let value = row(vec![
            (ID_COL, byte_array(&id)),
            ("blob", byte_array(&blob)),
            ("text", s(text)),
            (
                "json_col",
                JsonValue::Object(vec![
                    ("text".to_string(), s("test")),
                    (
                        "array".to_string(),
                        JsonValue::Array(vec![s(text), num_value(1), num_value(2), num_value(3), num_value(4), s("foo")]),
                    ),
                    ("blob".to_string(), byte_array(&nested_json_blob)),
                ]),
            ),
            ("num", s("5")),
            ("real", s("3")),
        ]);
        let params = Params::from(&metadata, &registry, value, None).unwrap();
        let json_col: Vec<SqlValue> = params
            .named_params()
            .iter()
            .filter_map(|(name, value)| if name == ":json_col" { Some(value.clone()) } else { None })
            .collect();
        assert_eq!(json_col.len(), 1);
        let SqlValue::Text(ref encoded) = json_col[0] else {
            panic!("Unexpected param type: {:?}", json_col[0]);
        };
        // The encoded nested JSON against a golden value.
        assert_eq!(
            serde_json::from_str::<serde_json::Value>(encoded).unwrap(),
            serde_json::from_str::<serde_json::Value>(
                r#"{"array": ["some text :)", 1, 2, 3, 4, "foo"], "blob": [65, 66, 67, 68], "text": "test"}"#
            )
            .unwrap(),
        );
        assert_params(&params);
    }
}
