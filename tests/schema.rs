use trailbase_records::alter::{
    migration_script, alter_table_plan, build_statements, rename_table_references, AlterTableError, AlterTableRequest,
};
use trailbase_records::cache::{file_trigger_statements, SchemaLookupError, SchemaMetadataCache};
use trailbase_records::http::HttpVersion;
use trailbase_records::metadata::{json_metadata_of_check, JsonColumnMetadata, TableMetadata};
use trailbase_records::schema::{Column, ColumnDataType, ColumnOption, QualifiedName, Table, ViewSchema};
use trailbase_records::util::generate_random_string;
use trailbase_records::value::{is_float_literal_exec, parse_i64, to_json_text, JsonNumber, JsonValue};

fn col(name: &str, data_type: ColumnDataType, options: Vec<ColumnOption>) -> Column {
    Column { name: name.to_string(), data_type, options }
}

fn qn(name: &str, db: Option<&str>) -> QualifiedName {
    QualifiedName { name: name.to_string(), database_schema: db.map(|d| d.to_string()) }
}

fn foo_table(name: &str, extra: Vec<Column>) -> Table {
    let mut columns = vec![
        col("my_pk", ColumnDataType::Integer, vec![ColumnOption::Unique { is_primary: true }]),
        col("name", ColumnDataType::Text, vec![ColumnOption::NotNull]),
    ];
    columns.extend(extra);
    Table { name: qn(name, None), columns, strict: true, temporary: false }
}

#[test]
fn test_generate_random_string() {
    let n = 20;
    let first = generate_random_string(20);
    assert_eq!(n, first.len());
    let second = generate_random_string(20);
    assert_eq!(n, second.len());
    assert_ne!(first, second);
}

#[test]
fn random_strings_are_alphanumeric() {
    let s = generate_random_string(64);
    assert_eq!(s.len(), 64);
    assert!(s.chars().all(|c| c.is_ascii_alphanumeric()));
    assert_eq!(generate_random_string(0), "");
}

#[test]
fn create_table_statement_text() {
    let t = foo_table(
        "foo",
        vec![
            col("new", ColumnDataType::Text, vec![ColumnOption::Default("'default'".to_string())]),
            col(
                "fk",
                ColumnDataType::Integer,
                vec![ColumnOption::ForeignKey { foreign_table: "bar".to_string(), referred_columns: vec!["id".to_string()] }],
            ),
            col("c", ColumnDataType::Text, vec![ColumnOption::Check("length(c) > 1".to_string()), ColumnOption::Unique { is_primary: false }]),
        ],
    );
    assert_eq!(
        t.create_table_statement(),
        r#"CREATE TABLE "foo" ("my_pk" INTEGER PRIMARY KEY, "name" TEXT NOT NULL, "new" TEXT DEFAULT 'default', "fk" INTEGER REFERENCES "bar"("id"), "c" TEXT CHECK(length(c) > 1) UNIQUE) STRICT"#
    );
}

#[test]
fn alter_same_shape_is_a_no_op_copy() {
    let req = AlterTableRequest { source_schema: foo_table("foo", vec![]), target_schema: foo_table("foo", vec![]) };
    let plan = alter_table_plan(&req, true, false).unwrap();
    assert!(!plan.is_table_rename);
    assert!(!plan.rename_config);
    assert_eq!(plan.migration_name, "alter_table_foo");
    assert_eq!(
        plan.statements,
        vec![
            "PRAGMA foreign_keys = OFF".to_string(),
            r#"CREATE TABLE "__alter_table_foo" ("my_pk" INTEGER PRIMARY KEY, "name" TEXT NOT NULL) STRICT"#.to_string(),
            r#"INSERT INTO "__alter_table_foo" (my_pk, name) SELECT my_pk, name FROM "foo""#.to_string(),
            r#"DROP TABLE "foo""#.to_string(),
            r#"ALTER TABLE "__alter_table_foo" RENAME TO "foo""#.to_string(),
            "PRAGMA foreign_keys = ON".to_string(),
        ]
    );
}

#[test]
fn alter_add_column_copies_existing_columns() {
    let target = foo_table(
        "foo",
        vec![col("new", ColumnDataType::Text, vec![ColumnOption::Default("'default'".to_string())])],
    );
    let req = AlterTableRequest { source_schema: foo_table("foo", vec![]), target_schema: target };
    let statements = build_statements(&req);
    assert_eq!(statements[2], r#"INSERT INTO "__alter_table_foo" (my_pk, name) SELECT my_pk, name FROM "foo""#);
    assert!(statements[1].contains(r#""new" TEXT DEFAULT 'default'"#));
}

#[test]
fn alter_rename_drops_the_old_name() {
    let req = AlterTableRequest { source_schema: foo_table("foo", vec![]), target_schema: foo_table("bar", vec![]) };
    let plan = alter_table_plan(&req, true, false).unwrap();
    assert!(plan.is_table_rename);
    assert!(plan.rename_config);
    assert_eq!(plan.statements.len(), 5);
    assert!(plan.statements[1].starts_with(r#"CREATE TABLE "bar" "#));
    assert_eq!(plan.statements[2], r#"INSERT INTO "bar" (my_pk, name) SELECT my_pk, name FROM "foo""#);
    assert_eq!(plan.statements[3], r#"DROP TABLE "foo""#);

    let mut names = vec![Some("foo".to_string()), None, Some("baz".to_string())];
    rename_table_references(&mut names, "foo", "bar");
    assert_eq!(names, vec![Some("bar".to_string()), None, Some("baz".to_string())]);
}

#[test]
fn alter_preconditions() {
    let mut other_db = foo_table("foo", vec![]);
    other_db.name = qn("foo", Some("other"));
    let req = AlterTableRequest { source_schema: foo_table("foo", vec![]), target_schema: other_db };
    assert!(matches!(alter_table_plan(&req, true, false), Err(AlterTableError::CrossDatabase)));
    let req = AlterTableRequest { source_schema: foo_table("foo", vec![]), target_schema: foo_table("foo", vec![]) };
    assert!(matches!(alter_table_plan(&req, false, false), Err(AlterTableError::NotATable)));
    let req = AlterTableRequest { source_schema: foo_table("_foo", vec![]), target_schema: foo_table("_foo", vec![]) };
    assert!(matches!(alter_table_plan(&req, true, true), Err(AlterTableError::DisallowedInDemo)));
    assert!(alter_table_plan(&req, true, false).is_ok());
}

fn file_table(db: Option<&str>) -> Table {
    Table {
        name: qn("t", db),
        columns: vec![
            col("id", ColumnDataType::Integer, vec![ColumnOption::Unique { is_primary: true }]),
            col("f", ColumnDataType::Text, vec![ColumnOption::Check("jsonschema('std.FileUpload', f)".to_string())]),
        ],
        strict: true,
        temporary: false,
    }
}

#[test]
fn file_columns_get_deletion_triggers() {
    let meta = TableMetadata::new(file_table(None));
    assert_eq!(meta.file_column_indexes(), vec![1]);
    let stmts = file_trigger_statements(&meta).unwrap();
    assert_eq!(stmts.len(), 4);
    assert_eq!(stmts[0], r#"DROP TRIGGER IF EXISTS "main"."__t__f__update_trigger""#);
    assert_eq!(
        stmts[1],
        r#"CREATE TRIGGER IF NOT EXISTS "main"."__t__f__update_trigger" AFTER UPDATE ON "t" WHEN OLD."f" IS NOT NULL AND OLD."f" != NEW."f" BEGIN INSERT INTO _file_deletions (table_name, record_rowid, column_name, json) VALUES ('"t"', OLD._rowid_, 'f', OLD."f"); END"#
    );
    assert_eq!(stmts[2], r#"DROP TRIGGER IF EXISTS "main"."__t__f__delete_trigger""#);
    assert!(stmts[3].contains("AFTER DELETE ON"));
    let attached = TableMetadata::new(file_table(Some("other")));
    assert!(file_trigger_statements(&attached).is_err());
}

#[test]
fn cache_serves_whole_snapshots() {
    let mut cache = SchemaMetadataCache::new(vec![foo_table("foo", vec![])], vec![]).unwrap();
    let foo = cache.get_table(&qn("foo", None)).unwrap();
    assert_eq!(foo.record_pk_column, Some(0));
    let before = cache.snapshot();
    assert!(cache.get_table(&qn("bar", None)).is_none());
    let view = ViewSchema { name: qn("v", None), columns: None, tables: vec![qn("bar", None)], temporary: false };
    cache.invalidate_all(vec![foo_table("bar", vec![])], vec![view]).unwrap();
    assert!(cache.get_table(&qn("foo", None)).is_none());
    assert!(cache.get_table(&qn("bar", None)).is_some());
    assert!(cache.get_view(&qn("v", None)).is_some());
    // The handle taken before the rebuild still holds the old metadata.
    assert_eq!(foo.schema.name.name, "foo");
    let err = cache.invalidate_all(vec![file_table(Some("other"))], vec![]);
    assert_eq!(err, Err(SchemaLookupError::FileColumnsOnAttachedDatabase("t".to_string())));
    assert!(cache.get_table(&qn("bar", None)).is_some());
    // A snapshot taken before the rebuilds still holds the first metadata, whole.
    assert!(before.get_table(&qn("foo", None)).is_some());
    assert!(before.get_table(&qn("bar", None)).is_none());
}

#[test]
fn json_schema_metadata_from_checks() {
    assert!(matches!(
        json_metadata_of_check("jsonschema('std.FileUpload', f)"),
        Some(JsonColumnMetadata::SchemaName(n)) if n == "std.FileUpload"
    ));
    assert!(matches!(
        json_metadata_of_check("jsonschema_matches('{\"type\":\"string\"}', c)"),
        Some(JsonColumnMetadata::Pattern(p)) if p == "{\"type\":\"string\"}"
    ));
    assert!(json_metadata_of_check("length(c) > 2").is_none());
}

#[test]
fn http_versions() {
    assert_eq!(HttpVersion::Http11.as_str(), "HTTP/1.1");
    assert_eq!(HttpVersion::Unknown.as_str(), "HTTP/?");
    assert_eq!(HttpVersion::parse("HTTP/2.0"), HttpVersion::Http20);
    assert_eq!(HttpVersion::parse("HTTP/9"), HttpVersion::Unknown);
}

#[test]
fn json_text_is_compact() {
    let v = JsonValue::Object(vec![
        ("a".to_string(), JsonValue::Array(vec![JsonValue::Null, JsonValue::Bool(true)])),
        ("b".to_string(), JsonValue::Number(JsonNumber::Int(-12))),
        ("c".to_string(), JsonValue::String("x\n\u{1}".to_string())),
        ("d".to_string(), JsonValue::Number(JsonNumber::UInt(18446744073709551615))),
    ]);
    assert_eq!(
        to_json_text(&v),
        r#"{"a":[null,true],"b":-12,"c":"x\n\u0001","d":18446744073709551615}"#
    );
}

#[test]
fn number_syntax() {
    assert_eq!(parse_i64("+42"), Some(42));
    assert_eq!(parse_i64("-"), None);
    assert_eq!(parse_i64("9223372036854775807"), Some(i64::MAX));
    assert_eq!(parse_i64(""), None);
    assert!(is_float_literal_exec(".5"));
    assert!(is_float_literal_exec("5."));
    assert!(is_float_literal_exec("-NaN"));
    assert!(is_float_literal_exec("1E-3"));
    assert!(!is_float_literal_exec("."));
    assert!(!is_float_literal_exec("1e"));
}

#[test]
fn test_alter_table() {
    let pk_col = "my_pk".to_string();
    let schema = Table {
        name: qn("foo", None),
        strict: true,
        columns: vec![col(&pk_col, ColumnDataType::Blob, vec![ColumnOption::Unique { is_primary: true }])],
        temporary: false,
    };
    assert_eq!(schema.create_table_statement(), r#"CREATE TABLE "foo" ("my_pk" BLOB PRIMARY KEY) STRICT"#);

    {
        // Noop: source and target identical.
        let request = AlterTableRequest { source_schema: schema.clone(), target_schema: schema.clone() };
        let plan = alter_table_plan(&request, true, false).unwrap();
        assert_eq!(plan.statements[2], r#"INSERT INTO "__alter_table_foo" (my_pk) SELECT my_pk FROM "foo""#);
        assert_eq!(plan.statements[4], r#"ALTER TABLE "__alter_table_foo" RENAME TO "foo""#);
    }

    {
        // Add column.
        let mut target_schema = schema.clone();
        target_schema.columns.push(col(
            "new",
            ColumnDataType::Text,
            vec![ColumnOption::NotNull, ColumnOption::Default("'default'".to_string())],
        ));
        let request = AlterTableRequest { source_schema: schema.clone(), target_schema };
        let plan = alter_table_plan(&request, true, false).unwrap();
        assert_eq!(
            plan.statements[1],
            r#"CREATE TABLE "__alter_table_foo" ("my_pk" BLOB PRIMARY KEY, "new" TEXT NOT NULL DEFAULT 'default') STRICT"#
        );
        assert_eq!(plan.statements[2], r#"INSERT INTO "__alter_table_foo" (my_pk) SELECT my_pk FROM "foo""#);
    }

    {
        // Rename table.
        let mut target_schema = schema.clone();
        target_schema.name = qn("bar", None);
        let request = AlterTableRequest { source_schema: schema.clone(), target_schema };
        let plan = alter_table_plan(&request, true, false).unwrap();
        assert!(plan.statements.contains(&r#"DROP TABLE "foo""#.to_string()));
        assert_eq!(plan.statements[2], r#"INSERT INTO "bar" (my_pk) SELECT my_pk FROM "foo""#);
        assert!(!plan.statements.iter().any(|s| s.starts_with("ALTER TABLE")));
    }
}

#[test]
fn migration_scripts_end_each_statement() {
    let script = migration_script(&vec!["PRAGMA foreign_keys = OFF".to_string(), r#"DROP TABLE "foo""#.to_string()]);
    assert_eq!(script, "PRAGMA foreign_keys = OFF;\nDROP TABLE \"foo\";\n");
    assert_eq!(migration_script(&vec![]), "");
}
