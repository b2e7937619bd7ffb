use trailbase_records::jsonschema::SchemaRegistry;
use trailbase_records::metadata::TableMetadata;
use trailbase_records::params::Params;
use trailbase_records::query::{
    build_col_names, conflict_resolution_clause, expand_tables, paths_to_clean_up, split_row,
    ConflictResolutionStrategy, CreateRecordQueryTemplate, DeleteQueryBuilder, Expansions,
    GetFileQueryBuilder, GetFilesQueryBuilder, InsertQueryBuilder, QueryError, RecordError,
    SelectQueryBuilder, UpdateQueryBuilder,
};
use trailbase_records::files::FileUpload;
use trailbase_records::schema::{Column, ColumnDataType, ColumnOption, QualifiedName, Table};
use trailbase_records::value::{JsonValue, SqlValue};

fn sanitize_template(template: &str) {
    assert!(template.starts_with("INSERT "), "{template}");
    assert!(!template.contains("\n"), "{template}");
    assert!(!template.contains("   "), "{template}");
}

#[test]
fn test_create_record_template() {
    {
        let query = CreateRecordQueryTemplate {
            table_name: "table".to_string(),
            conflict_clause: "OR ABORT".to_string(),
            column_names: vec!["index".to_string(), "trigger".to_string()],
            returning: Some("index".to_string()),
        }
        .render();

        sanitize_template(&query);
    }

    {
        let query = CreateRecordQueryTemplate {
            table_name: "table".to_string(),
            conflict_clause: "".to_string(),
            column_names: vec![],
            returning: Some("*".to_string()),
        }
        .render();

        sanitize_template(&query);
    }

    {
        let query = CreateRecordQueryTemplate {
            table_name: "table".to_string(),
            conflict_clause: "".to_string(),
            column_names: vec!["index".to_string()],
            returning: None,
        }
        .render();

        sanitize_template(&query);
    }
}

#[test]
fn insert_statement_text() {
    let q = CreateRecordQueryTemplate {
        table_name: "table".to_string(),
        conflict_clause: "OR ABORT".to_string(),
        column_names: vec!["index".to_string(), "trigger".to_string()],
        returning: Some("index".to_string()),
    }
    .render();
    assert_eq!(
        q,
        r#"INSERT OR ABORT INTO "table" ("index", "trigger") VALUES (:index, :trigger) RETURNING "index""#
    );
    let q = CreateRecordQueryTemplate {
        table_name: "table".to_string(),
        conflict_clause: "".to_string(),
        column_names: vec![],
        returning: Some("*".to_string()),
    }
    .render();
    assert_eq!(q, r#"INSERT INTO "table" DEFAULT VALUES RETURNING *"#);
}

#[test]
fn conflict_clauses() {
    assert_eq!(conflict_resolution_clause(ConflictResolutionStrategy::Undefined), "");
    assert_eq!(conflict_resolution_clause(ConflictResolutionStrategy::Abort), "OR ABORT");
    assert_eq!(conflict_resolution_clause(ConflictResolutionStrategy::Rollback), "OR ROLLBACK");
    assert_eq!(conflict_resolution_clause(ConflictResolutionStrategy::Fail), "OR FAIL");
    assert_eq!(conflict_resolution_clause(ConflictResolutionStrategy::Ignore), "OR IGNORE");
    assert_eq!(conflict_resolution_clause(ConflictResolutionStrategy::Replace), "OR REPLACE");
    assert_eq!(build_col_names(&vec!["a".to_string(), "b".to_string()]), r#""a", "b""#);
}

fn col(name: &str, data_type: ColumnDataType, options: Vec<ColumnOption>) -> Column {
    Column { name: name.to_string(), data_type, options }
}

fn table(name: &str, columns: Vec<Column>) -> TableMetadata {
    TableMetadata::new(Table {
        name: QualifiedName { name: name.to_string(), database_schema: None },
        columns,
        strict: true,
        temporary: false,
    })
}

fn pk() -> Vec<ColumnOption> {
    vec![ColumnOption::Unique { is_primary: true }]
}

fn fk(table: &str) -> Vec<ColumnOption> {
    vec![
        ColumnOption::NotNull,
        ColumnOption::ForeignKey { foreign_table: table.to_string(), referred_columns: vec!["id".to_string()] },
    ]
}

#[test]
fn insert_and_update_builders() {
    let meta = table(
        "t",
        vec![col("id", ColumnDataType::Integer, pk()), col("a", ColumnDataType::Text, vec![])],
    );
    let reg = SchemaRegistry::new();
    let params = Params::from(&meta, &reg, vec![("a".to_string(), JsonValue::String("x".to_string()))], None)
        .unwrap();
    let q = InsertQueryBuilder::build_insert_query(params, Some(ConflictResolutionStrategy::Replace), Some("*"));
    assert_eq!(q.sql, r#"INSERT OR REPLACE INTO "t" ("a") VALUES (:a) RETURNING *"#);
    assert_eq!(q.named_params, vec![(":a".to_string(), SqlValue::Text("x".to_string()))]);

    let params = Params::from(&meta, &reg, vec![("a".to_string(), JsonValue::String("y".to_string()))], None)
        .unwrap();
    let u = UpdateQueryBuilder::build(params, "id", SqlValue::Integer(7)).unwrap();
    assert_eq!(u.sql, r#"UPDATE "t" SET "a" = :a, "id" = :id WHERE "id" = :id RETURNING _rowid_"#);
    assert_eq!(
        u.named_params,
        vec![
            (":a".to_string(), SqlValue::Text("y".to_string())),
            (":id".to_string(), SqlValue::Integer(7)),
        ]
    );
    let empty = Params::from(&meta, &reg, vec![], None).unwrap();
    assert!(UpdateQueryBuilder::build(empty, "id", SqlValue::Integer(7)).is_none());
    let empty = Params::from(&meta, &reg, vec![], None).unwrap();
    let q = InsertQueryBuilder::build_insert_query(empty, None, None);
    assert_eq!(q.sql, r#"INSERT INTO "t" DEFAULT VALUES"#);
}

#[test]
fn select_delete_and_file_reads() {
    assert_eq!(SelectQueryBuilder::query("t", "id"), r#"SELECT * FROM "t" WHERE "id" = $1"#);
    assert_eq!(
        DeleteQueryBuilder::query("t", "id"),
        r#"DELETE FROM "t" WHERE "id" = $1 RETURNING _rowid_"#
    );
    let meta = table(
        "t",
        vec![
            col("id", ColumnDataType::Integer, pk()),
            col("f", ColumnDataType::Text, vec![ColumnOption::Check("jsonschema('std.FileUpload', f)".to_string())]),
            col("fs", ColumnDataType::Text, vec![ColumnOption::Check("jsonschema('std.FileUploads', fs)".to_string())]),
        ],
    );
    assert_eq!(
        GetFileQueryBuilder::query(&meta, 1, "id"),
        Ok(r#"SELECT "f" FROM "t" WHERE "id" = $1"#.to_string())
    );
    assert_eq!(GetFileQueryBuilder::query(&meta, 2, "id"), Err(QueryError::NotAFile));
    assert_eq!(
        GetFilesQueryBuilder::query(&meta, 2, "id"),
        Ok(r#"SELECT "fs" FROM "t" WHERE "id" = $1"#.to_string())
    );
    assert_eq!(GetFilesQueryBuilder::query(&meta, 0, "id"), Err(QueryError::NotAFilesList));
}

fn fk_tables() -> Vec<TableMetadata> {
    vec![
        table("foreign_table0", vec![col("id", ColumnDataType::Integer, pk())]),
        table("foreign_table1", vec![col("id", ColumnDataType::Integer, pk()), col("x", ColumnDataType::Text, vec![])]),
        table(
            "test_table",
            vec![
                col("id", ColumnDataType::Integer, pk()),
                col("fk0", ColumnDataType::Integer, fk("foreign_table0")),
                col("fk0_null", ColumnDataType::Integer, fk("foreign_table0")),
                col("fk1", ColumnDataType::Integer, fk("foreign_table1")),
                col("title", ColumnDataType::Text, vec![]),
            ],
        ),
    ]
}

#[test]
fn expansion_follows_foreign_keys() {
    let tables = fk_tables();
    let e = expand_tables(&tables, "test_table", &vec!["fk1".to_string(), "".to_string(), "fk0".to_string()])
        .unwrap();
    assert_eq!(e.len(), 2);
    assert_eq!(e[0].table_index, 1);
    assert_eq!(e[0].num_columns, 2);
    assert_eq!(e[0].foreign_table_name, "foreign_table1");
    assert_eq!(e[0].foreign_column_name, "id");
    assert_eq!(e[1].local_column_name, "fk0");

    let x = Expansions::build(&tables, "test_table", &vec!["fk0".to_string(), "fk1".to_string()], Some("R"))
        .unwrap();
    assert_eq!(x.indexes, vec![(5, 2), (1, 0), (2, 1)]);
    assert_eq!(
        x.joins,
        vec![
            r#"LEFT JOIN "foreign_table0" AS F0 ON R.fk0 = F0.id"#.to_string(),
            r#"LEFT JOIN "foreign_table1" AS F1 ON R.fk1 = F1.id"#.to_string(),
        ]
    );
    assert_eq!(x.selects, Some(vec!["F0.*".to_string(), "F1.*".to_string()]));
    let plain = Expansions::build(&tables, "test_table", &vec!["fk0".to_string()], None).unwrap();
    assert_eq!(
        SelectQueryBuilder::expanded_query("test_table", "id", &plain.joins),
        r#"SELECT * FROM "test_table" AS R LEFT JOIN "foreign_table0" AS F0 ON fk0 = F0.id WHERE R.id = $1"#
    );
    let x = Expansions::build(&tables, "test_table", &vec!["fk1".to_string()], None).unwrap();
    assert_eq!(x.joins, vec![r#"LEFT JOIN "foreign_table1" AS F0 ON fk1 = F0.id"#.to_string()]);
    assert!(x.selects.is_none());
}

#[test]
fn expansion_rejects_unknown_and_plain_columns() {
    let tables = fk_tables();
    let unknown = expand_tables(&tables, "test_table", &vec!["UNKNOWN".to_string()]);
    assert_eq!(unknown.err().map(|_| ()), Some(()));
    let plain = expand_tables(&tables, "test_table", &vec!["title".to_string()]);
    assert!(matches!(plain, Err(RecordError::ApiRequiresTable)));
    let missing = expand_tables(&tables, "nope", &vec![]);
    assert!(matches!(missing, Err(RecordError::ApiRequiresTable)));
    assert!(Expansions::build(&tables, "test_table", &vec!["fk0".to_string(), "UNKNOWN".to_string()], None).is_err());
}

#[test]
fn joined_rows_are_split_per_table() {
    let row: Vec<SqlValue> = (0..6).map(SqlValue::Integer).collect();
    let parts = split_row(row, &vec![3, 1, 2]);
    assert_eq!(
        parts,
        vec![
            vec![SqlValue::Integer(0), SqlValue::Integer(1), SqlValue::Integer(2)],
            vec![SqlValue::Integer(3)],
            vec![SqlValue::Integer(4), SqlValue::Integer(5)],
        ]
    );
}

#[test]
fn failed_statements_clean_up_their_files() {
    let f = |id: &str| FileUpload { id: id.to_string(), filename: None, content_type: None, mime_type: None };
    let files = vec![f("a"), f("b")];
    assert!(paths_to_clean_up(&files, true).is_empty());
    assert_eq!(paths_to_clean_up(&files, false), vec!["a".to_string(), "b".to_string()]);
}

#[test]
fn test_expanded_foreign_key() {
    let tables = vec![
        table("foreign_table", vec![col("id", ColumnDataType::Integer, pk())]),
        table(
            "test_table",
            vec![col("id", ColumnDataType::Integer, pk()), col("fk", ColumnDataType::Integer, fk("foreign_table"))],
        ),
    ];
    assert!(expand_tables(&tables, "test_table", &vec!["UNKNOWN".to_string()]).is_err());
    let e = expand_tables(&tables, "test_table", &vec!["fk".to_string()]).unwrap();
    assert_eq!(e.len(), 1);
    assert_eq!(e[0].foreign_table_name, "foreign_table");
    assert_eq!(e[0].foreign_column_name, "id");
    assert_eq!(e[0].num_columns, 1);
}

#[test]
fn test_expanded_with_multiple_foreign_keys() {
    let tables = fk_tables();
    let e = expand_tables(&tables, "test_table", &vec!["fk1".to_string()]).unwrap();
    assert_eq!(e.len(), 1);
    assert_eq!(e[0].foreign_table_name, "foreign_table1");
    let e = expand_tables(&tables, "test_table", &vec!["fk0".to_string(), "fk1".to_string()]).unwrap();
    assert_eq!(e.len(), 2);
    assert_eq!(e[0].foreign_table_name, "foreign_table0");
    assert_eq!(e[1].foreign_table_name, "foreign_table1");
    // A row joined over both keys splits back into the three tables' rows.
    let row: Vec<SqlValue> = (0..8).map(SqlValue::Integer).collect();
    let parts = split_row(row, &vec![5, e[0].num_columns, e[1].num_columns]);
    assert_eq!(parts.iter().map(|p| p.len()).collect::<Vec<_>>(), vec![5, 1, 2]);
}

#[test]
fn bulk_inserts_gather_every_file() {
    let meta = table(
        "t",
        vec![
            col("id", ColumnDataType::Integer, pk()),
            col("f", ColumnDataType::Text, vec![ColumnOption::Check("jsonschema('std.FileUpload', f)".to_string())]),
        ],
    );
    let reg = SchemaRegistry::new();
    let descriptor = |b: i64| {
        JsonValue::Object(vec![(
            "data".to_string(),
            JsonValue::Array(vec![JsonValue::Number(trailbase_records::value::JsonNumber::Int(b))]),
        )])
    };
    let rows = vec![
        Params::from(&meta, &reg, vec![("f".to_string(), descriptor(1))], None).unwrap(),
        Params::from(&meta, &reg, vec![("id".to_string(), JsonValue::String("3".to_string()))], None).unwrap(),
        Params::from(&meta, &reg, vec![("f".to_string(), descriptor(2))], None).unwrap(),
    ];
    let bulk = InsertQueryBuilder::build_bulk_insert(rows, Some(ConflictResolutionStrategy::Abort), None);
    assert_eq!(bulk.queries.len(), 3);
    assert_eq!(bulk.queries[1].sql, r#"INSERT OR ABORT INTO "t" ("id") VALUES (:id)"#);
    assert_eq!(bulk.queries[1].named_params, vec![(":id".to_string(), SqlValue::Integer(3))]);
    assert_eq!(bulk.files.len(), 2);
    assert_eq!(bulk.files[0].1, vec![1u8]);
    assert_eq!(bulk.files[1].1, vec![2u8]);
}
