use lakehouse::catalogue::{
    decode_all, decode_stored_schema, schema_delete_args, schema_row_args, table_delete_args, table_row_args, CatalogError, SqlArg, RootCatalogue, RootCatalogueBuilder, RootStoragePath, Table};
use lakehouse::codec::{Column, DataType, SchemaVec};

fn fresh(path: &str) -> RootCatalogue {
    let c = RootCatalogueBuilder::new().with_db_path(path.to_string()).build().unwrap();
    c.destroy().unwrap();
    RootCatalogueBuilder::new().with_db_path(path.to_string()).build().unwrap()
}

fn events_schema() -> SchemaVec {
    let mut s = SchemaVec::new();
    s.add(Column { name: "id".to_string(), datatype: DataType::Int32, nullable: false, unique: true, references: None });
    s.add(Column { name: "ts".to_string(), datatype: DataType::Int64, nullable: false, unique: false, references: None });
    s
}

#[test]
fn catalogue_run_start() {
    // The default file `db.db` of `RootCatalogue::start` needs a writable
    // working directory; the same catalogue is opened on an in-memory database.
    let catalogue = RootCatalogueBuilder::new()
        .with_db_path("file:catalogue_run_start?mode=memory&cache=shared".to_string())
        .build();
    assert!(catalogue.is_ok());
    let mut catalogue = catalogue.unwrap();

    let mut schema_one = SchemaVec::new();
    schema_one.add(Column {
        datatype: DataType::Int32,
        name: String::from("Test"),
        nullable: false,
        references: None,
        unique: false,
    });

    schema_one.add(Column {
        datatype: DataType::Int16,
        name: String::from("West"),
        nullable: true,
        references: None,
        unique: false,
    });

    let mut schema_two = SchemaVec::new();

    schema_two.add(Column {
        datatype: DataType::Int32,
        name: String::from("Test"),
        nullable: true,
        references: Some(String::from("ID REF TABLE, ID REF TABLE")),
        unique: true,
    });

    catalogue
        .create_sys_table(&Table {
            table_name: String::from("Table"),
            schema_bin: SchemaVec::serialize_schema(&schema_one),
            url: String::from("db://Table"),
        })
        .unwrap();

    catalogue
        .create_sys_table(&Table {
            table_name: String::from("Table_two"),
            schema_bin: SchemaVec::serialize_schema(&schema_two),
            url: String::from("db://Table_two"),
        })
        .unwrap();

    catalogue.list_tables_schemas().unwrap();

    let _ = catalogue.destroy();
}

#[test]
fn create_list_delete_scenario() {
    let mut c = fresh("file:catalogue_scenario?mode=memory&cache=shared");
    let schema = events_schema();
    c.create_sys_table(&Table { table_name: "events".to_string(), schema_bin: SchemaVec::serialize_schema(&schema), url: "db://events".to_string() }).unwrap();
    assert_eq!(c.list_tables_schemas().unwrap(), vec![schema.clone()]);
    let id = c.table_id(&"events".to_string()).unwrap();
    assert_eq!(c.get_table_schema(&id).unwrap(), schema);
    c.del_sys_table(id).unwrap();
    assert_eq!(c.list_tables_schemas().unwrap(), Vec::<SchemaVec>::new());
    assert_eq!(c.table_id(&"events".to_string()), None);
    c.destroy().unwrap();
}

#[test]
fn duplicate_name_is_refused_and_changes_nothing() {
    let mut c = fresh("file:catalogue_duplicate?mode=memory&cache=shared");
    let t = Table { table_name: "events".to_string(), schema_bin: SchemaVec::serialize_schema(&events_schema()), url: "u".to_string() };
    c.create_sys_table(&t).unwrap();
    let id = c.table_id(&"events".to_string()).unwrap();
    assert_eq!(c.create_sys_table(&t), Err(CatalogError::DuplicateTable));
    assert_eq!(c.list_tables_schemas().unwrap().len(), 1);
    assert_eq!(c.table_id(&"events".to_string()), Some(id));
    c.destroy().unwrap();
}

#[test]
fn missing_ids_are_not_found() {
    let mut c = fresh("file:catalogue_missing?mode=memory&cache=shared");
    assert_eq!(c.del_sys_table(42), Err(CatalogError::NotFound));
    assert_eq!(c.get_table_schema(&42), Err(CatalogError::NotFound));
    assert_eq!(c.list_tables_schemas().unwrap().len(), 0);
    c.destroy().unwrap();
}

#[test]
fn tables_survive_a_restart() {
    let mut c = fresh("file:catalogue_restart?mode=memory&cache=shared");
    c.create_sys_table(&Table { table_name: "a".to_string(), schema_bin: SchemaVec::serialize_schema(&events_schema()), url: "u".to_string() }).unwrap();
    let id = c.table_id(&"a".to_string()).unwrap();
    // A second catalogue on the same database loads what the first stored.
    let reopened = RootCatalogueBuilder::new().with_db_path("file:catalogue_restart?mode=memory&cache=shared".to_string()).build().unwrap();
    assert_eq!(reopened.table_id(&"a".to_string()), Some(id));
    assert_eq!(reopened.get_table_schema(&id).unwrap(), events_schema());
    reopened.destroy().unwrap();
    drop(c);
}

#[test]
fn corrupt_stored_schema_fails_the_whole_listing() {
    let mut c = fresh("file:catalogue_corrupt?mode=memory&cache=shared");
    c.create_sys_table(&Table { table_name: "good".to_string(), schema_bin: SchemaVec::serialize_schema(&events_schema()), url: "u".to_string() }).unwrap();
    c.create_sys_table(&Table { table_name: "bad".to_string(), schema_bin: vec![1, 2, 3], url: "u".to_string() }).unwrap();
    assert_eq!(c.list_tables_schemas(), Err(CatalogError::CorruptSchema));
    let bad = c.table_id(&"bad".to_string()).unwrap();
    assert_eq!(c.get_table_schema(&bad), Err(CatalogError::CorruptSchema));
    c.destroy().unwrap();
}

#[test]
fn stored_blobs_decode_all_or_nothing() {
    let good = SchemaVec::serialize_schema(&events_schema());
    assert_eq!(decode_stored_schema(good.clone()), Ok(events_schema()));
    assert_eq!(decode_stored_schema(vec![0, 0]), Err(CatalogError::CorruptSchema));
    assert_eq!(decode_all(vec![good.clone(), vec![]]), Ok(vec![events_schema(), SchemaVec::new()]));
    assert_eq!(decode_all(vec![good, vec![9]]), Err(CatalogError::CorruptSchema));
}

#[test]
fn builder_defaults() {
    let b = RootCatalogueBuilder::new();
    assert_eq!(b.db_path, "db.db");
    assert!(matches!(b.root_dir, RootStoragePath::Local(ref p) if p == "db/"));
    let b = b.with_cloud_provider("bucket/prefix".to_string());
    assert!(matches!(b.root_dir, RootStoragePath::Cloud(ref p) if p == "bucket/prefix"));
}

#[test]
fn failed_statement_is_a_transaction_failure_and_changes_nothing() {
    let path = "file:catalogue_failure?mode=memory&cache=shared";
    let mut c = fresh(path);
    c.create_sys_table(&Table { table_name: "a".to_string(), schema_bin: SchemaVec::serialize_schema(&events_schema()), url: "u".to_string() }).unwrap();
    let id = c.table_id(&"a".to_string()).unwrap();
    // Another catalogue on the same database drops its tables underneath.
    let other = RootCatalogueBuilder::new().with_db_path(path.to_string()).build().unwrap();
    other.destroy().unwrap();
    let t = Table { table_name: "b".to_string(), schema_bin: vec![], url: "u".to_string() };
    assert_eq!(c.create_sys_table(&t), Err(CatalogError::TransactionFailure));
    assert_eq!(c.table_id(&"b".to_string()), None);
    assert_eq!(c.del_sys_table(id), Err(CatalogError::TransactionFailure));
    assert_eq!(c.table_id(&"a".to_string()), Some(id));
    assert_eq!(c.list_tables_schemas(), Err(CatalogError::TransactionFailure));
}

#[test]
fn statement_arguments_carry_the_table() {
    let t = Table { table_name: "events".to_string(), schema_bin: vec![1, 2, 3], url: "db://events".to_string() };
    let a = schema_row_args(&t);
    assert_eq!(a.len(), 2);
    assert!(matches!(&a[0], SqlArg::Text(n) if n == "events"));
    assert!(matches!(&a[1], SqlArg::Blob(b) if b == &vec![1, 2, 3]));
    let a = table_row_args(&t, 7);
    assert_eq!(a.len(), 3);
    assert!(matches!(&a[0], SqlArg::Text(n) if n == "events"));
    assert!(matches!(&a[1], SqlArg::Text(u) if u == "db://events"));
    assert!(matches!(&a[2], SqlArg::Int(7)));
    assert!(matches!(table_delete_args(9).as_slice(), [SqlArg::Int(9)]));
    assert!(matches!(schema_delete_args(&"events".to_string()).as_slice(), [SqlArg::Text(n)] if n == "events"));
}
