use lakehouse::codec::{Column, DataType, SchemaVec};
use lakehouse::ingest::BlobWriter;
use lakehouse::names::deduplicate_names;

fn strings(v: &[&str]) -> Vec<String> {
    v.iter().map(|s| s.to_string()).collect()
}

#[test]
fn duplicate_header_gets_a_numbered_suffix() {
    assert_eq!(deduplicate_names(&strings(&["id", "name", "id"])), strings(&["id", "name", "id_1"]));
}

#[test]
fn cleaning_removes_disallowed_characters() {
    assert_eq!(
        deduplicate_names(&strings(&["John!Doe", "Welcome, User 123!", "a-b_c"])),
        strings(&["JohnDoe", "Welcome User 123", "a-b_c"])
    );
}

#[test]
fn empty_names_and_collisions_share_one_counter() {
    assert_eq!(
        deduplicate_names(&strings(&["", "a", "a", "!!", "a"])),
        strings(&["column_1", "a", "a_2", "column_3", "a_4"])
    );
}

#[test]
fn first_occurrence_wins_unmodified() {
    assert_eq!(deduplicate_names(&strings(&["x$", "x", "x"])), strings(&["x", "x_1", "x_2"]));
}

#[test]
fn deduplication_is_deterministic() {
    let input = strings(&["id", "", "id", "na@me", "name"]);
    let first = deduplicate_names(&input);
    let second = deduplicate_names(&input);
    assert_eq!(first, second);
    assert_eq!(first, strings(&["id", "column_1", "id_2", "name", "name_3"]));
}

#[test]
fn schema_cleaning_keeps_column_attributes() {
    let mut schema = SchemaVec::new();
    for (name, t) in [("id", DataType::Int64), ("na me!", DataType::Utf8), ("id", DataType::Float64)] {
        schema.add(Column {
            name: name.to_string(),
            datatype: t,
            nullable: true,
            unique: false,
            references: Some("other".to_string()),
        });
    }
    let cleaned = BlobWriter::remove_deduplicate_columns(schema);
    let names: Vec<&str> = cleaned.columns.iter().map(|c| c.name.as_str()).collect();
    assert_eq!(names, vec!["id", "na me", "id_1"]);
    assert_eq!(cleaned.columns[2].datatype, DataType::Float64);
    assert!(cleaned.columns.iter().all(|c| c.nullable && c.references.as_deref() == Some("other")));
}

#[test]
fn drawn_names_skip_names_already_taken() {
    assert_eq!(deduplicate_names(&strings(&["a_1", "a", "a"])), strings(&["a_1", "a", "a_2"]));
    assert_eq!(deduplicate_names(&strings(&["a", "a", "a_1"])), strings(&["a", "a_1", "a_1_2"]));
    assert_eq!(
        deduplicate_names(&strings(&["column_1", "", "column_2", ""])),
        strings(&["column_1", "column_2", "column_2_3", "column_4"])
    );
}

#[test]
fn deduplicated_names_are_all_distinct() {
    let input = strings(&["a", "a_1", "a", "a_2", "a", "", "column_3", "", "a"]);
    let out = deduplicate_names(&input);
    assert_eq!(out.len(), input.len());
    for i in 0..out.len() {
        for j in i + 1..out.len() {
            assert_ne!(out[i], out[j]);
        }
    }
}
