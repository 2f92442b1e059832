use lakehouse::codec::{CodecError, Column, DataType, SchemaVec, TimeUnit};

fn column(name: &str, datatype: DataType, nullable: bool, unique: bool, references: Option<&str>) -> Column {
    Column {
        name: String::from(name),
        datatype,
        nullable,
        unique,
        references: references.map(String::from),
    }
}

#[test]
fn schema_serde_works() {
    let mut schema = SchemaVec::new();

    schema.add(Column {
        datatype: DataType::Int32,
        name: String::from("Test"),
        nullable: false,
        references: None,
        unique: false,
    });

    schema.add(Column {
        datatype: DataType::Int32,
        name: String::from("Test"),
        nullable: true,
        references: Some(String::from("ID REF TABLE, ID REF TABLE")),
        unique: true,
    });

    let schema_bin = SchemaVec::serialize_schema(&schema);
    let schema_copy = SchemaVec::de_serialize_schema(schema_bin).unwrap();

    assert_eq!(schema_copy, schema)
}

#[test]
fn empty_schema_encodes_to_nothing_and_back() {
    let schema = SchemaVec::new();
    let bytes = SchemaVec::serialize_schema(&schema);
    assert!(bytes.is_empty());
    assert_eq!(SchemaVec::de_serialize_schema(bytes).unwrap(), schema);
}

#[test]
fn column_record_has_the_documented_layout() {
    let c = column("id", DataType::Int32, false, true, None);
    assert_eq!(Column::serialize_column(c), vec![2, 0, 0, 0, b'i', b'd', 4, 0, 1, 0]);

    let r = column("x", DataType::Timestamp(TimeUnit::Millisecond), true, false, Some("t"));
    assert_eq!(
        Column::serialize_column(r),
        vec![1, 0, 0, 0, b'x', 19, 1, 1, 0, 1, 1, 0, 0, 0, b't']
    );
}

#[test]
fn schema_is_framed_by_little_endian_lengths() {
    let mut schema = SchemaVec::new();
    schema.add(column("id", DataType::Int32, false, true, None));
    schema.add(column("ts", DataType::Int64, false, false, None));
    let bytes = SchemaVec::serialize_schema(&schema);
    assert_eq!(
        bytes,
        vec![
            10, 0, 0, 0, 2, 0, 0, 0, b'i', b'd', 4, 0, 1, 0, //
            10, 0, 0, 0, 2, 0, 0, 0, b't', b's', 5, 0, 0, 0,
        ]
    );
}

#[test]
fn round_trip_keeps_every_type_and_non_ascii_names() {
    let types = vec![
        DataType::Null,
        DataType::Boolean,
        DataType::UInt64,
        DataType::Float64,
        DataType::LargeUtf8,
        DataType::Date64,
        DataType::Time32(TimeUnit::Second),
        DataType::Time64(TimeUnit::Nanosecond),
        DataType::Duration(TimeUnit::Microsecond),
    ];
    let mut schema = SchemaVec::new();
    for (i, t) in types.into_iter().enumerate() {
        schema.add(column(&format!("colonne_é_{}", i), t, i % 2 == 0, i % 3 == 0, Some("ü")));
    }
    let bytes = SchemaVec::serialize_schema(&schema);
    assert_eq!(SchemaVec::de_serialize_schema(bytes).unwrap(), schema);
}

#[test]
fn truncated_length_prefix_is_corrupt() {
    assert_eq!(SchemaVec::de_serialize_schema(vec![10, 0, 0]), Err(CodecError::CorruptSchema));
}

#[test]
fn length_past_the_end_is_corrupt() {
    let mut schema = SchemaVec::new();
    schema.add(column("id", DataType::Int32, false, true, None));
    let mut bytes = SchemaVec::serialize_schema(&schema);
    bytes.pop();
    assert_eq!(SchemaVec::de_serialize_schema(bytes), Err(CodecError::CorruptSchema));
}

#[test]
fn undecodable_record_is_corrupt() {
    // A record whose type tag is unknown.
    let bytes = vec![10, 0, 0, 0, 2, 0, 0, 0, b'i', b'd', 99, 0, 1, 0];
    assert_eq!(SchemaVec::de_serialize_schema(bytes), Err(CodecError::CorruptSchema));
    // A flag byte that is neither 0 nor 1.
    assert_eq!(
        Column::de_serialize_column(vec![2, 0, 0, 0, b'i', b'd', 4, 2, 1, 0]),
        Err(CodecError::CorruptSchema)
    );
    // Invalid UTF-8 in the name.
    assert_eq!(
        Column::de_serialize_column(vec![1, 0, 0, 0, 0xff, 4, 0, 1, 0]),
        Err(CodecError::CorruptSchema)
    );
}

#[test]
fn trailing_bytes_in_a_record_are_corrupt() {
    assert_eq!(
        Column::de_serialize_column(vec![2, 0, 0, 0, b'i', b'd', 4, 0, 1, 0, 7]),
        Err(CodecError::CorruptSchema)
    );
    assert_eq!(
        Column::de_serialize_column(vec![2, 0, 0, 0, b'i', b'd', 4, 0, 1, 0]),
        Ok(column("id", DataType::Int32, false, true, None))
    );
}
