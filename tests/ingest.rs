use lakehouse::codec::{Column, DataType, SchemaVec};
use lakehouse::ingest::{
    validate_partitions, Action, BlobWriterOps, Event, IngestError, IngestJob, Phase, DEFAULT_SAMPLING_SIZE,
};
use lakehouse::storage::StorageError;
use std::io::Cursor;
use std::sync::Arc;

fn schema(names: &[&str]) -> SchemaVec {
    let mut s = SchemaVec::new();
    for n in names {
        s.add(Column { name: n.to_string(), datatype: DataType::Int64, nullable: true, unique: false, references: None });
    }
    s
}

fn describe(a: &Action) -> String {
    match a {
        Action::InferSchema { sampling_size } => format!("infer {}", sampling_size),
        Action::DeleteIfExists(p) => format!("delete {}", p),
        Action::WriteObject(p) => format!("write {}", p),
        Action::WriteStaging(p) => format!("stage {}", p),
        Action::WritePartitions { staging, destination, columns } => {
            format!("partition {} -> {} by {}", staging, destination, columns.join(","))
        }
        Action::RemoveStaging(p) => format!("unstage {}", p),
        Action::Finish => "finish".to_string(),
    }
}

/// Runs a job, answering each action from `outcomes` in turn (`None`: success),
/// and returns the actions it named and its outcome.
fn drive(mut job: IngestJob, inferred: SchemaVec, mut outcomes: Vec<Option<IngestError>>) -> (Vec<String>, Result<(), IngestError>, bool) {
    let mut log = Vec::new();
    let mut inferred = Some(inferred);
    loop {
        let action = job.next_action();
        log.push(describe(&action));
        match action {
            Action::Finish => break,
            Action::InferSchema { .. } => job.on_event(Event::Inferred(inferred.take().unwrap())),
            _ => {
                let outcome = if outcomes.is_empty() { None } else { outcomes.remove(0) };
                match outcome {
                    None => job.on_event(Event::Succeeded),
                    Some(e) => job.on_event(Event::Failed(e)),
                }
            }
        }
    }
    let outcome = job.outcome().unwrap();
    (log, outcome, job.cleanup_failed)
}

#[test]
fn builder_defaults_and_setters() {
    let w = BlobWriterOps::make().buiild();
    assert_eq!(w.input, "");
    assert!(w.make_partiotion_on.is_none());
    assert!(w.has_header);
    assert_eq!(w.delimiter, ',');
    assert_eq!(w.sampling_size, DEFAULT_SAMPLING_SIZE);
    assert_eq!(DEFAULT_SAMPLING_SIZE, 5);

    let w = BlobWriterOps::make()
        .path("data/in.csv".to_string())
        .set_delimiter(';')
        .has_header(false)
        .make_paritions(vec!["region".to_string()])
        .sampling_size(20)
        .buiild();
    assert_eq!(w.input, "data/in.csv");
    assert_eq!(w.delimiter, ';');
    assert!(!w.has_header);
    assert_eq!(w.make_partiotion_on, Some(vec!["region".to_string()]));
    assert_eq!(w.sampling_size, 20);
}

#[test]
fn unpartitioned_job_deletes_then_writes_one_object() {
    let w = BlobWriterOps::make().path("/tmp/my data!.csv".to_string()).buiild();
    let job = IngestJob::new(w).unwrap();
    assert_eq!(job.stem, "my data");
    let (log, outcome, _) = drive(job, schema(&["id", "id"]), vec![]);
    assert_eq!(log, vec!["infer 5", "delete my data/my data.parquet", "write my data/my data.parquet", "finish"]);
    assert_eq!(outcome, Ok(()));
}

#[test]
fn job_schema_is_cleaned_after_inference() {
    let w = BlobWriterOps::make().path("t.csv".to_string()).buiild();
    let mut job = IngestJob::new(w).unwrap();
    job.on_event(Event::Inferred(schema(&["id", "name", "id"])));
    let names: Vec<&str> = job.schema.columns.iter().map(|c| c.name.as_str()).collect();
    assert_eq!(names, vec!["id", "name", "id_1"]);
    assert_eq!(job.phase, Phase::DeleteTarget);
}

#[test]
fn partitioned_job_stages_partitions_and_cleans_up() {
    let w = BlobWriterOps::make().path("sales.csv".to_string()).make_paritions(vec!["region".to_string(), "year".to_string()]).buiild();
    let job = IngestJob::new(w).unwrap();
    let (log, outcome, cleanup_failed) = drive(job, schema(&["region", "year", "amount"]), vec![]);
    assert_eq!(
        log,
        vec![
            "infer 5",
            "stage sales/sales.parquet",
            "delete sales/",
            "partition sales/sales.parquet -> sales/ by region,year",
            "unstage sales/",
            "finish",
        ]
    );
    assert_eq!(outcome, Ok(()));
    assert!(!cleanup_failed);
}

#[test]
fn unknown_partition_column_fails_before_any_write() {
    let w = BlobWriterOps::make().path("sales.csv".to_string()).make_paritions(vec!["region".to_string(), "month".to_string()]).buiild();
    let job = IngestJob::new(w).unwrap();
    let (log, outcome, _) = drive(job, schema(&["region", "amount"]), vec![]);
    assert_eq!(log, vec!["infer 5", "finish"]);
    assert_eq!(outcome, Err(IngestError::UnknownPartitionColumn("month".to_string())));
}

#[test]
fn failed_partition_write_still_removes_staging() {
    let w = BlobWriterOps::make().path("sales.csv".to_string()).make_paritions(vec!["region".to_string()]).buiild();
    let job = IngestJob::new(w).unwrap();
    let failure = IngestError::Storage(StorageError::UploadFailed);
    let (log, outcome, _) = drive(job, schema(&["region"]), vec![None, None, Some(failure.clone())]);
    assert_eq!(log.last().unwrap(), "finish");
    assert_eq!(log[log.len() - 2], "unstage sales/");
    assert_eq!(outcome, Err(failure));
}

#[test]
fn failed_staging_write_still_removes_staging() {
    let w = BlobWriterOps::make().path("sales.csv".to_string()).make_paritions(vec!["region".to_string()]).buiild();
    let job = IngestJob::new(w).unwrap();
    let (log, outcome, _) = drive(job, schema(&["region"]), vec![Some(IngestError::RowConversionFailed)]);
    assert_eq!(log, vec!["infer 5", "stage sales/sales.parquet", "unstage sales/", "finish"]);
    assert_eq!(outcome, Err(IngestError::RowConversionFailed));
}

#[test]
fn cleanup_failure_is_only_a_warning() {
    let w = BlobWriterOps::make().path("sales.csv".to_string()).make_paritions(vec!["region".to_string()]).buiild();
    let job = IngestJob::new(w).unwrap();
    let (_, outcome, cleanup_failed) = drive(job, schema(&["region"]), vec![None, None, None, Some(IngestError::Storage(StorageError::DeleteFailed))]);
    assert_eq!(outcome, Ok(()));
    assert!(cleanup_failed);
}

#[test]
fn inference_failure_ends_the_job() {
    let w = BlobWriterOps::make().path("empty.csv".to_string()).buiild();
    let mut job = IngestJob::new(w).unwrap();
    job.on_event(Event::Failed(IngestError::SchemaInferenceFailed));
    assert!(matches!(job.next_action(), Action::Finish));
    assert_eq!(job.outcome(), Some(Err(IngestError::SchemaInferenceFailed)));
}

#[test]
fn reingestion_repeats_delete_before_write() {
    let make = || IngestJob::new(BlobWriterOps::make().path("a.csv".to_string()).buiild()).unwrap();
    let (first, _, _) = drive(make(), schema(&["x"]), vec![]);
    let (second, _, _) = drive(make(), schema(&["x"]), vec![]);
    assert_eq!(first, second);
    assert_eq!(second[1], "delete a/a.parquet");
    assert_eq!(second[2], "write a/a.parquet");
}

#[test]
fn source_without_usable_stem_is_rejected() {
    let w = BlobWriterOps::make().path("/".to_string()).buiild();
    assert_eq!(IngestJob::new(w).err(), Some(IngestError::InvalidSourcePath));
    let w = BlobWriterOps::make().path("dir/!!!.csv".to_string()).buiild();
    assert_eq!(IngestJob::new(w).err(), Some(IngestError::InvalidSourcePath));
}

#[test]
fn validate_partitions_names_the_first_missing_column() {
    let names = vec!["a".to_string(), "b".to_string()];
    assert_eq!(validate_partitions(&names, &vec!["b".to_string(), "a".to_string()]), Ok(()));
    assert_eq!(validate_partitions(&names, &vec![]), Ok(()));
    assert_eq!(
        validate_partitions(&names, &vec!["a".to_string(), "c".to_string(), "d".to_string()]),
        Err(IngestError::UnknownPartitionColumn("c".to_string()))
    );
}

#[test]
fn duplicate_csv_header_is_cleaned_and_no_row_is_lost() {
    let csv = "id,name,id\n1,a,2\n3,b,4\n5,c,6\n";
    let (inferred, _) = arrow_csv::reader::Format::default()
        .with_header(true)
        .infer_schema(Cursor::new(csv.as_bytes()), Some(DEFAULT_SAMPLING_SIZE))
        .unwrap();
    let mut raw = SchemaVec::new();
    for f in inferred.fields() {
        let datatype = match f.data_type() {
            arrow_schema::DataType::Int64 => DataType::Int64,
            arrow_schema::DataType::Utf8 => DataType::Utf8,
            other => panic!("unexpected type {:?}", other),
        };
        raw.add(Column { name: f.name().clone(), datatype, nullable: f.is_nullable(), unique: false, references: None });
    }

    let w = BlobWriterOps::make().path("events.csv".to_string()).buiild();
    let mut job = IngestJob::new(w).unwrap();
    job.on_event(Event::Inferred(raw));
    let names: Vec<String> = job.schema.columns.iter().map(|c| c.name.clone()).collect();
    assert_eq!(names, vec!["id", "name", "id_1"]);

    let fields: Vec<arrow_schema::Field> = job
        .schema
        .columns
        .iter()
        .map(|c| {
            let t = match c.datatype {
                DataType::Int64 => arrow_schema::DataType::Int64,
                _ => arrow_schema::DataType::Utf8,
            };
            arrow_schema::Field::new(c.name.clone(), t, c.nullable)
        })
        .collect();
    let reader = arrow_csv::ReaderBuilder::new(Arc::new(arrow_schema::Schema::new(fields)))
        .with_header(true)
        .build(Cursor::new(csv.as_bytes()))
        .unwrap();
    let rows: usize = reader.map(|b| b.unwrap().num_rows()).sum();
    assert_eq!(rows, 3);
}
