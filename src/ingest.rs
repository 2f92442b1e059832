//! Ingestion of a row-oriented source file into columnar storage.
//!
//! A job infers the source's schema, cleans and deduplicates its column
//! names, and then either writes one columnar object at
//! `{stem}/{stem}.parquet`, or stages that object locally, writes one object
//! per partition under `{stem}/` and removes the staging copy. Whatever is at
//! the destination is deleted before it is written, and the staging copy is
//! removed on every exit path once its write has begun. `{stem}` is the source
//! file's stem, cleaned as column names are.
//!
//! The job decides; the caller performs each action it names and reports the
//! outcome back as an event.
use vstd::prelude::*;
use vstd::string::StringExecFns;
use crate::codec::{Column, ColumnModel, SchemaVec, opt_text_view};
use crate::names::{
    cleaned, clean_column_name, contains_name, dedup_names, deduplicate_names, lemma_dedup_unique,
    strings_view,
};
use crate::storage::StorageError;

verus! {

/// Rows sampled to infer a schema, unless configured otherwise.
pub const DEFAULT_SAMPLING_SIZE: usize = 5;

/// An input data file.
pub enum DataFile {
    Parquet(String),
    Csv(String),
}

/// Failures of an ingestion job.
#[derive(Clone, Debug, PartialEq, Eq, Hash)]
pub enum IngestError {
    /// The source could not be read, was empty, or its sample rows did not parse.
    SchemaInferenceFailed,
    /// A row could not be converted; nothing written for it counts as valid.
    RowConversionFailed,
    /// A requested partition column is not in the inferred schema.
    UnknownPartitionColumn(String),
    /// The source path has no file stem, or nothing of it survives cleaning.
    InvalidSourcePath,
    Storage(StorageError),
}

/// The configuration of one ingestion job.
pub struct BlobWriter {
    pub input: String,
    pub make_partiotion_on: Option<Vec<String>>,
    pub has_header: bool,
    pub delimiter: char,
    pub sampling_size: usize,
}

/// Builder of a [`BlobWriter`].
pub struct BlobWriterOps {
    pub input: String,
    pub make_partiotion_on: Option<Vec<String>>,
    pub has_header: bool,
    pub delimiter: char,
    pub sampling_size: usize,
}

impl Default for BlobWriterOps {
    /// No input, no partitions, a header row, comma-delimited, five rows sampled.
    fn default() -> (r: Self)
        ensures
            r.input@ == Seq::<char>::empty(),
            r.make_partiotion_on is None,
            r.has_header,
            r.delimiter == ',',
            r.sampling_size == DEFAULT_SAMPLING_SIZE,
    {
        BlobWriterOps {
            input: String::new(),
            make_partiotion_on: None,
            has_header: true,
            delimiter: ',',
            sampling_size: DEFAULT_SAMPLING_SIZE,
        }
    }
}

impl BlobWriterOps {
    pub fn make() -> (r: Self)
        ensures
            r.input@ == Seq::<char>::empty(),
            r.make_partiotion_on is None,
            r.has_header,
            r.delimiter == ',',
            r.sampling_size == DEFAULT_SAMPLING_SIZE,
    {
        BlobWriterOps::default()
    }

    pub fn path(self, path: String) -> (r: Self)
        ensures
            r.input == path,
            r.make_partiotion_on == self.make_partiotion_on,
            r.has_header == self.has_header,
            r.delimiter == self.delimiter,
            r.sampling_size == self.sampling_size,
    {
        BlobWriterOps {
            input: path,
            make_partiotion_on: self.make_partiotion_on,
            has_header: self.has_header,
            delimiter: self.delimiter,
            sampling_size: self.sampling_size,
        }
    }

    pub fn set_delimiter(self, delimiter: char) -> (r: Self)
        ensures
            r.input == self.input,
            r.make_partiotion_on == self.make_partiotion_on,
            r.has_header == self.has_header,
            r.delimiter == delimiter,
            r.sampling_size == self.sampling_size,
    {
        BlobWriterOps {
            input: self.input,
            make_partiotion_on: self.make_partiotion_on,
            has_header: self.has_header,
            delimiter,
            sampling_size: self.sampling_size,
        }
    }

    pub fn make_paritions(self, partitions_string: Vec<String>) -> (r: Self)
        ensures
            r.input == self.input,
            r.make_partiotion_on == Some(partitions_string),
            r.has_header == self.has_header,
            r.delimiter == self.delimiter,
            r.sampling_size == self.sampling_size,
    {
        BlobWriterOps {
            input: self.input,
            make_partiotion_on: Some(partitions_string),
            has_header: self.has_header,
            delimiter: self.delimiter,
            sampling_size: self.sampling_size,
        }
    }

    pub fn has_header(self, boolean: bool) -> (r: Self)
        ensures
            r.input == self.input,
            r.make_partiotion_on == self.make_partiotion_on,
            r.has_header == boolean,
            r.delimiter == self.delimiter,
            r.sampling_size == self.sampling_size,
    {
        BlobWriterOps {
            input: self.input,
            make_partiotion_on: self.make_partiotion_on,
            has_header: boolean,
            delimiter: self.delimiter,
            sampling_size: self.sampling_size,
        }
    }

    /// Rows read to infer the schema.
    pub fn sampling_size(self, rows: usize) -> (r: Self)
        ensures
            r.input == self.input,
            r.make_partiotion_on == self.make_partiotion_on,
            r.has_header == self.has_header,
            r.delimiter == self.delimiter,
            r.sampling_size == rows,
    {
        BlobWriterOps {
            input: self.input,
            make_partiotion_on: self.make_partiotion_on,
            has_header: self.has_header,
            delimiter: self.delimiter,
            sampling_size: rows,
        }
    }

    pub fn buiild(self) -> (r: BlobWriter)
        ensures
            r.input == self.input,
            r.make_partiotion_on == self.make_partiotion_on,
            r.has_header == self.has_header,
            r.delimiter == self.delimiter,
            r.sampling_size == self.sampling_size,
    {
        BlobWriter {
            input: self.input,
            make_partiotion_on: self.make_partiotion_on,
            has_header: self.has_header,
            delimiter: self.delimiter,
            sampling_size: self.sampling_size,
        }
    }
}

// ---------------------------------------------------------------------------
// Schema cleaning and partition validation
// ---------------------------------------------------------------------------

pub open spec fn column_names(cols: Seq<ColumnModel>) -> Seq<Seq<char>> {
    cols.map_values(|c: ColumnModel| c.name)
}

/// `cols` with the names replaced, one for one.
pub open spec fn renamed(cols: Seq<ColumnModel>, names: Seq<Seq<char>>) -> Seq<ColumnModel> {
    cols.map(|i: int, c: ColumnModel| ColumnModel { name: names[i], ..c })
}

/// The schema with cleaned, deduplicated column names.
pub open spec fn cleaned_schema(cols: Seq<ColumnModel>) -> Seq<ColumnModel> {
    renamed(cols, dedup_names(column_names(cols)))
}

/// No two columns of a cleaned schema share a name.
pub proof fn lemma_cleaned_names_distinct(cols: Seq<ColumnModel>)
    ensures
        cleaned_schema(cols).len() == cols.len(),
        forall|i: int, j: int|
            0 <= i < j < cols.len() ==> cleaned_schema(cols)[i].name != cleaned_schema(cols)[j].name,
{
    lemma_dedup_unique(column_names(cols));
    let names = dedup_names(column_names(cols));
    assert forall|i: int, j: int| 0 <= i < j < cols.len() implies cleaned_schema(cols)[i].name
        != cleaned_schema(cols)[j].name by {
        assert(cleaned_schema(cols)[i].name == names[i]);
        assert(cleaned_schema(cols)[j].name == names[j]);
    }
}

fn clone_text(o: &Option<String>) -> (r: Option<String>)
    ensures
        opt_text_view(r) == opt_text_view(*o),
{
    match o {
        Some(s) => Some(s.clone()),
        None => None,
    }
}

/// Index of the first requested partition column that is not among `names`,
/// if any.
pub open spec fn first_missing(names: Seq<Seq<char>>, partitions: Seq<Seq<char>>) -> Option<int>
    decreases partitions.len(),
{
    if partitions.len() == 0 {
        None
    } else if !names.contains(partitions[0]) {
        Some(0)
    } else {
        match first_missing(names, partitions.drop_first()) {
            Some(i) => Some(i + 1),
            None => None,
        }
    }
}

proof fn lemma_first_missing(names: Seq<Seq<char>>, partitions: Seq<Seq<char>>, i: int)
    requires
        0 <= i <= partitions.len(),
        forall|j: int| 0 <= j < i ==> names.contains(#[trigger] partitions[j]),
    ensures
        i < partitions.len() && !names.contains(partitions[i]) ==> first_missing(names, partitions)
            == Some(i),
        i == partitions.len() ==> first_missing(names, partitions) is None,
    decreases i,
{
    if i > 0 {
        let rest = partitions.drop_first();
        assert forall|j: int| 0 <= j < i - 1 implies names.contains(#[trigger] rest[j]) by {
            assert(rest[j] == partitions[j + 1]);
        }
        lemma_first_missing(names, rest, i - 1);
        assert(names.contains(partitions[0]));
    }
}

/// A missing column found by `first_missing` is a requested one.
proof fn lemma_first_missing_in_range(names: Seq<Seq<char>>, partitions: Seq<Seq<char>>)
    ensures
        first_missing(names, partitions) matches Some(i) ==> 0 <= i < partitions.len(),
    decreases partitions.len(),
{
    if partitions.len() > 0 {
        lemma_first_missing_in_range(names, partitions.drop_first());
    }
}

/// `Ok` when every requested partition column is among `names`; otherwise
/// `UnknownPartitionColumn` naming the first one that is not.
pub fn validate_partitions(names: &Vec<String>, partitions: &Vec<String>) -> (r: Result<
    (),
    IngestError,
>)
    ensures
        first_missing(strings_view(names@), strings_view(partitions@)) is None ==> r is Ok,
        first_missing(strings_view(names@), strings_view(partitions@)) matches Some(i) ==> (r matches Err(
            IngestError::UnknownPartitionColumn(c),
        ) && c@ == partitions@[i]@),
{
    let ghost nv = strings_view(names@);
    let ghost pv = strings_view(partitions@);
    let mut i: usize = 0;
    while i < partitions.len()
        invariant
            nv == strings_view(names@),
            pv == strings_view(partitions@),
            i <= partitions@.len(),
            forall|j: int| 0 <= j < i ==> nv.contains(#[trigger] pv[j]),
        decreases partitions@.len() - i,
    {
        if !contains_name(names, &partitions[i]) {
            proof {
                lemma_first_missing(nv, pv, i as int);
            }
            return Err(IngestError::UnknownPartitionColumn(partitions[i].clone()));
        }
        i = i + 1;
    }
    proof {
        lemma_first_missing(nv, pv, i as int);
    }
    Ok(())
}

/// The column names of a schema, in order.
fn names_of(sc: &SchemaVec) -> (r: Vec<String>)
    ensures
        strings_view(r@) == column_names(sc@),
{
    let mut raw: Vec<String> = Vec::new();
    let mut i: usize = 0;
    while i < sc.columns.len()
        invariant
            i <= sc.columns@.len(),
            strings_view(raw@) == column_names(sc@).take(i as int),
        decreases sc.columns@.len() - i,
    {
        let ghost before = strings_view(raw@);
        raw.push(sc.columns[i].name.clone());
        assert(strings_view(raw@) =~= before.push(sc@[i as int].name));
        assert(column_names(sc@).take(i + 1) =~= column_names(sc@).take(i as int).push(
            sc@[i as int].name,
        ));
        i = i + 1;
    }
    assert(column_names(sc@).take(i as int) =~= column_names(sc@));
    raw
}

impl BlobWriter {
    /// The schema with every column name cleaned and deduplicated; types,
    /// nullability, uniqueness and references are kept, in column order, and
    /// no two columns share a name.
    pub fn remove_deduplicate_columns(sc: SchemaVec) -> (r: SchemaVec)
        requires
            sc@.len() < u64::MAX,
        ensures
            r@ == cleaned_schema(sc@),
            forall|i: int, j: int| 0 <= i < j < r@.len() ==> r@[i].name != r@[j].name,
    {
        proof {
            lemma_cleaned_names_distinct(sc@);
        }
        let raw = names_of(&sc);
        let names = deduplicate_names(&raw);
        let ghost target = cleaned_schema(sc@);
        let mut columns: Vec<Column> = Vec::new();
        let mut k: usize = 0;
        while k < sc.columns.len()
            invariant
                k <= sc.columns@.len(),
                names@.len() == sc.columns@.len(),
                strings_view(names@) == dedup_names(column_names(sc@)),
                target == cleaned_schema(sc@),
                crate::codec::columns_view(columns@) == target.take(k as int),
            decreases sc.columns@.len() - k,
        {
            let c = &sc.columns[k];
            let col = Column {
                name: names[k].clone(),
                datatype: c.datatype,
                nullable: c.nullable,
                unique: c.unique,
                references: clone_text(&c.references),
            };
            assert(strings_view(names@)[k as int] == names@[k as int]@);
            assert(col@ == target[k as int]);
            let ghost before = crate::codec::columns_view(columns@);
            columns.push(col);
            assert(crate::codec::columns_view(columns@) =~= before.push(col@));
            assert(target.take(k + 1) =~= target.take(k as int).push(target[k as int]));
            k = k + 1;
        }
        assert(target.take(k as int) =~= target);
        SchemaVec { columns }
    }
}

// ---------------------------------------------------------------------------
// Destination paths
// ---------------------------------------------------------------------------

/// The file stem of a path, as `std::path::Path::file_stem` gives it.
pub uninterp spec fn path_file_stem(p: Seq<char>) -> Option<Seq<char>>;

/// Relies on `std::path::Path::file_stem`: the final component of the path
/// without its last extension, if the path has a final component.
#[verifier::external_body]
fn file_stem(p: &str) -> (r: Option<String>)
    ensures
        opt_text_view(r) == path_file_stem(p@),
{
    std::path::Path::new(p).file_stem().map(|s| s.to_string_lossy().into_owned())
}

pub open spec fn parquet_suffix() -> Seq<char> {
    seq!['.', 'p', 'a', 'r', 'q', 'u', 'e', 't']
}

/// `{stem}/` : the directory-like prefix of a destination.
pub open spec fn prefix_path(stem: Seq<char>) -> Seq<char> {
    stem + seq!['/']
}

/// `{stem}/{stem}.parquet` : the single object of an unpartitioned write.
pub open spec fn object_path(stem: Seq<char>) -> Seq<char> {
    prefix_path(stem) + stem + parquet_suffix()
}

/// The cleaned stem of a source path, when it has a stem that cleaning does
/// not empty.
pub open spec fn destination_stem(input: Seq<char>) -> Option<Seq<char>> {
    match path_file_stem(input) {
        Some(s) => if cleaned(s).len() > 0 {
            Some(cleaned(s))
        } else {
            None
        },
        None => None,
    }
}

fn make_prefix_path(stem: &String) -> (r: String)
    ensures
        r@ == prefix_path(stem@),
{
    proof {
        reveal_strlit("/");
    }
    stem.clone().concat("/")
}

fn make_object_path(stem: &String) -> (r: String)
    ensures
        r@ == object_path(stem@),
{
    proof {
        reveal_strlit(".parquet");
    }
    let p = make_prefix_path(stem);
    let p = p.concat(stem.as_str());
    let p = p.concat(".parquet");
    assert(p@ =~= object_path(stem@));
    p
}

// ---------------------------------------------------------------------------
// The job
// ---------------------------------------------------------------------------

#[derive(Clone, Copy, Debug, PartialEq, Eq, Structural, Hash)]
pub enum Phase {
    /// Read the source and infer its schema.
    Infer,
    /// Delete the destination object of an unpartitioned write.
    DeleteTarget,
    /// Convert the source and write the destination object.
    WriteTarget,
    /// Convert the source into the local staging area.
    WriteStaging,
    /// Delete everything under the destination prefix.
    DeletePartitions,
    /// Write one object per partition from the staging copy.
    WritePartitions,
    /// Remove the staging copy.
    RemoveStaging,
    Done,
}

/// What the caller does next.
pub enum Action {
    /// Infer the schema from the first `sampling_size` rows of the source.
    InferSchema { sampling_size: usize },
    /// Delete the object at this path, or everything under it, if present.
    DeleteIfExists(String),
    /// Convert the source under the job's schema and write it to this path
    /// of the final backend.
    WriteObject(String),
    /// Convert the source under the job's schema and write it to this path
    /// of the local staging area.
    WriteStaging(String),
    /// Group the staged rows by these columns and write one object per
    /// combination of values under the destination prefix.
    WritePartitions { staging: String, destination: String, columns: Vec<String> },
    /// Remove this path from the local staging area.
    RemoveStaging(String),
    /// Nothing is left to do: see the job's outcome.
    Finish,
}

/// The outcome of the last action.
pub enum Event {
    /// The schema inferred from the source.
    Inferred(SchemaVec),
    Succeeded,
    Failed(IngestError),
}

/// The phase after `p`: `ok` says whether the action succeeded, and `valid`
/// whether the inferred schema holds every partition column.
pub open spec fn next_phase(p: Phase, partitioned: bool, ok: bool, valid: bool) -> Phase {
    match p {
        Phase::Infer => if ok && valid {
            if partitioned {
                Phase::WriteStaging
            } else {
                Phase::DeleteTarget
            }
        } else {
            Phase::Done
        },
        Phase::DeleteTarget => if ok {
            Phase::WriteTarget
        } else {
            Phase::Done
        },
        Phase::WriteTarget => Phase::Done,
        Phase::WriteStaging => if ok {
            Phase::DeletePartitions
        } else {
            Phase::RemoveStaging
        },
        Phase::DeletePartitions => if ok {
            Phase::WritePartitions
        } else {
            Phase::RemoveStaging
        },
        Phase::WritePartitions => Phase::RemoveStaging,
        Phase::RemoveStaging => Phase::Done,
        Phase::Done => Phase::Done,
    }
}

/// Phases in which the staging copy may exist.
pub open spec fn staging_live(p: Phase) -> bool {
    p == Phase::WriteStaging || p == Phase::DeletePartitions || p == Phase::WritePartitions
}

/// Phases that write to the destination.
pub open spec fn writes_destination(p: Phase) -> bool {
    p == Phase::WriteTarget || p == Phase::WritePartitions
}

/// Once the staging write has begun, no outcome ends the job before the
/// staging copy is removed.
pub proof fn lemma_staging_always_removed(p: Phase, partitioned: bool, ok: bool, valid: bool)
    requires
        staging_live(p),
    ensures
        next_phase(p, partitioned, ok, valid) != Phase::Done,
        staging_live(next_phase(p, partitioned, ok, valid)) || next_phase(p, partitioned, ok, valid)
            == Phase::RemoveStaging,
{
}

/// A write to the destination comes only right after a successful
/// delete-if-exists of that destination.
pub proof fn lemma_write_follows_delete(p: Phase, partitioned: bool, ok: bool, valid: bool)
    requires
        writes_destination(next_phase(p, partitioned, ok, valid)),
    ensures
        next_phase(p, partitioned, ok, valid) == Phase::WriteTarget ==> p == Phase::DeleteTarget
            && ok,
        next_phase(p, partitioned, ok, valid) == Phase::WritePartitions ==> p
            == Phase::DeletePartitions && ok,
{
}

/// An inferred schema without a requested partition column ends the job
/// before anything is written.
pub proof fn lemma_invalid_partitions_write_nothing(partitioned: bool, ok: bool)
    ensures
        next_phase(Phase::Infer, partitioned, ok, false) == Phase::Done,
{
}

/// `key` lies at or under `prefix`.
pub open spec fn under(prefix: Seq<char>, key: Seq<char>) -> bool {
    prefix.len() <= key.len() && key.take(prefix.len() as int) == prefix
}

/// A store after a run that deleted everything under `prefix` and then wrote
/// `output` there.
pub open spec fn replace_under(
    store: Map<Seq<char>, Seq<u8>>,
    prefix: Seq<char>,
    output: Map<Seq<char>, Seq<u8>>,
) -> Map<Seq<char>, Seq<u8>> {
    Map::new(
        |k: Seq<char>| (store.contains_key(k) && !under(prefix, k)) || output.contains_key(k),
        |k: Seq<char>|
            if output.contains_key(k) {
                output[k]
            } else {
                store[k]
            },
    )
}

/// Ingesting twice into the same destination leaves exactly what ingesting
/// the second time alone leaves: under the destination, only the second
/// run's output; elsewhere, the store untouched.
pub proof fn lemma_reingest_replaces(
    store: Map<Seq<char>, Seq<u8>>,
    prefix: Seq<char>,
    first: Map<Seq<char>, Seq<u8>>,
    second: Map<Seq<char>, Seq<u8>>,
)
    requires
        forall|k: Seq<char>| #[trigger] first.contains_key(k) ==> under(prefix, k),
        forall|k: Seq<char>| #[trigger] second.contains_key(k) ==> under(prefix, k),
    ensures
        replace_under(replace_under(store, prefix, first), prefix, second) == replace_under(
            store,
            prefix,
            second,
        ),
        forall|k: Seq<char>|
            under(prefix, k) ==> (#[trigger] replace_under(store, prefix, second).contains_key(k)
                <==> second.contains_key(k)),
{
    assert(replace_under(replace_under(store, prefix, first), prefix, second) =~= replace_under(
        store,
        prefix,
        second,
    ));
}

/// Whether an event reports success of the action of phase `p`: inference
/// succeeds only with a schema.
pub open spec fn event_ok(p: Phase, ev: Event) -> bool {
    match ev {
        Event::Failed(_) => false,
        Event::Inferred(_) => true,
        Event::Succeeded => p != Phase::Infer,
    }
}

/// Whether an inference event holds every requested partition column, once
/// its names are cleaned; other events pass.
pub open spec fn event_valid(w: &BlobWriter, ev: Event) -> bool {
    match ev {
        Event::Inferred(s) => first_missing(
            column_names(cleaned_schema(s@)),
            partition_columns(w),
        ) is None,
        _ => true,
    }
}

fn copy_error(e: &IngestError) -> (r: IngestError)
    ensures
        r == *e,
{
    match e {
        IngestError::SchemaInferenceFailed => IngestError::SchemaInferenceFailed,
        IngestError::RowConversionFailed => IngestError::RowConversionFailed,
        IngestError::UnknownPartitionColumn(c) => IngestError::UnknownPartitionColumn(c.clone()),
        IngestError::InvalidSourcePath => IngestError::InvalidSourcePath,
        IngestError::Storage(x) => IngestError::Storage(*x),
    }
}

/// The store after `DeleteIfExists(prefix)`: every key at or under `prefix`
/// removed.
pub open spec fn delete_under(store: Map<Seq<char>, Seq<u8>>, prefix: Seq<char>) -> Map<
    Seq<char>,
    Seq<u8>,
> {
    store.restrict(Set::new(|k: Seq<char>| !under(prefix, k)))
}

/// The store after writing the objects of `output`.
pub open spec fn write_all(store: Map<Seq<char>, Seq<u8>>, output: Map<Seq<char>, Seq<u8>>) -> Map<
    Seq<char>,
    Seq<u8>,
> {
    store.union_prefer_right(output)
}

/// What a job does to its destination: the delete-if-exists it names before
/// any write (`lemma_write_follows_delete`), then the writes of its output, all
/// at or under that destination, leave `replace_under` of the store; so
/// `lemma_reingest_replaces` holds of two runs of a job. The destination is
/// `object_path(stem)` for an unpartitioned job and `prefix_path(stem)` for
/// a partitioned one, where its single object also lies.
pub proof fn lemma_job_effect(
    store: Map<Seq<char>, Seq<u8>>,
    stem: Seq<char>,
    partitioned: bool,
    output: Map<Seq<char>, Seq<u8>>,
)
    requires
        forall|k: Seq<char>|
            #[trigger] output.contains_key(k) ==> under(
                if partitioned {
                    prefix_path(stem)
                } else {
                    object_path(stem)
                },
                k,
            ),
    ensures
        ({
            let dest = if partitioned {
                prefix_path(stem)
            } else {
                object_path(stem)
            };
            write_all(delete_under(store, dest), output) == replace_under(store, dest, output)
        }),
        under(object_path(stem), object_path(stem)),
        under(prefix_path(stem), object_path(stem)),
{
    let dest = if partitioned {
        prefix_path(stem)
    } else {
        object_path(stem)
    };
    assert(write_all(delete_under(store, dest), output) =~= replace_under(store, dest, output));
    assert(object_path(stem).take(object_path(stem).len() as int) =~= object_path(stem));
    assert(object_path(stem).take(prefix_path(stem).len() as int) =~= prefix_path(stem));
}

/// One ingestion job.
pub struct IngestJob {
    pub writer: BlobWriter,
    /// The cleaned file stem of the source.
    pub stem: String,
    pub phase: Phase,
    /// The cleaned schema, once inferred.
    pub schema: SchemaVec,
    /// The first failure, if any.
    pub error: Option<IngestError>,
    /// Removing the staging copy failed: reported as a warning only.
    pub cleanup_failed: bool,
}

/// Requested partition columns, an empty request meaning none.
pub open spec fn partition_columns(w: &BlobWriter) -> Seq<Seq<char>> {
    match w.make_partiotion_on {
        Some(v) => strings_view(v@),
        None => Seq::empty(),
    }
}

pub open spec fn is_partitioned(w: &BlobWriter) -> bool {
    partition_columns(w).len() > 0
}

impl IngestJob {
    /// A job in its first phase; `InvalidSourcePath` when the source has no
    /// usable stem.
    pub fn new(writer: BlobWriter) -> (r: Result<IngestJob, IngestError>)
        ensures
            destination_stem(writer.input@) is None ==> r == Err::<IngestJob, IngestError>(
                IngestError::InvalidSourcePath,
            ),
            destination_stem(writer.input@) matches Some(s) ==> (r matches Ok(job) && job.stem@
                == s && job.writer == writer && job.phase == Phase::Infer && job.error is None
                && !job.cleanup_failed && job.schema@.len() == 0),
    {
        let stem = match file_stem(writer.input.as_str()) {
            None => return Err(IngestError::InvalidSourcePath),
            Some(s) => s,
        };
        let stem = clean_column_name(stem.as_str());
        if stem.as_str().is_empty() {
            return Err(IngestError::InvalidSourcePath);
        }
        Ok(IngestJob {
            writer,
            stem,
            phase: Phase::Infer,
            schema: SchemaVec::new(),
            error: None,
            cleanup_failed: false,
        })
    }

    fn partitioned(&self) -> (r: bool)
        ensures
            r == is_partitioned(&self.writer),
    {
        match &self.writer.make_partiotion_on {
            Some(v) => v.len() > 0,
            None => false,
        }
    }

    /// The action for the current phase.
    pub fn next_action(&self) -> (r: Action)
        ensures
            self.phase == Phase::Infer ==> r == (Action::InferSchema {
                sampling_size: self.writer.sampling_size,
            }),
            self.phase == Phase::DeleteTarget ==> (r matches Action::DeleteIfExists(p) && p@
                == object_path(self.stem@)),
            self.phase == Phase::WriteTarget ==> (r matches Action::WriteObject(p) && p@
                == object_path(self.stem@)),
            self.phase == Phase::WriteStaging ==> (r matches Action::WriteStaging(p) && p@
                == object_path(self.stem@)),
            self.phase == Phase::DeletePartitions ==> (r matches Action::DeleteIfExists(p) && p@
                == prefix_path(self.stem@)),
            self.phase == Phase::WritePartitions ==> (r matches Action::WritePartitions {
                staging,
                destination,
                columns,
            } && staging@ == object_path(self.stem@) && destination@ == prefix_path(self.stem@)
                && strings_view(columns@) == partition_columns(&self.writer)),
            self.phase == Phase::RemoveStaging ==> (r matches Action::RemoveStaging(p) && p@
                == prefix_path(self.stem@)),
            self.phase == Phase::Done ==> r is Finish,
    {
        match self.phase {
            Phase::Infer => Action::InferSchema { sampling_size: self.writer.sampling_size },
            Phase::DeleteTarget => Action::DeleteIfExists(make_object_path(&self.stem)),
            Phase::WriteTarget => Action::WriteObject(make_object_path(&self.stem)),
            Phase::WriteStaging => Action::WriteStaging(make_object_path(&self.stem)),
            Phase::DeletePartitions => Action::DeleteIfExists(make_prefix_path(&self.stem)),
            Phase::WritePartitions => {
                let columns = match &self.writer.make_partiotion_on {
                    Some(v) => v.clone(),
                    None => Vec::new(),
                };
                proof {
                    if self.writer.make_partiotion_on is None {
                        assert(strings_view(columns@) =~= Seq::<Seq<char>>::empty());
                    }
                }
                Action::WritePartitions {
                    staging: make_object_path(&self.stem),
                    destination: make_prefix_path(&self.stem),
                    columns,
                }
            },
            Phase::RemoveStaging => Action::RemoveStaging(make_prefix_path(&self.stem)),
            Phase::Done => Action::Finish,
        }
    }
    fn on_inferred(&mut self, sc: SchemaVec, partitioned: bool)
        requires
            sc@.len() < u64::MAX,
            old(self).phase == Phase::Infer,
            partitioned == is_partitioned(&old(self).writer),
        ensures
            final(self).writer == old(self).writer,
            final(self).stem == old(self).stem,
            final(self).cleanup_failed == old(self).cleanup_failed,
            final(self).schema@ == cleaned_schema(sc@),
            final(self).phase == next_phase(
                Phase::Infer,
                partitioned,
                true,
                first_missing(column_names(cleaned_schema(sc@)), partition_columns(&old(self).writer))
                    is None,
            ),
            match first_missing(
                column_names(cleaned_schema(sc@)),
                partition_columns(&old(self).writer),
            ) {
                None => final(self).error == old(self).error,
                Some(i) => final(self).error matches Some(IngestError::UnknownPartitionColumn(c))
                    && c@ == partition_columns(&old(self).writer)[i],
            },
    {
        let cleaned = BlobWriter::remove_deduplicate_columns(sc);
        let names = names_of(&cleaned);
        let verdict = match &self.writer.make_partiotion_on {
            Some(parts) => validate_partitions(&names, parts),
            None => {
                proof {
                    assert(partition_columns(&self.writer) =~= Seq::<
                        Seq<char>,
                    >::empty());
                }
                Ok(())
            },
        };
        proof {
            match first_missing(
                column_names(cleaned@),
                partition_columns(&self.writer),
            ) {
                Some(i) => {
                    lemma_first_missing_in_range(
                        column_names(cleaned@),
                        partition_columns(&self.writer),
                    );
                    let parts = self.writer.make_partiotion_on.unwrap();
                    assert(strings_view(parts@)[i] == parts@[i]@);
                },
                None => {},
            }
        }
        self.schema = cleaned;
        match verdict {
            Ok(()) => {
                self.phase = if partitioned {
                    Phase::WriteStaging
                } else {
                    Phase::DeleteTarget
                };
            },
            Err(e) => {
                self.error = Some(e);
                self.phase = Phase::Done;
            },
        }

    }

    /// Moves to the next phase after the outcome of the current action.
    /// Inference stores the cleaned schema and checks the partition columns
    /// against it; the first failure is kept; a failure to remove the staging
    /// copy is recorded as a warning and is not a failure of the job.
    pub fn on_event(&mut self, ev: Event)
        requires
            ev matches Event::Inferred(s) ==> s@.len() < u64::MAX,
        ensures
            final(self).writer == old(self).writer,
            final(self).stem == old(self).stem,
            final(self).phase == next_phase(
                old(self).phase,
                is_partitioned(&old(self).writer),
                event_ok(old(self).phase, ev),
                event_valid(&old(self).writer, ev),
            ),
            old(self).phase == Phase::Infer ==> match ev {
                Event::Inferred(s) => final(self).schema@ == cleaned_schema(s@) && match first_missing(
                    column_names(cleaned_schema(s@)),
                    partition_columns(&old(self).writer),
                ) {
                    None => final(self).error == old(self).error,
                    Some(i) => final(self).error matches Some(
                        IngestError::UnknownPartitionColumn(c),
                    ) && c@ == partition_columns(&old(self).writer)[i],
                },
                Event::Succeeded => final(self).error == Some(IngestError::SchemaInferenceFailed),
                Event::Failed(e) => final(self).error == Some(e),
            },
            old(self).phase != Phase::Infer ==> final(self).schema == old(self).schema,
            old(self).phase != Phase::Infer && old(self).phase != Phase::RemoveStaging
                && old(self).phase != Phase::Done ==> match ev {
                Event::Failed(e) => final(self).error == if old(self).error is Some {
                    old(self).error
                } else {
                    Some(e)
                },
                _ => final(self).error == old(self).error,
            },
            old(self).phase == Phase::RemoveStaging || old(self).phase == Phase::Done
                ==> final(self).error == old(self).error,
            final(self).cleanup_failed == (old(self).cleanup_failed || (old(self).phase
                == Phase::RemoveStaging && ev is Failed)),
    {
        let partitioned = self.partitioned();
        match self.phase {
            Phase::Infer => {
                match ev {
                    Event::Inferred(sc) => self.on_inferred(sc, partitioned),
                    Event::Succeeded => {
                        self.error = Some(IngestError::SchemaInferenceFailed);
                        self.phase = Phase::Done;
                    },
                    Event::Failed(e) => {
                        self.error = Some(e);
                        self.phase = Phase::Done;
                    },
                }
            },
            Phase::Done => {},
            Phase::RemoveStaging => {
                if let Event::Failed(_) = ev {
                    self.cleanup_failed = true;
                }
                self.phase = Phase::Done;
            },
            phase => {
                let ok = match ev {
                    Event::Failed(e) => {
                        if self.error.is_none() {
                            self.error = Some(e);
                        }
                        false
                    },
                    _ => true,
                };
                self.phase = match phase {
                    Phase::DeleteTarget => if ok {
                        Phase::WriteTarget
                    } else {
                        Phase::Done
                    },
                    Phase::WriteStaging => if ok {
                        Phase::DeletePartitions
                    } else {
                        Phase::RemoveStaging
                    },
                    Phase::DeletePartitions => if ok {
                        Phase::WritePartitions
                    } else {
                        Phase::RemoveStaging
                    },
                    Phase::WritePartitions => Phase::RemoveStaging,
                    _ => Phase::Done,
                };
            },
        }
    }

    /// `None` while the job runs; once done, `Ok` when no action failed
    /// (a failed staging removal aside), else the first failure.
    pub fn outcome(&self) -> (r: Option<Result<(), IngestError>>)
        ensures
            self.phase != Phase::Done ==> r is None,
            self.phase == Phase::Done ==> r == Some(
                match self.error {
                    None => Ok::<(), IngestError>(()),
                    Some(e) => Err(e),
                },
            ),
    {
        if self.phase != Phase::Done {
            return None;
        }
        match &self.error {
            None => Some(Ok(())),
            Some(e) => Some(Err(copy_error(e))),
        }
    }
}

} // verus!
