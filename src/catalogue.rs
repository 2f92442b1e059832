//! The catalogue: a durable registry of tables and their schemas, kept in a
//! SQLite database reached through a connection pool, and mirrored by an
//! in-memory map from table id to table name.
//!
//! Each table is two durable rows: its schema blob in `sys_schemas` and its
//! metadata in `sys_tables`, which refers to the schema row. Creation inserts
//! both in one transaction and deletion removes both in one transaction; the
//! in-memory map changes only after the transaction has committed. Existence
//! checks go to the in-memory map, which is loaded from the database when the
//! catalogue starts.
use vstd::prelude::*;
use vstd::string::StringExecFns;
use dashmap::DashMap;
use r2d2::{Pool, PooledConnection};
use r2d2_sqlite::SqliteConnectionManager;
use crate::codec::{SchemaVec, parse_schema};

verus! {

// ---------------------------------------------------------------------------
// Outside types
// ---------------------------------------------------------------------------

/// A pool of connections to one SQLite database. (Verus refuses a
/// declaration of `r2d2::Pool`, whose parameter is bound by an outside trait,
/// so the pool is held here out of its sight.)
#[verifier::external_body]
pub struct ConnectionPool {
    pool: Pool<SqliteConnectionManager>,
}

/// One connection taken from a [`ConnectionPool`], returned to it when
/// dropped. (Held out of Verus's sight for the same reason.)
#[verifier::external_body]
pub struct Session {
    conn: PooledConnection<SqliteConnectionManager>,
}

#[verifier::external_type_specification]
#[verifier::external_body]
pub struct ExPoolError(r2d2::Error);

#[verifier::external_type_specification]
#[verifier::external_body]
pub struct ExSqlError(rusqlite::Error);

#[verifier::external_type_specification]
#[verifier::external_body]
#[verifier::reject_recursive_types(K)]
#[verifier::reject_recursive_types(V)]
#[verifier::reject_recursive_types(S)]
pub struct ExDashMap<K, V, S>(DashMap<K, V, S>);

// ---------------------------------------------------------------------------
// The in-memory map from table id to table name
// ---------------------------------------------------------------------------

/// The in-memory map from table id to table name.
pub type TableMap = DashMap<i64, String>;

/// What the in-memory map holds.
pub uninterp spec fn cache_entries(m: TableMap) -> Map<i64, Seq<char>>;

/// Relies on `DashMap::new`: an empty map.
#[verifier::external_body]
fn cache_new() -> (r: TableMap)
    ensures
        cache_entries(r).dom() == Set::<i64>::empty(),
{
    DashMap::new()
}

/// Relies on `DashMap::insert`: afterwards the key maps to the value, and
/// every other key is unchanged.
#[verifier::external_body]
fn cache_insert(m: &mut TableMap, k: i64, v: String)
    ensures
        cache_entries(*final(m)) == cache_entries(*old(m)).insert(k, v@),
{
    m.insert(k, v);
}

/// Relies on `DashMap::remove`: afterwards the key is absent, and every other
/// key is unchanged.
#[verifier::external_body]
fn cache_remove(m: &mut TableMap, k: i64)
    ensures
        cache_entries(*final(m)) == cache_entries(*old(m)).remove(k),
{
    m.remove(&k);
}

/// Relies on `DashMap::get`: the value at the key, if the key is present.
#[verifier::external_body]
fn cache_get(m: &TableMap, k: i64) -> (r: Option<String>)
    ensures
        match r {
            Some(v) => cache_entries(*m).contains_key(k) && cache_entries(*m)[k] == v@,
            None => !cache_entries(*m).contains_key(k),
        },
{
    m.get(&k).map(|e| e.value().clone())
}

/// Relies on `DashMap::iter`: every key of the map, each once, in no
/// particular order.
#[verifier::external_body]
fn cache_keys(m: &TableMap) -> (r: Vec<i64>)
    ensures
        r@.to_set() == cache_entries(*m).dom(),
        r@.no_duplicates(),
{
    m.iter().map(|e| *e.key()).collect()
}

// ---------------------------------------------------------------------------
// The database
// ---------------------------------------------------------------------------

pub const CREATE_SYSTEM_TABLE_SQL: &'static str = "
CREATE TABLE IF NOT EXISTS sys_schemas (
    schema_id INTEGER NOT NULL PRIMARY KEY AUTOINCREMENT,
    schema_bin BLOB NOT NULL,
    versions TEXT NULL,
    table_name TEXT NOT NULL
) STRICT;

CREATE TABLE IF NOT EXISTS sys_tables (
    table_id INTEGER NOT NULL PRIMARY KEY AUTOINCREMENT,
    table_name TEXT NOT NULL UNIQUE,
    table_url_string TEXT NULL,
    schema_id INTEGER NOT NULL,
    partition_string TEXT NULL,
    created_at TEXT DEFAULT CURRENT_TIMESTAMP,
    FOREIGN KEY (schema_id) REFERENCES sys_schemas(schema_id)
) STRICT;
";

pub const DROP_SYSTEM_TABLE_SQL: &'static str = "
DROP TABLE IF EXISTS sys_tables;
DROP TABLE IF EXISTS sys_schemas;
";

pub const INSERT_SYS_SCHEMAS: &'static str = "INSERT INTO sys_schemas (table_name, schema_bin) VALUES (?1, ?2);";

pub const INSERT_SYS_TABLES: &'static str = "INSERT INTO sys_tables (table_name, table_url_string, schema_id) VALUES (?1, ?2, ?3);";

pub const DELETE_SYS_TABLES: &'static str = "DELETE FROM sys_tables WHERE table_id = ?1;";

pub const DELETE_SYS_SCHEMAS: &'static str = "DELETE FROM sys_schemas WHERE table_name = ?1;";

pub const SELECT_SCHEMA_OF_TABLE: &'static str = "SELECT s.schema_bin FROM sys_schemas s JOIN sys_tables t ON t.schema_id = s.schema_id WHERE t.table_id = ?1;";

pub const SELECT_ALL_SCHEMAS: &'static str = "SELECT schema_bin FROM sys_schemas ORDER BY schema_id;";

pub const SELECT_ALL_TABLES: &'static str = "SELECT table_id, table_name FROM sys_tables ORDER BY table_id;";

pub const BEGIN_TRANSACTION: &'static str = "BEGIN IMMEDIATE;";

pub const COMMIT_TRANSACTION: &'static str = "COMMIT;";

pub const ROLLBACK_TRANSACTION: &'static str = "ROLLBACK;";

/// A positional parameter of a statement.
pub enum SqlArg {
    Int(i64),
    Text(String),
    Blob(Vec<u8>),
}

/// Relies on `SqliteConnectionManager::file` and `r2d2::Pool::new`: a pool
/// of connections to the SQLite database file at `path`.
#[verifier::external_body]
fn open_pool(path: &str) -> (r: Result<ConnectionPool, r2d2::Error>) {
    Pool::new(SqliteConnectionManager::file(path)).map(|pool| ConnectionPool { pool })
}

/// Relies on `r2d2::Pool::get`: one connection, returned to the pool when
/// dropped.
#[verifier::external_body]
fn acquire(pool: &ConnectionPool) -> (r: Result<Session, r2d2::Error>) {
    pool.pool.get().map(|conn| Session { conn })
}

/// Relies on `rusqlite::Connection::execute_batch`.
#[verifier::external_body]
fn run_batch(session: &Session, sql: &str) -> (r: Result<
    (),
    rusqlite::Error,
>) {
    session.conn.execute_batch(sql)
}

/// Relies on `rusqlite::Connection::execute`: runs one statement with the
/// positional parameters; returns the number of rows changed.
#[verifier::external_body]
fn run_statement(
    session: &Session,
    sql: &str,
    args: &Vec<SqlArg>,
) -> (r: Result<usize, rusqlite::Error>) {
    let values: Vec<rusqlite::types::Value> = args.iter().map(
        |a| match a {
            SqlArg::Int(i) => rusqlite::types::Value::Integer(*i),
            SqlArg::Text(t) => rusqlite::types::Value::Text(t.clone()),
            SqlArg::Blob(b) => rusqlite::types::Value::Blob(b.clone()),
        },
    ).collect();
    session.conn.execute(sql, rusqlite::params_from_iter(values))
}

/// Relies on `rusqlite::Connection::last_insert_rowid`: the rowid of the
/// latest successful insert on this connection.
#[verifier::external_body]
fn last_rowid(session: &Session) -> (r: i64) {
    session.conn.last_insert_rowid()
}

/// Relies on `rusqlite::Error::sqlite_extended_error_code`: whether the
/// error is a violated UNIQUE constraint, such as a second table of the same
/// name.
#[verifier::external_body]
fn is_unique_violation(e: &rusqlite::Error) -> (r: bool) {
    e.sqlite_extended_error_code() == Some(rusqlite::ffi::SQLITE_CONSTRAINT_UNIQUE)
}

/// Relies on `rusqlite::Connection::query_row`: the first column of the
/// first row as a blob; `None` when the query returns no row.
#[verifier::external_body]
fn query_blob(session: &Session, sql: &str, id: i64) -> (r: Result<
    Option<Vec<u8>>,
    rusqlite::Error,
>) {
    match session.conn.query_row(sql, [id], |row| row.get::<_, Vec<u8>>(0)) {
        Ok(b) => Ok(Some(b)),
        Err(rusqlite::Error::QueryReturnedNoRows) => Ok(None),
        Err(e) => Err(e),
    }
}

/// Relies on `rusqlite::Statement::query_map`: the first column of every row
/// as a blob, in the order the query gives.
#[verifier::external_body]
fn query_blobs(session: &Session, sql: &str) -> (r: Result<
    Vec<Vec<u8>>,
    rusqlite::Error,
>) {
    let mut statement = session.conn.prepare(sql)?;
    let rows = statement.query_map([], |row| row.get::<_, Vec<u8>>(0))?;
    rows.collect()
}

/// Relies on `rusqlite::Statement::query_map`: the first two columns of every
/// row as an integer and a text, in the order the query gives.
#[verifier::external_body]
fn query_id_names(session: &Session, sql: &str) -> (r: Result<
    Vec<(i64, String)>,
    rusqlite::Error,
>) {
    let mut statement = session.conn.prepare(sql)?;
    let rows = statement.query_map([], |row| Ok((row.get::<_, i64>(0)?, row.get::<_, String>(1)?)))?;
    rows.collect()
}

// ---------------------------------------------------------------------------
// The catalogue
// ---------------------------------------------------------------------------

/// Failures of catalogue operations.
#[derive(Clone, Copy, Debug, PartialEq, Eq, Structural, Hash)]
pub enum CatalogError {
    /// A table of that name already exists.
    DuplicateTable,
    /// No table has that id.
    NotFound,
    /// A stored schema does not decode.
    CorruptSchema,
    /// The database failed: no connection, or a statement or commit failed.
    TransactionFailure,
}

/// A table to register: its name, its encoded schema and its storage location.
pub struct Table {
    pub table_name: String,
    pub schema_bin: Vec<u8>,
    pub url: String,
}

/// Where the catalogue's tables are stored.
pub enum RootStoragePath {
    Local(String),
    Cloud(String),
}

/// Configuration of a catalogue.
pub struct RootCatalogueBuilder {
    pub db_path: String,
    pub root_dir: RootStoragePath,
}

/// Whether some id maps to `name`.
pub open spec fn names_cached(m: Map<i64, Seq<char>>, name: Seq<char>) -> bool {
    exists|k: i64| m.contains_key(k) && m[k] == name
}

/// The map from id to name that rows give, a later row for an id replacing an
/// earlier one.
pub open spec fn rows_map(rows: Seq<(i64, String)>) -> Map<i64, Seq<char>>
    decreases rows.len(),
{
    if rows.len() == 0 {
        Map::empty()
    } else {
        rows_map(rows.drop_last()).insert(rows.last().0, rows.last().1@)
    }
}

fn load_tables(rows: Vec<(i64, String)>) -> (r: TableMap)
    ensures
        cache_entries(r) == rows_map(rows@),
{
    let mut m = cache_new();
    let mut i: usize = 0;
    assert(rows@.take(0) =~= Seq::<(i64, String)>::empty());
    assert(cache_entries(m) =~= rows_map(rows@.take(0)));
    while i < rows.len()
        invariant
            i <= rows@.len(),
            cache_entries(m) == rows_map(rows@.take(i as int)),
        decreases rows@.len() - i,
    {
        let (id, name) = (rows[i].0, rows[i].1.clone());
        cache_insert(&mut m, id, name);
        assert(rows@.take(i + 1).drop_last() =~= rows@.take(i as int));
        i = i + 1;
    }
    assert(rows@.take(i as int) =~= rows@);
    m
}

/// The schema a stored blob holds; `CorruptSchema` when it does not decode.
pub fn decode_stored_schema(blob: Vec<u8>) -> (r: Result<SchemaVec, CatalogError>)
    ensures
        match parse_schema(blob@) {
            Some(cols) => r matches Ok(s) && s@ == cols,
            None => r == Err::<SchemaVec, CatalogError>(CatalogError::CorruptSchema),
        },
{
    match SchemaVec::de_serialize_schema(blob) {
        Ok(s) => Ok(s),
        Err(_) => Err(CatalogError::CorruptSchema),
    }
}

/// The schemas that stored blobs hold, in order; `CorruptSchema` as soon as
/// one of them does not decode, with no partial result.
pub fn decode_all(blobs: Vec<Vec<u8>>) -> (r: Result<Vec<SchemaVec>, CatalogError>)
    ensures
        r is Ok <==> forall|i: int| 0 <= i < blobs@.len() ==> (#[trigger] parse_schema(
            blobs@[i]@,
        )) is Some,
        r is Err ==> r == Err::<Vec<SchemaVec>, CatalogError>(CatalogError::CorruptSchema),
        r matches Ok(v) ==> v@.len() == blobs@.len() && forall|i: int|
            0 <= i < blobs@.len() ==> Some(#[trigger] v@[i]@) == parse_schema(blobs@[i]@),
{
    let mut out: Vec<SchemaVec> = Vec::new();
    let mut i: usize = 0;
    while i < blobs.len()
        invariant
            i <= blobs@.len(),
            out@.len() == i,
            forall|j: int| 0 <= j < i ==> Some(#[trigger] out@[j]@) == parse_schema(blobs@[j]@),
        decreases blobs@.len() - i,
    {
        let blob = blobs[i].clone();
        proof {
            assert(blob@ == blobs@[i as int]@) by {
                assert(blob@ =~= blobs@[i as int]@);
            }
        }
        match decode_stored_schema(blob) {
            Ok(s) => {
                out.push(s);
            },
            Err(e) => {
                return Err(e);
            },
        }
        i = i + 1;
    }
    assert forall|j: int| 0 <= j < blobs@.len() implies (#[trigger] parse_schema(
        blobs@[j]@,
    )) is Some by {
        assert(Some(out@[j]@) == parse_schema(blobs@[j]@));
    }
    Ok(out)
}

fn copy_bytes(b: &Vec<u8>) -> (r: Vec<u8>)
    ensures
        r@ == b@,
{
    let mut out: Vec<u8> = Vec::new();
    let mut i: usize = 0;
    while i < b.len()
        invariant
            i <= b@.len(),
            out@ == b@.take(i as int),
        decreases b@.len() - i,
    {
        out.push(b[i]);
        i = i + 1;
        assert(out@ =~= b@.take(i as int));
    }
    assert(b@.take(i as int) =~= b@);
    out
}

/// The parameters of the schema row of a table: its name, then its schema blob.
pub fn schema_row_args(t: &Table) -> (r: Vec<SqlArg>)
    ensures
        r@.len() == 2,
        r@[0] matches SqlArg::Text(n) && n@ == t.table_name@,
        r@[1] matches SqlArg::Blob(b) && b@ == t.schema_bin@,
{
    vec![SqlArg::Text(t.table_name.clone()), SqlArg::Blob(copy_bytes(&t.schema_bin))]
}

/// The parameters of the table row of a table: its name, its storage
/// location, then the id of its schema row.
pub fn table_row_args(t: &Table, schema_id: i64) -> (r: Vec<SqlArg>)
    ensures
        r@.len() == 3,
        r@[0] matches SqlArg::Text(n) && n@ == t.table_name@,
        r@[1] matches SqlArg::Text(u) && u@ == t.url@,
        r@[2] == SqlArg::Int(schema_id),
{
    vec![SqlArg::Text(t.table_name.clone()), SqlArg::Text(t.url.clone()), SqlArg::Int(schema_id)]
}

/// The parameter of the deletion of a table row: the table's id.
pub fn table_delete_args(table_id: i64) -> (r: Vec<SqlArg>)
    ensures
        r@.len() == 1,
        r@[0] == SqlArg::Int(table_id),
{
    vec![SqlArg::Int(table_id)]
}

/// The parameter of the deletion of a schema row: the table's name.
pub fn schema_delete_args(table_name: &String) -> (r: Vec<SqlArg>)
    ensures
        r@.len() == 1,
        r@[0] matches SqlArg::Text(n) && n@ == table_name@,
{
    vec![SqlArg::Text(table_name.clone())]
}

/// The catalogue: the database and the in-memory map from table id to name.
pub struct RootCatalogue {
    db: ConnectionPool,
    pub root_dir: RootStoragePath,
    tables: TableMap,
}

impl RootCatalogueBuilder {
    /// The database `db.db` and local storage under `db/`.
    pub fn new() -> (r: Self)
        ensures
            r.db_path@ == "db.db"@,
            r.root_dir matches RootStoragePath::Local(p) && p@ == "db/"@,
    {
        RootCatalogueBuilder {
            db_path: String::from_str("db.db"),
            root_dir: RootStoragePath::Local(String::from_str("db/")),
        }
    }

    pub fn with_cloud_provider(self, path: String) -> (r: Self)
        ensures
            r.db_path == self.db_path,
            r.root_dir == RootStoragePath::Cloud(path),
    {
        RootCatalogueBuilder { db_path: self.db_path, root_dir: RootStoragePath::Cloud(path) }
    }

    /// The file of the database.
    pub fn with_db_path(self, path: String) -> (r: Self)
        ensures
            r.db_path == path,
            r.root_dir == self.root_dir,
    {
        RootCatalogueBuilder { db_path: path, root_dir: self.root_dir }
    }

    /// Opens the database, creates its two tables if they are absent, and
    /// loads every table id and name into the in-memory map.
    pub fn build(self) -> (r: Result<RootCatalogue, CatalogError>)
        ensures
            r matches Ok(c) ==> c.storage_root() == self.root_dir && exists|rows: Seq<(i64, String)>|
                c.cached() == rows_map(rows),
            r is Err ==> r == Err::<RootCatalogue, CatalogError>(CatalogError::TransactionFailure),
    {
        let db = match open_pool(self.db_path.as_str()) {
            Ok(p) => p,
            Err(_) => return Err(CatalogError::TransactionFailure),
        };
        let rows = {
            let session = match acquire(&db) {
                Ok(s) => s,
                Err(_) => return Err(CatalogError::TransactionFailure),
            };
            if run_batch(&session, CREATE_SYSTEM_TABLE_SQL).is_err() {
                return Err(CatalogError::TransactionFailure);
            }
            match query_id_names(&session, SELECT_ALL_TABLES) {
                Ok(rows) => rows,
                Err(_) => return Err(CatalogError::TransactionFailure),
            }
        };
        let ghost loaded = rows@;
        let tables = load_tables(rows);
        let c = RootCatalogue { db, root_dir: self.root_dir, tables };
        assert(c.cached() == rows_map(loaded));
        Ok(c)
    }
}

/// Undoes an open transaction after a failure. A failed rollback leaves
/// nothing committed either: SQLite rolls back a transaction that never
/// commits.
fn abandon(session: &Session) {
    let _ = run_batch(session, ROLLBACK_TRANSACTION);
}

impl RootCatalogue {
    /// The in-memory map from table id to table name.
    pub closed spec fn cached(&self) -> Map<i64, Seq<char>> {
        cache_entries(self.tables)
    }

    /// Where the catalogue's tables are stored.
    pub closed spec fn storage_root(&self) -> RootStoragePath {
        self.root_dir
    }

    /// A catalogue with the default configuration.
    pub fn start() -> (r: Result<RootCatalogue, CatalogError>)
        ensures
            r matches Ok(c) ==> (c.storage_root() matches RootStoragePath::Local(p) && p@ == "db/"@)
                && exists|rows: Seq<(i64, String)>| c.cached() == rows_map(rows),
            r is Err ==> r == Err::<RootCatalogue, CatalogError>(CatalogError::TransactionFailure),
    {
        RootCatalogueBuilder::new().build()
    }

    /// The id of the table of that name, from the in-memory map.
    pub fn table_id(&self, name: &String) -> (r: Option<i64>)
        ensures
            r matches Some(id) ==> self.cached().contains_key(id) && self.cached()[id] == name@,
            r is None ==> !names_cached(self.cached(), name@),
    {
        let keys = cache_keys(&self.tables);
        let ghost m = self.cached();
        let mut i: usize = 0;
        while i < keys.len()
            invariant
                m == self.cached(),
                keys@.to_set() == m.dom(),
                i <= keys@.len(),
                forall|j: int| 0 <= j < i ==> m[#[trigger] keys@[j]] != name@,
            decreases keys@.len() - i,
        {
            match cache_get(&self.tables, keys[i]) {
                Some(v) => {
                    if v == *name {
                        return Some(keys[i]);
                    }
                },
                None => {},
            }
            i = i + 1;
        }
        assert forall|k: i64| m.contains_key(k) implies m[k] != name@ by {
            assert(keys@.to_set().contains(k));
            let j = choose|j: int| 0 <= j < keys@.len() && keys@[j] == k;
            assert(m[keys@[j]] != name@);
        }
        None
    }

    /// Registers a table: its schema row and its table row are inserted in
    /// one transaction, and the id the database gives the table row enters
    /// the in-memory map once the transaction has committed.
    pub fn create_sys_table(&mut self, table: &Table) -> (r: Result<(), CatalogError>)
        ensures
            names_cached(old(self).cached(), table.table_name@) ==> r == Err::<(), CatalogError>(
                CatalogError::DuplicateTable,
            ),
            r is Ok ==> exists|id: i64|
                !old(self).cached().contains_key(id) && final(self).cached() == old(
                    self,
                ).cached().insert(id, table.table_name@),
            r is Err ==> final(self).cached() == old(self).cached(),
            r is Err ==> r == Err::<(), CatalogError>(CatalogError::DuplicateTable) || r == Err::<
                (),
                CatalogError,
            >(CatalogError::TransactionFailure),
    {
        if self.table_id(&table.table_name).is_some() {
            return Err(CatalogError::DuplicateTable);
        }
        let session = match acquire(&self.db) {
            Ok(s) => s,
            Err(_) => return Err(CatalogError::TransactionFailure),
        };
        if run_batch(&session, BEGIN_TRANSACTION).is_err() {
            return Err(CatalogError::TransactionFailure);
        }
        let schema_args = schema_row_args(table);
        if run_statement(&session, INSERT_SYS_SCHEMAS, &schema_args).is_err() {
            abandon(&session);
            return Err(CatalogError::TransactionFailure);
        }
        let schema_id = last_rowid(&session);
        let table_args = table_row_args(table, schema_id);
        match run_statement(&session, INSERT_SYS_TABLES, &table_args) {
            Ok(_) => {},
            Err(e) => {
                abandon(&session);
                if is_unique_violation(&e) {
                    return Err(CatalogError::DuplicateTable);
                }
                return Err(CatalogError::TransactionFailure);
            },
        }
        let table_id = last_rowid(&session);
        if cache_get(&self.tables, table_id).is_some() {
            // The database gave an id the map already holds: it no longer
            // matches the map, and nothing is registered.
            abandon(&session);
            return Err(CatalogError::TransactionFailure);
        }
        if run_batch(&session, COMMIT_TRANSACTION).is_err() {
            abandon(&session);
            return Err(CatalogError::TransactionFailure);
        }
        cache_insert(&mut self.tables, table_id, table.table_name.clone());
        Ok(())
    }

    /// Removes a table: its table row and then its schema row are deleted in
    /// one transaction, and the id leaves the in-memory map once the
    /// transaction has committed.
    pub fn del_sys_table(&mut self, table_id: i64) -> (r: Result<(), CatalogError>)
        ensures
            !old(self).cached().contains_key(table_id) ==> r == Err::<(), CatalogError>(
                CatalogError::NotFound,
            ),
            r is Ok ==> final(self).cached() == old(self).cached().remove(table_id),
            r is Err ==> final(self).cached() == old(self).cached(),
            r is Err ==> r == Err::<(), CatalogError>(CatalogError::NotFound) || r == Err::<
                (),
                CatalogError,
            >(CatalogError::TransactionFailure),
    {
        let name = match cache_get(&self.tables, table_id) {
            Some(n) => n,
            None => return Err(CatalogError::NotFound),
        };
        let session = match acquire(&self.db) {
            Ok(s) => s,
            Err(_) => return Err(CatalogError::TransactionFailure),
        };
        if run_batch(&session, BEGIN_TRANSACTION).is_err() {
            return Err(CatalogError::TransactionFailure);
        }
        let table_args = table_delete_args(table_id);
        match run_statement(&session, DELETE_SYS_TABLES, &table_args) {
            Ok(0) => {
                abandon(&session);
                return Err(CatalogError::NotFound);
            },
            Ok(_) => {},
            Err(_) => {
                abandon(&session);
                return Err(CatalogError::TransactionFailure);
            },
        }
        let schema_args = schema_delete_args(&name);
        if run_statement(&session, DELETE_SYS_SCHEMAS, &schema_args).is_err() {
            abandon(&session);
            return Err(CatalogError::TransactionFailure);
        }
        if run_batch(&session, COMMIT_TRANSACTION).is_err() {
            abandon(&session);
            return Err(CatalogError::TransactionFailure);
        }
        cache_remove(&mut self.tables, table_id);
        Ok(())
    }

    /// The schema of a table; `NotFound` for an id the catalogue does not
    /// hold, `CorruptSchema` when the stored blob does not decode.
    pub fn get_table_schema(&self, table_id: &i64) -> (r: Result<SchemaVec, CatalogError>)
        ensures
            !self.cached().contains_key(*table_id) ==> r == Err::<SchemaVec, CatalogError>(
                CatalogError::NotFound,
            ),
            r matches Ok(s) ==> exists|b: Seq<u8>| parse_schema(b) == Some(s@),
            r matches Err(e) ==> e == CatalogError::NotFound || e == CatalogError::CorruptSchema
                || e == CatalogError::TransactionFailure,
    {
        if cache_get(&self.tables, *table_id).is_none() {
            return Err(CatalogError::NotFound);
        }
        let session = match acquire(&self.db) {
            Ok(s) => s,
            Err(_) => return Err(CatalogError::TransactionFailure),
        };
        match query_blob(&session, SELECT_SCHEMA_OF_TABLE, *table_id) {
            Ok(Some(blob)) => {
                let ghost b = blob@;
                let r = decode_stored_schema(blob);
                proof {
                    if r is Ok {
                        assert(parse_schema(b) == Some(r->Ok_0@));
                    }
                }
                r
            },
            Ok(None) => Err(CatalogError::NotFound),
            Err(_) => Err(CatalogError::TransactionFailure),
        }
    }

    /// Every stored schema, in the order of the database; a single one that
    /// does not decode fails the whole listing with `CorruptSchema`.
    pub fn list_tables_schemas(&self) -> (r: Result<Vec<SchemaVec>, CatalogError>)
        ensures
            r matches Ok(v) ==> forall|i: int|
                0 <= i < v@.len() ==> exists|b: Seq<u8>| parse_schema(b) == Some(#[trigger] v@[i]@),
            r matches Err(e) ==> e == CatalogError::CorruptSchema || e
                == CatalogError::TransactionFailure,
    {
        let session = match acquire(&self.db) {
            Ok(s) => s,
            Err(_) => return Err(CatalogError::TransactionFailure),
        };
        let blobs = match query_blobs(&session, SELECT_ALL_SCHEMAS) {
            Ok(b) => b,
            Err(_) => return Err(CatalogError::TransactionFailure),
        };
        let ghost bs = blobs@;
        let r = decode_all(blobs);
        proof {
            if r is Ok {
                let v = r->Ok_0;
                assert forall|i: int| 0 <= i < v@.len() implies exists|b: Seq<u8>|
                    parse_schema(b) == Some(#[trigger] v@[i]@) by {
                    assert(v@.len() == bs.len());
                    let b = bs[i]@;
                    assert(Some(v@[i]@) == parse_schema(bs[i]@));
                    assert(parse_schema(b) == Some(v@[i]@));
                }
            }
        }
        r
    }

    /// Drops both tables of the database, and with them every row. Meant for
    /// ephemeral catalogues only.
    pub fn destroy(self) -> (r: Result<(), CatalogError>)
        ensures
            r is Err ==> r == Err::<(), CatalogError>(CatalogError::TransactionFailure),
    {
        let session = match acquire(&self.db) {
            Ok(s) => s,
            Err(_) => return Err(CatalogError::TransactionFailure),
        };
        match run_batch(&session, DROP_SYSTEM_TABLE_SQL) {
            Ok(()) => Ok(()),
            Err(_) => Err(CatalogError::TransactionFailure),
        }
    }
}

} // verus!
