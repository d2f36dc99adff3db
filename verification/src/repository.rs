//! Durable storage and retrieval of exercise records.
//!
//! The repository owns a bounded pool of connections to one embedded SQLite
//! database (a file, or a private in-memory instance) and exposes the CRUD
//! surface: `add`, point `get`, full scan sorted by name, and `delete`. Every
//! operation acquires one pooled connection for its own duration, so
//! independent callers may use one shared handle concurrently.
//!
//! The calls into the storage engine stand behind trusted wrappers; what the
//! library itself computes around them — the mapping between records and rows,
//! the JSON codec for the muscle-groups column, the error taxonomy, and the
//! not-found asymmetry between `get` and `delete` — is verified. What the
//! engine hands back is checked rather than believed: a looked-up row must
//! carry the requested id, a listing must be in the promised name order, and
//! the muscle-groups column is read strictly — only the canonical spelling
//! this library writes is accepted, and any other text, valid JSON or not, is
//! reported as a database error. On the schema this library creates none of
//! these checks can fail; they guard against a pre-existing database whose
//! `exercises` table was declared differently (another collation, no primary
//! key), which `CREATE TABLE IF NOT EXISTS` leaves in place.

use vstd::prelude::*;
use vstd::string::StrSliceExecFns;
use vstd::string::StringExecFns;

use std::sync::Arc;

use r2d2::Pool;
use r2d2_sqlite::SqliteConnectionManager;

use crate::error::WeightliftingError;
use crate::json::json_decode_strings;
use crate::json::json_encode_strings;
use crate::json::lemma_json_decode_sound;
use crate::json::lemma_json_round_trip;
use crate::json::decode_muscle_groups;
use crate::json::encode_muscle_groups;
use crate::models::Exercise;
use crate::models::ExerciseView;
use crate::models::opt_view;

verus! {

/// The connection pool of an open store: an `r2d2::Pool` of SQLite
/// connections. Declaring the pool type itself needs its connection-manager
/// trait, which verification cannot take, so the pool is held opaquely here
/// and touched only by the trusted wrappers below.
#[verifier::external_body]
struct ConnectionPool {
    pool: Pool<SqliteConnectionManager>,
}

/// One row of the `exercises` table, in the exact persisted shape: the
/// muscle groups as their JSON text column, the difficulty as the integer
/// column.
#[derive(Debug, Clone)]
pub struct ExerciseRow {
    pub id: String,
    pub name: String,
    pub description: Option<String>,
    pub muscle_groups_json: String,
    pub equipment_needed: Option<String>,
    pub difficulty_level: i64,
}

/// The mathematical value of an [`ExerciseRow`].
#[verifier::ext_equal]
pub ghost struct ExerciseRowView {
    pub id: Seq<char>,
    pub name: Seq<char>,
    pub description: Option<Seq<char>>,
    pub muscle_groups_json: Seq<char>,
    pub equipment_needed: Option<Seq<char>>,
    pub difficulty_level: int,
}

impl View for ExerciseRow {
    type V = ExerciseRowView;

    open spec fn view(&self) -> ExerciseRowView {
        ExerciseRowView {
            id: self.id@,
            name: self.name@,
            description: opt_view(self.description),
            muscle_groups_json: self.muscle_groups_json@,
            equipment_needed: opt_view(self.equipment_needed),
            difficulty_level: self.difficulty_level as int,
        }
    }
}

/// The row that `add` writes for a record: every scalar field as itself, the
/// muscle groups as their canonical JSON encoding.
pub open spec fn row_of_exercise(e: ExerciseView) -> ExerciseRowView {
    ExerciseRowView {
        id: e.id,
        name: e.name,
        description: e.description,
        muscle_groups_json: json_encode_strings(e.muscle_groups),
        equipment_needed: e.equipment_needed,
        difficulty_level: e.difficulty_level,
    }
}

/// The record a stored row reads back as: `None` when the muscle-groups
/// column is not a canonical JSON array of strings, or when the stored
/// difficulty cannot fit the record's one-byte field.
pub open spec fn exercise_of_row(r: ExerciseRowView) -> Option<ExerciseView> {
    match json_decode_strings(r.muscle_groups_json) {
        Some(groups) => if 0 <= r.difficulty_level <= 255 {
            Some(
                ExerciseView {
                    id: r.id,
                    name: r.name,
                    description: r.description,
                    muscle_groups: groups,
                    equipment_needed: r.equipment_needed,
                    difficulty_level: r.difficulty_level,
                },
            )
        } else {
            None
        },
        None => None,
    }
}

/// Law (round trip): the row written for a record reads back as that record,
/// every field equal, the muscle groups in their original order.
pub proof fn lemma_row_round_trip(e: ExerciseView)
    requires
        0 <= e.difficulty_level <= 255,
    ensures
        exercise_of_row(row_of_exercise(e)) == Some(e),
{
    lemma_json_round_trip(e.muscle_groups);
}

/// Law (round trip, on whole records): the row written for any record reads
/// back as that record — every field equal, the muscle groups in their
/// original order — with no assumption at all on the record's contents.
pub proof fn lemma_exercise_round_trip(e: Exercise)
    ensures
        exercise_of_row(row_of_exercise(e@)) == Some(e@),
{
    lemma_row_round_trip(e@);
}

/// Law (dual round trip): a stored row that reads back as some record is
/// exactly the row that `add` would write for that record — each record has
/// one stored spelling.
pub proof fn lemma_row_read_is_written(r: ExerciseRowView, e: ExerciseView)
    requires
        exercise_of_row(r) == Some(e),
    ensures
        r == row_of_exercise(e),
{
    lemma_json_decode_sound(r.muscle_groups_json);
    assert(r =~= row_of_exercise(e));
}

/// Lexicographic order on character sequences by code point: the order SQLite
/// gives TEXT columns under the default BINARY collation, since bytewise
/// comparison of UTF-8 agrees with code-point comparison.
pub open spec fn lex_le(a: Seq<char>, b: Seq<char>) -> bool
    decreases a.len(),
{
    if a.len() == 0 {
        true
    } else if b.len() == 0 {
        false
    } else if (a[0] as int) < (b[0] as int) {
        true
    } else if a[0] == b[0] {
        lex_le(a.skip(1), b.skip(1))
    } else {
        false
    }
}

/// The records are in ascending order of name.
pub open spec fn sorted_by_name(es: Seq<Exercise>) -> bool {
    forall|i: int, j: int|
        0 <= i <= j < es.len() ==> #[trigger] lex_le(es[i]@.name, es[j]@.name)
}

/// The order is reflexive: a name is not before itself.
pub proof fn lemma_lex_le_refl(a: Seq<char>)
    ensures
        lex_le(a, a),
    decreases a.len(),
{
    if a.len() > 0 {
        lemma_lex_le_refl(a.skip(1));
    }
}

/// The order is transitive.
pub proof fn lemma_lex_le_trans(a: Seq<char>, b: Seq<char>, c: Seq<char>)
    requires
        lex_le(a, b),
        lex_le(b, c),
    ensures
        lex_le(a, c),
    decreases a.len(),
{
    if a.len() == 0 {
    } else if (a[0] as int) < (c[0] as int) {
    } else {
        assert(a[0] == b[0] && b[0] == c[0]);
        lemma_lex_le_trans(a.skip(1), b.skip(1), c.skip(1));
    }
}

/// A list whose every adjacent pair is in order is in order as a whole.
proof fn lemma_lex_le_chain(es: Seq<Exercise>, i: int, j: int)
    requires
        forall|k: int| 0 < k < es.len() ==> #[trigger] lex_le(es[k - 1]@.name, es[k]@.name),
        0 <= i <= j < es.len(),
    ensures
        lex_le(es[i]@.name, es[j]@.name),
    decreases j - i,
{
    if i == j {
        lemma_lex_le_refl(es[i]@.name);
    } else {
        lemma_lex_le_chain(es, i, j - 1);
        assert(lex_le(es[j - 1]@.name, es[j]@.name));
        lemma_lex_le_trans(es[i]@.name, es[j - 1]@.name, es[j]@.name);
    }
}

/// Compare two names in the order of [`lex_le`].
fn lex_le_check(a: &str, b: &str) -> (r: bool)
    ensures
        r == lex_le(a@, b@),
{
    let na = a.unicode_len();
    let nb = b.unicode_len();
    proof {
        assert(a@.skip(0) =~= a@);
        assert(b@.skip(0) =~= b@);
    }
    let mut i: usize = 0;
    loop
        invariant
            i <= na,
            i <= nb,
            na == a@.len(),
            nb == b@.len(),
            lex_le(a@, b@) == lex_le(a@.skip(i as int), b@.skip(i as int)),
        decreases na - i,
    {
        proof {
            assert(a@.skip(i as int).len() == na - i);
            assert(b@.skip(i as int).len() == nb - i);
        }
        if i == na {
            return true;
        }
        if i == nb {
            return false;
        }
        let ca = a.get_char(i);
        let cb = b.get_char(i);
        assert(a@.skip(i as int)[0] == ca && b@.skip(i as int)[0] == cb);
        if (ca as u32) < (cb as u32) {
            return true;
        }
        if ca != cb {
            return false;
        }
        proof {
            assert(a@.skip(i as int).skip(1) =~= a@.skip(i as int + 1));
            assert(b@.skip(i as int).skip(1) =~= b@.skip(i as int + 1));
        }
        i += 1;
    }
}

/// Decide whether a listing is in ascending order of name. The repository
/// promises this order of `list_all`, so it checks it rather than trusting
/// the engine's collation.
pub fn sorted_by_name_check(es: &Vec<Exercise>) -> (r: bool)
    ensures
        r == sorted_by_name(es@),
{
    if es.len() < 2 {
        proof {
            assert forall|i: int, j: int|
                0 <= i <= j < es@.len() implies #[trigger] lex_le(
                es@[i]@.name,
                es@[j]@.name,
            ) by {
                lemma_lex_le_refl(es@[i]@.name);
            }
        }
        return true;
    }
    let mut k: usize = 1;
    while k < es.len()
        invariant
            1 <= k <= es@.len(),
            forall|m: int| 0 < m < k ==> #[trigger] lex_le(es@[m - 1]@.name, es@[m]@.name),
        decreases es@.len() - k,
    {
        if !lex_le_check(es[k - 1].name.as_str(), es[k].name.as_str()) {
            assert(!lex_le(es@[k - 1]@.name, es@[k as int]@.name));
            return false;
        }
        k += 1;
    }
    proof {
        assert forall|i: int, j: int|
            0 <= i <= j < es@.len() implies #[trigger] lex_le(es@[i]@.name, es@[j]@.name) by {
            lemma_lex_le_chain(es@, i, j);
        }
    }
    true
}

/// Interpret the engine's count of removed rows: the record was present, and
/// was removed, exactly when at least one row went.
pub fn rows_removed(n: usize) -> (b: bool)
    ensures
        b == (n > 0),
{
    n > 0
}

/// How a storage call failed: acquiring a pooled connection, or executing the
/// statement.
pub enum StoreFailure {
    Pool(String),
    Sql(String),
}

/// Fold a storage failure into the error taxonomy: pool failures keep their
/// own kind, everything the engine itself reports is a database error.
fn store_error(f: StoreFailure) -> (r: WeightliftingError)
    ensures
        match f {
            StoreFailure::Pool(m) => r == WeightliftingError::PoolError { message: m },
            StoreFailure::Sql(m) => r == WeightliftingError::DatabaseError { message: m },
        },
{
    match f {
        StoreFailure::Pool(m) => WeightliftingError::PoolError { message: m },
        StoreFailure::Sql(m) => WeightliftingError::DatabaseError { message: m },
    }
}

/// Character-by-character string equality.
fn str_eq(a: &str, b: &str) -> (r: bool)
    ensures
        r == (a@ == b@),
{
    let na = a.unicode_len();
    let nb = b.unicode_len();
    if na != nb {
        return false;
    }
    let mut i: usize = 0;
    while i < na
        invariant
            i <= na,
            na == a@.len(),
            na == b@.len(),
            forall|k: int| 0 <= k < i ==> a@[k] == b@[k],
        decreases na - i,
    {
        if a.get_char(i) != b.get_char(i) {
            return false;
        }
        i += 1;
    }
    proof {
        assert(a@ =~= b@);
    }
    true
}

/// Relies on `r2d2::Pool::new` over `SqliteConnectionManager::file`: a bounded
/// pool of connections to the database file at `path`, created if absent.
#[verifier::external_body]
fn sql_open_file_pool(path: &str) -> (r: Result<ConnectionPool, String>) {
    match Pool::new(SqliteConnectionManager::file(path)) {
        Ok(p) => Ok(ConnectionPool { pool: p }),
        Err(e) => Err(e.to_string()),
    }
}

/// Relies on `r2d2::Pool::new` over `SqliteConnectionManager::memory`: a
/// bounded pool of connections that all share one fresh in-memory database,
/// private to this pool and kept alive by it.
#[verifier::external_body]
fn sql_open_memory_pool() -> (r: Result<ConnectionPool, String>) {
    match Pool::new(SqliteConnectionManager::memory()) {
        Ok(p) => Ok(ConnectionPool { pool: p }),
        Err(e) => Err(e.to_string()),
    }
}

/// Relies on `r2d2::Pool::get` and `rusqlite::Connection::execute` running
/// `CREATE TABLE IF NOT EXISTS`: ensures the `exercises` table exists with the
/// persisted schema; an existing table and its rows are left untouched, so
/// opening the same store twice is idempotent.
#[verifier::external_body]
fn sql_create_table(pool: &ConnectionPool) -> (r: Result<(), StoreFailure>) {
    let conn = match pool.pool.get() {
        Ok(c) => c,
        Err(e) => return Err(StoreFailure::Pool(e.to_string())),
    };
    let sql = "CREATE TABLE IF NOT EXISTS exercises (
        id TEXT PRIMARY KEY, name TEXT NOT NULL, description TEXT,
        muscle_groups TEXT NOT NULL, equipment_needed TEXT, difficulty_level INTEGER NOT NULL)";
    match conn.execute(sql, ()) {
        Ok(_) => Ok(()),
        Err(e) => Err(StoreFailure::Sql(e.to_string())),
    }
}

/// Relies on `r2d2::Pool::get` and `rusqlite::Connection::execute` running a
/// single-row INSERT: writes exactly the given row in one implicit
/// transaction, and fails — leaving the table unchanged — if a row with the
/// same `id` already exists, by the primary-key constraint.
#[verifier::external_body]
fn sql_insert_row(pool: &ConnectionPool, row: &ExerciseRow) -> (r: Result<
    (),
    StoreFailure,
>) {
    let conn = match pool.pool.get() {
        Ok(c) => c,
        Err(e) => return Err(StoreFailure::Pool(e.to_string())),
    };
    let sql = "INSERT INTO exercises (id, name, description, muscle_groups, equipment_needed, difficulty_level) VALUES (?1, ?2, ?3, ?4, ?5, ?6)";
    let params = (&row.id, &row.name, &row.description, &row.muscle_groups_json, &row.equipment_needed, row.difficulty_level);
    match conn.execute(sql, params) {
        Ok(_) => Ok(()),
        Err(e) => Err(StoreFailure::Sql(e.to_string())),
    }
}

/// Relies on `r2d2::Pool::get` and `rusqlite::Connection::query_row` running a
/// SELECT by primary key: the row `WHERE id = ?1` matches, or `None` when none
/// does. On the schema this library creates the match is exact string
/// equality, but a pre-existing table may collate its `id` column otherwise,
/// so nothing is promised here: the caller re-checks the returned id itself.
#[verifier::external_body]
fn sql_select_row(pool: &ConnectionPool, id: &str) -> (r: Result<
    Option<ExerciseRow>,
    StoreFailure,
>) {
    let conn = match pool.pool.get() {
        Ok(c) => c,
        Err(e) => return Err(StoreFailure::Pool(e.to_string())),
    };
    let sql = "SELECT id, name, description, muscle_groups, equipment_needed, difficulty_level FROM exercises WHERE id = ?1";
    let run = conn.query_row(sql, (id,), |row| Ok(ExerciseRow {
        id: row.get(0)?, name: row.get(1)?, description: row.get(2)?, muscle_groups_json: row.get(3)?,
        equipment_needed: row.get(4)?, difficulty_level: row.get(5)?,
    }));
    match run {
        Ok(row) => Ok(Some(row)),
        Err(rusqlite::Error::QueryReturnedNoRows) => Ok(None),
        Err(e) => Err(StoreFailure::Sql(e.to_string())),
    }
}

/// Relies on `r2d2::Pool::get`, `rusqlite::Connection::prepare` and
/// `Statement::query_map` running `SELECT ... ORDER BY name`: every row of the
/// table, in ascending order of the `name` column under that column's
/// collation. On the schema this library creates that is bytewise UTF-8 order,
/// but a pre-existing table may collate otherwise, so nothing is promised
/// here: the caller checks the order it itself promises.
#[verifier::external_body]
fn sql_select_all_rows(pool: &ConnectionPool) -> (r: Result<
    Vec<ExerciseRow>,
    StoreFailure,
>) {
    let conn = match pool.pool.get() {
        Ok(c) => c,
        Err(e) => return Err(StoreFailure::Pool(e.to_string())),
    };
    let sql = "SELECT id, name, description, muscle_groups, equipment_needed, difficulty_level FROM exercises ORDER BY name";
    let run = conn.prepare(sql).and_then(|mut stmt| {
        stmt.query_map((), |row| Ok(ExerciseRow {
            id: row.get(0)?, name: row.get(1)?, description: row.get(2)?, muscle_groups_json: row.get(3)?,
            equipment_needed: row.get(4)?, difficulty_level: row.get(5)?,
        }))?.collect::<Result<Vec<ExerciseRow>, rusqlite::Error>>()
    });
    match run {
        Ok(rows) => Ok(rows),
        Err(e) => Err(StoreFailure::Sql(e.to_string())),
    }
}

/// Relies on `r2d2::Pool::get` and `rusqlite::Connection::execute` running a
/// DELETE by key: removes every row `WHERE id = ?1` matches and returns how
/// many rows went — at most one on the schema this library creates, though
/// nothing here depends on that.
#[verifier::external_body]
fn sql_delete_row(pool: &ConnectionPool, id: &str) -> (r: Result<
    usize,
    StoreFailure,
>) {
    let conn = match pool.pool.get() {
        Ok(c) => c,
        Err(e) => return Err(StoreFailure::Pool(e.to_string())),
    };
    match conn.execute("DELETE FROM exercises WHERE id = ?1", (id,)) {
        Ok(n) => Ok(n),
        Err(e) => Err(StoreFailure::Sql(e.to_string())),
    }
}

/// Clone an optional string.
fn clone_opt(o: &Option<String>) -> (r: Option<String>)
    ensures
        r == *o,
{
    match o {
        Some(s) => Some(s.clone()),
        None => None,
    }
}

/// The row that [`ExerciseRepository::add_exercise`] writes for a record.
pub fn exercise_to_row(e: &Exercise) -> (r: ExerciseRow)
    ensures
        r@ == row_of_exercise(e@),
{
    ExerciseRow {
        id: e.id.clone(),
        name: e.name.clone(),
        description: clone_opt(&e.description),
        muscle_groups_json: encode_muscle_groups(&e.muscle_groups),
        equipment_needed: clone_opt(&e.equipment_needed),
        difficulty_level: e.difficulty_level as i64,
    }
}

/// Read a stored row back as a record; a row whose muscle-groups column is
/// not a canonical encoding, or whose difficulty cannot fit the record, is
/// reported as a database error.
pub fn row_to_exercise(row: &ExerciseRow) -> (r: Result<Exercise, WeightliftingError>)
    ensures
        match r {
            Ok(e) => exercise_of_row(row@) == Some(e@),
            Err(err) => exercise_of_row(row@) is None && err is DatabaseError,
        },
{
    let groups = match decode_muscle_groups(row.muscle_groups_json.as_str()) {
        Some(g) => g,
        None => {
            return Err(
                WeightliftingError::DatabaseError {
                    message: String::from_str(
                        "stored muscle groups are not a JSON array of strings",
                    ),
                },
            );
        },
    };
    if row.difficulty_level < 0 || row.difficulty_level > 255 {
        return Err(
            WeightliftingError::DatabaseError {
                message: String::from_str("stored difficulty level is out of range"),
            },
        );
    }
    Ok(
        Exercise {
            id: row.id.clone(),
            name: row.name.clone(),
            description: clone_opt(&row.description),
            muscle_groups: groups,
            equipment_needed: clone_opt(&row.equipment_needed),
            difficulty_level: row.difficulty_level as u8,
        },
    )
}

/// Decode a batch of stored rows, in order; the first corrupt row aborts the
/// whole read with one database error.
pub fn exercises_from_rows(rows: &Vec<ExerciseRow>) -> (r: Result<
    Vec<Exercise>,
    WeightliftingError,
>)
    ensures
        match r {
            Ok(v) => {
                &&& v@.len() == rows@.len()
                &&& forall|i: int|
                    0 <= i < rows@.len() ==> exercise_of_row(#[trigger] rows@[i]@) == Some(
                        v@[i]@,
                    )
            },
            Err(e) => {
                &&& e is DatabaseError
                &&& exists|i: int|
                    0 <= i < rows@.len() && exercise_of_row(#[trigger] rows@[i]@) is None
            },
        },
{
    let mut out: Vec<Exercise> = Vec::new();
    let mut k: usize = 0;
    while k < rows.len()
        invariant
            k <= rows@.len(),
            out@.len() == k,
            forall|i: int|
                0 <= i < k ==> exercise_of_row(#[trigger] rows@[i]@) == Some(out@[i]@),
        decreases rows@.len() - k,
    {
        let e = match row_to_exercise(&rows[k]) {
            Ok(e) => e,
            Err(err) => {
                return Err(err);
            },
        };
        out.push(e);
        k += 1;
    }
    Ok(out)
}

/// Interpret the outcome of a point lookup: an absent row is exactly the
/// not-found error carrying the requested id; a present row decodes to the
/// record, or reports the stored value as corrupt.
pub fn exercise_from_lookup(found: Option<ExerciseRow>, id: String) -> (r: Result<
    Exercise,
    WeightliftingError,
>)
    ensures
        match found {
            None => r matches Err(e) && e matches WeightliftingError::ExerciseNotFound {
                id: i,
            } && i@ == id@,
            Some(row) => match r {
                Ok(e) => exercise_of_row(row@) == Some(e@),
                Err(err) => err is DatabaseError && exercise_of_row(row@) is None,
            },
        },
{
    match found {
        None => Err(WeightliftingError::ExerciseNotFound { id }),
        Some(row) => row_to_exercise(&row),
    }
}

/// The repository: one shared handle on a bounded pool of connections to one
/// backing store. The handle is reference counted, so cloning it shares the
/// pool instead of opening a new one.
pub struct ExerciseRepository {
    pool: ConnectionPool,
}

impl ExerciseRepository {
    /// Open (or create) the store at `db_path` and make sure the `exercises`
    /// table exists; opening an already-populated store leaves its rows as
    /// they are. The path `:memory:` opens a fresh in-memory store instead,
    /// private to the returned handle.
    pub fn new(db_path: &str) -> (r: Result<Arc<Self>, WeightliftingError>)
        ensures
            r matches Err(e) ==> e is PoolError || e is DatabaseError,
    {
        let opened = if str_eq(db_path, ":memory:") {
            sql_open_memory_pool()
        } else {
            sql_open_file_pool(db_path)
        };
        let pool = match opened {
            Ok(p) => p,
            Err(m) => return Err(WeightliftingError::PoolError { message: m }),
        };
        let repo = ExerciseRepository { pool };
        match sql_create_table(&repo.pool) {
            Ok(()) => Ok(Arc::new(repo)),
            Err(f) => Err(store_error(f)),
        }
    }

    /// Open a fresh in-memory store, private to the returned handle.
    pub fn new_in_memory() -> (r: Result<Arc<Self>, WeightliftingError>)
        ensures
            r matches Err(e) ==> e is PoolError || e is DatabaseError,
    {
        Self::new(":memory:")
    }

    /// Persist one record as one row, in a single implicit transaction. The
    /// write fails with a database error if a record with the same id already
    /// exists, and with a pool error if no connection could be acquired; the
    /// record's data itself is never rejected here.
    pub fn add_exercise(&self, exercise: Exercise) -> (r: Result<(), WeightliftingError>)
        ensures
            r matches Err(e) ==> e is DatabaseError || e is PoolError,
    {
        let row = exercise_to_row(&exercise);
        match sql_insert_row(&self.pool, &row) {
            Ok(()) => Ok(()),
            Err(f) => Err(store_error(f)),
        }
    }

    /// Point lookup by id. A missing record is reported as the not-found
    /// error carrying this id — the one routine error kind — and a returned
    /// record carries exactly the requested id.
    pub fn get_exercise(&self, id: String) -> (r: Result<Exercise, WeightliftingError>)
        ensures
            r matches Ok(e) ==> e@.id == id@,
            match r {
                Err(WeightliftingError::ExerciseNotFound { id: i }) => i@ == id@,
                _ => true,
            },
            r matches Err(e) ==> e is ExerciseNotFound || e is DatabaseError || e is PoolError,
    {
        let found = match sql_select_row(&self.pool, id.as_str()) {
            Ok(f) => f,
            Err(f) => return Err(store_error(f)),
        };
        if let Some(row) = &found {
            if !str_eq(row.id.as_str(), id.as_str()) {
                return Err(
                    WeightliftingError::DatabaseError {
                        message: String::from_str("store returned a row with a different id"),
                    },
                );
            }
        }
        exercise_from_lookup(found, id)
    }

    /// Every stored record, in ascending order of name. An empty store yields
    /// an empty list, not an error.
    pub fn get_all_exercises(&self) -> (r: Result<Vec<Exercise>, WeightliftingError>)
        ensures
            r matches Ok(v) ==> sorted_by_name(v@),
            r matches Err(e) ==> e is DatabaseError || e is PoolError,
    {
        let rows = match sql_select_all_rows(&self.pool) {
            Ok(rows) => rows,
            Err(f) => return Err(store_error(f)),
        };
        let exercises = match exercises_from_rows(&rows) {
            Ok(v) => v,
            Err(e) => return Err(e),
        };
        if !sorted_by_name_check(&exercises) {
            return Err(
                WeightliftingError::DatabaseError {
                    message: String::from_str("store returned records out of name order"),
                },
            );
        }
        Ok(exercises)
    }

    /// Remove the record with this id if it is present: `true` when a row was
    /// removed, `false` when the id was not found. Unlike `get`, an absent id
    /// is not an error here — only pool and engine failures are.
    pub fn delete_exercise(&self, id: String) -> (r: Result<bool, WeightliftingError>)
        ensures
            r matches Err(e) ==> e is DatabaseError || e is PoolError,
    {
        match sql_delete_row(&self.pool, id.as_str()) {
            Ok(n) => Ok(rows_removed(n)),
            Err(f) => Err(store_error(f)),
        }
    }
}

} // verus!
