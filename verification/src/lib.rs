//! A verified persistence core for a catalog of exercise records.
//!
//! The crate models the exercise entity itself (construction, clamping and
//! validation rules), the JSON encoding used for the list-valued column of the
//! on-disk row shape, and a repository that stores records in an embedded
//! SQLite database behind a bounded connection pool.

use vstd::prelude::*;

pub mod error;
pub mod json;
pub mod models;
pub mod repository;

use std::sync::Arc;

pub use crate::error::WeightliftingError;
pub use crate::models::Exercise;
pub use crate::repository::ExerciseRepository;

verus! {

/// Open (or create) a repository backed by the database file at `db_path`.
pub fn create_exercise_repository(db_path: String) -> (r: Result<
    Arc<ExerciseRepository>,
    WeightliftingError,
>)
    ensures
        r matches Err(e) ==> e is PoolError || e is DatabaseError,
{
    ExerciseRepository::new(db_path.as_str())
}

/// Open a fresh in-memory repository, private to the returned handle.
pub fn create_in_memory_repository() -> (r: Result<
    Arc<ExerciseRepository>,
    WeightliftingError,
>)
    ensures
        r matches Err(e) ==> e is PoolError || e is DatabaseError,
{
    ExerciseRepository::new_in_memory()
}

} // verus!
