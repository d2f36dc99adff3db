//! The error taxonomy of the storage core.
//!
//! Every failure a caller can see is one of these kinds; callers are expected
//! to branch on the kind. `ExerciseNotFound` is the one routine outcome (a
//! point lookup that matched nothing); the other kinds report operational
//! failures of the storage engine, of input validation, or of the connection
//! pool.

use vstd::prelude::*;
use vstd::string::StringExecFns;

verus! {

#[derive(Debug, Clone, PartialEq)]
pub enum WeightliftingError {
    /// A failure of the storage engine itself, or of encoding / decoding the
    /// muscle-groups column.
    DatabaseError { message: String },
    /// A point lookup found no record with the requested id.
    ExerciseNotFound { id: String },
    /// An input failed a validation rule before reaching storage.
    InvalidInput { message: String },
    /// Acquiring a connection from the pool failed.
    PoolError { message: String },
}

impl WeightliftingError {
    /// The text of [`Self::message`].
    pub open spec fn spec_message(&self) -> Seq<char> {
        match self {
            WeightliftingError::DatabaseError { message } => "Database error: "@ + message@,
            WeightliftingError::ExerciseNotFound { id } => "Exercise not found with id: "@ + id@,
            WeightliftingError::InvalidInput { message } => "Invalid input: "@ + message@,
            WeightliftingError::PoolError { message } => "Connection pool error: "@ + message@,
        }
    }

    /// A human-readable rendering of the error, kind first.
    pub fn message(&self) -> (r: String)
        ensures
            r@ == self.spec_message(),
    {
        match self {
            WeightliftingError::DatabaseError { message } => String::from_str(
                "Database error: ",
            ).concat(message.as_str()),
            WeightliftingError::ExerciseNotFound { id } => String::from_str(
                "Exercise not found with id: ",
            ).concat(id.as_str()),
            WeightliftingError::InvalidInput { message } => String::from_str(
                "Invalid input: ",
            ).concat(message.as_str()),
            WeightliftingError::PoolError { message } => String::from_str(
                "Connection pool error: ",
            ).concat(message.as_str()),
        }
    }
}

} // verus!
