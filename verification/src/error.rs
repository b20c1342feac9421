//! Query errors. Every failure is caught at the query boundary and turned
//! into an error envelope; none escapes as a panic, and none is fatal to
//! anything but the query that raised it.

use vstd::prelude::*;

verus! {

/// What went wrong while answering a query.
#[derive(Debug)]
pub enum Error {
    /// The backing dataset is missing or unreadable.
    DatasetUnavailable { message: String },
    /// The dataset does not have the expected column shape.
    SchemaMismatch { message: String },
    /// A filter, grouping, join or sort step failed.
    QueryExecutionFailure { message: String },
    /// The result could not be encoded for the wire.
    SerializationFailure { message: String },
}

impl Error {
    /// The human-readable message carried by the error.
    pub open spec fn spec_message(self) -> Seq<char> {
        match self {
            Error::DatasetUnavailable { message } => message@,
            Error::SchemaMismatch { message } => message@,
            Error::QueryExecutionFailure { message } => message@,
            Error::SerializationFailure { message } => message@,
        }
    }

    /// The human-readable message carried by the error.
    pub fn message(&self) -> (r: String)
        ensures
            r@ == self.spec_message(),
    {
        match self {
            Error::DatasetUnavailable { message } => message.clone(),
            Error::SchemaMismatch { message } => message.clone(),
            Error::QueryExecutionFailure { message } => message.clone(),
            Error::SerializationFailure { message } => message.clone(),
        }
    }
}

impl Clone for Error {
    fn clone(&self) -> (r: Self)
        ensures
            r == *self,
    {
        match self {
            Error::DatasetUnavailable { message } => Error::DatasetUnavailable {
                message: message.clone(),
            },
            Error::SchemaMismatch { message } => Error::SchemaMismatch {
                message: message.clone(),
            },
            Error::QueryExecutionFailure { message } => Error::QueryExecutionFailure {
                message: message.clone(),
            },
            Error::SerializationFailure { message } => Error::SerializationFailure {
                message: message.clone(),
            },
        }
    }
}

} // verus!
