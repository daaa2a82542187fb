//! Errors of the document database.
use vstd::prelude::*;
use crate::error::{Error, HexError};

verus! {

/// Errors raised by the database logic.
#[derive(Debug, Clone)]
pub enum DbError {
    /// An error of the vtable or of a field codec.
    VTable(Error),
    VTableIdNotFound,
    /// The database directory is not set in the configuration.
    DirectoryNotSet,
    PageError(String),
    PageLockError(String),
    /// The text of a partition key that does not stand for 16 bytes.
    InvalidPartitionKey(String),
    Hex(HexError),
    DocBufNotFound,
    /// The vtable (by its hex identifier) has as many pages as an index can count.
    MaxPagesReached(String),
    /// A partition file ended in the middle of a record.
    UnexpectedEof,
}

} // verus!
