//! The records that the store holds, one value of a result column, and the
//! errors that reading them can give.
use vstd::prelude::*;

verus! {

/// A group of classes, with the channel category and the voice channel that
/// it owns.
#[derive(Debug, Clone, PartialEq, Eq)]
pub struct Group {
    pub id: u32,
    pub name: String,
    pub channel_group: u64,
    pub vc: u64,
}

/// A class: its role, its text channel and the group it belongs to, if any.
#[derive(Debug, Clone, PartialEq, Eq)]
pub struct Class {
    pub id: u32,
    pub name: String,
    pub role: u64,
    pub channel: u64,
    pub group: Option<Group>,
}

/// One column of a result row, as the store typed it. A floating-point value
/// is kept only as the fact that it is one: no record field takes it.
#[derive(Debug, Clone, PartialEq)]
pub enum Cell {
    Null,
    Integer(i64),
    Real,
    Text(String),
    Blob(Vec<u8>),
}

#[verifier::external_type_specification]
#[verifier::external_body]
pub struct ExStoreError(rusqlite::Error);

/// Why an operation on the store failed.
#[derive(Debug)]
pub enum DbError {
    /// The store refused to open, prepare or run a statement.
    Store(rusqlite::Error),
    /// A row had fewer columns than its record needs; the index is given.
    InvalidColumnIndex(usize),
    /// A column held a value of the wrong kind (a null where a value is
    /// required, text where an integer is required, and so on).
    InvalidColumnType(usize),
    /// An integer column held a value outside the range of its field.
    IntegralValueOutOfRange(usize, i64),
    /// A text column that holds an identifier was not its decimal text.
    InvalidIdentifier(usize),
}

} // verus!
