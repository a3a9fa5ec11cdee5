//! The errors of the relational index.

use vstd::prelude::*;

verus! {

/// The operation succeeded.
pub const SQLITE_OK: i32 = 0;

/// A table that the operation needs does not exist.
pub const SQLITE_ERROR: i32 = 1;

/// A table cannot take another row.
pub const SQLITE_FULL: i32 = 13;

/// A value does not fit where it is to be stored.
pub const SQLITE_TOOBIG: i32 = 18;

/// A row would break a constraint of its table.
pub const SQLITE_CONSTRAINT: i32 = 19;

/// A row is ready.
pub const SQLITE_ROW: i32 = 100;

/// The statement has finished.
pub const SQLITE_DONE: i32 = 101;

/// A withdrawal found no balance to take from.
pub const SQLITE_CONSTRAINT_CHECK: i32 = 275;

/// A result code of the relational index. The codes are numbered as SQLite
/// numbers its result codes.
#[derive(Debug, Clone, Copy, PartialEq, Eq, Hash, Structural)]
pub struct Error {
    pub code: i32,
}

impl Error {
    /// Wraps the result code `code`.
    pub fn new(code: i32) -> (e: Self)
        ensures
            e.code == code,
    {
        Error { code }
    }

    /// The result code.
    pub fn code(&self) -> (c: i32)
        ensures
            c == self.code,
    {
        self.code
    }

    /// What the result code means, in words, in contracts.
    pub open spec fn spec_message(&self) -> Seq<char> {
        if self.code == SQLITE_OK {
            "not an error"@
        } else if self.code == SQLITE_ERROR {
            "SQL logic error"@
        } else if self.code == SQLITE_FULL {
            "database or disk is full"@
        } else if self.code == SQLITE_TOOBIG {
            "string or blob too big"@
        } else if self.code == SQLITE_CONSTRAINT || self.code == SQLITE_CONSTRAINT_CHECK {
            "constraint failed"@
        } else if self.code == SQLITE_ROW {
            "another row available"@
        } else if self.code == SQLITE_DONE {
            "no more rows available"@
        } else {
            "unknown error"@
        }
    }

    /// What the result code means, in words.
    pub fn message(&self) -> (text: &'static str)
        ensures
            text@ == self.spec_message(),
    {
        if self.code == SQLITE_OK {
            "not an error"
        } else if self.code == SQLITE_ERROR {
            "SQL logic error"
        } else if self.code == SQLITE_FULL {
            "database or disk is full"
        } else if self.code == SQLITE_TOOBIG {
            "string or blob too big"
        } else if self.code == SQLITE_CONSTRAINT || self.code == SQLITE_CONSTRAINT_CHECK {
            "constraint failed"
        } else if self.code == SQLITE_ROW {
            "another row available"
        } else if self.code == SQLITE_DONE {
            "no more rows available"
        } else {
            "unknown error"
        }
    }
}

} // verus!
