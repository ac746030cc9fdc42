//! The storage layer's recoverable error values. A missing row is reported
//! to the caller instead of aborting, and uniqueness rules are surfaced as
//! explicit constraint violations.
use vstd::prelude::*;
use vstd::string::StringExecFns;

verus! {

/// Why a storage operation could not be carried out.
#[derive(Debug)]
pub enum StoreError {
    /// A lookup (project by id, file by id, tag by id) found no row.
    NotFound,
    /// A uniqueness rule would be broken: a second project with the same
    /// path, a second file with the same path in one project, or a second
    /// tag with the same text.
    Duplicate,
    /// No fresh row identifier is left to assign.
    IdSpace,
    /// Rows read back from the database do not form a consistent catalog.
    Corrupt,
    /// The underlying database reported an error (its message is kept).
    Db(String),
}

impl Clone for StoreError {
    /// A clone equals the original.
    fn clone(&self) -> (r: Self)
        ensures
            r == *self,
    {
        match self {
            StoreError::NotFound => StoreError::NotFound,
            StoreError::Duplicate => StoreError::Duplicate,
            StoreError::IdSpace => StoreError::IdSpace,
            StoreError::Corrupt => StoreError::Corrupt,
            StoreError::Db(m) => StoreError::Db(m.clone()),
        }
    }
}

impl StoreError {
    /// A short description, for display by the caller.
    pub fn message(&self) -> (r: String)
    {
        match self {
            StoreError::NotFound => String::from_str("no matching record"),
            StoreError::Duplicate => String::from_str("a record with this key already exists"),
            StoreError::IdSpace => String::from_str("no record identifier left"),
            StoreError::Corrupt => String::from_str("the stored rows are inconsistent"),
            StoreError::Db(m) => {
                let mut r = String::from_str("database error: ");
                r.append(m.as_str());
                r
            },
        }
    }
}

} // verus!
