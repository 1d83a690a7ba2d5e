//! Failures of the object store.

use vstd::prelude::*;

verus! {

/// Marks a failure of the object store whose cause was reported elsewhere.
#[derive(Debug)]
pub struct S3Error;

/// Why a request to the object store failed.
#[derive(Clone, Copy, Debug, PartialEq, Eq, Structural)]
pub enum StoreError {
    /// The request could not be sent or no answer came back.
    Dispatch,
    /// The store refused the credentials.
    Auth,
    /// The bucket or prefix does not exist.
    NotFound,
}

impl StoreError {
    /// The message shown for this error.
    pub open spec fn text(self) -> Seq<char> {
        match self {
            StoreError::Dispatch => "request to the object store failed"@,
            StoreError::Auth => "the object store refused the credentials"@,
            StoreError::NotFound => "no such bucket or prefix"@,
        }
    }

    /// The message shown for this error.
    pub fn to_string(&self) -> (s: String)
        ensures
            s@ == self.text(),
    {
        match self {
            StoreError::Dispatch => String::from_str("request to the object store failed"),
            StoreError::Auth => String::from_str("the object store refused the credentials"),
            StoreError::NotFound => String::from_str("no such bucket or prefix"),
        }
    }
}

} // verus!
