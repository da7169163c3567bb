//! The ways in which a registry operation fails.

use vstd::prelude::*;
use vstd::string::StringExecFns;

verus! {

/// Why a registry operation did not take place.
#[derive(Clone, Copy, Debug, PartialEq, Eq, Structural)]
pub enum Error {
    /// The collection name is already registered, or the embedding id is
    /// already present in the target collection.
    UniqueViolation,
    /// The named collection does not exist.
    NotFound,
    /// The length of the vector is not the dimension of the collection.
    DimensionMismatch,
}

impl Error {
    /// The text that describes the error.
    pub open spec fn spec_message(self) -> Seq<char> {
        match self {
            Error::UniqueViolation => "Collection already exists"@,
            Error::NotFound => "Collection doesn't exist"@,
            Error::DimensionMismatch => "The dimension of the vector doesn't match the dimension of the collection"@,
        }
    }

    /// Describes the error in words.
    pub fn message(&self) -> (s: String)
        ensures
            s@ == self.spec_message(),
    {
        match self {
            Error::UniqueViolation => String::from_str("Collection already exists"),
            Error::NotFound => String::from_str("Collection doesn't exist"),
            Error::DimensionMismatch => String::from_str(
                "The dimension of the vector doesn't match the dimension of the collection",
            ),
        }
    }
}

} // verus!
