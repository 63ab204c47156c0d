//! The errors of the storage, and how failures of reading and parsing the
//! backing file become one of them.

use vstd::prelude::*;
use vstd::string::*;

use crate::model::{error_text, ErrorView};

verus! {

/// `std::io::Error`, carried through as it came.
#[verifier::external_type_specification]
#[verifier::external_body]
pub struct ExIoError(std::io::Error);

/// `serde_json::Error`, carried through as it came.
#[verifier::external_type_specification]
#[verifier::external_body]
pub struct ExJsonError(serde_json::Error);

#[derive(Debug)]
pub enum StorageError {
    /// The backing file does not exist.
    NoSuchFile,
    /// The abbreviation is not stored, or it has no item at the given position.
    NoSuchItem,
    /// The abbreviation has several items and no id says which is meant.
    AmbiguousItem,
    /// The backing file does not hold a storage.
    ParsingProblem(String),
    /// The abbreviation already has an item with this meaning.
    DuplicatePut(String),
    /// Any other failure of reading or writing.
    Other(String),
}

impl View for StorageError {
    type V = ErrorView;

    open spec fn view(&self) -> ErrorView {
        match self {
            StorageError::NoSuchFile => ErrorView::NoSuchFile,
            StorageError::NoSuchItem => ErrorView::NoSuchItem,
            StorageError::AmbiguousItem => ErrorView::AmbiguousItem,
            StorageError::ParsingProblem(s) => ErrorView::ParsingProblem(s@),
            StorageError::DuplicatePut(s) => ErrorView::DuplicatePut(s@),
            StorageError::Other(s) => ErrorView::Other(s@),
        }
    }
}

/// Whether an error of reading or writing says that the file was not found:
/// whether `std::io::Error::kind` gives `ErrorKind::NotFound` for it.
pub uninterp spec fn not_found(error: std::io::Error) -> bool;

/// Asks `std::io::Error::kind` whether the error is `ErrorKind::NotFound`.
/// The answer depends on the error alone; it is named, not described.
#[verifier::external_body]
fn is_not_found(error: &std::io::Error) -> (found: bool)
    ensures
        found == not_found(*error),
{
    matches!(error.kind(), std::io::ErrorKind::NotFound)
}

impl StorageError {
    /// The line that reports this error to the user.
    pub fn to_string(&self) -> (s: String)
        ensures
            s@ == error_text(self@),
    {
        match self {
            StorageError::NoSuchFile => String::from_str(
                "Tried to load a file which doesn't exist",
            ),
            StorageError::NoSuchItem => String::from_str("Item does not exist in storage"),
            StorageError::AmbiguousItem => String::from_str(
                "Not enough information to decide which item, please provide an id",
            ),
            StorageError::ParsingProblem(text) => {
                let mut s = String::from_str("Failed to parse storage: ");
                s.append(text.as_str());
                s
            },
            StorageError::DuplicatePut(name) => {
                let mut s = name.clone();
                s.append(" already exists in storage");
                s
            },
            StorageError::Other(text) => {
                let mut s = String::from_str("Unexpected storage error: ");
                s.append(text.as_str());
                s
            },
        }
    }

    /// The error for a file that could not be read: a missing file is told
    /// apart from every other failure, which keeps its own text.
    pub fn from_read_failure(not_found: bool, text: String) -> (e: StorageError)
        ensures
            e@ == if not_found {
                ErrorView::NoSuchFile
            } else {
                ErrorView::Other(text@)
            },
            !not_found ==> e == StorageError::Other(text),
    {
        if not_found {
            StorageError::NoSuchFile
        } else {
            StorageError::Other(text)
        }
    }
}

impl From<std::io::Error> for StorageError {
    /// A missing file becomes `NoSuchFile`; any other failure becomes `Other`
    /// with the text that the outside error shows itself by.
    fn from(value: std::io::Error) -> (e: StorageError)
        ensures
            not_found(value) ==> e@ is NoSuchFile,
            !not_found(value) ==> (e matches StorageError::Other(text)
                && to_string_from_display_ensures::<std::io::Error>(&value, text)),
    {
        let missing = is_not_found(&value);
        StorageError::from_read_failure(missing, value.to_string())
    }
}

impl vstd::std_specs::convert::FromSpecImpl<std::io::Error> for StorageError {
    /// The text of the outcome is the outside error's own, so no spec
    /// function gives the outcome.
    open spec fn obeys_from_spec() -> bool {
        false
    }

    open spec fn from_spec(value: std::io::Error) -> StorageError {
        arbitrary()
    }
}

impl From<serde_json::Error> for StorageError {
    /// A failure to parse becomes `ParsingProblem` with the text that the
    /// outside error shows itself by.
    fn from(value: serde_json::Error) -> (e: StorageError)
        ensures
            e matches StorageError::ParsingProblem(text) && to_string_from_display_ensures::<
                serde_json::Error,
            >(&value, text),
    {
        StorageError::ParsingProblem(value.to_string())
    }
}

impl vstd::std_specs::convert::FromSpecImpl<serde_json::Error> for StorageError {
    /// The text is the outside error's own, so no spec function gives the
    /// outcome.
    open spec fn obeys_from_spec() -> bool {
        false
    }

    open spec fn from_spec(value: serde_json::Error) -> StorageError {
        arbitrary()
    }
}

} // verus!
