//! The error type that every operation of the library returns.
use vstd::prelude::*;

verus! {

/// Why an operation was refused or failed.
#[derive(Debug)]
pub enum FabricLibError {
    /// A rule of the library was broken; the text says which.
    Custom(&'static str),
    /// A resource is used up for now; the same request may succeed later.
    Full,
    /// A system call failed with this error number.
    Errno(i32),
    /// The transport completed an operation with an error.
    CompletionError(String),
}

} // verus!
