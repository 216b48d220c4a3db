//! The errors of a run.
use vstd::prelude::*;

verus! {

/// A failed pre-flight check.
pub enum ValidationError {
    /// The input folder is not a directory.
    InputPathIsNotDirectory(String),
    /// A required subfolder holds no `png` file.
    NoPngFilesInSubDir(String),
}

/// Any error of a run.
pub enum Errors {
    Validation(ValidationError),
    /// A filesystem operation failed: the operating system's message, and the
    /// path it concerned.
    Io(String, String),
}

/// Every error that a run collected.
pub struct MultipleErrors {
    pub errors: Vec<Errors>,
}

impl Errors {
    pub fn from_io_error(error: String, path: String) -> (r: Errors)
        ensures
            r == Errors::Io(error, path),
    {
        Errors::Io(error, path)
    }
}

impl MultipleErrors {
    pub fn new(errors: Vec<Errors>) -> (r: MultipleErrors)
        ensures
            r.errors == errors,
    {
        MultipleErrors { errors }
    }

    /// The collected errors, in the order they occurred.
    pub fn into_vec(self) -> (r: Vec<Errors>)
        ensures
            r == self.errors,
    {
        self.errors
    }
}

/// Success when nothing went wrong, else every error.
pub fn into_result(errors: Vec<Errors>) -> (r: Result<(), MultipleErrors>)
    ensures
        r is Ok <==> errors@.len() == 0,
        r matches Err(e) ==> e.errors == errors,
{
    if errors.len() == 0 {
        Ok(())
    } else {
        Err(MultipleErrors::new(errors))
    }
}

} // verus!
