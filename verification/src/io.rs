//! Source files handed to the compiler.
use vstd::prelude::*;
use crate::cli::Error;
use crate::cli::errors::is_error_with;

verus! {

pub struct InputFile {
    pub data: String,
    pub filename: String,
}

/// The message given when a file cannot be read.
pub open spec fn unreadable_text(filename: Seq<char>) -> Seq<char> {
    filename + ": No such file or directory"@
}

/// The contents of file `filename`, given what reading it gave (`None` when
/// it could not be read).
pub fn read_from_file(filename: String, contents: Option<String>) -> (r: Result<String, Error>)
    ensures
        match contents {
            Some(d) => r is Ok && r->Ok_0@ == d@,
            None => is_error_with(r, unreadable_text(filename@)),
        },
{
    match contents {
        Some(v) => Ok(v),
        None => {
            let mut text = filename;
            text.append(": No such file or directory");
            Err(Error::error(text.as_str()))
        },
    }
}

impl InputFile {
    /// The source file `filename`, given what reading it gave (`None` when it
    /// could not be read).
    pub fn new(filename: String, contents: Option<String>) -> (r: Result<Self, Error>)
        ensures
            match contents {
                Some(d) => r is Ok && r->Ok_0.data@ == d@ && r->Ok_0.filename@ == filename@,
                None => is_error_with(r, unreadable_text(filename@)),
            },
    {
        let data = read_from_file(filename.clone(), contents)?;
        Ok(Self { data, filename })
    }
}

} // verus!
