//! Errors reported while generating the intermediate representation.
use vstd::prelude::*;
use crate::cli::{Error, Severity};
use crate::parser::ParseTreeNode;
use crate::parser::node::node_name;
use crate::tokenizer::FileLocation;
use crate::tokenizer::stream::location_text;

verus! {

/// The message of a compilation error.
pub open spec fn compiler_error_text(text: Seq<char>) -> Seq<char> {
    "Compilation Error: "@ + text
}

/// The message of an "expected ..., got ..." compilation error.
pub open spec fn expected_got_text(expected: Seq<char>, got: ParseTreeNode) -> Seq<char> {
    compiler_error_text("Expected "@ + expected + ", got "@ + node_name(got))
}

/// Display a compiler error (from IR code gen)
pub fn compiler_error<T>(text: String) -> (r: Result<T, Error>)
    ensures
        r is Err,
        r->Err_0.message_view() == compiler_error_text(text@),
        r->Err_0.severity_view() == Severity::Error,
{
    let mut msg = String::from_str("Compilation Error: ");
    msg.append(text.as_str());
    Err(Error::error(msg.as_str()))
}

/// Expected, got style error for IR code gen
pub fn expected_got_error<T>(expected: &str, got: ParseTreeNode) -> (r: Result<T, Error>)
    ensures
        r is Err,
        r->Err_0.message_view() == expected_got_text(expected@, got),
        r->Err_0.severity_view() == Severity::Error,
{
    let got_str = got.variant_name();
    let mut text = String::from_str("Expected ");
    text.append(expected);
    text.append(", got ");
    text.append(got_str.as_str());
    compiler_error(text)
}

/// Display the location if the location is known
pub fn compiler_error_loc<T>(text: String, loc: &Option<FileLocation>) -> (r: Result<T, Error>)
    ensures
        r is Err,
        r->Err_0.message_view() == (match loc {
            None => compiler_error_text(text@),
            Some(l) => compiler_error_text(text@ + " at "@ + location_text(l@)),
        }),
        r->Err_0.severity_view() == Severity::Error,
{
    match loc {
        None => compiler_error(text),
        Some(l) => {
            let mut t = text;
            t.append(" at ");
            let lt = l.render();
            t.append(lt.as_str());
            compiler_error(t)
        },
    }
}

} // verus!
