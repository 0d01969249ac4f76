//! Errors reported by the LLVM back end.
use vstd::prelude::*;
use crate::cli::{Error, Severity};
use crate::irgen::errors::{compiler_error_text, expected_got_text};
use crate::parser::ParseTreeNode;

verus! {

/// A compilation error carrying `text`.
pub fn compiler_error<T>(text: String) -> (r: Result<T, Error>)
    ensures
        r is Err,
        r->Err_0.message_view() == compiler_error_text(text@),
        r->Err_0.severity_view() == Severity::Error,
{
    let mut msg = String::from_str("Compilation Error: ");
    msg.append(text.as_str());
    Err(Error::error(msg.as_str()))
}

/// An "expected ..., got ..." compilation error, naming the kind of node found.
pub fn expected_got_error<T>(expected: &str, got: ParseTreeNode) -> (r: Result<T, Error>)
    ensures
        r is Err,
        r->Err_0.message_view() == expected_got_text(expected@, got),
        r->Err_0.severity_view() == Severity::Error,
{
    let got_str = got.variant_name();
    let mut text = String::from_str("Expected ");
    text.append(expected);
    text.append(", got ");
    text.append(got_str.as_str());
    compiler_error(text)
}

} // verus!
