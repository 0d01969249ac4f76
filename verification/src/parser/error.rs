//! Errors reported while parsing.
use vstd::prelude::*;
use vstd::string::StringSliceAdditionalSpecFns;
use vstd::utf8::encode_utf8;
use crate::cli::{Error, Severity};
use crate::tokenizer::{FileLocation, Token};
use crate::tokenizer::stream::{LocationV, location_text};

verus! {

/// The message of a parse error: `Parse Error: <text> at <location>`.
pub open spec fn parse_error_text(loc: LocationV, text: Seq<char>) -> Seq<char> {
    "Parse Error: "@ + text + " at "@ + location_text(loc)
}

pub fn parse_error<T>(location: FileLocation, text: String) -> (r: Result<T, Error>)
    ensures
        r is Err,
        r->Err_0.message_view() == parse_error_text(location@, text@),
        r->Err_0.severity_view() == Severity::Error,
{
    let mut msg = String::from_str("Parse Error: ");
    msg.append(text.as_str());
    msg.append(" at ");
    let loc = location.render();
    msg.append(loc.as_str());
    Err(Error::error(msg.as_str()))
}

pub fn expected_got_error<T>(expected: &str, got: &Token) -> (r: Result<T, Error>)
    ensures
        r is Err,
        r->Err_0.message_view() == parse_error_text(
            got@.location,
            "Expected "@ + expected@ + ", got '"@ + got@.data + "'"@,
        ),
        r->Err_0.severity_view() == Severity::Error,
{
    let mut text = String::from_str("Expected ");
    text.append(expected);
    text.append(", got '");
    text.append(got.data.as_str());
    text.append("'");
    parse_error(got.location.clone(), text)
}

pub fn unexpected_eof_error<T>(expected: &str, last: &Token) -> (r: Result<T, Error>)
    requires
        last@.location.col + encode_utf8(last@.data).len() <= usize::MAX,
    ensures
        r is Err,
        r->Err_0.message_view() == parse_error_text(
            LocationV {
                col: (last@.location.col + encode_utf8(last@.data).len()) as usize,
                ..last@.location
            },
            "Unexpected EOF while parsing, expected "@ + expected@,
        ),
        r->Err_0.severity_view() == Severity::Error,
{
    let mut loc = last.location.clone();
    let st = last.data.as_str();
    let n = st.len();
    assert(st@ == last@.data);
    assert(n == encode_utf8(last@.data).len());
    loc.col = loc.col + n;
    let mut text = String::from_str("Unexpected EOF while parsing, expected ");
    text.append(expected);
    parse_error(loc, text)
}

} // verus!
