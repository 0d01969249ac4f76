//! Text pieces of AVR assembly and the sizes of data types on the AVR.
use vstd::prelude::*;
use crate::cli::Error;
use crate::irgen::{DataType, NonPtrType};
use crate::irgen::function::{Function, FunctionV};

verus! {

/// A comment line: `; <data>`.
pub open spec fn comment_text(data: Seq<char>) -> Seq<char> {
    "; "@ + data + "\n"@
}

/// A command line, indented by five spaces.
pub open spec fn command_text(data: Seq<char>) -> Seq<char> {
    "     "@ + data + "\n"@
}

/// A label line: `<data>:`.
pub open spec fn label_text(data: Seq<char>) -> Seq<char> {
    data + ":\n"@
}

/// Generate a comment in avrasm
pub fn generate_comment(data: &str) -> (r: Result<String, Error>)
    ensures
        r is Ok,
        r->Ok_0@ == comment_text(data@),
{
    let mut s = String::from_str("; ");
    s.append(data);
    s.append("\n");
    Ok(s)
}

/// Generate a command in avrasm
pub fn generate_command(data: &str) -> (r: Result<String, Error>)
    ensures
        r is Ok,
        r->Ok_0@ == command_text(data@),
{
    let mut s = String::from_str("     ");
    s.append(data);
    s.append("\n");
    Ok(s)
}

/// Generate a label in avrasm
pub fn generate_label(data: &str) -> (r: Result<String, Error>)
    ensures
        r is Ok,
        r->Ok_0@ == label_text(data@),
{
    let mut s = String::from_str(data);
    s.append(":\n");
    Ok(s)
}

/// Get Label Test for avrasm: the function's name followed by the label.
pub fn get_label(func: &Function, label: &String) -> (r: Result<String, Error>)
    ensures
        r is Ok,
        r->Ok_0@ == func@.name + label@,
{
    let mut s = func.name.clone();
    s.append(label.as_str());
    Ok(s)
}

/// The size in bytes of a value of type `t` on the AVR: one for 8 bit
/// integers, two for 16 bit integers and for pointers; no other type is supported.
pub open spec fn size_of_type(t: DataType) -> Option<usize> {
    if t.num_ptr == 0 {
        match t.raw_type {
            NonPtrType::I8 | NonPtrType::U8 => Some(1),
            NonPtrType::I16 | NonPtrType::U16 => Some(2),
            _ => None,
        }
    } else {
        Some(2)
    }
}

/// Get the size of a datatype
pub fn get_size_datatype(t: DataType) -> (n: usize)
    requires
        size_of_type(t) is Some,
    ensures
        Some(n) == size_of_type(t),
{
    if t.num_ptr == 0 {
        match t.raw_type {
            NonPtrType::I8 | NonPtrType::U8 => 1,
            _ => 2,
        }
    } else {
        2
    }
}

} // verus!
