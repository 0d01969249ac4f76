//! Types as LLVM writes them, and their sizes.
use vstd::prelude::*;
use crate::irgen::{DataType, NonPtrType};
use crate::irgen::types::datatype_text;
use crate::text::{replace_char, replace_char_exec};

verus! {

/// The LLVM name of a type: its name with every `u` written `i` (LLVM has
/// no unsigned integer types).
pub open spec fn llvm_type_text(t: DataType) -> Seq<char> {
    replace_char(datatype_text(t), 'u', 'i')
}

/// Convert a type to a string in the format llvm uses (no u32 or u64, just i32, i64 etc.)
pub fn convert_to_llvm(datatype: &DataType) -> (s: String)
    ensures
        s@ == llvm_type_text(*datatype),
{
    let text = datatype.render();
    replace_char_exec(text.as_str(), 'u', 'i')
}

/// The size in bytes of a value of type `t`: 8 for pointers; a type of
/// unknown size has none.
pub open spec fn llvm_size(t: DataType) -> Option<usize> {
    if t.num_ptr > 0 {
        Some(8)
    } else {
        match t.raw_type {
            NonPtrType::I8 | NonPtrType::U8 => Some(1),
            NonPtrType::I16 | NonPtrType::U16 => Some(2),
            NonPtrType::I32 | NonPtrType::U32 => Some(4),
            NonPtrType::I64 | NonPtrType::U64 => Some(8),
            NonPtrType::Void => Some(0),
            NonPtrType::Bool => Some(1),
            NonPtrType::Unknown => None,
        }
    }
}

/// Gets the number of bytes in a type
pub fn bytes_size_of(datatype: &DataType) -> (n: usize)
    requires
        llvm_size(*datatype) is Some,
    ensures
        Some(n) == llvm_size(*datatype),
{
    if datatype.num_ptr > 0 {
        8
    } else {
        match datatype.raw_type {
            NonPtrType::I8 | NonPtrType::U8 => 1,
            NonPtrType::I16 | NonPtrType::U16 => 2,
            NonPtrType::I32 | NonPtrType::U32 => 4,
            NonPtrType::I64 | NonPtrType::U64 => 8,
            NonPtrType::Void => 0,
            _ => 1,
        }
    }
}

} // verus!
