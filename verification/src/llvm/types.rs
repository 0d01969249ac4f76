//! Data types of the LLVM back end.
use vstd::prelude::*;
use crate::irgen::types::stars;
use crate::text::push_char;

verus! {

#[derive(Debug, Clone, Copy, PartialEq, Eq, Structural)]
pub enum NonPtrType {
    I8,
    U8,
    I16,
    U16,
    I32,
    U32,
    I64,
    U64,
    Void,
    Bool,
    Unknown,
}

#[derive(Debug, Clone, Copy, PartialEq, Eq, Structural)]
pub struct DataType {
    pub raw_type: NonPtrType,
    pub num_ptr: usize,
}

impl DeepView for DataType {
    type V = DataType;

    open spec fn deep_view(&self) -> DataType {
        *self
    }
}

/// The name of a raw type as LLVM writes it.
pub open spec fn raw_type_text(t: NonPtrType) -> Seq<char> {
    match t {
        NonPtrType::Bool => "i1"@,
        NonPtrType::I8 => "i8"@,
        NonPtrType::U8 => "u8"@,
        NonPtrType::I16 => "i16"@,
        NonPtrType::U16 => "u16"@,
        NonPtrType::I32 => "i32"@,
        NonPtrType::U32 => "u32"@,
        NonPtrType::I64 => "i64"@,
        NonPtrType::U64 => "u64"@,
        NonPtrType::Void => "void"@,
        NonPtrType::Unknown => "Unk"@,
    }
}

/// The text of a data type: the raw type, then one `*` per pointer level.
pub open spec fn datatype_text(d: DataType) -> Seq<char> {
    raw_type_text(d.raw_type) + stars(d.num_ptr as nat)
}

impl DataType {
    pub fn new(raw: NonPtrType, ptrs: usize) -> (d: Self)
        ensures
            d == (DataType { raw_type: raw, num_ptr: ptrs }),
    {
        Self { raw_type: raw, num_ptr: ptrs }
    }

    /// Appends the text of this data type to `s`.
    pub fn append_to(&self, s: &mut String)
        ensures
            final(s)@ == old(s)@ + datatype_text(*self),
    {
        let ghost start = s@;
        match self.raw_type {
            NonPtrType::Bool => s.append("i1"),
            NonPtrType::I8 => s.append("i8"),
            NonPtrType::U8 => s.append("u8"),
            NonPtrType::I16 => s.append("i16"),
            NonPtrType::U16 => s.append("u16"),
            NonPtrType::I32 => s.append("i32"),
            NonPtrType::U32 => s.append("u32"),
            NonPtrType::I64 => s.append("i64"),
            NonPtrType::U64 => s.append("u64"),
            NonPtrType::Void => s.append("void"),
            NonPtrType::Unknown => s.append("Unk"),
        }
        let ghost mid = s@;
        let mut i: usize = 0;
        while i < self.num_ptr
            invariant
                i <= self.num_ptr,
                s@ == mid + stars(i as nat),
            decreases self.num_ptr - i,
        {
            push_char(s, '*');
            i = i + 1;
            assert(s@ =~= mid + stars(i as nat));
        }
        assert(s@ =~= start + datatype_text(*self));
    }

    /// The text of this data type, as LLVM writes it.
    pub fn render(&self) -> (s: String)
        ensures
            s@ == datatype_text(*self),
    {
        let mut s = String::new();
        self.append_to(&mut s);
        assert(s@ =~= datatype_text(*self));
        s
    }
}

} // verus!
