//! Data types of the intermediate representation.
use vstd::prelude::*;
use crate::text::push_char;

verus! {

/// Non Pointer Type, a raw type
#[derive(Debug, Clone, Copy, PartialEq, Eq, Structural)]
pub enum NonPtrType {
    I8,
    U8,
    I16,
    U16,
    I32,
    U32,
    I64,
    U64,
    Void,
    Bool,
    Unknown,
}

/// A datatype with the possibility of being a pointer and a reference
#[derive(Debug, Clone, Copy, PartialEq, Eq, Structural)]
pub struct DataType {
    pub raw_type: NonPtrType,
    pub num_ptr: usize,
    pub is_ref: bool,
}

impl DeepView for DataType {
    type V = DataType;

    open spec fn deep_view(&self) -> DataType {
        *self
    }
}

/// Whether a raw type is one of the signed integer types.
pub open spec fn is_signed_raw(t: NonPtrType) -> bool {
    t == NonPtrType::I8 || t == NonPtrType::I16 || t == NonPtrType::I32 || t == NonPtrType::I64
}

/// The name of a raw type as it is printed.
pub open spec fn raw_type_text(t: NonPtrType) -> Seq<char> {
    match t {
        NonPtrType::Bool => "i1"@,
        NonPtrType::I8 => "i8"@,
        NonPtrType::U8 => "u8"@,
        NonPtrType::I16 => "i16"@,
        NonPtrType::U16 => "u16"@,
        NonPtrType::I32 => "i32"@,
        NonPtrType::U32 => "u32"@,
        NonPtrType::I64 => "i64"@,
        NonPtrType::U64 => "u64"@,
        NonPtrType::Void => "void"@,
        NonPtrType::Unknown => "Unk"@,
    }
}

/// `n` star characters.
pub open spec fn stars(n: nat) -> Seq<char> {
    Seq::new(n, |_i: int| '*')
}

/// The text of a data type: `&` for a reference, the raw type, then one `*` per pointer level.
pub open spec fn datatype_text(d: DataType) -> Seq<char> {
    (if d.is_ref {
        "&"@
    } else {
        Seq::empty()
    }) + raw_type_text(d.raw_type) + stars(d.num_ptr as nat)
}

/// Appends the name of a raw type.
pub fn append_raw_type(s: &mut String, t: NonPtrType)
    ensures
        final(s)@ == old(s)@ + raw_type_text(t),
{
    match t {
        NonPtrType::Bool => s.append("i1"),
        NonPtrType::I8 => s.append("i8"),
        NonPtrType::U8 => s.append("u8"),
        NonPtrType::I16 => s.append("i16"),
        NonPtrType::U16 => s.append("u16"),
        NonPtrType::I32 => s.append("i32"),
        NonPtrType::U32 => s.append("u32"),
        NonPtrType::I64 => s.append("i64"),
        NonPtrType::U64 => s.append("u64"),
        NonPtrType::Void => s.append("void"),
        NonPtrType::Unknown => s.append("Unk"),
    }
}

impl DataType {
    /// Generate a new datatype object
    pub fn new(raw: NonPtrType, ptrs: usize, is_ref: bool) -> (d: Self)
        ensures
            d == (DataType { raw_type: raw, num_ptr: ptrs, is_ref }),
    {
        Self { raw_type: raw, num_ptr: ptrs, is_ref: is_ref }
    }

    /// Is the datatype signed
    pub fn is_signed(&self) -> (r: bool)
        ensures
            r == (self.num_ptr == 0 && !self.is_ref && is_signed_raw(self.raw_type)),
    {
        if self.num_ptr > 0 || self.is_ref {
            false
        } else {
            match self.raw_type {
                NonPtrType::I8 | NonPtrType::I16 | NonPtrType::I32 | NonPtrType::I64 => true,
                _ => false,
            }
        }
    }

    /// Appends the text of this data type to `s`.
    pub fn append_to(&self, s: &mut String)
        ensures
            final(s)@ == old(s)@ + datatype_text(*self),
    {
        let ghost start = s@;
        if self.is_ref {
            s.append("&");
        }
        append_raw_type(s, self.raw_type);
        let ghost mid = s@;
        let mut i: usize = 0;
        while i < self.num_ptr
            invariant
                i <= self.num_ptr,
                s@ == mid + stars(i as nat),
            decreases self.num_ptr - i,
        {
            push_char(s, '*');
            i = i + 1;
            assert(s@ =~= mid + stars(i as nat));
        }
        proof {
            if !self.is_ref {
                assert(start + raw_type_text(self.raw_type) =~= start + (Seq::<char>::empty()
                    + raw_type_text(self.raw_type)));
            }
            assert(s@ =~= start + datatype_text(*self));
        }
    }

    /// The text of this data type (`&` for a reference, the raw type, one `*` per pointer level).
    pub fn render(&self) -> (s: String)
        ensures
            s@ == datatype_text(*self),
    {
        let mut s = String::new();
        self.append_to(&mut s);
        assert(s@ =~= datatype_text(*self));
        s
    }
}

} // verus!
