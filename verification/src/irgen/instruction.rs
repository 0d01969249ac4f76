//! Instructions of the intermediate representation and the function that holds them.
use vstd::prelude::*;
use super::types::{DataType, NonPtrType, datatype_text};
use crate::table::{Table, TableValue};
use crate::text::{int_text, nat_text, pad_right, pad_right_exec, usize_text, i128_text};

verus! {

#[derive(Debug, Copy, Clone, PartialEq, Eq, Structural)]
pub enum OpCode {
    Alloc,
    Ret,
    Nop,
    Jmp,
    Mov,
    Cne,  // Compare Not Equal
    Ceq,  // Compare Equal
    Clt,  // Compare Less Than
    Cgt,  // Compare Greater Than
    Cle,  // Compare Less than or Equal
    Cge,  // Compare Greater than or Equal
    Bne,  // Branch Not Equals
    Beq,  // Branch Equals
    Blt,
    Bgt,
    Ble,
    Bge,
    Add,
    Sub,
    Mul,
    Div,
    Mod,
    Shl,  // Shift Left
    Shr,  // Shift Right
    And,
    Or,
    Xor,
    Cast,
    Deref,
    Ref,
    Array,
    Push,
    Call,
}

/// The name of an opcode in lower case, as it is printed.
pub open spec fn opcode_text(op: OpCode) -> Seq<char> {
    match op {
        OpCode::Alloc => "alloc"@,
        OpCode::Ret => "ret"@,
        OpCode::Nop => "nop"@,
        OpCode::Jmp => "jmp"@,
        OpCode::Mov => "mov"@,
        OpCode::Cne => "cne"@,
        OpCode::Ceq => "ceq"@,
        OpCode::Clt => "clt"@,
        OpCode::Cgt => "cgt"@,
        OpCode::Cle => "cle"@,
        OpCode::Cge => "cge"@,
        OpCode::Bne => "bne"@,
        OpCode::Beq => "beq"@,
        OpCode::Blt => "blt"@,
        OpCode::Bgt => "bgt"@,
        OpCode::Ble => "ble"@,
        OpCode::Bge => "bge"@,
        OpCode::Add => "add"@,
        OpCode::Sub => "sub"@,
        OpCode::Mul => "mul"@,
        OpCode::Div => "div"@,
        OpCode::Mod => "mod"@,
        OpCode::Shl => "shl"@,
        OpCode::Shr => "shr"@,
        OpCode::And => "and"@,
        OpCode::Or => "or"@,
        OpCode::Xor => "xor"@,
        OpCode::Cast => "cast"@,
        OpCode::Deref => "deref"@,
        OpCode::Ref => "ref"@,
        OpCode::Array => "array"@,
        OpCode::Push => "push"@,
        OpCode::Call => "call"@,
    }
}

/// Whether an opcode is a conditional branch.
pub open spec fn is_branch(op: OpCode) -> bool {
    op == OpCode::Beq || op == OpCode::Bge || op == OpCode::Bgt || op == OpCode::Ble || op
        == OpCode::Blt || op == OpCode::Bne
}

fn append_opcode(s: &mut String, op: OpCode)
    ensures
        final(s)@ == old(s)@ + opcode_text(op),
{
    match op {
        OpCode::Alloc => s.append("alloc"),
        OpCode::Ret => s.append("ret"),
        OpCode::Nop => s.append("nop"),
        OpCode::Jmp => s.append("jmp"),
        OpCode::Mov => s.append("mov"),
        OpCode::Cne => s.append("cne"),
        OpCode::Ceq => s.append("ceq"),
        OpCode::Clt => s.append("clt"),
        OpCode::Cgt => s.append("cgt"),
        OpCode::Cle => s.append("cle"),
        OpCode::Cge => s.append("cge"),
        OpCode::Bne => s.append("bne"),
        OpCode::Beq => s.append("beq"),
        OpCode::Blt => s.append("blt"),
        OpCode::Bgt => s.append("bgt"),
        OpCode::Ble => s.append("ble"),
        OpCode::Bge => s.append("bge"),
        OpCode::Add => s.append("add"),
        OpCode::Sub => s.append("sub"),
        OpCode::Mul => s.append("mul"),
        OpCode::Div => s.append("div"),
        OpCode::Mod => s.append("mod"),
        OpCode::Shl => s.append("shl"),
        OpCode::Shr => s.append("shr"),
        OpCode::And => s.append("and"),
        OpCode::Or => s.append("or"),
        OpCode::Xor => s.append("xor"),
        OpCode::Cast => s.append("cast"),
        OpCode::Deref => s.append("deref"),
        OpCode::Ref => s.append("ref"),
        OpCode::Array => s.append("array"),
        OpCode::Push => s.append("push"),
        OpCode::Call => s.append("call"),
    }
}

#[derive(Debug)]
pub struct Symbol {
    pub title: String,
    pub datatype: DataType,
}

/// The mathematical value of a [`Symbol`].
pub struct SymbolV {
    pub title: Seq<char>,
    pub datatype: DataType,
}

impl View for Symbol {
    type V = SymbolV;

    open spec fn view(&self) -> SymbolV {
        SymbolV { title: self.title@, datatype: self.datatype }
    }
}

impl DeepView for Symbol {
    type V = SymbolV;

    open spec fn deep_view(&self) -> SymbolV {
        self@
    }
}

impl Clone for Symbol {
    fn clone(&self) -> (r: Self)
        ensures
            r@ == self@,
    {
        Symbol { title: self.title.clone(), datatype: self.datatype }
    }
}

impl PartialEq for Symbol {
    fn eq(&self, other: &Self) -> (r: bool) {
        self.title == other.title && self.datatype == other.datatype
    }
}

impl vstd::std_specs::cmp::PartialEqSpecImpl for Symbol {
    open spec fn obeys_eq_spec() -> bool {
        true
    }

    open spec fn eq_spec(&self, other: &Self) -> bool {
        self@ == other@
    }
}

impl TableValue for Symbol {
    fn copy_value(&self) -> (r: Self) {
        self.clone()
    }
}

/// Text of a symbol: `%<title> (<type>)`.
pub open spec fn symbol_text(s: SymbolV) -> Seq<char> {
    "%"@ + s.title + " ("@ + datatype_text(s.datatype) + ")"@
}

impl Symbol {
    pub fn new(title: String, datatype: DataType) -> (s: Self)
        ensures
            s@ == (SymbolV { title: title@, datatype }),
    {
        Symbol { title, datatype }
    }

    /// The text of the symbol: `%<title> (<type>)`.
    pub fn render(&self) -> (s: String)
        ensures
            s@ == symbol_text(self@),
    {
        let mut s = String::from_str("%");
        s.append(self.title.as_str());
        s.append(" (");
        self.datatype.append_to(&mut s);
        s.append(")");
        s
    }
}

#[derive(Debug, Clone, Copy, PartialEq, Eq, Structural)]
pub struct Literal {
    pub value: i128,
    pub datatype: DataType,
}

/// Text of a literal: `<value> (<type>)`.
pub open spec fn literal_text(l: Literal) -> Seq<char> {
    int_text(l.value as int) + " ("@ + datatype_text(l.datatype) + ")"@
}

impl Literal {
    pub fn new(value: i128, datatype: DataType) -> (l: Self)
        ensures
            l == (Literal { value, datatype }),
    {
        Literal { value, datatype }
    }

    /// The text of the literal: `<value> (<type>)`.
    pub fn render(&self) -> (s: String)
        ensures
            s@ == literal_text(*self),
    {
        let mut s = i128_text(self.value);
        s.append(" (");
        self.datatype.append_to(&mut s);
        s.append(")");
        s
    }
}

#[derive(Debug)]
pub enum Value {
    Symbol(Symbol),
    Label(String),
    Literal(Literal),
}

/// The mathematical value of a [`Value`].
pub enum ValueV {
    Symbol(SymbolV),
    Label(Seq<char>),
    Literal(Literal),
}

impl View for Value {
    type V = ValueV;

    open spec fn view(&self) -> ValueV {
        match self {
            Value::Symbol(s) => ValueV::Symbol(s@),
            Value::Label(l) => ValueV::Label(l@),
            Value::Literal(l) => ValueV::Literal(*l),
        }
    }
}

impl DeepView for Value {
    type V = ValueV;

    open spec fn deep_view(&self) -> ValueV {
        self@
    }
}

impl Clone for Value {
    fn clone(&self) -> (r: Self)
        ensures
            r@ == self@,
    {
        match self {
            Value::Symbol(s) => Value::Symbol(s.clone()),
            Value::Label(l) => Value::Label(l.clone()),
            Value::Literal(l) => Value::Literal(*l),
        }
    }
}

impl PartialEq for Value {
    fn eq(&self, other: &Self) -> (r: bool) {
        match (self, other) {
            (Value::Symbol(a), Value::Symbol(b)) => a.title == b.title && a.datatype == b.datatype,
            (Value::Label(a), Value::Label(b)) => *a == *b,
            (Value::Literal(a), Value::Literal(b)) => a.value == b.value && a.datatype == b.datatype,
            _ => false,
        }
    }
}

impl vstd::std_specs::cmp::PartialEqSpecImpl for Value {
    open spec fn obeys_eq_spec() -> bool {
        true
    }

    open spec fn eq_spec(&self, other: &Self) -> bool {
        self@ == other@
    }
}

/// Text of a value: a symbol or literal with its type, or a label name.
pub open spec fn value_text(v: ValueV) -> Seq<char> {
    match v {
        ValueV::Symbol(s) => symbol_text(s),
        ValueV::Label(l) => l,
        ValueV::Literal(l) => literal_text(l),
    }
}

impl Value {
    /// The text of the value: a symbol or literal with its type, or a label name.
    pub fn render(&self) -> (s: String)
        ensures
            s@ == value_text(self@),
    {
        match self {
            Value::Symbol(symb) => symb.render(),
            Value::Label(l) => l.clone(),
            Value::Literal(lit) => lit.render(),
        }
    }
}

#[derive(Debug)]
pub struct Instruction {
    pub opcode: OpCode,
    pub arguments: Vec<Value>,
}

/// The mathematical value of an [`Instruction`].
pub struct InstructionV {
    pub opcode: OpCode,
    pub arguments: Seq<ValueV>,
}

/// The views of a sequence of values.
pub open spec fn values_view(vs: Seq<Value>) -> Seq<ValueV> {
    vs.map_values(|v: Value| v@)
}

impl View for Instruction {
    type V = InstructionV;

    open spec fn view(&self) -> InstructionV {
        InstructionV { opcode: self.opcode, arguments: values_view(self.arguments@) }
    }
}

impl DeepView for Instruction {
    type V = InstructionV;

    open spec fn deep_view(&self) -> InstructionV {
        self@
    }
}

/// Copies a sequence of values.
pub fn clone_values(vs: &Vec<Value>) -> (r: Vec<Value>)
    ensures
        values_view(r@) == values_view(vs@),
{
    let mut r: Vec<Value> = Vec::new();
    let mut i: usize = 0;
    while i < vs.len()
        invariant
            i <= vs.len(),
            r@.len() == i,
            forall|j: int| 0 <= j < i ==> #[trigger] r@[j]@ == vs@[j]@,
        decreases vs.len() - i,
    {
        r.push(vs[i].clone());
        i = i + 1;
    }
    assert(values_view(r@) =~= values_view(vs@));
    r
}

impl Clone for Instruction {
    fn clone(&self) -> (r: Self)
        ensures
            r@ == self@,
    {
        Instruction { opcode: self.opcode, arguments: clone_values(&self.arguments) }
    }
}

/// Text of the arguments, each padded to 15 characters.
pub open spec fn arguments_text(args: Seq<ValueV>) -> Seq<char>
    decreases args.len(),
{
    if args.len() == 0 {
        Seq::empty()
    } else {
        arguments_text(args.drop_last()) + pad_right(value_text(args.last()), 15)
    }
}

/// Text of an instruction: the opcode padded to 7 characters, then each argument padded to 15.
pub open spec fn instruction_text(i: InstructionV) -> Seq<char> {
    pad_right(opcode_text(i.opcode), 7) + arguments_text(i.arguments)
}

impl Instruction {
    pub fn new(opcode: OpCode, arguments: Vec<Value>) -> (i: Self)
        ensures
            i@ == (InstructionV { opcode, arguments: values_view(arguments@) }),
    {
        Self { opcode, arguments }
    }

    /// The text of the instruction: the opcode padded to 7 characters, then each argument padded to 15.
    pub fn render(&self) -> (s: String)
        ensures
            s@ == instruction_text(self@),
    {
        let mut name = String::new();
        append_opcode(&mut name, self.opcode);
        let mut s = pad_right_exec(name, 7);
        let ghost head = s@;
        let mut i: usize = 0;
        while i < self.arguments.len()
            invariant
                i <= self.arguments.len(),
                s@ == head + arguments_text(values_view(self.arguments@).take(i as int)),
            decreases self.arguments.len() - i,
        {
            let t = pad_right_exec(self.arguments[i].render(), 15);
            s.append(t.as_str());
            proof {
                let args = values_view(self.arguments@);
                assert(args.take(i + 1).drop_last() =~= args.take(i as int));
                assert(args.take(i + 1).last() == self.arguments@[i as int]@);
            }
            i = i + 1;
        }
        assert(values_view(self.arguments@).take(self.arguments.len() as int) =~= values_view(
            self.arguments@,
        ));
        s
    }
}

} // verus!
