//! Generation of LLVM IR for one function of the intermediate representation.
use vstd::prelude::*;
use super::utils::{bytes_size_of, convert_to_llvm, llvm_size, llvm_type_text};
use crate::cli::Error;
use crate::irgen::{DataType, Instruction, Literal, NonPtrType, OpCode, Symbol, Value};
use crate::irgen::function::{Function, FunctionV, all_symbols, clone_strings, value_type};
use crate::irgen::instruction::{InstructionV, SymbolV, ValueV, values_view};
use crate::irgen::utils::get_value_type;
use crate::table::Table;
use crate::text::{i128_text, int_text, nat_text, usize_text};

verus! {

/// A value held in llvm
pub struct LLVMValue {
    pub ptr: String,
    pub datatype: DataType,
}

impl DeepView for LLVMValue {
    type V = (Seq<char>, DataType);

    open spec fn deep_view(&self) -> (Seq<char>, DataType) {
        (self.ptr@, self.datatype)
    }
}

/// The type of a pointer to a value of type `t`; none when the pointer
/// count cannot grow.
pub open spec fn pointer_type(t: DataType) -> Option<DataType> {
    if t.num_ptr < usize::MAX {
        Some(DataType { num_ptr: (t.num_ptr + 1) as usize, ..t })
    } else {
        None
    }
}

impl LLVMValue {
    /// Generate a new LLVM Value object
    pub fn new(ptr: String, datatype: DataType) -> (v: Self)
        ensures
            v.deep_view() == (ptr@, datatype),
    {
        Self { ptr, datatype }
    }

    /// Retrieve the datatype of the object
    pub fn get_datatype(&self) -> (t: DataType)
        ensures
            t == self.datatype,
    {
        self.datatype
    }

    /// Retrieve the datatype of the pointer
    pub fn get_pointer_datatype(&self) -> (t: DataType)
        requires
            pointer_type(self.datatype) is Some,
        ensures
            Some(t) == pointer_type(self.datatype),
    {
        let mut datatype = self.get_datatype();
        datatype.num_ptr = datatype.num_ptr + 1;
        datatype
    }
}

/// A wrapper for giving a context to code generation for an LLVM function
pub struct FunctionGenerationContext {
    func: Function,
    values: Table<String, LLVMValue>,
    next_temp: usize,
    result: String,
}

/// The mathematical value of a [`FunctionGenerationContext`]: the function,
/// the stack slot (pointer name and type) of each symbol, the next temporary
/// number, and the text generated so far.
pub struct LlvmContextV {
    pub func: FunctionV,
    pub values: Map<Seq<char>, (Seq<char>, DataType)>,
    pub next_temp: usize,
    pub result: Seq<char>,
}

impl View for FunctionGenerationContext {
    type V = LlvmContextV;

    closed spec fn view(&self) -> LlvmContextV {
        LlvmContextV {
            func: self.func@,
            values: self.values.map(),
            next_temp: self.next_temp,
            result: self.result@,
        }
    }
}

/// `c` with a command line appended.
pub open spec fn with_command(c: LlvmContextV, cmd: Seq<char>) -> LlvmContextV {
    LlvmContextV { result: c.result + "    "@ + cmd + "\n"@, ..c }
}

/// How a label is written as a value.
pub open spec fn label_value_text(l: Seq<char>) -> Seq<char> {
    "label %"@ + l
}

/// `c` with a branch to `label` and the label itself appended.
pub open spec fn with_label(c: LlvmContextV, label: Seq<char>) -> LlvmContextV {
    let c1 = with_command(c, "br "@ + label_value_text(label));
    LlvmContextV { result: c1.result + "\n  "@ + label + ":\n"@, ..c1 }
}

/// The name of temporary number `n`.
pub open spec fn temp_name(n: usize) -> Seq<char> {
    "%V"@ + nat_text(n as nat)
}

/// A fresh temporary and `c` after taking it; none once the counter is exhausted.
pub open spec fn with_temp(c: LlvmContextV) -> Option<(Seq<char>, LlvmContextV)> {
    if c.next_temp < usize::MAX {
        Some((temp_name(c.next_temp), LlvmContextV { next_temp: (c.next_temp + 1) as usize, ..c }))
    } else {
        None
    }
}

/// `c` with a stack slot for `title` of type `t` allocated.
pub open spec fn with_new_value(c: LlvmContextV, title: Seq<char>, t: DataType) -> Option<LlvmContextV> {
    match with_temp(c) {
        None => None,
        Some((ptr, c1)) => match llvm_size(t) {
            None => None,
            Some(n) => Some(
                with_command(
                    LlvmContextV { values: c1.values.insert(title, (ptr, t)), ..c1 },
                    ptr + " = alloca "@ + llvm_type_text(t) + ", align "@ + nat_text(n as nat),
                ),
            ),
        },
    }
}

/// `c` with a stack slot for `s`, allocated unless it has one.
pub open spec fn ensure_value(c: LlvmContextV, s: SymbolV) -> Option<LlvmContextV> {
    if c.values.contains_key(s.title) {
        Some(c)
    } else {
        with_new_value(c, s.title, s.datatype)
    }
}

/// The pointer to the slot of `s` (with its type when `include_type`).
pub open spec fn reference_v(c: LlvmContextV, s: SymbolV, include_type: bool) -> Option<(Seq<char>, LlvmContextV)> {
    match ensure_value(c, s) {
        None => None,
        Some(c1) => {
            let (ptr, dt) = c1.values[s.title];
            match pointer_type(dt) {
                None => None,
                Some(pdt) => Some(
                    (
                        if include_type {
                            llvm_type_text(pdt) + " "@ + ptr
                        } else {
                            ptr
                        },
                        c1,
                    ),
                ),
            }
        },
    }
}

/// A type that is plain `void`.
pub open spec fn is_void(t: DataType) -> bool {
    t.raw_type == NonPtrType::Void && t.num_ptr == 0
}

/// The value of `s`, loaded into a fresh temporary (with its type when `include_type`).
pub open spec fn value_v(c: LlvmContextV, s: SymbolV, include_type: bool) -> Option<(Seq<char>, LlvmContextV)> {
    match ensure_value(c, s) {
        None => None,
        Some(c1) => match with_temp(c1) {
            None => None,
            Some((reg, c2)) => {
                let (ptr, dt) = c2.values[s.title];
                match (pointer_type(dt), llvm_size(s.datatype)) {
                    (Some(pdt), Some(n)) => {
                        let c3 = with_command(
                            c2,
                            reg + " = load "@ + llvm_type_text(dt) + ", "@ + llvm_type_text(pdt) + " "@ + ptr
                                + ", align "@ + nat_text(n as nat),
                        );
                        Some(
                            (
                                if include_type {
                                    if !is_void(dt) {
                                        llvm_type_text(dt) + " "@ + reg
                                    } else {
                                        llvm_type_text(dt)
                                    }
                                } else {
                                    reg
                                },
                                c3,
                            ),
                        )
                    },
                    _ => None,
                }
            },
        },
    }
}

/// How a literal is written as a value: with its type; a pointer or
/// reference literal is converted from an integer.
pub open spec fn llvm_literal_text(l: Literal) -> Seq<char> {
    let t = llvm_type_text(l.datatype);
    if !is_void(l.datatype) {
        if l.datatype.num_ptr == 0 && !l.datatype.is_ref {
            t + " "@ + int_text(l.value as int)
        } else {
            t + " inttoptr (i64 "@ + int_text(l.value as int) + " to "@ + t + ")"@
        }
    } else {
        t
    }
}

/// A value written for use in a command (a symbol is loaded first).
pub open spec fn rendered_value_v(c: LlvmContextV, v: ValueV) -> Option<(Seq<char>, LlvmContextV)> {
    match v {
        ValueV::Label(l) => Some((label_value_text(l), c)),
        ValueV::Literal(l) => Some((llvm_literal_text(l), c)),
        ValueV::Symbol(s) => value_v(c, s, true),
    }
}

/// A pointer to a value (only a symbol has one).
pub open spec fn pointer_v(c: LlvmContextV, v: ValueV) -> Option<(Seq<char>, LlvmContextV)> {
    match v {
        ValueV::Symbol(s) => reference_v(c, s, true),
        _ => None,
    }
}

/// Storing `src` into `dest`: into its slot, or where it refers to when it is
/// a reference; nothing for a label.
pub open spec fn move_v(c: LlvmContextV, dest: ValueV, src: Seq<char>) -> Option<LlvmContextV> {
    match value_type(dest) {
        None => Some(c),
        Some(dt) => match (if !dt.is_ref {
            pointer_v(c, dest)
        } else {
            rendered_value_v(c, dest)
        }) {
            None => None,
            Some((val0, c1)) => Some(with_command(c1, "store "@ + src + ", "@ + val0)),
        },
    }
}

/// The position of the first space in `s` (its length when there is none).
pub open spec fn space_index(s: Seq<char>) -> int
    decreases s.len(),
{
    if s.len() == 0 {
        0
    } else if s[0] == ' ' {
        0
    } else {
        1 + space_index(s.drop_first())
    }
}

/// The second of the space-separated words of `s`; none without a space.
pub open spec fn second_word(s: Seq<char>) -> Option<Seq<char>> {
    let p = space_index(s);
    if p < s.len() {
        let rest = s.skip(p + 1);
        Some(rest.take(space_index(rest)))
    } else {
        None
    }
}

/// A comparison of two values into `dest` (the second written without its type).
pub open spec fn compare_v(
    c: LlvmContextV,
    command: Seq<char>,
    dest: Seq<char>,
    s0: ValueV,
    s1: ValueV,
) -> Option<LlvmContextV> {
    match rendered_value_v(c, s0) {
        None => None,
        Some((val0, c1)) => match rendered_value_v(c1, s1) {
            None => None,
            Some((val1t, c2)) => match second_word(val1t) {
                None => None,
                Some(val1) => Some(with_command(c2, dest + " = icmp "@ + command + " "@ + val0 + ", "@ + val1)),
            },
        },
    }
}


/// The second of the space-separated words of `s`, when it has a space.
fn second_word_of(s: &str) -> (r: Option<String>)
    ensures
        match second_word(s@) {
            Some(w) => r is Some && r->Some_0@ == w,
            None => r is None,
        },
{
    let n = s.unicode_len();
    let ghost t = s@;
    let mut i: usize = 0;
    assert(t.skip(0) =~= t);
    while i < n && s.get_char(i) != ' '
        invariant
            i <= n,
            n == t.len(),
            t == s@,
            space_index(t) == i + space_index(t.skip(i as int)),
        decreases n - i,
    {
        proof {
            assert(t.skip(i + 1) =~= t.skip(i as int).drop_first());
        }
        i = i + 1;
    }
    proof {
        if i == n {
            assert(t.skip(i as int).len() == 0);
        } else {
            assert(t.skip(i as int)[0] == ' ');
        }
    }
    if i == n {
        return None;
    }
    let start = i + 1;
    let ghost rest = t.skip(start as int);
    let mut j: usize = start;
    let mut w = String::new();
    assert(rest.skip(0) =~= rest);
    assert(rest.take(0) =~= Seq::<char>::empty());
    while j < n && s.get_char(j) != ' '
        invariant
            start <= j <= n,
            n == t.len(),
            t == s@,
            rest == t.skip(start as int),
            w@ == rest.take(j - start),
            space_index(rest) == (j - start) + space_index(rest.skip(j - start)),
        decreases n - j,
    {
        let c = s.get_char(j);
        crate::text::push_char(&mut w, c);
        proof {
            assert(rest.take(j - start + 1) =~= rest.take(j - start).push(c));
            assert(rest.skip(j - start + 1) =~= rest.skip(j - start).drop_first());
        }
        j = j + 1;
    }
    proof {
        if j == n {
            assert(rest.skip(j - start).len() == 0);
        } else {
            assert(rest.skip(j - start)[0] == ' ');
        }
    }
    Some(w)
}

impl FunctionGenerationContext {
    /// Generate a new function generation context object
    pub fn new(func: Function) -> (c: Self)
        ensures
            c@ == (LlvmContextV { func: func@, values: Map::empty(), next_temp: 0, result: Seq::empty() }),
    {
        Self { func, values: Table::new(), next_temp: 0, result: String::new() }
    }

    /// The generated text.
    pub closed spec fn result_view(&self) -> Seq<char> {
        self.result@
    }

    /// Insert a new command
    pub fn insert_command(&mut self, cmd: &str)
        ensures
            final(self)@.func == old(self)@.func,
            final(self)@ == with_command(old(self)@, cmd@),
    {
        self.result.append("    ");
        self.result.append(cmd);
        self.result.append("\n");
    }

    /// Insert a label
    pub fn insert_label(&mut self, label: &str)
        ensures
            final(self)@.func == old(self)@.func,
            final(self)@ == with_label(old(self)@, label@),
    {
        let mut l = String::from_str("label %");
        l.append(label);
        let mut command = String::from_str("br ");
        command.append(l.as_str());
        self.insert_command(command.as_str());
        self.result.append("\n  ");
        self.result.append(label);
        self.result.append(":\n");
    }

    /// Get the next temporary variable
    pub fn get_next_temp(&mut self) -> (t: String)
        requires
            with_temp(old(self)@) is Some,
        ensures
            final(self)@.func == old(self)@.func,
            (t@, final(self)@) == with_temp(old(self)@)->Some_0,
    {
        self.next_temp = self.next_temp + 1;
        let mut t = String::from_str("%V");
        t.append(usize_text(self.next_temp - 1).as_str());
        t
    }

    /// Create a new value
    pub fn create_new_value(&mut self, title: String, datatype: DataType)
        requires
            with_new_value(old(self)@, title@, datatype) is Some,
        ensures
            final(self)@.func == old(self)@.func,
            final(self)@ == with_new_value(old(self)@, title@, datatype)->Some_0,
    {
        let ptr = self.get_next_temp();
        let new_value = LLVMValue::new(ptr, datatype);
        self.values.insert(title.clone(), new_value);
        let slot = self.values.get(&title).unwrap();
        let dt = slot.get_datatype();
        let ptr = slot.ptr.clone();
        let mut command = ptr;
        command.append(" = alloca ");
        command.append(convert_to_llvm(&dt).as_str());
        command.append(", align ");
        command.append(usize_text(bytes_size_of(&dt)).as_str());
        self.insert_command(command.as_str());
    }

    /// Makes sure `var` has a stack slot.
    fn ensure_slot(&mut self, var: &Symbol)
        requires
            ensure_value(old(self)@, var@) is Some,
        ensures
            final(self)@.func == old(self)@.func,
            final(self)@ == ensure_value(old(self)@, var@)->Some_0,
            final(self)@.values.contains_key(var@.title),
    {
        if !self.values.contains_key(&var.title) {
            self.create_new_value(var.title.clone(), var.datatype);
        }
    }

    /// Get the reference for a variable
    pub fn get_reference(&mut self, var: &Symbol, include_type: bool) -> (s: String)
        requires
            reference_v(old(self)@, var@, include_type) is Some,
        ensures
            final(self)@.func == old(self)@.func,
            (s@, final(self)@) == reference_v(old(self)@, var@, include_type)->Some_0,
    {
        self.ensure_slot(var);
        let slot = self.values.get(&var.title).unwrap();
        let ptr = slot.ptr.clone();
        let pdt = slot.get_pointer_datatype();
        if include_type {
            let mut s = convert_to_llvm(&pdt);
            s.append(" ");
            s.append(ptr.as_str());
            s
        } else {
            ptr
        }
    }

    /// Get the value for a variable
    pub fn get_value(&mut self, var: &Symbol, include_type: bool) -> (s: String)
        requires
            value_v(old(self)@, var@, include_type) is Some,
        ensures
            final(self)@.func == old(self)@.func,
            (s@, final(self)@) == value_v(old(self)@, var@, include_type)->Some_0,
    {
        self.ensure_slot(var);
        let reg = self.get_next_temp();
        let slot = self.values.get(&var.title).unwrap();
        let dt = slot.get_datatype();
        let pdt = slot.get_pointer_datatype();
        let ptr = slot.ptr.clone();
        let mut command = reg.clone();
        command.append(" = load ");
        command.append(convert_to_llvm(&dt).as_str());
        command.append(", ");
        command.append(convert_to_llvm(&pdt).as_str());
        command.append(" ");
        command.append(ptr.as_str());
        command.append(", align ");
        command.append(usize_text(bytes_size_of(&var.datatype)).as_str());
        self.insert_command(command.as_str());
        if include_type {
            if !(dt.raw_type == NonPtrType::Void && dt.num_ptr == 0) {
                let mut s = convert_to_llvm(&dt);
                s.append(" ");
                s.append(reg.as_str());
                s
            } else {
                convert_to_llvm(&dt)
            }
        } else {
            reg
        }
    }

    /// Render a value for direct insertion into a command
    pub fn render_value(&mut self, val: &Value) -> (s: String)
        requires
            rendered_value_v(old(self)@, val@) is Some,
        ensures
            final(self)@.func == old(self)@.func,
            (s@, final(self)@) == rendered_value_v(old(self)@, val@)->Some_0,
    {
        match val {
            Value::Label(label) => {
                let mut s = String::from_str("label %");
                s.append(label.as_str());
                s
            },
            Value::Literal(literal) => {
                let t = convert_to_llvm(&literal.datatype);
                if !(literal.datatype.raw_type == NonPtrType::Void && literal.datatype.num_ptr == 0) {
                    if literal.datatype.num_ptr == 0 && !literal.datatype.is_ref {
                        let mut s = t;
                        s.append(" ");
                        s.append(i128_text(literal.value).as_str());
                        s
                    } else {
                        let mut s = t.clone();
                        s.append(" inttoptr (i64 ");
                        s.append(i128_text(literal.value).as_str());
                        s.append(" to ");
                        s.append(t.as_str());
                        s.append(")");
                        s
                    }
                } else {
                    t
                }
            },
            Value::Symbol(symbol) => self.get_value(symbol, true),
        }
    }

    /// Render a pointer to a value for direct insertion into a command
    pub fn render_pointer(&mut self, val: &Value) -> (s: String)
        requires
            pointer_v(old(self)@, val@) is Some,
        ensures
            final(self)@.func == old(self)@.func,
            (s@, final(self)@) == pointer_v(old(self)@, val@)->Some_0,
    {
        match val {
            Value::Symbol(symbol) => self.get_reference(symbol, true),
            _ => {
                // the precondition rules out the pointer of a label or a literal
                proof {
                    assert(false);
                }
                String::new()
            },
        }
    }

    /// Add a move via the syntax of the 'store' command
    pub fn add_move(&mut self, dest: &Value, src: String)
        requires
            move_v(old(self)@, dest@, src@) is Some,
        ensures
            final(self)@.func == old(self)@.func,
            final(self)@ == move_v(old(self)@, dest@, src@)->Some_0,
    {
        if let Some(datatype) = get_value_type(dest) {
            let val0 = if !datatype.is_ref {
                self.render_pointer(dest)
            } else {
                self.render_value(dest)
            };
            let mut command = String::from_str("store ");
            command.append(src.as_str());
            command.append(", ");
            command.append(val0.as_str());
            self.insert_command(command.as_str());
        }
    }

    /// Add a compare command
    pub fn add_compare(&mut self, command: String, dest: String, src0: &Value, src1: &Value)
        requires
            compare_v(old(self)@, command@, dest@, src0@, src1@) is Some,
        ensures
            final(self)@.func == old(self)@.func,
            final(self)@ == compare_v(old(self)@, command@, dest@, src0@, src1@)->Some_0,
    {
        let val0 = self.render_value(src0);
        let val1_temp = self.render_value(src1);
        let val1 = second_word_of(val1_temp.as_str()).unwrap();
        let mut text = dest;
        text.append(" = icmp ");
        text.append(command.as_str());
        text.append(" ");
        text.append(val0.as_str());
        text.append(", ");
        text.append(val1.as_str());
        self.insert_command(text.as_str());
    }
}


/// How a parameter is written: its type and its name.
pub open spec fn param_text(a: (Seq<char>, DataType)) -> Seq<char> {
    llvm_type_text(a.1) + " %"@ + a.0
}

/// The parameters, separated by `, `.
pub open spec fn params_text(args: Seq<(Seq<char>, DataType)>) -> Seq<char>
    decreases args.len(),
{
    if args.len() == 0 {
        Seq::empty()
    } else if args.len() == 1 {
        param_text(args[0])
    } else {
        params_text(args.drop_last()) + ", "@ + param_text(args.last())
    }
}

/// The head of a function definition: its return type, name and parameters,
/// and the opening brace.
pub open spec fn header_text(f: FunctionV) -> Seq<char> {
    "define "@ + llvm_type_text(f.return_type) + " @"@ + f.name + "("@ + params_text(f.arguments)
        + ")\n"@ + "{\n"@
}

/// Each argument's name with its parameter text.
pub open spec fn argument_names(args: Seq<(Seq<char>, DataType)>) -> Seq<(Seq<char>, Seq<char>)> {
    args.map_values(|a: (Seq<char>, DataType)| (a.0, param_text(a)))
}

/// Storing into the slot of `sym` each of the first `n` arguments that bears its name.
pub open spec fn store_arguments_v(
    c: LlvmContextV,
    sym: SymbolV,
    names: Seq<(Seq<char>, Seq<char>)>,
    n: nat,
) -> Option<LlvmContextV>
    decreases n,
{
    if n == 0 {
        Some(c)
    } else {
        match store_arguments_v(c, sym, names, (n - 1) as nat) {
            None => None,
            Some(c1) => if n - 1 < names.len() && sym.title == names[n - 1].0 {
                move_v(c1, ValueV::Symbol(sym), names[n - 1].1)
            } else {
                Some(c1)
            },
        }
    }
}

/// Allocating a slot for each of the first `n` symbols, each followed by
/// storing the arguments of its name into it.
pub open spec fn allocate_v(
    c: LlvmContextV,
    syms: Seq<SymbolV>,
    names: Seq<(Seq<char>, Seq<char>)>,
    n: nat,
) -> Option<LlvmContextV>
    decreases n,
{
    if n == 0 {
        Some(c)
    } else {
        match allocate_v(c, syms, names, (n - 1) as nat) {
            None => None,
            Some(c1) => if n - 1 < syms.len() {
                match with_new_value(c1, syms[n - 1].title, syms[n - 1].datatype) {
                    None => None,
                    Some(c2) => store_arguments_v(c2, syms[n - 1], names, names.len()),
                }
            } else {
                None
            },
        }
    }
}

/// The LLVM name of a comparison: `ne`, `eq`, or the ordering with an `s`
/// prefix when the operands are signed and a `u` prefix when they are not.
pub open spec fn compare_name(op: OpCode, signed: bool) -> Seq<char> {
    match op {
        OpCode::Cne | OpCode::Bne => "ne"@,
        OpCode::Ceq | OpCode::Beq => "eq"@,
        OpCode::Cge | OpCode::Bge => if signed {
            "sge"@
        } else {
            "uge"@
        },
        OpCode::Cle | OpCode::Ble => if signed {
            "sle"@
        } else {
            "ule"@
        },
        OpCode::Cgt | OpCode::Bgt => if signed {
            "sgt"@
        } else {
            "ugt"@
        },
        _ => if signed {
            "slt"@
        } else {
            "ult"@
        },
    }
}

/// Whether a type is a signed integer (not a pointer or reference).
pub open spec fn signed_type(t: DataType) -> bool {
    t.num_ptr == 0 && !t.is_ref && crate::irgen::types::is_signed_raw(t.raw_type)
}

/// The type a value is resized to in a cast: the target's own, or `i64` for a pointer.
pub open spec fn resized_type(dt: DataType) -> Seq<char> {
    if dt.num_ptr == 0 {
        llvm_type_text(dt)
    } else {
        "i64"@
    }
}

/// A cast of `s` into `d`: the value is truncated or extended to the size of
/// the target, then converted to a pointer when the target is one, then stored.
pub open spec fn cast_v(c: LlvmContextV, d: ValueV, s: ValueV) -> Option<LlvmContextV> {
    match (value_type(d), value_type(s)) {
        (Some(dt), Some(st)) => match (llvm_size(dt), llvm_size(st)) {
            (Some(ds), Some(ss)) => match rendered_value_v(c, s) {
                None => None,
                Some((rv, c1)) => match second_word(rv) {
                    None => None,
                    Some(cur0) => {
                        let ct0 = llvm_type_text(st);
                        if llvm_type_text(dt) != llvm_type_text(st) {
                            let step1: Option<(Seq<char>, Seq<char>, LlvmContextV)> = if ds < ss {
                                match with_temp(c1) {
                                    None => None,
                                    Some((next, c2)) => Some(
                                        (
                                            next,
                                            resized_type(dt),
                                            with_command(
                                                c2,
                                                next + " = trunc "@ + ct0 + " "@ + cur0 + " to "@ + resized_type(dt),
                                            ),
                                        ),
                                    ),
                                }
                            } else if ds > ss {
                                match with_temp(c1) {
                                    None => None,
                                    Some((next, c2)) => Some(
                                        (
                                            next,
                                            resized_type(dt),
                                            with_command(
                                                c2,
                                                cur0 + " = "@ + (if signed_type(dt) {
                                                    "sext"@
                                                } else {
                                                    "zext"@
                                                }) + " "@ + ct0 + " "@ + cur0 + " to "@ + ct0,
                                            ),
                                        ),
                                    ),
                                }
                            } else {
                                Some((cur0, ct0, c1))
                            };
                            match step1 {
                                None => None,
                                Some((cur1, ct1, c3)) => {
                                    let step2: Option<(Seq<char>, Seq<char>, LlvmContextV)> = if dt.num_ptr > 0 {
                                        match with_temp(c3) {
                                            None => None,
                                            Some((next, c4)) => Some(
                                                (
                                                    next,
                                                    llvm_type_text(dt),
                                                    with_command(
                                                        c4,
                                                        next + (if st.num_ptr == 0 {
                                                            " = inttoptr "@
                                                        } else {
                                                            " = bitcast "@
                                                        }) + ct1 + " "@ + cur1 + " to "@ + llvm_type_text(dt),
                                                    ),
                                                ),
                                            ),
                                        }
                                    } else {
                                        Some((cur1, ct1, c3))
                                    };
                                    match step2 {
                                        None => None,
                                        Some((cur2, ct2, c5)) => move_v(c5, d, ct2 + " "@ + cur2),
                                    }
                                },
                            }
                        } else {
                            move_v(c1, d, ct0 + " "@ + cur0)
                        }
                    },
                },
            },
            _ => None,
        },
        _ => None,
    }
}

/// A load through `a1` into the symbol `a0`, then stored into its slot.
pub open spec fn deref_v(c: LlvmContextV, a0: ValueV, a1: ValueV) -> Option<LlvmContextV> {
    match a0 {
        ValueV::Symbol(var) => match with_temp(c) {
            None => None,
            Some((reg, c1)) => if !c1.values.contains_key(var.title) {
                None
            } else {
                let dt = c1.values[var.title].1;
                match rendered_value_v(c1, a1) {
                    None => None,
                    Some((val, c2)) => match llvm_size(var.datatype) {
                        None => None,
                        Some(n) => move_v(
                            with_command(
                                c2,
                                reg + " = load "@ + llvm_type_text(dt) + ", "@ + val + ", align "@ + nat_text(n as nat),
                            ),
                            a0,
                            llvm_type_text(dt) + " "@ + reg,
                        ),
                    },
                }
            },
        },
        _ => Some(c),
    }
}

/// A comparison of `a[1]` with `a[2]`, widened to the type of `a[0]` and stored there.
pub open spec fn comparison_v(c: LlvmContextV, op: OpCode, a: Seq<ValueV>) -> Option<LlvmContextV> {
    match with_temp(c) {
        None => None,
        Some((t1, c1)) => match with_temp(c1) {
            None => None,
            Some((t2, c2)) => match (value_type(a[1]), value_type(a[0])) {
                (Some(t), Some(t0)) => match compare_v(c2, compare_name(op, signed_type(t)), t1, a[1], a[2]) {
                    None => None,
                    Some(c3) => move_v(with_command(c3, t2 + " = zext i1 "@ + t1 + " to "@ + llvm_type_text(t0)), a[0], t2),
                },
                _ => None,
            },
        },
    }
}

/// A branch to `a[2]` or `a[3]` on a comparison of `a[0]` with `a[1]`.
pub open spec fn branching_v(c: LlvmContextV, op: OpCode, a: Seq<ValueV>) -> Option<LlvmContextV> {
    match with_temp(c) {
        None => None,
        Some((t, c1)) => match rendered_value_v(c1, a[2]) {
            None => None,
            Some((lt, c2)) => match rendered_value_v(c2, a[3]) {
                None => None,
                Some((lf, c3)) => match value_type(a[0]) {
                    None => None,
                    Some(t0) => match compare_v(c3, compare_name(op, signed_type(t0)), t, a[0], a[1]) {
                        None => None,
                        Some(c4) => Some(with_command(c4, "br i1 "@ + t + ", "@ + lt + ", "@ + lf)),
                    },
                },
            },
        },
    }
}

/// The LLVM of one instruction (instructions without a translation give nothing).
#[verifier::opaque]
pub open spec fn instruction_v(c: LlvmContextV, inst: InstructionV) -> Option<LlvmContextV> {
    let a = inst.arguments;
    match inst.opcode {
        OpCode::Ret => if a.len() < 1 {
            None
        } else {
            match rendered_value_v(c, a[0]) {
                None => None,
                Some((val, c1)) => Some(with_command(c1, "ret "@ + val)),
            }
        },
        OpCode::Mov | OpCode::Alloc => if a.len() < 2 {
            None
        } else {
            match rendered_value_v(c, a[1]) {
                None => None,
                Some((val, c1)) => move_v(c1, a[0], val),
            }
        },
        OpCode::Cast => if a.len() < 2 {
            None
        } else {
            cast_v(c, a[0], a[1])
        },
        OpCode::Deref => if a.len() < 1 || (a[0] is Symbol && a.len() < 2) {
            None
        } else {
            deref_v(c, a[0], a[1])
        },
        OpCode::Cne | OpCode::Ceq | OpCode::Cge | OpCode::Cgt | OpCode::Cle | OpCode::Clt => if a.len() < 3 {
            None
        } else {
            comparison_v(c, inst.opcode, a)
        },
        OpCode::Bne | OpCode::Beq | OpCode::Bge | OpCode::Bgt | OpCode::Ble | OpCode::Blt => if a.len() < 4 {
            None
        } else {
            branching_v(c, inst.opcode, a)
        },
        OpCode::Jmp => if a.len() < 1 {
            None
        } else {
            match rendered_value_v(c, a[0]) {
                None => None,
                Some((l, c1)) => Some(with_command(c1, "br "@ + l)),
            }
        },
        _ => Some(c),
    }
}

/// `c` with a branch-and-label for each label of `ls`.
pub open spec fn labels_v(c: LlvmContextV, ls: Seq<Seq<char>>) -> LlvmContextV
    decreases ls.len(),
{
    if ls.len() == 0 {
        c
    } else {
        with_label(labels_v(c, ls.drop_last()), ls.last())
    }
}

/// The LLVM of the first `n` instructions, each after its labels.
pub open spec fn body_v(c: LlvmContextV, n: nat) -> Option<LlvmContextV>
    decreases n,
{
    if n == 0 {
        Some(c)
    } else {
        match body_v(c, (n - 1) as nat) {
            None => None,
            Some(c1) => if n - 1 < c1.func.instructions.len() {
                let c2 = if c1.func.labels.contains_key((n - 1) as usize) {
                    labels_v(c1, c1.func.labels[(n - 1) as usize])
                } else {
                    c1
                };
                instruction_v(c2, c1.func.instructions[n - 1])
            } else {
                None
            },
        }
    }
}

/// The LLVM definition of the function: its head, a slot for each symbol
/// (arguments stored into theirs), its instructions and the closing brace.
pub open spec fn function_v(c: LlvmContextV) -> Option<LlvmContextV> {
    let f = c.func;
    let syms = all_symbols(f.instructions);
    let names = argument_names(f.arguments);
    match allocate_v(LlvmContextV { result: header_text(f), ..c }, syms, names, syms.len()) {
        None => None,
        Some(c1) => match body_v(c1, f.instructions.len()) {
            None => None,
            Some(c2) => Some(LlvmContextV { result: c2.result + "}\n"@, ..c2 }),
        },
    }
}


/// The exec form of [`compare_name`].
fn compare_name_of(op: OpCode, signed: bool) -> (s: String)
    ensures
        s@ == compare_name(op, signed),
{
    match op {
        OpCode::Cne | OpCode::Bne => String::from_str("ne"),
        OpCode::Ceq | OpCode::Beq => String::from_str("eq"),
        OpCode::Cge | OpCode::Bge => String::from_str(if signed { "sge" } else { "uge" }),
        OpCode::Cle | OpCode::Ble => String::from_str(if signed { "sle" } else { "ule" }),
        OpCode::Cgt | OpCode::Bgt => String::from_str(if signed { "sgt" } else { "ugt" }),
        _ => String::from_str(if signed { "slt" } else { "ult" }),
    }
}

impl FunctionGenerationContext {
    /// A cast of `s` into `d`.
    fn add_cast(&mut self, d: &Value, s: &Value)
        requires
            cast_v(old(self)@, d@, s@) is Some,
        ensures
            Some(final(self)@) == cast_v(old(self)@, d@, s@),
            final(self)@.func == old(self)@.func,
    {
        let dest_type = get_value_type(d).unwrap();
        let src_type = get_value_type(s).unwrap();
        let dest_size = bytes_size_of(&dest_type);
        let src_size = bytes_size_of(&src_type);
        let rendered = self.render_value(s);
        let mut current = second_word_of(rendered.as_str()).unwrap();
        let mut current_type = convert_to_llvm(&src_type);
        if convert_to_llvm(&dest_type) != convert_to_llvm(&src_type) {
            if dest_size < src_size {
                let next = self.get_next_temp();
                let next_type = if dest_type.num_ptr == 0 {
                    convert_to_llvm(&dest_type)
                } else {
                    String::from_str("i64")
                };
                let mut command = next.clone();
                command.append(" = trunc ");
                command.append(current_type.as_str());
                command.append(" ");
                command.append(current.as_str());
                command.append(" to ");
                command.append(next_type.as_str());
                self.insert_command(command.as_str());
                current = next;
                current_type = next_type;
            } else if dest_size > src_size {
                let next = self.get_next_temp();
                let next_type = if dest_type.num_ptr == 0 {
                    convert_to_llvm(&dest_type)
                } else {
                    String::from_str("i64")
                };
                let mut command = current.clone();
                command.append(" = ");
                command.append(if dest_type.is_signed() { "sext" } else { "zext" });
                command.append(" ");
                command.append(current_type.as_str());
                command.append(" ");
                command.append(current.as_str());
                command.append(" to ");
                command.append(current_type.as_str());
                self.insert_command(command.as_str());
                current = next;
                current_type = next_type;
            }
            if dest_type.num_ptr > 0 {
                let next = self.get_next_temp();
                let target = convert_to_llvm(&dest_type);
                let mut command = next.clone();
                command.append(if src_type.num_ptr == 0 { " = inttoptr " } else { " = bitcast " });
                command.append(current_type.as_str());
                command.append(" ");
                command.append(current.as_str());
                command.append(" to ");
                command.append(target.as_str());
                self.insert_command(command.as_str());
                current = next;
                current_type = target;
            }
        }
        let mut value = current_type;
        value.append(" ");
        value.append(current.as_str());
        self.add_move(d, value);
    }

    /// A load through `a1` into the symbol `a0`.
    fn add_deref(&mut self, a0: &Value, a1: &Value)
        requires
            deref_v(old(self)@, a0@, a1@) is Some,
        ensures
            Some(final(self)@) == deref_v(old(self)@, a0@, a1@),
            final(self)@.func == old(self)@.func,
    {
        if let Value::Symbol(var) = a0 {
            let reg = self.get_next_temp();
            let dt = self.values.get(&var.title).unwrap().get_datatype();
            let val = self.render_value(a1);
            let mut command = reg.clone();
            command.append(" = load ");
            command.append(convert_to_llvm(&dt).as_str());
            command.append(", ");
            command.append(val.as_str());
            command.append(", align ");
            command.append(usize_text(bytes_size_of(&var.datatype)).as_str());
            self.insert_command(command.as_str());
            let mut value = convert_to_llvm(&dt);
            value.append(" ");
            value.append(reg.as_str());
            self.add_move(a0, value);
        }
    }

    /// A comparison of `a[1]` with `a[2]` stored into `a[0]`.
    fn add_comparison(&mut self, op: OpCode, a: &Vec<Value>)
        requires
            a@.len() >= 3,
            comparison_v(old(self)@, op, values_view(a@)) is Some,
        ensures
            Some(final(self)@) == comparison_v(old(self)@, op, values_view(a@)),
            final(self)@.func == old(self)@.func,
    {
        let temp = self.get_next_temp();
        let temp2 = self.get_next_temp();
        let is_signed = get_value_type(&a[1]).unwrap().is_signed();
        let command = compare_name_of(op, is_signed);
        self.add_compare(command, temp.clone(), &a[1], &a[2]);
        let mut text = temp2.clone();
        text.append(" = zext i1 ");
        text.append(temp.as_str());
        text.append(" to ");
        text.append(convert_to_llvm(&get_value_type(&a[0]).unwrap()).as_str());
        self.insert_command(text.as_str());
        self.add_move(&a[0], temp2);
    }

    /// A branch on a comparison of `a[0]` with `a[1]`.
    fn add_branching(&mut self, op: OpCode, a: &Vec<Value>)
        requires
            a@.len() >= 4,
            branching_v(old(self)@, op, values_view(a@)) is Some,
        ensures
            Some(final(self)@) == branching_v(old(self)@, op, values_view(a@)),
            final(self)@.func == old(self)@.func,
    {
        let temp = self.get_next_temp();
        let label_true = self.render_value(&a[2]);
        let label_false = self.render_value(&a[3]);
        let is_signed = get_value_type(&a[0]).unwrap().is_signed();
        let command = compare_name_of(op, is_signed);
        self.add_compare(command, temp.clone(), &a[0], &a[1]);
        let mut text = String::from_str("br i1 ");
        text.append(temp.as_str());
        text.append(", ");
        text.append(label_true.as_str());
        text.append(", ");
        text.append(label_false.as_str());
        self.insert_command(text.as_str());
    }

    /// The LLVM of one instruction.
    fn render_instruction(&mut self, inst: &Instruction)
        requires
            instruction_v(old(self)@, inst@) is Some,
        ensures
            Some(final(self)@) == instruction_v(old(self)@, inst@),
            final(self)@.func == old(self)@.func,
    {
        proof {
            reveal(instruction_v);
        }
        let a = &inst.arguments;
        match inst.opcode {
            OpCode::Ret => {
                let val = self.render_value(&a[0]);
                let mut command = String::from_str("ret ");
                command.append(val.as_str());
                self.insert_command(command.as_str());
            },
            OpCode::Mov | OpCode::Alloc => {
                let val = self.render_value(&a[1]);
                self.add_move(&a[0], val);
            },
            OpCode::Cast => self.add_cast(&a[0], &a[1]),
            OpCode::Deref => {
                if let Value::Symbol(_) = &a[0] {
                    self.add_deref(&a[0], &a[1]);
                }
            },
            OpCode::Cne | OpCode::Ceq | OpCode::Cge | OpCode::Cgt | OpCode::Cle | OpCode::Clt => {
                self.add_comparison(inst.opcode, a);
            },
            OpCode::Bne | OpCode::Beq | OpCode::Bge | OpCode::Bgt | OpCode::Ble | OpCode::Blt => {
                self.add_branching(inst.opcode, a);
            },
            OpCode::Jmp => {
                let label = self.render_value(&a[0]);
                let mut command = String::from_str("br ");
                command.append(label.as_str());
                self.insert_command(command.as_str());
            },
            _ => {},
        }
    }
}


proof fn lemma_allocate_prefix(
    c: LlvmContextV,
    syms: Seq<SymbolV>,
    names: Seq<(Seq<char>, Seq<char>)>,
    k: nat,
    n: nat,
)
    requires
        k <= n,
        allocate_v(c, syms, names, n) is Some,
    ensures
        allocate_v(c, syms, names, k) is Some,
    decreases n - k,
{
    if k < n {
        lemma_allocate_prefix(c, syms, names, k, (n - 1) as nat);
    }
}

proof fn lemma_store_prefix(c: LlvmContextV, sym: SymbolV, names: Seq<(Seq<char>, Seq<char>)>, k: nat, n: nat)
    requires
        k <= n,
        store_arguments_v(c, sym, names, n) is Some,
    ensures
        store_arguments_v(c, sym, names, k) is Some,
    decreases n - k,
{
    if k < n {
        lemma_store_prefix(c, sym, names, k, (n - 1) as nat);
    }
}

proof fn lemma_llvm_body_prefix(c: LlvmContextV, k: nat, n: nat)
    requires
        k <= n,
        body_v(c, n) is Some,
    ensures
        body_v(c, k) is Some,
    decreases n - k,
{
    if k < n {
        lemma_llvm_body_prefix(c, k, (n - 1) as nat);
    }
}

impl FunctionGenerationContext {
    /// Appends the head of the definition and gives each argument's name with
    /// its parameter text.
    fn render_header(&mut self) -> (names: Vec<(String, String)>)
        ensures
            final(self)@ == (LlvmContextV { result: header_text(old(self)@.func), ..old(self)@ }),
            names.deep_view() == argument_names(old(self)@.func.arguments),
    {
        let ghost f = self@.func;
        self.result = String::new();
        self.result.append("define ");
        self.result.append(convert_to_llvm(&self.func.return_type).as_str());
        self.result.append(" @");
        self.result.append(self.func.name.as_str());
        self.result.append("(");
        let ghost head = self.result@;
        let ghost args = f.arguments;
        let mut names: Vec<(String, String)> = Vec::new();
        let n = self.func.arguments.len();
        let mut i: usize = 0;
        assert(names.deep_view() =~= argument_names(args.take(0)));
        while i < n
            invariant
                i <= n,
                n == args.len(),
                f == self@.func,
                args == f.arguments,
                old(self)@.func == f,
                self@ == (LlvmContextV { result: self@.result, ..old(self)@ }),
                self.result@ == head + params_text(args.take(i as int)) + (if i > 0 && i < n {
                    ", "@
                } else {
                    Seq::<char>::empty()
                }),
                names.deep_view() == argument_names(args.take(i as int)),
            decreases n - i,
        {
            let mut text = convert_to_llvm(&self.func.arguments[i].1);
            text.append(" %");
            text.append(self.func.arguments[i].0.as_str());
            assert(args[i as int] == (self.func.arguments@[i as int].0@, self.func.arguments@[i as int].1));
            assert(text@ == param_text(args[i as int]));
            self.result.append(text.as_str());
            if i + 1 < n {
                self.result.append(", ");
            }
            let ghost before = names.deep_view();
            names.push((self.func.arguments[i].0.clone(), text));
            proof {
                assert(args.take(i + 1).drop_last() =~= args.take(i as int));
                assert(args.take(i + 1).last() == args[i as int]);
                assert(names.deep_view() =~= before.push((args[i as int].0, param_text(args[i as int]))));
                assert(argument_names(args.take(i + 1)) =~= argument_names(args.take(i as int)).push(
                    (args[i as int].0, param_text(args[i as int])),
                ));
                assert(names.deep_view() =~= argument_names(args.take(i + 1)));
                if i == 0 {
                    assert(args.take(1)[0] == args[0]);
                    assert(head + Seq::<char>::empty() =~= head);
                }
                assert(self.result@ =~= head + params_text(args.take(i + 1)) + (if i + 1 > 0 && i + 1 < n {
                    ", "@
                } else {
                    Seq::<char>::empty()
                }));
            }
            i = i + 1;
        }
        assert(args.take(n as int) =~= args);
        self.result.append(")\n");
        self.result.append("{\n");
        proof {
            assert(self.result@ =~= header_text(f));
        }
        names
    }

    /// Allocates a slot for each symbol of the function and stores the
    /// arguments into theirs.
    fn render_allocations(&mut self, names: &Vec<(String, String)>)
        requires
            allocate_v(
                old(self)@,
                all_symbols(old(self)@.func.instructions),
                names.deep_view(),
                all_symbols(old(self)@.func.instructions).len(),
            ) is Some,
        ensures
            Some(final(self)@) == allocate_v(
                old(self)@,
                all_symbols(old(self)@.func.instructions),
                names.deep_view(),
                all_symbols(old(self)@.func.instructions).len(),
            ),
            final(self)@.func == old(self)@.func,
    {
        let ghost c0 = self@;
        let ghost f = c0.func;
        let ghost nv = names.deep_view();
        let symbols = self.func.get_all_symbols();
        let ghost syms = all_symbols(f.instructions);
        assert(symbols@.map_values(|s: Symbol| s@) == syms);
        let mut k: usize = 0;
        while k < symbols.len()
            invariant
                k <= symbols@.len(),
                syms.len() == symbols@.len(),
                forall|i: int| 0 <= i < syms.len() ==> #[trigger] syms[i] == symbols@[i]@,
                nv == names.deep_view(),
                f == self@.func,
                f == c0.func,
                c0 == old(self)@,
                syms == all_symbols(f.instructions),
                allocate_v(c0, syms, nv, syms.len()) is Some,
                allocate_v(c0, syms, nv, k as nat) == Some(self@),
            decreases symbols@.len() - k,
        {
            proof {
                lemma_allocate_prefix(c0, syms, nv, (k + 1) as nat, syms.len());
                assert(syms[k as int] == symbols@[k as int]@);
            }
            let sym = &symbols[k];
            self.create_new_value(sym.title.clone(), sym.datatype);
            let ghost c2 = self@;
            proof {
                lemma_store_prefix(c2, syms[k as int], nv, 0, nv.len());
            }
            let mut a: usize = 0;
            while a < names.len()
                invariant
                    a <= nv.len(),
                    nv == names.deep_view(),
                    f == self@.func,
                    sym@ == syms[k as int],
                    store_arguments_v(c2, syms[k as int], nv, nv.len()) is Some,
                    store_arguments_v(c2, syms[k as int], nv, a as nat) == Some(self@),
                decreases nv.len() - a,
            {
                proof {
                    lemma_store_prefix(c2, syms[k as int], nv, (a + 1) as nat, nv.len());
                }
                if sym.title == names[a].0 {
                    self.add_move(&Value::Symbol(sym.clone()), names[a].1.clone());
                }
                a = a + 1;
            }
            k = k + 1;
        }
    }

    /// Render an IR function in LLVM IR
    pub fn render_function(&mut self) -> (r: Result<String, Error>)
        requires
            function_v(old(self)@) is Some,
        ensures
            Some(final(self)@) == function_v(old(self)@),
            r is Ok,
            r->Ok_0@ == final(self)@.result,
    {
        let ghost c0 = self@;
        let ghost f = c0.func;
        let names = self.render_header();
        self.render_allocations(&names);
        let ghost c1 = self@;
        let n = self.func.instructions.len();
        let mut i: usize = 0;
        while i < n
            invariant
                i <= n,
                n == f.instructions.len(),
                f == self@.func,
                f == c1.func,
                body_v(c1, n as nat) is Some,
                body_v(c1, i as nat) == Some(self@),
            decreases n - i,
        {
            proof {
                lemma_llvm_body_prefix(c1, (i + 1) as nat, n as nat);
            }
            let labels = match self.func.labels.get(&i) {
                Some(l) => clone_strings(l),
                None => Vec::new(),
            };
            let ghost ls = labels.deep_view();
            let ghost cb = self@;
            let mut j: usize = 0;
            assert(ls.take(0) =~= Seq::<Seq<char>>::empty());
            while j < labels.len()
                invariant
                    j <= ls.len(),
                    ls == labels.deep_view(),
                    f == self@.func,
                    self@ == labels_v(cb, ls.take(j as int)),
                decreases ls.len() - j,
            {
                self.insert_label(labels[j].as_str());
                proof {
                    assert(ls.take(j + 1).drop_last() =~= ls.take(j as int));
                }
                j = j + 1;
            }
            proof {
                assert(ls.take(ls.len() as int) =~= ls);
                if !f.labels.contains_key(i) {
                    assert(ls =~= Seq::<Seq<char>>::empty());
                }
            }
            let inst = self.func.instructions[i].clone();
            self.render_instruction(&inst);
            i = i + 1;
        }
        self.result.append("}\n");
        Ok(self.result.clone())
    }
}

} // verus!
