//! A function of the intermediate representation: its instructions, labels,
//! symbol table and the counters used while generating it.
use vstd::prelude::*;
use super::types::{DataType, NonPtrType, datatype_text};
use super::instruction::{
    Instruction, InstructionV, OpCode, Symbol, SymbolV, Value, ValueV, instruction_text, is_branch,
    values_view,
};
use crate::table::Table;
use crate::text::{lemma_nat_text_digits, nat_text, pad_right, pad_right_exec, usize_text, zero_pad_left, zero_pad_left_exec};

verus! {

#[derive(Debug)]
pub struct Function {
    pub instructions: Vec<Instruction>,
    pub labels: Table<usize, Vec<String>>,
    pub labels_reverse: Table<String, usize>,
    pub symbol_table: Table<String, Symbol>,
    pub return_type: DataType,
    pub name: String,
    pub arguments: Vec<(String, DataType)>,
    pub next_label: usize,
    pub next_register: usize,
    pub next_index: usize,
    pub continue_stack: Vec<String>,
    pub break_stack: Vec<String>,
    pub return_value: Value,
}

/// The mathematical value of a [`Function`].
pub struct FunctionV {
    pub instructions: Seq<InstructionV>,
    pub labels: Map<usize, Seq<Seq<char>>>,
    pub labels_reverse: Map<Seq<char>, usize>,
    pub symbol_table: Map<Seq<char>, SymbolV>,
    pub return_type: DataType,
    pub name: Seq<char>,
    pub arguments: Seq<(Seq<char>, DataType)>,
    pub next_label: usize,
    pub next_register: usize,
    pub next_index: usize,
    pub continue_stack: Seq<Seq<char>>,
    pub break_stack: Seq<Seq<char>>,
    pub return_value: ValueV,
}

/// The views of a sequence of instructions.
pub open spec fn instructions_view(is: Seq<Instruction>) -> Seq<InstructionV> {
    is.map_values(|i: Instruction| i@)
}

impl View for Function {
    type V = FunctionV;

    open spec fn view(&self) -> FunctionV {
        FunctionV {
            instructions: instructions_view(self.instructions@),
            labels: self.labels.map(),
            labels_reverse: self.labels_reverse.map(),
            symbol_table: self.symbol_table.map(),
            return_type: self.return_type,
            name: self.name@,
            arguments: self.arguments.deep_view(),
            next_label: self.next_label,
            next_register: self.next_register,
            next_index: self.next_index,
            continue_stack: self.continue_stack.deep_view(),
            break_stack: self.break_stack.deep_view(),
            return_value: self.return_value@,
        }
    }
}

/// The symbol table after declaring each argument as a symbol of its type.
pub open spec fn insert_arguments(
    m: Map<Seq<char>, SymbolV>,
    args: Seq<(Seq<char>, DataType)>,
) -> Map<Seq<char>, SymbolV>
    decreases args.len(),
{
    if args.len() == 0 {
        m
    } else {
        insert_arguments(m, args.drop_last()).insert(
            args.last().0,
            SymbolV { title: args.last().0, datatype: args.last().1 },
        )
    }
}

/// The type of a value: that of a literal or symbol; a label has none.
pub open spec fn value_type(v: ValueV) -> Option<DataType> {
    match v {
        ValueV::Literal(l) => Some(l.datatype),
        ValueV::Symbol(s) => Some(s.datatype),
        ValueV::Label(_) => None,
    }
}

/// The instruction positions named by the label arguments, in argument order.
pub open spec fn label_targets(args: Seq<ValueV>, rev: Map<Seq<char>, usize>) -> Seq<usize>
    decreases args.len(),
{
    if args.len() == 0 {
        Seq::empty()
    } else {
        let rest = label_targets(args.drop_last(), rev);
        match args.last() {
            ValueV::Label(l) => rest.push(rev[l]),
            _ => rest,
        }
    }
}

/// Every label argument names a placed label.
pub open spec fn labels_resolved(args: Seq<ValueV>, rev: Map<Seq<char>, usize>) -> bool {
    forall|i: int|
        0 <= i < args.len() && (#[trigger] args[i]) is Label ==> rev.contains_key(args[i]->Label_0)
}

/// The jump targets of the instruction at `index`: the positions of its label
/// arguments, unless it is a call (whose label is a function name).
pub open spec fn jump_targets(f: FunctionV, index: usize) -> Seq<usize> {
    if index < f.instructions.len() && f.instructions[index as int].opcode != OpCode::Call {
        label_targets(f.instructions[index as int].arguments, f.labels_reverse)
    } else {
        Seq::empty()
    }
}

/// The label arguments of the instruction at `index` can be resolved (when it has to be).
pub open spec fn jumps_resolved_at(f: FunctionV, index: usize) -> bool {
    index < f.instructions.len() && f.instructions[index as int].opcode != OpCode::Call
        ==> labels_resolved(f.instructions[index as int].arguments, f.labels_reverse)
}

/// The label arguments of every instruction can be resolved.
pub open spec fn jumps_resolved(f: FunctionV) -> bool {
    forall|i: usize| i < f.instructions.len() ==> #[trigger] jumps_resolved_at(f, i)
}

/// `acc` followed by the elements of `s` that are not yet present, in order.
pub open spec fn push_unique(acc: Seq<usize>, s: Seq<usize>) -> Seq<usize>
    decreases s.len(),
{
    if s.len() == 0 {
        acc
    } else {
        let a = push_unique(acc, s.drop_last());
        if a.contains(s.last()) {
            a
        } else {
            a.push(s.last())
        }
    }
}

/// The instructions that may execute right after the one at `index`: the next
/// one (unless it is a jump or the last instruction), then each jump target once.
pub open spec fn next_branches(f: FunctionV, index: usize) -> Seq<usize> {
    let base = if index < f.instructions.len() - 1 && f.instructions[index as int].opcode
        != OpCode::Jmp {
        seq![(index + 1) as usize]
    } else {
        Seq::<usize>::empty()
    };
    push_unique(base, jump_targets(f, index))
}

/// `p` is a path of consecutive possible successors.
pub open spec fn is_path(f: FunctionV, p: Seq<usize>) -> bool {
    &&& p.len() > 0
    &&& forall|k: int| 0 <= k < p.len() - 1 ==> next_branches(f, #[trigger] p[k]).contains(p[k + 1])
}

/// Instruction `to` can be reached from instruction `from`.
pub open spec fn reachable(f: FunctionV, from: usize, to: usize) -> bool {
    exists|p: Seq<usize>| #[trigger] is_path(f, p) && p[0] == from && p.last() == to
}

/// Text of a signature: return type, name, and the arguments, each written
/// as its type followed by its name.
pub open spec fn signature_text(f: FunctionV) -> Seq<char> {
    datatype_text(f.return_type) + " "@ + f.name + "("@ + arguments_list_text(f.arguments) + ")"@
}

/// Text of an argument list: `type name` pairs separated by `, `.
pub open spec fn arguments_list_text(args: Seq<(Seq<char>, DataType)>) -> Seq<char>
    decreases args.len(),
{
    if args.len() == 0 {
        Seq::empty()
    } else if args.len() == 1 {
        datatype_text(args[0].1) + " "@ + args[0].0
    } else {
        arguments_list_text(args.drop_last()) + ", "@ + datatype_text(args.last().1) + " "@
            + args.last().0
    }
}

/// The reads and writes of value `v` by one instruction at position `idx`.
/// Branches, pushes and returns only read. Other instructions write their
/// first argument (or read it, when it is a reference and the instruction is
/// not a cast) and read their other arguments.
pub open spec fn inst_reads_writes(inst: InstructionV, idx: usize, v: ValueV) -> (
    Seq<usize>,
    Seq<usize>,
) {
    let args = inst.arguments;
    let op = inst.opcode;
    if args.len() == 0 {
        (Seq::empty(), Seq::empty())
    } else if is_branch(op) || op == OpCode::Push || op == OpCode::Ret {
        (if args.contains(v) {
            seq![idx]
        } else {
            Seq::empty()
        }, Seq::empty())
    } else {
        let first_is_write = !value_type(v).unwrap().is_ref || op == OpCode::Cast;
        let r0 = if args[0] == v && !first_is_write {
            seq![idx]
        } else {
            Seq::empty()
        };
        let w0 = if args[0] == v && first_is_write {
            seq![idx]
        } else {
            Seq::empty()
        };
        let r1 = if args.len() > 1 && args.subrange(1, args.len() as int).contains(v) {
            seq![idx]
        } else {
            Seq::empty()
        };
        (r0 + r1, w0)
    }
}

/// The reads and writes of `v` by the first `insts.len()` instructions, in order of position.
pub open spec fn reads_writes(insts: Seq<InstructionV>, v: ValueV) -> (Seq<usize>, Seq<usize>)
    decreases insts.len(),
{
    if insts.len() == 0 {
        (Seq::empty(), Seq::empty())
    } else {
        let (r, w) = reads_writes(insts.drop_last(), v);
        let (r1, w1) = inst_reads_writes(insts.last(), (insts.len() - 1) as usize, v);
        (r + r1, w + w1)
    }
}

/// Looking at the type of `v` is needed only when it is the first argument of
/// an instruction that can write; a label has no type.
pub open spec fn reads_writes_defined(insts: Seq<InstructionV>, v: ValueV) -> bool {
    v is Label ==> forall|i: int|
        0 <= i < insts.len() && (#[trigger] insts[i]).arguments.len() > 0 && !(is_branch(
            insts[i].opcode,
        ) || insts[i].opcode == OpCode::Push || insts[i].opcode == OpCode::Ret)
            ==> insts[i].arguments[0] != v
}

/// `acc` extended by the symbols among `args` that it does not hold yet, in order.
pub open spec fn add_symbols(acc: Seq<SymbolV>, args: Seq<ValueV>) -> Seq<SymbolV>
    decreases args.len(),
{
    if args.len() == 0 {
        acc
    } else {
        let a = add_symbols(acc, args.drop_last());
        match args.last() {
            ValueV::Symbol(s) => if a.contains(s) {
                a
            } else {
                a.push(s)
            },
            _ => a,
        }
    }
}

/// The distinct symbols used by the instructions, in order of first use.
pub open spec fn all_symbols(insts: Seq<InstructionV>) -> Seq<SymbolV>
    decreases insts.len(),
{
    if insts.len() == 0 {
        Seq::empty()
    } else {
        add_symbols(all_symbols(insts.drop_last()), insts.last().arguments)
    }
}

/// The label table after placing `label` at `index`.
pub open spec fn placed_labels(
    labels: Map<usize, Seq<Seq<char>>>,
    label: Seq<char>,
    index: usize,
) -> Map<usize, Seq<Seq<char>>> {
    if labels.contains_key(index) {
        labels.insert(index, labels[index].push(label))
    } else {
        labels.insert(index, seq![label])
    }
}

/// `f` with `label` placed at `index`.
pub open spec fn place_label_v(f: FunctionV, label: Seq<char>, index: usize) -> FunctionV {
    FunctionV {
        labels: placed_labels(f.labels, label, index),
        labels_reverse: f.labels_reverse.insert(label, index),
        ..f
    }
}

/// `f` with `inst` appended.
pub open spec fn add_instruction_v(f: FunctionV, inst: InstructionV) -> FunctionV {
    FunctionV {
        instructions: f.instructions.push(inst),
        next_index: (f.next_index + 1) as usize,
        ..f
    }
}

/// The name of label number `n`.
pub open spec fn label_name(n: usize) -> Seq<char> {
    seq!['L'] + nat_text(n as nat)
}

/// The name of register number `n`.
pub open spec fn register_name(n: usize) -> Seq<char> {
    seq!['R'] + nat_text(n as nat)
}

/// `f` after taking a fresh label.
pub open spec fn next_label_v(f: FunctionV) -> FunctionV {
    FunctionV { next_label: (f.next_label + 1) as usize, ..f }
}

/// `f` after taking a fresh register.
pub open spec fn next_register_v(f: FunctionV) -> FunctionV {
    FunctionV { next_register: (f.next_register + 1) as usize, ..f }
}

/// The labels of `ls` other than `label`, in order.
pub open spec fn without_label(ls: Seq<Seq<char>>, label: Seq<char>) -> Seq<Seq<char>> {
    ls.filter(|l: Seq<char>| l != label)
}

/// `f` with the label at `index` removed from the labels of its position and from the reverse table.
pub open spec fn remove_label_v(f: FunctionV, label: Seq<char>) -> FunctionV {
    let labels = if f.labels_reverse.contains_key(label) && f.labels.contains_key(
        f.labels_reverse[label],
    ) && f.labels[f.labels_reverse[label]].contains(label) {
        let index = f.labels_reverse[label];
        let rest = without_label(f.labels[index], label);
        if rest.len() > 0 {
            f.labels.insert(index, rest)
        } else {
            f.labels.remove(index)
        }
    } else {
        f.labels
    };
    FunctionV { labels, labels_reverse: f.labels_reverse.remove(label), ..f }
}

/// A new function: no instructions, labels or symbols, named `[UNKNOWN]`,
/// returning `void`; label numbers start at 0 and register numbers at 1
/// (register 0 holds the return value).
pub open spec fn new_function_v() -> FunctionV {
    FunctionV {
        instructions: Seq::empty(),
        labels: Map::empty(),
        labels_reverse: Map::empty(),
        symbol_table: Map::empty(),
        return_type: DataType { raw_type: NonPtrType::Void, num_ptr: 0, is_ref: false },
        name: "[UNKNOWN]"@,
        arguments: Seq::empty(),
        next_label: 0,
        next_register: 1,
        next_index: 0,
        continue_stack: Seq::empty(),
        break_stack: Seq::empty(),
        return_value: ValueV::Symbol(
            SymbolV {
                title: "R0"@,
                datatype: DataType { raw_type: NonPtrType::Void, num_ptr: 0, is_ref: false },
            },
        ),
    }
}

impl Function {
    pub fn new() -> (f: Self)
        ensures
            f@ == new_function_v(),
    {
        let f = Self {
            instructions: Vec::new(),
            labels: Table::new(),
            labels_reverse: Table::new(),
            symbol_table: Table::new(),
            return_type: DataType::new(NonPtrType::Void, 0, false),
            name: String::from_str("[UNKNOWN]"),
            arguments: Vec::new(),
            next_label: 0,
            next_register: 1,
            next_index: 0,
            continue_stack: Vec::new(),
            break_stack: Vec::new(),
            return_value: Value::Symbol(
                Symbol::new(String::from_str("R0"), DataType::new(NonPtrType::Void, 0, false)),
            ),
        };
        assert(f@.instructions =~= Seq::<InstructionV>::empty());
        assert(f@.arguments =~= Seq::<(Seq<char>, DataType)>::empty());
        assert(f@.continue_stack =~= Seq::<Seq<char>>::empty());
        assert(f@.break_stack =~= Seq::<Seq<char>>::empty());
        f
    }

    pub fn set_function_signature(
        &mut self,
        return_type: DataType,
        name: String,
        arguments: Vec<(String, DataType)>,
    )
        ensures
            final(self)@ == (FunctionV {
                return_type,
                name: name@,
                arguments: arguments.deep_view(),
                symbol_table: insert_arguments(old(self)@.symbol_table, arguments.deep_view()),
                ..old(self)@
            }),
    {
        self.return_type = return_type;
        self.name = name;
        self.arguments = arguments;
        let ghost args = self.arguments.deep_view();
        let ghost start = self.symbol_table.map();
        let ghost pre = self@;
        let mut i: usize = 0;
        while i < self.arguments.len()
            invariant
                i <= self.arguments.len(),
                args == self.arguments.deep_view(),
                self@ == (FunctionV { symbol_table: self@.symbol_table, ..pre }),
                self.symbol_table.map() == insert_arguments(start, args.take(i as int)),
            decreases self.arguments.len() - i,
        {
            let s = self.arguments[i].0.clone();
            let t = self.arguments[i].1;
            self.symbol_table.insert(s.clone(), Symbol::new(s, t));
            proof {
                assert(args.take(i + 1).drop_last() =~= args.take(i as int));
            }
            i = i + 1;
        }
        assert(args.take(self.arguments.len() as int) =~= args);
    }

    /// The targets of the jumps of the instruction at `index`, if it has any.
    pub fn get_jump_values(&self, index: usize) -> (r: Option<Vec<usize>>)
        requires
            jumps_resolved_at(self@, index),
        ensures
            match r {
                Some(v) => v@ == jump_targets(self@, index) && v@.len() > 0,
                None => jump_targets(self@, index).len() == 0,
            },
    {
        let mut result: Vec<usize> = Vec::new();
        if index < self.instructions.len() {
            let inst = &self.instructions[index];
            if inst.opcode != OpCode::Call {
                let ghost args = values_view(inst.arguments@);
                let mut k: usize = 0;
                while k < inst.arguments.len()
                    invariant
                        k <= inst.arguments.len(),
                        args == values_view(inst.arguments@),
                        labels_resolved(args, self@.labels_reverse),
                        result@ == label_targets(args.take(k as int), self@.labels_reverse),
                    decreases inst.arguments.len() - k,
                {
                    proof {
                        assert(args.take(k + 1).drop_last() =~= args.take(k as int));
                        assert(args.take(k + 1).last() == args[k as int]);
                    }
                    match &inst.arguments[k] {
                        Value::Label(s) => {
                            assert(args[k as int] is Label);
                            let v = *self.labels_reverse.get(s).unwrap();
                            result.push(v);
                        },
                        _ => {},
                    }
                    k = k + 1;
                }
                assert(args.take(inst.arguments.len() as int) =~= args);
            }
        }
        if result.len() > 0 {
            Some(result)
        } else {
            None
        }
    }

    /// Replace the instruction at `index` by a `nop` without arguments.
    pub fn change_to_nop(&mut self, index: usize)
        requires
            index < old(self)@.instructions.len(),
        ensures
            final(self)@ == (FunctionV {
                instructions: old(self)@.instructions.update(
                    index as int,
                    InstructionV { opcode: OpCode::Nop, arguments: Seq::empty() },
                ),
                ..old(self)@
            }),
    {
        let ghost old_insts = self@.instructions;
        let empty: Vec<Value> = Vec::new();
        assert(values_view(empty@) =~= Seq::<ValueV>::empty());
        self.instructions.set(index, Instruction { opcode: OpCode::Nop, arguments: empty });
        assert(self@.instructions =~= old_insts.update(
            index as int,
            InstructionV { opcode: OpCode::Nop, arguments: Seq::empty() },
        ));
    }

    /// The instructions that may execute right after the one at `index`.
    pub fn get_next_branches(&self, index: usize) -> (r: Vec<usize>)
        requires
            self@.instructions.len() > 0,
            jumps_resolved_at(self@, index),
        ensures
            r@ == next_branches(self@, index),
    {
        let mut result: Vec<usize> = Vec::new();
        if index < self.instructions.len() - 1 && self.instructions[index].opcode != OpCode::Jmp {
            result.push(index + 1);
        }
        let ghost base = result@;
        assert(base =~= (if index < self@.instructions.len() - 1
            && self@.instructions[index as int].opcode != OpCode::Jmp {
            seq![(index + 1) as usize]
        } else {
            Seq::<usize>::empty()
        }));
        if index < self.instructions.len() {
            let inst = &self.instructions[index];
            if inst.opcode != OpCode::Call {
                let ghost args = values_view(inst.arguments@);
                let ghost rev = self@.labels_reverse;
                let mut k: usize = 0;
                while k < inst.arguments.len()
                    invariant
                        k <= inst.arguments.len(),
                        args == values_view(inst.arguments@),
                        rev == self@.labels_reverse,
                        labels_resolved(args, rev),
                        result@ == push_unique(base, label_targets(args.take(k as int), rev)),
                    decreases inst.arguments.len() - k,
                {
                    proof {
                        assert(args.take(k + 1).drop_last() =~= args.take(k as int));
                        assert(args.take(k + 1).last() == args[k as int]);
                    }
                    match &inst.arguments[k] {
                        Value::Label(s) => {
                            assert(args[k as int] is Label);
                            let v = *self.labels_reverse.get(s).unwrap();
                            let ghost t = label_targets(args.take(k as int), rev);
                            assert(label_targets(args.take(k + 1), rev) == t.push(v));
                            assert(t.push(v).drop_last() =~= t);
                            if !vec_contains(&result, v) {
                                result.push(v);
                            }
                        },
                        _ => {
                            assert(label_targets(args.take(k + 1), rev) == label_targets(
                                args.take(k as int),
                                rev,
                            ));
                        },
                    }
                    k = k + 1;
                }
                assert(args.take(inst.arguments.len() as int) =~= args);
            }
        }
        result
    }

    /// Place `label` at instruction position `index`.
    pub fn place_label(&mut self, label: String, index: usize)
        ensures
            final(self)@ == place_label_v(old(self)@, label@, index),
    {
        match self.labels.get(&index) {
            Some(existing) => {
                let mut v = clone_strings(existing);
                v.push(label.clone());
                let ghost nv = v.deep_view();
                assert(nv =~= old(self)@.labels[index].push(label@));
                self.labels.insert(index, v);
            },
            None => {
                let v = vec![label.clone()];
                assert(v.deep_view() =~= seq![label@]);
                self.labels.insert(index, v);
            },
        }
        self.labels_reverse.insert(label, index);
    }

    /// Place `label` at the position of the next instruction.
    pub fn place_label_here(&mut self, label: String)
        ensures
            final(self)@ == place_label_v(old(self)@, label@, old(self)@.next_index),
    {
        let index = self.next_index;
        self.place_label(label, index);
    }

    /// A fresh label name `L<n>`.
    pub fn get_label(&mut self) -> (l: String)
        requires
            old(self)@.next_label < usize::MAX,
        ensures
            l@ == label_name(old(self)@.next_label),
            final(self)@ == next_label_v(old(self)@),
    {
        self.next_label = self.next_label + 1;
        let mut l = String::from_str("L");
        let n = usize_text(self.next_label - 1);
        l.append(n.as_str());
        proof {
            reveal_strlit("L");
        }
        l
    }

    /// A fresh label name, placed at the position of the next instruction.
    pub fn get_label_and_place(&mut self) -> (l: String)
        requires
            old(self)@.next_label < usize::MAX,
        ensures
            l@ == label_name(old(self)@.next_label),
            final(self)@ == place_label_v(next_label_v(old(self)@), l@, old(self)@.next_index),
    {
        let label = self.get_label();
        self.place_label(label.clone(), self.next_index);
        label
    }

    /// A fresh register name `R<n>`.
    pub fn get_register(&mut self) -> (r: String)
        requires
            old(self)@.next_register < usize::MAX,
        ensures
            r@ == register_name(old(self)@.next_register),
            final(self)@ == next_register_v(old(self)@),
    {
        self.next_register = self.next_register + 1;
        let mut r = String::from_str("R");
        let n = usize_text(self.next_register - 1);
        r.append(n.as_str());
        proof {
            reveal_strlit("R");
        }
        r
    }

    /// Append an instruction.
    pub fn add_instruction(&mut self, inst: Instruction)
        requires
            old(self)@.next_index == old(self)@.instructions.len(),
            old(self)@.next_index < usize::MAX,
        ensures
            final(self)@ == add_instruction_v(old(self)@, inst@),
    {
        let ghost iv = inst@;
        self.instructions.push(inst);
        self.next_index = self.next_index + 1;
        assert(self@.instructions =~= old(self)@.instructions.push(iv));
    }

    /// Take the entry and exit labels of a new loop and make them the targets
    /// of `continue` and `break`.
    pub fn enter_loop(&mut self) -> (r: (String, String))
        requires
            old(self)@.next_label + 1 < usize::MAX,
        ensures
            r.0@ == label_name(old(self)@.next_label),
            r.1@ == label_name((old(self)@.next_label + 1) as usize),
            final(self)@ == (FunctionV {
                next_label: (old(self)@.next_label + 2) as usize,
                continue_stack: old(self)@.continue_stack.push(r.0@),
                break_stack: old(self)@.break_stack.push(r.1@),
                ..old(self)@
            }),
    {
        let entry = self.get_label();
        let exit = self.get_label();
        self.continue_stack.push(entry.clone());
        self.break_stack.push(exit.clone());
        proof {
            assert(self@.continue_stack =~= old(self)@.continue_stack.push(entry@));
            assert(self@.break_stack =~= old(self)@.break_stack.push(exit@));
        }
        (entry, exit)
    }

    /// Leave the innermost loop.
    pub fn exit_loop(&mut self)
        ensures
            final(self)@ == (FunctionV {
                continue_stack: if old(self)@.continue_stack.len() > 0 {
                    old(self)@.continue_stack.drop_last()
                } else {
                    old(self)@.continue_stack
                },
                break_stack: if old(self)@.break_stack.len() > 0 {
                    old(self)@.break_stack.drop_last()
                } else {
                    old(self)@.break_stack
                },
                ..old(self)@
            }),
    {
        let _ = self.continue_stack.pop();
        let _ = self.break_stack.pop();
        proof {
            assert(self@.continue_stack =~= (if old(self)@.continue_stack.len() > 0 {
                old(self)@.continue_stack.drop_last()
            } else {
                old(self)@.continue_stack
            }));
            assert(self@.break_stack =~= (if old(self)@.break_stack.len() > 0 {
                old(self)@.break_stack.drop_last()
            } else {
                old(self)@.break_stack
            }));
        }
    }

    /// The target of a `continue` in the innermost loop.
    pub fn get_continue(&mut self) -> (r: Option<String>)
        ensures
            final(self)@ == old(self)@,
            match r {
                Some(l) => old(self)@.continue_stack.len() > 0 && l@ == old(
                    self,
                )@.continue_stack.last(),
                None => old(self)@.continue_stack.len() == 0,
            },
    {
        if self.continue_stack.len() > 0 {
            Some(self.continue_stack[self.continue_stack.len() - 1].clone())
        } else {
            None
        }
    }

    /// The target of a `break` in the innermost loop (looked up at the depth
    /// of the `continue` stack).
    pub fn get_break(&mut self) -> (r: Option<String>)
        requires
            old(self)@.break_stack.len() > 0 ==> 0 < old(self)@.continue_stack.len() <= old(
                self,
            )@.break_stack.len(),
        ensures
            final(self)@ == old(self)@,
            match r {
                Some(l) => old(self)@.break_stack.len() > 0 && l@ == old(
                    self,
                )@.break_stack[old(self)@.continue_stack.len() - 1],
                None => old(self)@.break_stack.len() == 0,
            },
    {
        if self.break_stack.len() > 0 {
            Some(self.break_stack[self.continue_stack.len() - 1].clone())
        } else {
            None
        }
    }

    /// Whether the instruction at `index` has effects beyond its arguments (a call).
    pub fn has_side_effects(&self, index: usize) -> (r: bool)
        ensures
            r == (index < self@.instructions.len() && self@.instructions[index as int].opcode
                == OpCode::Call),
    {
        if index < self.instructions.len() {
            self.instructions[index].opcode == OpCode::Call
        } else {
            false
        }
    }

    /// The positions of the instructions that read and that write `value`.
    pub fn get_reads_writes_for(&self, value: Value) -> (r: (Vec<usize>, Vec<usize>))
        requires
            reads_writes_defined(self@.instructions, value@),
        ensures
            (r.0@, r.1@) == reads_writes(self@.instructions, value@),
    {
        let mut reads: Vec<usize> = Vec::new();
        let mut writes: Vec<usize> = Vec::new();
        let ghost insts = self@.instructions;
        let mut index: usize = 0;
        while index < self.instructions.len()
            invariant
                index <= self.instructions.len(),
                insts == self@.instructions,
                reads_writes_defined(insts, value@),
                (reads@, writes@) == reads_writes(insts.take(index as int), value@),
            decreases self.instructions.len() - index,
        {
            let inst = &self.instructions[index];
            let ghost iv = inst@;
            let ghost (r0, w0) = (reads@, writes@);
            proof {
                assert(insts.take(index + 1).drop_last() =~= insts.take(index as int));
                assert(insts.take(index + 1).last() == iv);
            }
            if inst.arguments.len() > 0 {
                match inst.opcode {
                    OpCode::Beq | OpCode::Bge | OpCode::Bgt | OpCode::Ble | OpCode::Blt
                    | OpCode::Bne | OpCode::Push | OpCode::Ret => {
                        assert(values_view(inst.arguments@).subrange(0, inst.arguments.len() as int)
                            =~= values_view(inst.arguments@));
                        if values_contain(&inst.arguments, &value, 0) {
                            reads.push(index);
                        }
                    },
                    _ => {
                        if inst.arguments[0] == value {
                            assert(insts[index as int].arguments[0] == value@);
                            let is_ref = match &value {
                                Value::Literal(l) => l.datatype.is_ref,
                                Value::Symbol(s) => s.datatype.is_ref,
                                Value::Label(_) => false,
                            };
                            if !is_ref || inst.opcode == OpCode::Cast {
                                writes.push(index);
                            } else {
                                reads.push(index);
                            }
                        }
                        if inst.arguments.len() > 1 {
                            if values_contain(&inst.arguments, &value, 1) {
                                reads.push(index);
                            }
                        }
                    },
                }
            }
            proof {
                let (r1, w1) = inst_reads_writes(iv, index, value@);
                assert(reads@ =~= r0 + r1);
                assert(writes@ =~= w0 + w1);
            }
            index = index + 1;
        }
        assert(insts.take(self.instructions.len() as int) =~= insts);
        (reads, writes)
    }

    /// The distinct symbols used by the instructions, in order of first use.
    pub fn get_all_symbols(&self) -> (r: Vec<Symbol>)
        ensures
            r@.map_values(|s: Symbol| s@) == all_symbols(self@.instructions),
    {
        let mut result: Vec<Symbol> = Vec::new();
        let ghost insts = self@.instructions;
        let mut index: usize = 0;
        while index < self.instructions.len()
            invariant
                index <= self.instructions.len(),
                insts == self@.instructions,
                result@.map_values(|s: Symbol| s@) == all_symbols(insts.take(index as int)),
            decreases self.instructions.len() - index,
        {
            let inst = &self.instructions[index];
            let ghost args = values_view(inst.arguments@);
            let ghost acc0 = result@.map_values(|s: Symbol| s@);
            proof {
                assert(insts.take(index + 1).drop_last() =~= insts.take(index as int));
            }
            let mut k: usize = 0;
            while k < inst.arguments.len()
                invariant
                    k <= inst.arguments.len(),
                    args == values_view(inst.arguments@),
                    result@.map_values(|s: Symbol| s@) == add_symbols(acc0, args.take(k as int)),
                decreases inst.arguments.len() - k,
            {
                proof {
                    assert(args.take(k + 1).drop_last() =~= args.take(k as int));
                }
                if let Value::Symbol(symbol) = &inst.arguments[k] {
                    let ghost before = result@.map_values(|s: Symbol| s@);
                    if !symbols_contain(&result, symbol) {
                        result.push(symbol.clone());
                        assert(result@.map_values(|s: Symbol| s@) =~= before.push(symbol@));
                    }
                }
                k = k + 1;
            }
            assert(args.take(inst.arguments.len() as int) =~= args);
            index = index + 1;
        }
        assert(insts.take(self.instructions.len() as int) =~= insts);
        result
    }

    /// The text of the signature: return type, name and arguments.
    pub fn render_signature(&self) -> (s: String)
        ensures
            s@ == signature_text(self@),
    {
        let mut result = String::new();
        self.return_type.append_to(&mut result);
        result.append(" ");
        result.append(self.name.as_str());
        result.append("(");
        let ghost head = result@;
        let ghost args = self.arguments.deep_view();
        let mut i: usize = 0;
        while i < self.arguments.len()
            invariant
                i <= self.arguments.len(),
                args == self.arguments.deep_view(),
                result@ == head + arguments_list_text(args.take(i as int)) + (if i > 0 && i
                    < self.arguments.len() {
                    ", "@
                } else {
                    Seq::<char>::empty()
                }),
            decreases self.arguments.len() - i,
        {
            let ghost before = result@;
            self.arguments[i].1.append_to(&mut result);
            result.append(" ");
            result.append(self.arguments[i].0.as_str());
            if i != self.arguments.len() - 1 {
                result.append(", ");
            }
            proof {
                assert(args.take(i + 1).drop_last() =~= args.take(i as int));
                assert(args.take(i + 1).last() == args[i as int]);
                if i == 0 {
                    assert(args.take(1)[0] == args[0]);
                    assert(head + Seq::<char>::empty() =~= head);
                }
                assert(result@ =~= head + arguments_list_text(args.take(i + 1)) + (if i + 1 > 0
                    && i + 1 < self.arguments.len() {
                    ", "@
                } else {
                    Seq::<char>::empty()
                }));
            }
            i = i + 1;
        }
        assert(args.take(self.arguments.len() as int) =~= args);
        result.append(")");
        proof {
            assert(result@ =~= signature_text(self@));
        }
        result
    }

    /// Remove a label from the label tables.
    pub fn remove_label(&mut self, label: String)
        ensures
            final(self)@ == remove_label_v(old(self)@, label@),
    {
        let found = match self.labels_reverse.get(&label) {
            Some(index) => Some(*index),
            None => None,
        };
        if let Some(index) = found {
            let next = match self.labels.get(&index) {
                Some(labels) => {
                    if strings_contain(labels, &label) {
                        Some(strings_without(labels, &label))
                    } else {
                        None
                    }
                },
                None => None,
            };
            if let Some(next_vec) = next {
                if next_vec.len() > 0 {
                    self.labels.insert(index, next_vec);
                } else {
                    let _ = self.labels.remove(&index);
                }
            }
        }
        let _ = self.labels_reverse.remove(&label);
    }
}


/// Extending a path by a possible successor of its last instruction gives a path.
proof fn lemma_new_front(
    f: FunctionV,
    index: usize,
    e0: Seq<usize>,
    explored: Seq<usize>,
    nf: Seq<usize>,
    v: usize,
)
    requires
        explored.len() > 0,
        explored[0] == index,
        e0.len() <= explored.len(),
        forall|i: int| 0 <= i < e0.len() ==> explored[i] == e0[i],
        !explored.contains(v),
        reachable(f, index, v),
        forall|x: usize| nf.contains(x) ==> reachable(f, index, x),
        forall|x: usize| nf.contains(x) ==> !e0.contains(x) && x != index,
    ensures
        forall|x: usize| #[trigger]
            nf.push(v).contains(x) ==> reachable(f, index, x) && !e0.contains(x) && x != index,
{
    assert forall|x: usize| #[trigger]
        nf.push(v).contains(x) implies reachable(f, index, x) && !e0.contains(x) && x != index by {
        if x == v {
            if e0.contains(v) {
                let i = choose|i: int| 0 <= i < e0.len() && e0[i] == v;
                assert(explored[i] == v);
                assert(explored.contains(v));
            }
            assert(explored[0] == index);
            assert(explored.contains(index));
        } else {
            let i = choose|i: int| 0 <= i < nf.push(v).len() && nf.push(v)[i] == x;
            assert(i < nf.len());
            assert(nf[i] == x);
            assert(nf.contains(x));
        }
    }
}

pub(crate) proof fn lemma_reach_step(f: FunctionV, a: usize, u: usize, v: usize)
    requires
        reachable(f, a, u),
        next_branches(f, u).contains(v),
    ensures
        reachable(f, a, v),
{
    let p = choose|p: Seq<usize>| #[trigger] is_path(f, p) && p[0] == a && p.last() == u;
    let q = p.push(v);
    assert forall|k: int| 0 <= k < q.len() - 1 implies next_branches(f, #[trigger] q[k]).contains(
        q[k + 1],
    ) by {
        if k < p.len() - 1 {
            assert(q[k] == p[k] && q[k + 1] == p[k + 1]);
        } else {
            assert(q[k] == u && q[k + 1] == v);
        }
    }
    assert(is_path(f, q) && q[0] == a && q.last() == v);
}

/// A set that holds `a` and every possible successor of its members holds
/// everything reachable from `a`.
pub(crate) proof fn lemma_closed_holds_reachable(f: FunctionV, a: usize, e: Set<usize>, x: usize)
    requires
        e.contains(a),
        forall|u: usize, v: usize| e.contains(u) && next_branches(f, u).contains(v) ==> e.contains(v),
        reachable(f, a, x),
    ensures
        e.contains(x),
{
    let p = choose|p: Seq<usize>| #[trigger] is_path(f, p) && p[0] == a && p.last() == x;
    lemma_path_in_closed(f, p, e, p.len() - 1);
}

proof fn lemma_path_in_closed(f: FunctionV, p: Seq<usize>, e: Set<usize>, k: int)
    requires
        is_path(f, p),
        0 <= k < p.len(),
        e.contains(p[0]),
        forall|u: usize, v: usize| e.contains(u) && next_branches(f, u).contains(v) ==> e.contains(v),
    ensures
        e.contains(p[k]),
    decreases k,
{
    if k > 0 {
        lemma_path_in_closed(f, p, e, k - 1);
        assert(next_branches(f, p[k - 1]).contains(p[k]));
    }
}

proof fn lemma_push_to_set(s: Seq<usize>, a: usize)
    ensures
        s.push(a).to_set() == s.to_set().insert(a),
        s.push(a).to_set().finite(),
        s.to_set().finite(),
{
    assert forall|x: usize| #[trigger] s.push(a).to_set().contains(x) == s.to_set().insert(a).contains(x) by {
        if s.push(a).contains(x) {
            let i = choose|i: int| 0 <= i < s.push(a).len() && s.push(a)[i] == x;
            if i < s.len() {
                assert(s[i] == x);
            }
        }
        if s.contains(x) {
            let i = choose|i: int| 0 <= i < s.len() && s[i] == x;
            assert(s.push(a)[i] == x);
        }
        if x == a {
            assert(s.push(a)[s.len() as int] == a);
        }
    }
    assert(s.push(a).to_set() =~= s.to_set().insert(a));
    vstd::seq_lib::seq_to_set_is_finite(s);
    vstd::seq_lib::seq_to_set_is_finite(s.push(a));
}

impl Function {
    /// Every instruction that can be reached from the one at `index`
    /// (including itself), found breadth-first; `index` comes first.
    #[verifier::spinoff_prover]
    #[verifier::rlimit(60)]
    pub fn get_explored_from(&self, index: usize) -> (r: Vec<usize>)
        requires
            self@.instructions.len() > 0,
            jumps_resolved(self@),
        ensures
            r@.len() > 0,
            r@[0] == index,
            !r@.subrange(1, r@.len() as int).contains(index),
            forall|x: usize| r@.contains(x) <==> reachable(self@, index, x),
    {
        let ghost f = self@;
        let ghost full = Set::<usize>::full();
        proof {
            <usize as vstd::set_lib::FiniteFull>::full_properties();
            assert(is_path(f, seq![index]));
            assert(reachable(f, index, index));
        }
        let mut fronts: Vec<usize> = vec![index];
        let mut explored: Vec<usize> = Vec::new();
        proof {
            vstd::seq_lib::seq_to_set_is_finite(explored@);
        }
        while fronts.len() > 0
            invariant
                f == self@,
                full == Set::<usize>::full(),
                full.finite(),
                explored@.to_set().finite(),
                f.instructions.len() > 0,
                jumps_resolved(f),
                fronts@.no_duplicates(),
                forall|x: usize| explored@.contains(x) ==> reachable(f, index, x),
                forall|x: usize| fronts@.contains(x) ==> reachable(f, index, x),
                forall|u: usize, v: usize|
                    explored@.contains(u) && next_branches(f, u).contains(v) ==> explored@.contains(v)
                        || fronts@.contains(v),
                explored@.len() == 0 ==> fronts@ == seq![index],
                explored@.len() > 0 ==> {
                    &&& explored@[0] == index
                    &&& !explored@.subrange(1, explored@.len() as int).contains(index)
                    &&& !fronts@.contains(index)
                },
            decreases 2 * (full.len() - explored@.to_set().len()) + (if fronts@.len() > 0 && (
            forall|x: usize| fronts@.contains(x) ==> explored@.contains(x)) {
                1int
            } else {
                0int
            }),
        {
            let ghost e0 = explored@;
            let ghost fr = fronts@;
            let ghost mut grew = false;
            let mut next_fronts: Vec<usize> = Vec::new();
            let mut j: usize = 0;
            proof {
                assert(fr.skip(0) =~= fr);
                assert(e0 + fr.take(0) =~= e0);
            }
            while j < fronts.len()
                invariant
                    f == self@,
                    f.instructions.len() > 0,
                    jumps_resolved(f),
                    fr == fronts@,
                    fr.len() > 0,
                    j <= fr.len(),
                    explored@ == e0 + fr.take(j as int),
                    e0.to_set().finite(),
                    explored@.to_set().finite(),
                    next_fronts@.no_duplicates(),
                    forall|x: usize| e0.contains(x) ==> reachable(f, index, x),
                    forall|x: usize| fr.contains(x) ==> reachable(f, index, x),
                    forall|x: usize| #[trigger]
                        next_fronts@.contains(x) ==> reachable(f, index, x) && !e0.contains(x) && x != index,
                    forall|u: usize, v: usize|
                        explored@.contains(u) && next_branches(f, u).contains(v) ==> explored@.contains(v)
                            || fr.skip(j as int).contains(v) || next_fronts@.contains(v),
                    e0.len() == 0 ==> fr == seq![index],
                    e0.len() > 0 ==> e0[0] == index,
                    grew ==> explored@.to_set().len() > e0.to_set().len(),
                    !grew ==> explored@.to_set() == e0.to_set(),
                    !grew ==> forall|k: int| 0 <= k < j ==> e0.contains(#[trigger] fr[k]),
                decreases fr.len() - j,
            {
                let front = fronts[j];
                let ghost before = explored@;
                let ghost nf0 = next_fronts@;
                proof {
                    assert(fr.take(j + 1) =~= fr.take(j as int).push(front));
                    assert(fr.contains(front));
                    if front < f.instructions.len() {
                        assert(jumps_resolved_at(f, front));
                    }
                }
                explored.push(front);
                proof {
                    lemma_push_to_set(before, front);
                    assert(explored@ =~= e0 + fr.take(j + 1));
                    assert(explored@[explored@.len() - 1] == front);
                    if e0.len() == 0 {
                        assert(explored@[0] == front);
                    } else {
                        assert(explored@[0] == e0[0]);
                    }
                    if e0.contains(front) {
                        let w = choose|w: int| 0 <= w < e0.len() && e0[w] == front;
                        assert(before[w] == front);
                        assert(before.to_set().contains(front));
                        assert(explored@.to_set() =~= before.to_set());
                    } else if !grew {
                        assert(!before.to_set().contains(front));
                        grew = true;
                    }
                }
                let succs = self.get_next_branches(front);
                let mut k: usize = 0;
                while k < succs.len()
                    invariant
                        f == self@,
                        explored@.contains(front),
                        explored@.len() > 0,
                        explored@[0] == index,
                        e0.len() > 0 ==> e0[0] == index,
                        explored@ == e0 + fr.take(j + 1),
                        succs@ == next_branches(f, front),
                        k <= succs.len(),
                        next_fronts@.no_duplicates(),
                        reachable(f, index, front),
                        forall|x: usize| nf0.contains(x) ==> next_fronts@.contains(x),
                        forall|x: usize| #[trigger]
                            next_fronts@.contains(x) ==> reachable(f, index, x) && !e0.contains(x) && x != index,
                        forall|i: int| 0 <= i < k ==> explored@.contains(#[trigger] succs@[i])
                            || next_fronts@.contains(succs@[i]),
                    decreases succs.len() - k,
                {
                    let v = succs[k];
                    let ghost nf_before = next_fronts@;
                    proof {
                        assert(next_branches(f, front).contains(v));
                        lemma_reach_step(f, index, front, v);
                    }
                    if !vec_contains(&explored, v) && !vec_contains(&next_fronts, v) {
                        next_fronts.push(v);
                        proof {
                            assert(next_fronts@ == nf_before.push(v));
                            lemma_new_front(f, index, e0, explored@, nf_before, v);
                            assert forall|x: usize| nf0.contains(x) implies next_fronts@.contains(x) by {
                                let i = choose|i: int| 0 <= i < nf_before.len() && nf_before[i] == x;
                                assert(next_fronts@[i] == x);
                            }
                            assert forall|i: int| 0 <= i < k + 1 implies explored@.contains(
                                #[trigger] succs@[i],
                            ) || next_fronts@.contains(succs@[i]) by {
                                if i < k {
                                    if nf_before.contains(succs@[i]) {
                                        let w = choose|w: int| 0 <= w < nf_before.len() && nf_before[w] == succs@[i];
                                        assert(next_fronts@[w] == succs@[i]);
                                    }
                                } else {
                                    assert(next_fronts@[next_fronts@.len() - 1] == v);
                                }
                            }
                        }
                    }
                    k = k + 1;
                }
                proof {
                    assert forall|u: usize, w: usize|
                        explored@.contains(u) && next_branches(f, u).contains(w) implies explored@.contains(w)
                            || fr.skip(j + 1).contains(w) || next_fronts@.contains(w) by {
                        if u == front {
                            let i = choose|i: int| 0 <= i < succs@.len() && succs@[i] == w;
                            assert(explored@.contains(succs@[i]) || next_fronts@.contains(succs@[i]));
                        } else {
                            let i = choose|i: int| 0 <= i < explored@.len() && explored@[i] == u;
                            assert(i < before.len());
                            assert(before[i] == u);
                            assert(before.contains(u));
                            if before.contains(w) {
                                let b = choose|b: int| 0 <= b < before.len() && before[b] == w;
                                assert(explored@[b] == w);
                            } else if fr.skip(j as int).contains(w) {
                                let b = choose|b: int| 0 <= b < fr.skip(j as int).len() && fr.skip(j as int)[b] == w;
                                if b == 0 {
                                    assert(w == front);
                                } else {
                                    assert(fr.skip(j + 1)[b - 1] == w);
                                }
                            } else {
                                assert(nf0.contains(w));
                            }
                        }
                    }
                    if !grew {
                        assert forall|k2: int| 0 <= k2 < j + 1 implies e0.contains(#[trigger] fr[k2]) by {
                            if k2 == j {
                                assert(e0.contains(front));
                            }
                        }
                    }
                }
                j = j + 1;
            }
            assert(j == fr.len());
            assert(explored@ == e0 + fr.take(j as int));
            assert forall|x: usize| #[trigger]
                next_fronts@.contains(x) implies reachable(f, index, x) && !e0.contains(x) && x != index by {}
            proof {
                assert(fr.take(fr.len() as int) =~= fr);
                assert forall|u: usize, w: usize|
                    explored@.contains(u) && next_branches(f, u).contains(w) implies explored@.contains(w)
                        || next_fronts@.contains(w) by {
                    assert(fr.skip(fr.len() as int).len() == 0);
                }
                if e0.len() == 0 {
                    assert(explored@ =~= seq![index]);
                    assert(explored@.subrange(1, explored@.len() as int).len() == 0);
                } else {
                    assert(explored@[0] == e0[0]);
                    assert forall|i: int| 1 <= i < explored@.len() implies explored@[i] != index by {
                        if i < e0.len() {
                            assert(e0.subrange(1, e0.len() as int)[i - 1] == e0[i]);
                        } else {
                            assert(explored@[i] == fr[i - e0.len()]);
                        }
                    }
                    assert(!explored@.subrange(1, explored@.len() as int).contains(index)) by {
                        if explored@.subrange(1, explored@.len() as int).contains(index) {
                            let i = choose|i: int| 0 <= i < explored@.len() - 1 && explored@.subrange(1, explored@.len() as int)[i] == index;
                            assert(explored@[i + 1] == index);
                        }
                    }
                }
                assert forall|x: usize| explored@.contains(x) implies reachable(f, index, x) by {
                    let i = choose|i: int| 0 <= i < explored@.len() && explored@[i] == x;
                    if i < e0.len() {
                        assert(e0[i] == x);
                    } else {
                        assert(fr[i - e0.len()] == x);
                    }
                }
                vstd::set_lib::lemma_len_subset(explored@.to_set(), full);
                vstd::set_lib::lemma_len_subset(e0.to_set(), full);
                if next_fronts@.contains(index) {
                    assert(!e0.contains(index) && index != index);
                }
                if !grew {
                    assert(forall|x: usize| fr.contains(x) ==> e0.contains(x));
                    assert forall|x: usize| next_fronts@.contains(x) implies !explored@.contains(x) by {
                        assert(!e0.contains(x));
                        assert(!e0.to_set().contains(x));
                        assert(!explored@.to_set().contains(x));
                    }
                    if next_fronts@.len() > 0 {
                        assert(next_fronts@.contains(next_fronts@[0]));
                    }
                }
            }
            fronts = next_fronts;
        }
        proof {
            assert(explored@.to_set().contains(index)) by {
                assert(explored@[0] == index);
            }
            assert forall|u: usize, v: usize|
                explored@.to_set().contains(u) && next_branches(f, u).contains(v) implies explored@.to_set().contains(v) by {
                assert(explored@.contains(u));
            }
            assert forall|x: usize| reachable(self@, index, x) implies explored@.contains(x) by {
                lemma_closed_holds_reachable(f, index, explored@.to_set(), x);
            }
        }
        explored
    }
}

/// Whether `v` holds `x`.
pub fn vec_contains(v: &Vec<usize>, x: usize) -> (r: bool)
    ensures
        r == v@.contains(x),
{
    let mut i: usize = 0;
    while i < v.len()
        invariant
            i <= v.len(),
            forall|j: int| 0 <= j < i ==> v@[j] != x,
        decreases v.len() - i,
    {
        if v[i] == x {
            assert(v@[i as int] == x);
            return true;
        }
        i = i + 1;
    }
    false
}

/// Whether `vs[from..]` holds a value equal to `x`.
pub fn values_contain(vs: &Vec<Value>, x: &Value, from: usize) -> (r: bool)
    requires
        from <= vs.len(),
    ensures
        r == values_view(vs@).subrange(from as int, vs@.len() as int).contains(x@),
{
    let ghost s = values_view(vs@).subrange(from as int, vs@.len() as int);
    let mut i: usize = from;
    while i < vs.len()
        invariant
            from <= i <= vs.len(),
            s == values_view(vs@).subrange(from as int, vs@.len() as int),
            forall|j: int| from <= j < i ==> vs@[j]@ != x@,
        decreases vs.len() - i,
    {
        if vs[i] == *x {
            assert(s[i - from] == x@);
            return true;
        }
        i = i + 1;
    }
    assert forall|j: int| 0 <= j < s.len() implies s[j] != x@ by {
        assert(s[j] == vs@[j + from]@);
    }
    false
}

/// Whether `v` holds a symbol equal to `x`.
pub fn symbols_contain(v: &Vec<Symbol>, x: &Symbol) -> (r: bool)
    ensures
        r == v@.map_values(|s: Symbol| s@).contains(x@),
{
    let ghost s = v@.map_values(|s: Symbol| s@);
    let mut i: usize = 0;
    while i < v.len()
        invariant
            i <= v.len(),
            s == v@.map_values(|s: Symbol| s@),
            forall|j: int| 0 <= j < i ==> v@[j]@ != x@,
        decreases v.len() - i,
    {
        if v[i] == *x {
            assert(s[i as int] == x@);
            return true;
        }
        i = i + 1;
    }
    assert forall|j: int| 0 <= j < s.len() implies s[j] != x@ by {
        assert(s[j] == v@[j]@);
    }
    false
}

/// Whether `v` holds a string equal to `x`.
pub fn strings_contain(v: &Vec<String>, x: &String) -> (r: bool)
    ensures
        r == v.deep_view().contains(x@),
{
    let ghost s = v.deep_view();
    let mut i: usize = 0;
    while i < v.len()
        invariant
            i <= v.len(),
            s == v.deep_view(),
            forall|j: int| 0 <= j < i ==> v@[j]@ != x@,
        decreases v.len() - i,
    {
        if v[i] == *x {
            assert(s[i as int] == x@);
            return true;
        }
        i = i + 1;
    }
    assert forall|j: int| 0 <= j < s.len() implies s[j] != x@ by {
        assert(s[j] == v@[j]@);
    }
    false
}

/// The strings of `v` other than `x`, in order.
pub fn strings_without(v: &Vec<String>, x: &String) -> (r: Vec<String>)
    ensures
        r.deep_view() == without_label(v.deep_view(), x@),
{
    let ghost s = v.deep_view();
    let mut r: Vec<String> = Vec::new();
    let mut i: usize = 0;
    while i < v.len()
        invariant
            i <= v.len(),
            s == v.deep_view(),
            r.deep_view() == without_label(s.take(i as int), x@),
        decreases v.len() - i,
    {
        proof {
            assert(s.take(i + 1).drop_last() =~= s.take(i as int));
            reveal_with_fuel(Seq::<_>::filter, 1);
        }
        if v[i] != *x {
            let ghost before = r.deep_view();
            r.push(v[i].clone());
            assert(r.deep_view() =~= before.push(s[i as int]));
        }
        i = i + 1;
    }
    assert(s.take(v.len() as int) =~= s);
    r
}

/// A copy of a list of strings.
pub fn clone_strings(v: &Vec<String>) -> (r: Vec<String>)
    ensures
        r.deep_view() == v.deep_view(),
{
    let mut r: Vec<String> = Vec::new();
    let mut i: usize = 0;
    while i < v.len()
        invariant
            i <= v.len(),
            r@.len() == i,
            forall|j: int| 0 <= j < i ==> #[trigger] r@[j]@ == v@[j]@,
        decreases v.len() - i,
    {
        r.push(v[i].clone());
        i = i + 1;
    }
    assert(r.deep_view() =~= v.deep_view());
    r
}


/// Copies a sequence of instructions.
pub fn clone_instructions(v: &Vec<Instruction>) -> (r: Vec<Instruction>)
    ensures
        instructions_view(r@) == instructions_view(v@),
{
    let mut r: Vec<Instruction> = Vec::new();
    let mut i: usize = 0;
    while i < v.len()
        invariant
            i <= v@.len(),
            r@.len() == i,
            forall|j: int| 0 <= j < i ==> #[trigger] r@[j]@ == v@[j]@,
        decreases v@.len() - i,
    {
        r.push(v[i].clone());
        i = i + 1;
    }
    assert(instructions_view(r@) =~= instructions_view(v@));
    r
}

/// Copies a list of arguments.
pub fn clone_arguments(v: &Vec<(String, DataType)>) -> (r: Vec<(String, DataType)>)
    ensures
        r.deep_view() == v.deep_view(),
{
    let mut r: Vec<(String, DataType)> = Vec::new();
    let mut i: usize = 0;
    while i < v.len()
        invariant
            i <= v@.len(),
            r@.len() == i,
            forall|j: int| 0 <= j < i ==> #[trigger] r@[j].0@ == v@[j].0@ && r@[j].1 == v@[j].1,
        decreases v@.len() - i,
    {
        r.push((v[i].0.clone(), v[i].1));
        i = i + 1;
    }
    assert(r.deep_view() =~= v.deep_view());
    r
}

impl Clone for Function {
    fn clone(&self) -> (r: Self)
        ensures
            r@ == self@,
    {
        Function {
            instructions: clone_instructions(&self.instructions),
            labels: self.labels.duplicate(),
            labels_reverse: self.labels_reverse.duplicate(),
            symbol_table: self.symbol_table.duplicate(),
            return_type: self.return_type,
            name: self.name.clone(),
            arguments: clone_arguments(&self.arguments),
            next_label: self.next_label,
            next_register: self.next_register,
            next_index: self.next_index,
            continue_stack: clone_strings(&self.continue_stack),
            break_stack: clone_strings(&self.break_stack),
            return_value: self.return_value.clone(),
        }
    }
}


/// The labels of a line of the listing, each followed by `: `.
pub open spec fn line_labels_text(ls: Seq<Seq<char>>) -> Seq<char>
    decreases ls.len(),
{
    if ls.len() == 0 {
        Seq::empty()
    } else {
        line_labels_text(ls.drop_last()) + ls.last() + ": "@
    }
}

/// Line `i` of the listing: its number in three digits, its labels in a
/// column of 15, and the instruction.
pub open spec fn listing_line(f: FunctionV, i: nat) -> Seq<char> {
    zero_pad_left(nat_text(i), 3) + " "@ + pad_right(
        if f.labels.contains_key(i as usize) {
            line_labels_text(f.labels[i as usize])
        } else {
            Seq::empty()
        },
        15,
    ) + crate::irgen::instruction::instruction_text(f.instructions[i as int]) + "\n"@
}

/// The first `n` lines of the listing.
pub open spec fn listing_lines(f: FunctionV, n: nat) -> Seq<char>
    decreases n,
{
    if n == 0 {
        Seq::empty()
    } else {
        listing_lines(f, (n - 1) as nat) + listing_line(f, (n - 1) as nat)
    }
}

/// The listing of a function: its signature, then a line per instruction.
pub open spec fn function_text(f: FunctionV) -> Seq<char> {
    signature_text(f) + "\n"@ + listing_lines(f, f.instructions.len())
}

impl Function {
    /// The listing of the function: its signature, then a line per
    /// instruction with its number and labels.
    pub fn render(&self) -> (s: String)
        ensures
            s@ == function_text(self@),
    {
        let mut s = self.render_signature();
        s.append("\n");
        let ghost head = s@;
        let n = self.instructions.len();
        let mut i: usize = 0;
        while i < n
            invariant
                i <= n,
                n == self@.instructions.len(),
                s@ == head + listing_lines(self@, i as nat),
            decreases n - i,
        {
            let mut labels_str = String::new();
            match self.labels.get(&i) {
                Some(labels) => {
                    let ghost ls = labels.deep_view();
                    let mut j: usize = 0;
                    while j < labels.len()
                        invariant
                            j <= labels@.len(),
                            ls == labels.deep_view(),
                            labels_str@ == line_labels_text(ls.take(j as int)),
                        decreases labels@.len() - j,
                    {
                        labels_str.append(labels[j].as_str());
                        labels_str.append(": ");
                        proof {
                            assert(ls.take(j + 1).drop_last() =~= ls.take(j as int));
                        }
                        j = j + 1;
                    }
                    assert(ls.take(labels@.len() as int) =~= ls);
                },
                None => {},
            }
            let number = zero_pad_left_exec(usize_text(i), 3);
            let mut line = number;
            line.append(" ");
            line.append(pad_right_exec(labels_str, 15).as_str());
            line.append(self.instructions[i].render().as_str());
            line.append("\n");
            s.append(line.as_str());
            proof {
                assert(s@ =~= head + listing_lines(self@, (i + 1) as nat));
            }
            i = i + 1;
        }
        s
    }
}

/// Fresh names never repeat: labels (and registers) with different numbers
/// have different names, so each call of `get_label` (or `get_register`),
/// which moves its counter on, gives a name not given before.
pub proof fn law_fresh_names_distinct(a: usize, b: usize)
    ensures
        (label_name(a) == label_name(b)) == (a == b),
        (register_name(a) == register_name(b)) == (a == b),
{
    lemma_nat_text_digits(a as nat);
    lemma_nat_text_digits(b as nat);
    if label_name(a) == label_name(b) {
        assert(label_name(a).drop_first() =~= nat_text(a as nat));
        assert(label_name(b).drop_first() =~= nat_text(b as nat));
    }
    if register_name(a) == register_name(b) {
        assert(register_name(a).drop_first() =~= nat_text(a as nat));
        assert(register_name(b).drop_first() =~= nat_text(b as nat));
    }
}

/// Removing a label undoes placing it (`Function::place_label`, then
/// `Function::remove_label`): placing a label that is not placed yet, then
/// removing it, gives back the function as it was, the labels of the position
/// in their order. The one exception is a position whose label list was
/// empty: it leaves the label table, as any position whose last label goes.
pub proof fn law_remove_undoes_place(f: FunctionV, l: Seq<char>, i: usize)
    requires
        !f.labels_reverse.contains_key(l),
        f.labels.contains_key(i) ==> !f.labels[i].contains(l),
    ensures
        remove_label_v(place_label_v(f, l, i), l) == (if f.labels.contains_key(i) && f.labels[i].len() == 0 {
            FunctionV { labels: f.labels.remove(i), ..f }
        } else {
            f
        }),
{
    let g = place_label_v(f, l, i);
    assert(g.labels_reverse[l] == i);
    if f.labels.contains_key(i) {
        let old_ls = f.labels[i];
        assert(g.labels[i] == old_ls.push(l));
        assert(g.labels[i][old_ls.len() as int] == l);
        lemma_without_label_push(old_ls, l);
        lemma_without_absent_label(old_ls, l);
        if old_ls.len() > 0 {
            assert(f.labels.insert(i, old_ls) =~= f.labels);
        } else {
            assert(g.labels.remove(i) =~= f.labels.remove(i));
        }
    } else {
        assert(g.labels[i] == seq![l]);
        assert(g.labels[i][0] == l);
        lemma_without_label_push(Seq::empty(), l);
        lemma_without_absent_label(Seq::empty(), l);
        assert(Seq::<Seq<char>>::empty().push(l) =~= seq![l]);
        assert(g.labels.remove(i) =~= f.labels);
    }
    let r = remove_label_v(g, l);
    assert(r.labels_reverse =~= f.labels_reverse);
    if f.labels.contains_key(i) && f.labels[i].len() == 0 {
        assert(r.labels =~= f.labels.remove(i));
    } else {
        assert(r.labels =~= f.labels);
    }
}

/// Leaving out `l` after it was pushed leaves out the pushed one.
proof fn lemma_without_label_push(s: Seq<Seq<char>>, l: Seq<char>)
    ensures
        without_label(s.push(l), l) == without_label(s, l),
{
    reveal_with_fuel(Seq::filter, 1);
    assert(s.push(l).drop_last() =~= s);
}

/// Leaving out a label that a sequence does not hold leaves it as it is.
proof fn lemma_without_absent_label(s: Seq<Seq<char>>, l: Seq<char>)
    requires
        !s.contains(l),
    ensures
        without_label(s, l) == s,
    decreases s.len(),
{
    reveal_with_fuel(Seq::filter, 1);
    if s.len() > 0 {
        assert(!s.drop_last().contains(l)) by {
            if s.drop_last().contains(l) {
                let k = choose|k: int| 0 <= k < s.drop_last().len() && s.drop_last()[k] == l;
                assert(s[k] == l);
            }
        }
        lemma_without_absent_label(s.drop_last(), l);
        assert(s.last() != l) by {
            if s.last() == l {
                assert(s[s.len() - 1] == l);
            }
        }
        assert(s.drop_last().push(s.last()) =~= s);
    } else {
        assert(without_label(s, l) =~= s);
    }
}

} // verus!
