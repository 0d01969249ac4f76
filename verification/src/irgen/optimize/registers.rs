//! Passes over the registers (symbols) of an IR function. Each pass visits
//! the symbols in order of first use and looks at the function as the earlier
//! visits left it.
use vstd::prelude::*;
use crate::irgen::function::{
    Function, FunctionV, all_symbols, inst_reads_writes, jumps_resolved, jumps_resolved_at,
    next_branches, reachable, reads_writes, vec_contains,
};
use crate::irgen::instruction::{
    Instruction, InstructionV, Literal, OpCode, Symbol, SymbolV, Value, ValueV, clone_values,
    values_view,
};
use crate::irgen::types::DataType;
use super::jumps::{put_instruction, with_instruction};
use super::optimizations::{moves_have_two_arguments, nop_v};

verus! {

/// Every position of a read or a write is that of an instruction.
pub proof fn lemma_reads_writes_bounded(insts: Seq<InstructionV>, v: ValueV)
    requires
        insts.len() <= usize::MAX,
    ensures
        forall|k: int|
            0 <= k < reads_writes(insts, v).0.len() ==> #[trigger] reads_writes(insts, v).0[k]
                < insts.len(),
        forall|k: int|
            0 <= k < reads_writes(insts, v).1.len() ==> #[trigger] reads_writes(insts, v).1[k]
                < insts.len(),
    decreases insts.len(),
{
    if insts.len() > 0 {
        lemma_reads_writes_bounded(insts.drop_last(), v);
        let idx = (insts.len() - 1) as usize;
        let (r1, w1) = inst_reads_writes(insts.last(), idx, v);
        let (r, w) = reads_writes(insts.drop_last(), v);
        assert(reads_writes(insts, v) == (r + r1, w + w1));
        assert forall|k: int| 0 <= k < r1.len() implies r1[k] == idx by {}
        assert forall|k: int| 0 <= k < w1.len() implies w1[k] == idx by {}
        assert forall|k: int| 0 <= k < (r + r1).len() implies (r + r1)[k] < insts.len() by {
            if k < r.len() {
                assert((r + r1)[k] == r[k]);
            } else {
                assert((r + r1)[k] == r1[k - r.len()]);
            }
        }
        assert forall|k: int| 0 <= k < (w + w1).len() implies (w + w1)[k] < insts.len() by {
            if k < w.len() {
                assert((w + w1)[k] == w[k]);
            } else {
                assert((w + w1)[k] == w1[k - w.len()]);
            }
        }
    }
}

/// Turning an instruction into a `nop` keeps every label resolvable.
proof fn lemma_nop_keeps_resolved(f: FunctionV, index: int)
    requires
        jumps_resolved(f),
        0 <= index < f.instructions.len(),
    ensures
        jumps_resolved(with_instruction(f, index, nop_v())),
{
    let g = with_instruction(f, index, nop_v());
    assert forall|i: usize| i < g.instructions.len() implies #[trigger] jumps_resolved_at(g, i) by {
        assert(jumps_resolved_at(f, i));
    }
}

/// The branch that tests what a comparison computes.
pub open spec fn branch_for(op: OpCode) -> Option<OpCode> {
    match op {
        OpCode::Ceq => Some(OpCode::Beq),
        OpCode::Cne => Some(OpCode::Bne),
        OpCode::Clt => Some(OpCode::Blt),
        OpCode::Cle => Some(OpCode::Ble),
        OpCode::Cgt => Some(OpCode::Bgt),
        OpCode::Cge => Some(OpCode::Bge),
        _ => None,
    }
}

fn branch_for_exec(op: OpCode) -> (r: Option<OpCode>)
    ensures
        r == branch_for(op),
{
    match op {
        OpCode::Ceq => Some(OpCode::Beq),
        OpCode::Cne => Some(OpCode::Bne),
        OpCode::Clt => Some(OpCode::Blt),
        OpCode::Cle => Some(OpCode::Ble),
        OpCode::Cgt => Some(OpCode::Bgt),
        OpCode::Cge => Some(OpCode::Bge),
        _ => None,
    }
}

/// A literal zero.
pub open spec fn is_zero_literal(v: ValueV) -> bool {
    v matches ValueV::Literal(l) && l.value == 0
}

/// Comparisons have a destination and two operands; `bne` has two operands.
pub open spec fn branches_cleanable(insts: Seq<InstructionV>) -> bool {
    &&& forall|i: int|
        0 <= i < insts.len() && branch_for((#[trigger] insts[i]).opcode) is Some
            ==> insts[i].arguments.len() >= 3
    &&& forall|i: int|
        0 <= i < insts.len() && (#[trigger] insts[i]).opcode == OpCode::Bne ==> insts[i].arguments.len()
            >= 2
}

/// For symbol `s`: a comparison written into `s` and read only by the next
/// instruction, a `bne` of `s` against zero, becomes a `nop`, and the `bne`
/// becomes the branch that compares the two operands directly.
pub open spec fn clean_branch_step(f: FunctionV, s: SymbolV) -> FunctionV {
    let (reads, writes) = reads_writes(f.instructions, ValueV::Symbol(s));
    if s.datatype.is_ref || !(reads.len() == 1 && writes.len() == 1 && reads[0] == writes[0] + 1) {
        f
    } else {
        let w = f.instructions[writes[0] as int];
        let rd = f.instructions[reads[0] as int];
        match branch_for(w.opcode) {
            None => f,
            Some(b) => if rd.opcode == OpCode::Bne && is_zero_literal(rd.arguments[1]) {
                with_instruction(
                    with_instruction(
                        f,
                        reads[0] as int,
                        InstructionV {
                            opcode: b,
                            arguments: rd.arguments.update(0, w.arguments[1]).update(1, w.arguments[2]),
                        },
                    ),
                    writes[0] as int,
                    nop_v(),
                )
            } else {
                f
            },
        }
    }
}

/// `f` after cleaning the branches on each symbol of `syms`, in order.
pub open spec fn branches_cleaned(f: FunctionV, syms: Seq<SymbolV>) -> FunctionV
    decreases syms.len(),
{
    if syms.len() == 0 {
        f
    } else {
        clean_branch_step(branches_cleaned(f, syms.drop_last()), syms.last())
    }
}

/// Clean up branches (change a compare and a branch to just a compare)
pub fn optimization_clean_branches(f: Function) -> (r: Function)
    requires
        branches_cleanable(f@.instructions),
    ensures
        r@ == branches_cleaned(f@, all_symbols(f@.instructions)),
{
    let mut func = f;
    let ghost fv = func@;
    let symbols = func.get_all_symbols();
    let ghost syms = symbols@.map_values(|s: Symbol| s@);
    let mut i: usize = 0;
    while i < symbols.len()
        invariant
            i <= symbols@.len(),
            syms == symbols@.map_values(|s: Symbol| s@),
            func@ == branches_cleaned(fv, syms.take(i as int)),
            branches_cleanable(func@.instructions),
        decreases symbols@.len() - i,
    {
        proof {
            assert(syms.take(i + 1).drop_last() =~= syms.take(i as int));
            assert(syms.take(i + 1).last() == symbols@[i as int]@);
        }
        let ghost g = func@;
        let symbol = &symbols[i];
        if !symbol.datatype.is_ref {
            let (reads, writes) = func.get_reads_writes_for(Value::Symbol(symbol.clone()));
            let count = func.instructions.len();
            proof {
                assert(g.instructions.len() == count);
                lemma_reads_writes_bounded(g.instructions, ValueV::Symbol(symbol@));
                assert forall|q: int| 0 <= q < writes@.len() implies #[trigger] writes@[q]
                    < g.instructions.len() by {
                    assert(writes@[q] == reads_writes(g.instructions, ValueV::Symbol(symbol@)).1[q]);
                }
                assert forall|q: int| 0 <= q < reads@.len() implies #[trigger] reads@[q]
                    < g.instructions.len() by {
                    assert(reads@[q] == reads_writes(g.instructions, ValueV::Symbol(symbol@)).0[q]);
                }
            }
            if reads.len() == 1 && writes.len() == 1 && reads[0] == writes[0] + 1 {
                let wi = writes[0];
                let ri = reads[0];
                if let Some(b) = branch_for_exec(func.instructions[wi].opcode) {
                    if func.instructions[ri].opcode == OpCode::Bne {
                        let zero = match &func.instructions[ri].arguments[1] {
                            Value::Literal(l) => l.value == 0,
                            _ => false,
                        };
                        if zero {
                            let ghost rd = g.instructions[ri as int];
                            let ghost w = g.instructions[wi as int];
                            let mut args = clone_values(&func.instructions[ri].arguments);
                            let a1 = func.instructions[wi].arguments[1].clone();
                            let a2 = func.instructions[wi].arguments[2].clone();
                            args.set(0, a1);
                            args.set(1, a2);
                            assert(values_view(args@) =~= rd.arguments.update(0, w.arguments[1]).update(
                                1,
                                w.arguments[2],
                            ));
                            put_instruction(&mut func, ri, Instruction::new(b, args));
                            func.change_to_nop(wi);
                        }
                    }
                }
            }
        }
        assert(func@ == clean_branch_step(g, syms[i as int]));
        i = i + 1;
    }
    assert(syms.take(symbols@.len() as int) =~= syms);
    func
}

/// Some read of `reads`, other than `w` itself, can be reached from `w`.
pub open spec fn read_after(f: FunctionV, reads: Seq<usize>, w: usize) -> bool {
    exists|k: int| 0 <= k < reads.len() && reads[k] != w && #[trigger] reachable(f, w, reads[k])
}

/// The write at `w` becomes a `nop` unless it is a call or some read can follow it.
pub open spec fn drop_unread_write(f: FunctionV, reads: Seq<usize>, w: usize) -> FunctionV {
    if w < f.instructions.len() && f.instructions[w as int].opcode != OpCode::Call && !read_after(
        f,
        reads,
        w,
    ) {
        with_instruction(f, w as int, nop_v())
    } else {
        f
    }
}

/// `f` after dropping each unread write of `writes`, in order.
pub open spec fn drop_unread_writes(f: FunctionV, reads: Seq<usize>, writes: Seq<usize>) -> FunctionV
    decreases writes.len(),
{
    if writes.len() == 0 {
        f
    } else {
        drop_unread_write(drop_unread_writes(f, reads, writes.drop_last()), reads, writes.last())
    }
}

/// For a symbol that is not a reference: each write to it that no read of it
/// can follow becomes a `nop` (calls stay).
pub open spec fn unused_register_step(f: FunctionV, s: SymbolV) -> FunctionV {
    if s.datatype.is_ref {
        f
    } else {
        let (reads, writes) = reads_writes(f.instructions, ValueV::Symbol(s));
        drop_unread_writes(f, reads, writes)
    }
}

/// `f` after removing the unused writes of each symbol of `syms`, in order.
pub open spec fn unused_registers_removed(f: FunctionV, syms: Seq<SymbolV>) -> FunctionV
    decreases syms.len(),
{
    if syms.len() == 0 {
        f
    } else {
        unused_register_step(unused_registers_removed(f, syms.drop_last()), syms.last())
    }
}

/// Remove any unused registers
pub fn optimization_remove_unused_registers(f: Function) -> (r: Function)
    requires
        jumps_resolved(f@),
    ensures
        r@ == unused_registers_removed(f@, all_symbols(f@.instructions)),
{
    let mut func = f;
    let ghost fv = func@;
    let symbols = func.get_all_symbols();
    let ghost syms = symbols@.map_values(|s: Symbol| s@);
    let mut i: usize = 0;
    while i < symbols.len()
        invariant
            i <= symbols@.len(),
            syms == symbols@.map_values(|s: Symbol| s@),
            func@ == unused_registers_removed(fv, syms.take(i as int)),
            jumps_resolved(func@),
        decreases symbols@.len() - i,
    {
        proof {
            assert(syms.take(i + 1).drop_last() =~= syms.take(i as int));
            assert(syms.take(i + 1).last() == symbols@[i as int]@);
        }
        let ghost g = func@;
        let symbol = &symbols[i];
        if !symbol.datatype.is_ref {
            let (reads, writes) = func.get_reads_writes_for(Value::Symbol(symbol.clone()));
            let count = func.instructions.len();
            proof {
                assert(g.instructions.len() == count);
                lemma_reads_writes_bounded(g.instructions, ValueV::Symbol(symbol@));
                assert forall|q: int| 0 <= q < writes@.len() implies #[trigger] writes@[q]
                    < g.instructions.len() by {
                    assert(writes@[q] == reads_writes(g.instructions, ValueV::Symbol(symbol@)).1[q]);
                }
                assert forall|q: int| 0 <= q < reads@.len() implies #[trigger] reads@[q]
                    < g.instructions.len() by {
                    assert(reads@[q] == reads_writes(g.instructions, ValueV::Symbol(symbol@)).0[q]);
                }
            }
            let mut k: usize = 0;
            while k < writes.len()
                invariant
                    k <= writes@.len(),
                    func@ == drop_unread_writes(g, reads@, writes@.take(k as int)),
                    func@.instructions.len() == g.instructions.len(),
                    jumps_resolved(func@),
                    forall|q: int| 0 <= q < writes@.len() ==> #[trigger] writes@[q] < g.instructions.len(),
                decreases writes@.len() - k,
            {
                proof {
                    assert(writes@.take(k + 1).drop_last() =~= writes@.take(k as int));
                }
                let write = writes[k];
                assert(write < g.instructions.len());
                let ghost h = func@;
                if !func.has_side_effects(write) {
                    let explored = func.get_explored_from(write);
                    let mut found = false;
                    let mut q: usize = 0;
                    while q < reads.len()
                        invariant
                            q <= reads@.len(),
                            func@ == h,
                            forall|x: usize| explored@.contains(x) <==> reachable(h, write, x),
                            found == exists|m: int|
                                0 <= m < q && reads@[m] != write && #[trigger] reachable(
                                    h,
                                    write,
                                    reads@[m],
                                ),
                        decreases reads@.len() - q,
                    {
                        if reads[q] != write && vec_contains(&explored, reads[q]) {
                            assert(reachable(h, write, reads@[q as int]));
                            found = true;
                        }
                        q = q + 1;
                    }
                    if !found {
                        func.change_to_nop(write);
                        proof {
                            lemma_nop_keeps_resolved(h, write as int);
                        }
                    }
                }
                k = k + 1;
            }
            assert(writes@.take(writes@.len() as int) =~= writes@);
        }
        i = i + 1;
    }
    assert(syms.take(symbols@.len() as int) =~= syms);
    func
}

/// The arguments with each occurrence of `from` replaced by `to`.
pub open spec fn substituted(args: Seq<ValueV>, from: ValueV, to: ValueV) -> Seq<ValueV> {
    args.map_values(|a: ValueV| if a == from { to } else { a })
}

/// `f` with `from` replaced by `to` in the arguments of the instruction at `index`.
pub open spec fn substitute_at(f: FunctionV, index: int, from: ValueV, to: ValueV) -> FunctionV {
    with_instruction(
        f,
        index,
        InstructionV {
            arguments: substituted(f.instructions[index].arguments, from, to),
            ..f.instructions[index]
        },
    )
}

/// `f` with `from` replaced by `to` in the instructions at `idxs`, in order.
pub open spec fn substitute_all(f: FunctionV, idxs: Seq<usize>, from: ValueV, to: ValueV) -> FunctionV
    decreases idxs.len(),
{
    if idxs.len() == 0 {
        f
    } else {
        substitute_at(substitute_all(f, idxs.drop_last(), from, to), idxs.last() as int, from, to)
    }
}

/// Replace `from` by `to` in the arguments of the instruction at `index`.
pub(crate) fn substitute_in(func: &mut Function, index: usize, from: &Value, to: &Value)
    requires
        index < old(func)@.instructions.len(),
    ensures
        final(func)@ == substitute_at(old(func)@, index as int, from@, to@),
{
    let ghost args = old(func)@.instructions[index as int].arguments;
    let mut new_args: Vec<Value> = Vec::new();
    let n = func.instructions[index].arguments.len();
    let mut k: usize = 0;
    while k < n
        invariant
            k <= n,
            index < func@.instructions.len(),
            func@ == old(func)@,
            args == func@.instructions[index as int].arguments,
            n == args.len(),
            values_view(new_args@) == substituted(args, from@, to@).take(k as int),
        decreases n - k,
    {
        let ghost before = values_view(new_args@);
        assert(args[k as int] == func.instructions[index as int].arguments@[k as int]@);
        if func.instructions[index].arguments[k] == *from {
            new_args.push(to.clone());
            assert(args[k as int] == from@);
        } else {
            new_args.push(func.instructions[index].arguments[k].clone());
            assert(args[k as int] != from@);
        }
        assert(substituted(args, from@, to@)[k as int] == (if args[k as int] == from@ {
            to@
        } else {
            args[k as int]
        }));
        assert(values_view(new_args@) =~= before.push(substituted(args, from@, to@)[k as int]));
        assert(values_view(new_args@) =~= substituted(args, from@, to@).take(k + 1));
        k = k + 1;
    }
    assert(substituted(args, from@, to@).take(n as int) =~= substituted(args, from@, to@));
    let op = func.instructions[index].opcode;
    put_instruction(func, index, Instruction::new(op, new_args));
}

/// Casts have a destination and a source.
pub open spec fn casts_have_two_arguments(insts: Seq<InstructionV>) -> bool {
    forall|i: int|
        0 <= i < insts.len() && (#[trigger] insts[i]).opcode == OpCode::Cast ==> insts[i].arguments.len()
            >= 2
}

/// For a symbol that is not an argument of the function and is written once,
/// by a cast of a literal: the cast becomes a `nop`, and each instruction that
/// reads the symbol reads the literal instead, typed as the symbol.
pub open spec fn remove_cast_step(f: FunctionV, s: SymbolV) -> FunctionV {
    let (reads, writes) = reads_writes(f.instructions, ValueV::Symbol(s));
    if f.arguments.contains((s.title, s.datatype)) || writes.len() != 1 {
        f
    } else {
        let w = f.instructions[writes[0] as int];
        if w.opcode == OpCode::Cast && w.arguments[1] is Literal {
            let lit = Literal { datatype: s.datatype, ..w.arguments[1]->Literal_0 };
            substitute_all(
                with_instruction(f, writes[0] as int, nop_v()),
                reads,
                ValueV::Symbol(s),
                ValueV::Literal(lit),
            )
        } else {
            f
        }
    }
}

/// `f` after removing the casts of each symbol of `syms`, in order.
pub open spec fn casts_removed(f: FunctionV, syms: Seq<SymbolV>) -> FunctionV
    decreases syms.len(),
{
    if syms.len() == 0 {
        f
    } else {
        remove_cast_step(casts_removed(f, syms.drop_last()), syms.last())
    }
}

/// Whether `args` holds the pair `(title, datatype)`.
fn arguments_contain(args: &Vec<(String, DataType)>, title: &String, datatype: DataType) -> (r: bool)
    ensures
        r == args.deep_view().contains((title@, datatype)),
{
    let ghost s = args.deep_view();
    let mut i: usize = 0;
    while i < args.len()
        invariant
            i <= args.len(),
            s == args.deep_view(),
            forall|j: int| 0 <= j < i ==> s[j] != (title@, datatype),
        decreases args.len() - i,
    {
        assert(s[i as int] == (args@[i as int].0@, args@[i as int].1));
        if args[i].0 == *title && args[i].1 == datatype {
            assert(s[i as int] == (title@, datatype));
            return true;
        }
        i = i + 1;
    }
    false
}

/// Remove casts
pub fn optimization_remove_casts(f: Function) -> (r: Function)
    requires
        casts_have_two_arguments(f@.instructions),
    ensures
        r@ == casts_removed(f@, all_symbols(f@.instructions)),
{
    let mut func = f;
    let ghost fv = func@;
    let symbols = func.get_all_symbols();
    let ghost syms = symbols@.map_values(|s: Symbol| s@);
    let mut i: usize = 0;
    while i < symbols.len()
        invariant
            i <= symbols@.len(),
            syms == symbols@.map_values(|s: Symbol| s@),
            func@ == casts_removed(fv, syms.take(i as int)),
            casts_have_two_arguments(func@.instructions),
        decreases symbols@.len() - i,
    {
        proof {
            assert(syms.take(i + 1).drop_last() =~= syms.take(i as int));
            assert(syms.take(i + 1).last() == symbols@[i as int]@);
        }
        let ghost g = func@;
        let symbol = &symbols[i];
        if !arguments_contain(&func.arguments, &symbol.title, symbol.datatype) {
            let from = Value::Symbol(symbol.clone());
            let (reads, writes) = func.get_reads_writes_for(from.clone());
            let count = func.instructions.len();
            proof {
                assert(g.instructions.len() == count);
                lemma_reads_writes_bounded(g.instructions, ValueV::Symbol(symbol@));
                assert forall|q: int| 0 <= q < writes@.len() implies #[trigger] writes@[q]
                    < g.instructions.len() by {
                    assert(writes@[q] == reads_writes(g.instructions, ValueV::Symbol(symbol@)).1[q]);
                }
                assert forall|q: int| 0 <= q < reads@.len() implies #[trigger] reads@[q]
                    < g.instructions.len() by {
                    assert(reads@[q] == reads_writes(g.instructions, ValueV::Symbol(symbol@)).0[q]);
                }
            }
            if writes.len() == 1 && func.instructions[writes[0]].opcode == OpCode::Cast {
                let wi = writes[0];
                let lit = match &func.instructions[wi].arguments[1] {
                    Value::Literal(l) => Some(*l),
                    _ => None,
                };
                if let Some(l) = lit {
                    let mut val = l;
                    val.datatype = symbol.datatype;
                    let to = Value::Literal(val);
                    func.change_to_nop(wi);
                    let ghost h = func@;
                    let mut q: usize = 0;
                    while q < reads.len()
                        invariant
                            q <= reads@.len(),
                            func@ == substitute_all(h, reads@.take(q as int), from@, to@),
                            func@.instructions.len() == g.instructions.len(),
                            forall|m: int| 0 <= m < reads@.len() ==> #[trigger] reads@[m] < g.instructions.len(),
                            casts_have_two_arguments(func@.instructions),
                        decreases reads@.len() - q,
                    {
                        proof {
                            assert(reads@.take(q + 1).drop_last() =~= reads@.take(q as int));
                        }
                        assert(reads@[q as int] < g.instructions.len());
                        substitute_in(&mut func, reads[q], &from, &to);
                        q = q + 1;
                    }
                    assert(reads@.take(reads@.len() as int) =~= reads@);
                }
            }
        }
        assert(func@ == remove_cast_step(g, syms[i as int]));
        i = i + 1;
    }
    assert(syms.take(symbols@.len() as int) =~= syms);
    func
}

/// Replacing a value that is not a label keeps every label resolvable and
/// keeps each instruction's opcode and number of arguments.
proof fn lemma_substitute_all_keeps(f: FunctionV, idxs: Seq<usize>, from: ValueV, to: ValueV)
    requires
        !(from is Label),
        !(to is Label),
        forall|k: int| 0 <= k < idxs.len() ==> #[trigger] idxs[k] < f.instructions.len(),
    ensures
        jumps_resolved(f) ==> jumps_resolved(substitute_all(f, idxs, from, to)),
        moves_have_two_arguments(f.instructions) ==> moves_have_two_arguments(
            substitute_all(f, idxs, from, to).instructions,
        ),
        substitute_all(f, idxs, from, to).instructions.len() == f.instructions.len(),
        substitute_all(f, idxs, from, to) == (FunctionV {
            instructions: substitute_all(f, idxs, from, to).instructions,
            ..f
        }),
    decreases idxs.len(),
{
    if idxs.len() > 0 {
        lemma_substitute_all_keeps(f, idxs.drop_last(), from, to);
        let g = substitute_all(f, idxs.drop_last(), from, to);
        let i = idxs.last() as int;
        assert(idxs[idxs.len() - 1] < f.instructions.len());
        let h = substitute_at(g, i, from, to);
        if jumps_resolved(f) {
            assert forall|j: usize| j < h.instructions.len() implies #[trigger] jumps_resolved_at(h, j) by {
                assert(jumps_resolved_at(g, j));
                if j as int == i && g.instructions[i].opcode != OpCode::Call {
                    let a = g.instructions[i].arguments;
                    assert forall|q: int| 0 <= q < a.len() && (#[trigger] substituted(a, from, to)[q]) is Label
                        implies h.labels_reverse.contains_key(substituted(a, from, to)[q]->Label_0) by {
                        assert(substituted(a, from, to)[q] == (if a[q] == from { to } else { a[q] }));
                        assert(a[q] is Label);
                        assert(substituted(a, from, to)[q] == a[q]);
                        assert(h.labels_reverse == g.labels_reverse);
                    }
                }
            }
        }
        if moves_have_two_arguments(f.instructions) {
            assert forall|j: int|
                0 <= j < h.instructions.len() && (#[trigger] h.instructions[j]).opcode == OpCode::Mov
                    implies h.instructions[j].arguments.len() >= 2 by {
                if j != i {
                    assert(h.instructions[j] == g.instructions[j]);
                }
            }
        }
    }
}

/// The source `val` may be overwritten between the copy at `w` and the read
/// at `r`: some write of it (among `vwrites`) can be reached from `w`, and `r`
/// can be reached from that write in at least one step.
pub open spec fn spoiled(f: FunctionV, w: usize, vwrites: Seq<usize>, r: usize) -> bool {
    exists|k: int, j: int|
        0 <= k < vwrites.len() && reachable(f, w, vwrites[k]) && 0 <= j < next_branches(
            f,
            vwrites[k],
        ).len() && #[trigger] reachable(f, next_branches(f, vwrites[k])[j], r)
}

/// The reads among `reads` that the copy at `w` reaches with its source
/// unchanged, in order.
pub open spec fn propagated_reads(f: FunctionV, w: usize, vwrites: Seq<usize>, reads: Seq<usize>) -> Seq<
    usize,
>
    decreases reads.len(),
{
    if reads.len() == 0 {
        Seq::empty()
    } else {
        let rest = propagated_reads(f, w, vwrites, reads.drop_last());
        let r = reads.last();
        if reachable(f, w, r) && !spoiled(f, w, vwrites, r) {
            rest.push(r)
        } else {
            rest
        }
    }
}

/// For a symbol that is not a reference, not an argument, and is written
/// once, by a move: when the move is of a literal, the move becomes a `nop`
/// and every read of the symbol reads the literal; when it is of another
/// symbol, each read that the move reaches before any write of that symbol
/// reads that symbol instead.
pub open spec fn clean_register_step(f: FunctionV, s: SymbolV) -> FunctionV {
    let (reads, writes) = reads_writes(f.instructions, ValueV::Symbol(s));
    if s.datatype.is_ref || writes.len() != 1 || f.arguments.contains((s.title, s.datatype)) {
        f
    } else {
        let w = writes[0];
        let wi = f.instructions[w as int];
        if wi.opcode != OpCode::Mov {
            f
        } else {
            match wi.arguments[1] {
                ValueV::Literal(val) => substitute_all(
                    with_instruction(f, w as int, nop_v()),
                    reads,
                    ValueV::Symbol(s),
                    ValueV::Literal(val),
                ),
                ValueV::Symbol(val) => substitute_all(
                    f,
                    propagated_reads(
                        f,
                        w,
                        reads_writes(f.instructions, ValueV::Symbol(val)).1,
                        reads,
                    ),
                    ValueV::Symbol(s),
                    ValueV::Symbol(val),
                ),
                ValueV::Label(_) => f,
            }
        }
    }
}

/// `f` after cleaning the registers of each symbol of `syms`, in order.
pub open spec fn registers_cleaned(f: FunctionV, syms: Seq<SymbolV>) -> FunctionV
    decreases syms.len(),
{
    if syms.len() == 0 {
        f
    } else {
        clean_register_step(registers_cleaned(f, syms.drop_last()), syms.last())
    }
}

proof fn lemma_propagated_subset(f: FunctionV, w: usize, vw: Seq<usize>, reads: Seq<usize>, bound: nat)
    requires
        forall|k: int| 0 <= k < reads.len() ==> #[trigger] reads[k] < bound,
    ensures
        forall|k: int|
            0 <= k < propagated_reads(f, w, vw, reads).len() ==> #[trigger] propagated_reads(
                f,
                w,
                vw,
                reads,
            )[k] < bound,
    decreases reads.len(),
{
    if reads.len() > 0 {
        lemma_propagated_subset(f, w, vw, reads.drop_last(), bound);
        assert(reads[reads.len() - 1] < bound);
        let rest = propagated_reads(f, w, vw, reads.drop_last());
        assert forall|k: int| 0 <= k < rest.push(reads.last()).len() implies #[trigger] rest.push(
            reads.last(),
        )[k] < bound by {
            if k < rest.len() {
                assert(rest[k] < bound);
            }
        }
    }
}

/// Replace constants and symbols on registers with only one write
pub fn optimization_clean_registers(f: Function) -> (r: Function)
    requires
        jumps_resolved(f@),
        moves_have_two_arguments(f@.instructions),
    ensures
        r@ == registers_cleaned(f@, all_symbols(f@.instructions)),
        jumps_resolved(r@),
        moves_have_two_arguments(r@.instructions),
        r@.instructions.len() == f@.instructions.len(),
        r@ == (FunctionV { instructions: r@.instructions, ..f@ }),
{
    let mut func = f;
    let ghost fv = func@;
    let symbols = func.get_all_symbols();
    let ghost syms = symbols@.map_values(|s: Symbol| s@);
    let mut i: usize = 0;
    while i < symbols.len()
        invariant
            i <= symbols@.len(),
            syms == symbols@.map_values(|s: Symbol| s@),
            func@ == registers_cleaned(fv, syms.take(i as int)),
            jumps_resolved(func@),
            moves_have_two_arguments(func@.instructions),
            func@.instructions.len() == fv.instructions.len(),
            func@ == (FunctionV { instructions: func@.instructions, ..fv }),
        decreases symbols@.len() - i,
    {
        proof {
            assert(syms.take(i + 1).drop_last() =~= syms.take(i as int));
            assert(syms.take(i + 1).last() == symbols@[i as int]@);
        }
        let ghost g = func@;
        let symbol = &symbols[i];
        if !symbol.datatype.is_ref {
            let from = Value::Symbol(symbol.clone());
            let (reads, writes) = func.get_reads_writes_for(from.clone());
            let count = func.instructions.len();
            proof {
                assert(g.instructions.len() == count);
                lemma_reads_writes_bounded(g.instructions, ValueV::Symbol(symbol@));
                assert forall|q: int| 0 <= q < writes@.len() implies #[trigger] writes@[q]
                    < g.instructions.len() by {
                    assert(writes@[q] == reads_writes(g.instructions, ValueV::Symbol(symbol@)).1[q]);
                }
                assert forall|q: int| 0 <= q < reads@.len() implies #[trigger] reads@[q]
                    < g.instructions.len() by {
                    assert(reads@[q] == reads_writes(g.instructions, ValueV::Symbol(symbol@)).0[q]);
                }
            }
            if writes.len() == 1 && !arguments_contain(&func.arguments, &symbol.title, symbol.datatype) {
                let wi = writes[0];
                if func.instructions[wi].opcode == OpCode::Mov {
                    assert(func@.instructions[wi as int].arguments.len() >= 2);
                    let source = func.instructions[wi].arguments[1].clone();
                    match source {
                        Value::Literal(l) => {
                            let to = Value::Literal(l);
                            func.change_to_nop(wi);
                            proof {
                                lemma_nop_keeps_resolved(g, wi as int);
                            }
                            let ghost h = func@;
                            proof {
                                assert forall|j: int|
                                    0 <= j < h.instructions.len() && (#[trigger] h.instructions[j]).opcode
                                        == OpCode::Mov implies h.instructions[j].arguments.len() >= 2 by {
                                    assert(h.instructions[j] == g.instructions[j]);
                                }
                                lemma_substitute_all_keeps(h, reads@, from@, to@);
                            }
                            let mut q: usize = 0;
                            while q < reads.len()
                                invariant
                                    q <= reads@.len(),
                                    func@ == substitute_all(h, reads@.take(q as int), from@, to@),
                                    func@.instructions.len() == g.instructions.len(),
                                    forall|m: int| 0 <= m < reads@.len() ==> #[trigger] reads@[m] < g.instructions.len(),
                                decreases reads@.len() - q,
                            {
                                proof {
                                    assert(reads@.take(q + 1).drop_last() =~= reads@.take(q as int));
                                }
                                assert(reads@[q as int] < g.instructions.len());
                                substitute_in(&mut func, reads[q], &from, &to);
                                q = q + 1;
                            }
                            assert(reads@.take(reads@.len() as int) =~= reads@);
                        },
                        Value::Symbol(val_symbol) => {
                            let to = Value::Symbol(val_symbol.clone());
                            let (_, val_writes) = func.get_reads_writes_for(to.clone());
                            let explored = func.get_explored_from(wi);
                            let mut chosen: Vec<usize> = Vec::new();
                            let mut q: usize = 0;
                            while q < reads.len()
                                invariant
                                    q <= reads@.len(),
                                    func@ == g,
                                    g.instructions.len() > 0,
                                    jumps_resolved(g),
                                    forall|x: usize| explored@.contains(x) <==> reachable(g, wi, x),
                                    val_writes@ == reads_writes(g.instructions, to@).1,
                                    chosen@ == propagated_reads(g, wi, val_writes@, reads@.take(q as int)),
                                decreases reads@.len() - q,
                            {
                                proof {
                                    assert(reads@.take(q + 1).drop_last() =~= reads@.take(q as int));
                                }
                                let r = reads[q];
                                let mut spoil = false;
                                let mut k: usize = 0;
                                while k < val_writes.len()
                                    invariant
                                        k <= val_writes@.len(),
                                        func@ == g,
                                        g.instructions.len() > 0,
                                        jumps_resolved(g),
                                        forall|x: usize| explored@.contains(x) <==> reachable(g, wi, x),
                                        spoil == exists|k2: int, j: int|
                                            0 <= k2 < k && reachable(g, wi, val_writes@[k2]) && 0 <= j
                                                < next_branches(g, val_writes@[k2]).len()
                                                && #[trigger] reachable(g, next_branches(g, val_writes@[k2])[j], r),
                                    decreases val_writes@.len() - k,
                                {
                                    let v = val_writes[k];
                                    let ghost spoil0 = spoil;
                                    if vec_contains(&explored, v) {
                                        assert(jumps_resolved_at(g, v));
                                        let succ = func.get_next_branches(v);
                                        let mut t: usize = 0;
                                        while t < succ.len()
                                            invariant
                                                t <= succ@.len(),
                                                succ@ == next_branches(g, v),
                                                func@ == g,
                                                g.instructions.len() > 0,
                                                jumps_resolved(g),
                                                reachable(g, wi, v),
                                                v == val_writes@[k as int],
                                                k < val_writes@.len(),
                                                spoil == ((exists|k2: int, j: int|
                                                    0 <= k2 < k && reachable(g, wi, val_writes@[k2]) && 0 <= j
                                                        < next_branches(g, val_writes@[k2]).len()
                                                        && #[trigger] reachable(g, next_branches(g, val_writes@[k2])[j], r))
                                                    || exists|j: int| 0 <= j < t && #[trigger] reachable(g, succ@[j], r)),
                                            decreases succ@.len() - t,
                                        {
                                            let from_succ = func.get_explored_from(succ[t]);
                                            if vec_contains(&from_succ, r) {
                                                assert(reachable(g, succ@[t as int], r));
                                                spoil = true;
                                            }
                                            t = t + 1;
                                        }
                                        proof {
                                            if exists|j: int| 0 <= j < succ@.len() && #[trigger] reachable(g, succ@[j], r) {
                                                let j = choose|j: int| 0 <= j < succ@.len() && #[trigger] reachable(g, succ@[j], r);
                                                assert(reachable(g, next_branches(g, val_writes@[k as int])[j], r));
                                            }
                                            assert forall|k2: int, j: int|
                                                0 <= k2 < k + 1 && reachable(g, wi, val_writes@[k2]) && 0 <= j
                                                    < next_branches(g, val_writes@[k2]).len()
                                                    && #[trigger] reachable(g, next_branches(g, val_writes@[k2])[j], r)
                                                implies spoil by {
                                                if k2 < k {
                                                    assert(spoil0);
                                                    assert(spoil);
                                                } else {
                                                    assert(succ@ == next_branches(g, val_writes@[k2]));
                                                    assert(reachable(g, succ@[j], r));
                                                    assert(spoil);
                                                }
                                            }
                                        }
                                    } else {
                                        proof {
                                            assert(!reachable(g, wi, v));
                                            assert forall|k2: int, j: int|
                                                0 <= k2 < k + 1 && reachable(g, wi, val_writes@[k2]) && 0 <= j
                                                    < next_branches(g, val_writes@[k2]).len()
                                                    && #[trigger] reachable(g, next_branches(g, val_writes@[k2])[j], r)
                                                implies spoil by {
                                                assert(k2 < k);
                                                assert(spoil0);
                                            }
                                        }
                                    }
                                    k = k + 1;
                                }
                                if vec_contains(&explored, r) && !spoil {
                                    chosen.push(r);
                                }
                                q = q + 1;
                            }
                            assert(reads@.take(reads@.len() as int) =~= reads@);
                            proof {
                                lemma_propagated_subset(g, wi, val_writes@, reads@, g.instructions.len());
                                lemma_substitute_all_keeps(g, chosen@, from@, to@);
                            }
                            let mut q: usize = 0;
                            while q < chosen.len()
                                invariant
                                    q <= chosen@.len(),
                                    func@ == substitute_all(g, chosen@.take(q as int), from@, to@),
                                    forall|m: int| 0 <= m < chosen@.len() ==> #[trigger] chosen@[m] < g.instructions.len(),
                                    func@.instructions.len() == g.instructions.len(),
                                decreases chosen@.len() - q,
                            {
                                proof {
                                    assert(chosen@.take(q + 1).drop_last() =~= chosen@.take(q as int));
                                }
                                assert(chosen@[q as int] < g.instructions.len());
                                substitute_in(&mut func, chosen[q], &from, &to);
                                q = q + 1;
                            }
                            assert(chosen@.take(chosen@.len() as int) =~= chosen@);
                        },
                        Value::Label(_) => {},
                    }
                }
            }
        }
        assert(func@ == clean_register_step(g, syms[i as int]));
        i = i + 1;
    }
    assert(syms.take(symbols@.len() as int) =~= syms);
    func
}


/// One step of register cleaning keeps the number of instructions.
proof fn lemma_clean_register_step_len(f: FunctionV, s: SymbolV)
    requires
        f.instructions.len() <= usize::MAX,
    ensures
        clean_register_step(f, s).instructions.len() == f.instructions.len(),
        clean_register_step(f, s) == (FunctionV { instructions: clean_register_step(f, s).instructions, ..f }),
{
    let (reads, writes) = reads_writes(f.instructions, ValueV::Symbol(s));
    lemma_reads_writes_bounded(f.instructions, ValueV::Symbol(s));
    if !(s.datatype.is_ref || writes.len() != 1 || f.arguments.contains((s.title, s.datatype))) {
        let w = writes[0];
        assert(w < f.instructions.len());
        let wi = f.instructions[w as int];
        if wi.opcode == OpCode::Mov {
            match wi.arguments[1] {
                ValueV::Literal(val) => {
                    let g = with_instruction(f, w as int, nop_v());
                    lemma_substitute_all_keeps(g, reads, ValueV::Symbol(s), ValueV::Literal(val));
                },
                ValueV::Symbol(val) => {
                    let vw = reads_writes(f.instructions, ValueV::Symbol(val)).1;
                    lemma_propagated_subset(f, w, vw, reads, f.instructions.len() as nat);
                    lemma_substitute_all_keeps(
                        f,
                        propagated_reads(f, w, vw, reads),
                        ValueV::Symbol(s),
                        ValueV::Symbol(val),
                    );
                },
                ValueV::Label(_) => {},
            }
        }
    }
}

/// Cleaning registers rewrites instructions in place: the number of
/// instructions stays.
pub proof fn law_clean_registers_in_place(f: FunctionV, syms: Seq<SymbolV>)
    requires
        f.instructions.len() <= usize::MAX,
    ensures
        registers_cleaned(f, syms).instructions.len() == f.instructions.len(),
        registers_cleaned(f, syms) == (FunctionV { instructions: registers_cleaned(f, syms).instructions, ..f }),
    decreases syms.len(),
{
    if syms.len() > 0 {
        law_clean_registers_in_place(f, syms.drop_last());
        lemma_clean_register_step_len(registers_cleaned(f, syms.drop_last()), syms.last());
    }
}

} // verus!
