//! What the optimization passes keep.
use vstd::prelude::*;
use crate::irgen::function::{FunctionV, reads_writes};
use crate::irgen::instruction::{InstructionV, SymbolV, ValueV};
use super::jumps::{chainable, chained, lemma_chain_step_keeps};
use super::optimizations::{constant_fold_v, redundant_move_v};
use super::registers::{
    branches_cleaned, casts_removed, clean_branch_step, drop_unread_writes, lemma_reads_writes_bounded,
    remove_cast_step, substitute_all, unused_register_step, unused_registers_removed,
};

verus! {

/// `g` differs from `f` at most in its instructions, and has as many.
pub open spec fn same_shape(f: FunctionV, g: FunctionV) -> bool {
    &&& g == (FunctionV { instructions: g.instructions, ..f })
    &&& g.instructions.len() == f.instructions.len()
}

/// Jump chaining rewrites instructions in place: the number of instructions,
/// the labels, the symbols and the signature stay as they were.
pub proof fn law_jump_chaining_in_place(f: FunctionV, n: nat)
    requires
        chainable(f),
        n <= f.instructions.len(),
    ensures
        same_shape(f, chained(f, n)),
        chainable(chained(f, n)),
    decreases n,
{
    if n > 0 {
        law_jump_chaining_in_place(f, (n - 1) as nat);
        lemma_chain_step_keeps(chained(f, (n - 1) as nat), n - 1);
    }
}

/// Cleaning branches rewrites instructions in place.
pub proof fn law_clean_branches_in_place(f: FunctionV, syms: Seq<SymbolV>)
    requires
        f.instructions.len() <= usize::MAX,
    ensures
        same_shape(f, branches_cleaned(f, syms)),
    decreases syms.len(),
{
    if syms.len() > 0 {
        law_clean_branches_in_place(f, syms.drop_last());
        let g = branches_cleaned(f, syms.drop_last());
        let v = ValueV::Symbol(syms.last());
        lemma_reads_writes_bounded(g.instructions, v);
        let (reads, writes) = reads_writes(g.instructions, v);
        if reads.len() > 0 {
            assert(reads[0] < g.instructions.len());
        }
        if writes.len() > 0 {
            assert(writes[0] < g.instructions.len());
        }
        assert(same_shape(g, clean_branch_step(g, syms.last())));
    }
}

/// Dropping unread writes rewrites instructions in place.
proof fn lemma_drop_unread_writes_in_place(f: FunctionV, reads: Seq<usize>, writes: Seq<usize>)
    ensures
        same_shape(f, drop_unread_writes(f, reads, writes)),
    decreases writes.len(),
{
    if writes.len() > 0 {
        lemma_drop_unread_writes_in_place(f, reads, writes.drop_last());
    }
}

/// Removing unused registers rewrites instructions in place.
pub proof fn law_remove_unused_registers_in_place(f: FunctionV, syms: Seq<SymbolV>)
    ensures
        same_shape(f, unused_registers_removed(f, syms)),
    decreases syms.len(),
{
    if syms.len() > 0 {
        law_remove_unused_registers_in_place(f, syms.drop_last());
        let g = unused_registers_removed(f, syms.drop_last());
        let v = ValueV::Symbol(syms.last());
        let (reads, writes) = reads_writes(g.instructions, v);
        lemma_drop_unread_writes_in_place(g, reads, writes);
        assert(same_shape(g, unused_register_step(g, syms.last())));
    }
}

/// Substituting in instructions that exist rewrites them in place.
pub(crate) proof fn lemma_substitute_all_in_place(f: FunctionV, idxs: Seq<usize>, from: ValueV, to: ValueV)
    requires
        forall|k: int| 0 <= k < idxs.len() ==> #[trigger] idxs[k] < f.instructions.len(),
    ensures
        same_shape(f, substitute_all(f, idxs, from, to)),
    decreases idxs.len(),
{
    if idxs.len() > 0 {
        lemma_substitute_all_in_place(f, idxs.drop_last(), from, to);
        assert(idxs[idxs.len() - 1] < f.instructions.len());
    }
}

/// Removing casts rewrites instructions in place.
pub proof fn law_remove_casts_in_place(f: FunctionV, syms: Seq<SymbolV>)
    requires
        f.instructions.len() <= usize::MAX,
    ensures
        same_shape(f, casts_removed(f, syms)),
    decreases syms.len(),
{
    if syms.len() > 0 {
        law_remove_casts_in_place(f, syms.drop_last());
        let g = casts_removed(f, syms.drop_last());
        let s = syms.last();
        let v = ValueV::Symbol(s);
        lemma_reads_writes_bounded(g.instructions, v);
        let (reads, writes) = reads_writes(g.instructions, v);
        if writes.len() == 1 {
            assert(writes[0] < g.instructions.len());
            let h = FunctionV {
                instructions: g.instructions.update(
                    writes[0] as int,
                    InstructionV { opcode: crate::irgen::instruction::OpCode::Nop, arguments: Seq::empty() },
                ),
                ..g
            };
            assert forall|k: int| 0 <= k < reads.len() implies #[trigger] reads[k] < h.instructions.len() by {
                assert(reads[k] < g.instructions.len());
            }
            let w = g.instructions[writes[0] as int];
            if w.opcode == crate::irgen::instruction::OpCode::Cast && w.arguments[1] is Literal {
                let lit = crate::irgen::instruction::Literal { datatype: s.datatype, ..w.arguments[1]->Literal_0 };
                lemma_substitute_all_in_place(h, reads, v, ValueV::Literal(lit));
            }
        }
        assert(same_shape(g, remove_cast_step(g, s)));
    }
}

/// Removing redundant moves twice does no more than once.
pub proof fn law_redundant_moves_idempotent(insts: Seq<InstructionV>)
    ensures
        insts.map_values(|i: InstructionV| redundant_move_v(i)).map_values(
            |i: InstructionV| redundant_move_v(i),
        ) == insts.map_values(|i: InstructionV| redundant_move_v(i)),
{
    assert(insts.map_values(|i: InstructionV| redundant_move_v(i)).map_values(
        |i: InstructionV| redundant_move_v(i),
    ) =~= insts.map_values(|i: InstructionV| redundant_move_v(i)));
}

/// Folding constants twice does no more than once: a folded instruction is a
/// move, which is not folded again.
pub proof fn law_constant_folding_idempotent(insts: Seq<InstructionV>)
    ensures
        insts.map_values(|i: InstructionV| constant_fold_v(i)).map_values(
            |i: InstructionV| constant_fold_v(i),
        ) == insts.map_values(|i: InstructionV| constant_fold_v(i)),
{
    assert(insts.map_values(|i: InstructionV| constant_fold_v(i)).map_values(
        |i: InstructionV| constant_fold_v(i),
    ) =~= insts.map_values(|i: InstructionV| constant_fold_v(i)));
}

} // verus!
