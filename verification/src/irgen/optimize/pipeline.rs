//! The optimizer: the passes run in rounds until the code stops shrinking.
use vstd::prelude::*;
use crate::irgen::function::{Function, FunctionV, all_symbols, jumps_resolved};
use crate::irgen::instruction::InstructionV;
use super::compact::{label_positions, law_remove_nop_never_lengthens, nops_removed, optimization_remove_nop};
use super::domains::{domains_combined, law_combine_domains_in_place, optimization_combine_domains};
use super::laws::{
    law_clean_branches_in_place, law_jump_chaining_in_place, law_remove_casts_in_place,
    law_remove_unused_registers_in_place,
};
use super::jumps::{
    chainable, chained, named_places_labelled, optimization_jump_chaining, optimization_redundant_labels,
    optimization_remove_unused_labels, redundant_labels_v, unused_labels_removed,
};
use super::optimizations::{
    constant_fold_v, constants_foldable, dead_code_removed, moves_have_two_arguments,
    optimization_arithmatic_constants, optimization_dead_code, optimization_redundant_moves,
    redundant_move_v,
};
use super::registers::{
    branches_cleanable, branches_cleaned, casts_have_two_arguments, casts_removed,
    optimization_clean_branches, optimization_clean_registers, optimization_remove_casts,
    optimization_remove_unused_registers, registers_cleaned, unused_registers_removed,
    law_clean_registers_in_place,
};

verus! {

/// The passes of the optimizer.
#[derive(Clone, Copy, PartialEq, Eq, Debug, Structural)]
pub enum Pass {
    CleanBranches,
    RemoveNop,
    CleanRegisters,
    RemoveCasts,
    JumpChaining,
    ArithmaticConstants,
    RemoveUnusedRegisters,
    RedundantMoves,
    DeadCode,
    RedundantLabels,
    RemoveUnusedLabels,
}

/// What pass `p` needs of the function it runs on (where it is not met, the
/// pass would fail).
pub open spec fn pass_ready(p: Pass, f: FunctionV) -> bool {
    match p {
        Pass::CleanBranches => branches_cleanable(f.instructions),
        Pass::RemoveNop => true,
        Pass::CleanRegisters => jumps_resolved(f) && moves_have_two_arguments(f.instructions),
        Pass::RemoveCasts => casts_have_two_arguments(f.instructions),
        Pass::JumpChaining => chainable(f),
        Pass::ArithmaticConstants => constants_foldable(f.instructions),
        Pass::RemoveUnusedRegisters => jumps_resolved(f),
        Pass::RedundantMoves => moves_have_two_arguments(f.instructions),
        Pass::DeadCode => f.instructions.len() > 0 && jumps_resolved(f),
        Pass::RedundantLabels => named_places_labelled(f),
        Pass::RemoveUnusedLabels => true,
    }
}

/// The function that pass `p` makes of `f`.
pub open spec fn pass_v(p: Pass, f: FunctionV) -> FunctionV {
    match p {
        Pass::CleanBranches => branches_cleaned(f, all_symbols(f.instructions)),
        Pass::RemoveNop => nops_removed(f, label_positions(f)),
        Pass::CleanRegisters => registers_cleaned(f, all_symbols(f.instructions)),
        Pass::RemoveCasts => casts_removed(f, all_symbols(f.instructions)),
        Pass::JumpChaining => chained(f, f.instructions.len() as nat),
        Pass::ArithmaticConstants => FunctionV {
            instructions: f.instructions.map_values(|i: InstructionV| constant_fold_v(i)),
            ..f
        },
        Pass::RemoveUnusedRegisters => unused_registers_removed(f, all_symbols(f.instructions)),
        Pass::RedundantMoves => FunctionV {
            instructions: f.instructions.map_values(|i: InstructionV| redundant_move_v(i)),
            ..f
        },
        Pass::DeadCode => dead_code_removed(f),
        Pass::RedundantLabels => FunctionV {
            instructions: f.instructions.map_values(|i: InstructionV| redundant_labels_v(f, i)),
            ..f
        },
        Pass::RemoveUnusedLabels => unused_labels_removed(f),
    }
}

/// `f` after the passes `ps`, in order; `None` where one of them finds what
/// it needs missing.
pub open spec fn run_passes(f: FunctionV, ps: Seq<Pass>) -> Option<FunctionV>
    decreases ps.len(),
{
    if ps.len() == 0 {
        Some(f)
    } else {
        match run_passes(f, ps.drop_last()) {
            Some(g) => if pass_ready(ps.last(), g) {
                Some(pass_v(ps.last(), g))
            } else {
                None
            },
            None => None,
        }
    }
}

/// The passes of one round at optimization level `level`: at level 2 and
/// above the registers are cleaned; at level 1 and above the casts are
/// removed and jumps chained; then, at every level, constants are folded,
/// unused registers, redundant moves, dead code and unused labels removed.
/// Each pass that leaves `nop`s is followed by their removal.
pub open spec fn round_passes(level: usize) -> Seq<Pass> {
    (if level >= 2 {
        seq![Pass::CleanRegisters, Pass::RemoveNop]
    } else {
        Seq::empty()
    }) + (if level >= 1 {
        seq![Pass::RemoveCasts, Pass::RemoveNop, Pass::JumpChaining, Pass::RemoveNop]
    } else {
        Seq::empty()
    }) + seq![
        Pass::ArithmaticConstants,
        Pass::RemoveUnusedRegisters,
        Pass::RemoveNop,
        Pass::RedundantMoves,
        Pass::RemoveNop,
        Pass::DeadCode,
        Pass::RemoveNop,
        Pass::RedundantLabels,
        Pass::RemoveUnusedLabels,
        Pass::RemoveNop,
    ]
}

/// Rounds of passes from `f`, until a round leaves the length of the code
/// unchanged a second time in a row (`settled`: the round before left it
/// unchanged). `None` where a pass fails, or where a round would lengthen
/// the code, which never happens to a function that fits in memory
/// (`law_passes_never_lengthen`).
pub open spec fn rounds_v(f: FunctionV, level: usize, settled: bool) -> Option<FunctionV>
    decreases f.instructions.len(), (if settled { 0nat } else { 1nat }),
{
    match run_passes(f, round_passes(level)) {
        None => None,
        Some(g) => if g.instructions.len() > f.instructions.len() {
            None
        } else if g.instructions.len() == f.instructions.len() {
            if settled {
                Some(g)
            } else {
                rounds_v(g, level, true)
            }
        } else {
            rounds_v(g, level, false)
        },
    }
}

/// Branches cleaned and `nop`s removed, then rounds of passes until the code
/// settles.
pub open spec fn optimized_plain(f: FunctionV, level: usize) -> Option<FunctionV> {
    match run_passes(f, seq![Pass::CleanBranches, Pass::RemoveNop]) {
        Some(g) => rounds_v(g, level, false),
        None => None,
    }
}

/// The optimized function at level `level`; with `combine`, the registers
/// are then combined and the whole optimized again.
#[verifier::opaque]
pub open spec fn optimized_v(f: FunctionV, level: usize, combine: bool) -> Option<FunctionV> {
    match optimized_plain(f, level) {
        None => None,
        Some(g) => if !combine {
            Some(g)
        } else if jumps_resolved(g) {
            optimized_plain(domains_combined(g), level)
        } else {
            None
        },
    }
}

/// No pass lengthens the code: each rewrites instructions in place, except
/// the removal of `nop`s, which only shortens it.
pub proof fn law_pass_never_lengthens(p: Pass, f: FunctionV)
    requires
        pass_ready(p, f),
        f.instructions.len() <= usize::MAX,
    ensures
        pass_v(p, f).instructions.len() <= f.instructions.len(),
{
    match p {
        Pass::CleanBranches => law_clean_branches_in_place(f, all_symbols(f.instructions)),
        Pass::RemoveNop => law_remove_nop_never_lengthens(f, label_positions(f)),
        Pass::CleanRegisters => law_clean_registers_in_place(f, all_symbols(f.instructions)),
        Pass::RemoveCasts => law_remove_casts_in_place(f, all_symbols(f.instructions)),
        Pass::JumpChaining => law_jump_chaining_in_place(f, f.instructions.len() as nat),
        Pass::RemoveUnusedRegisters => law_remove_unused_registers_in_place(f, all_symbols(f.instructions)),
        _ => {},
    }
}

/// A run of passes never lengthens the code.
pub proof fn law_passes_never_lengthen(f: FunctionV, ps: Seq<Pass>)
    requires
        run_passes(f, ps) is Some,
        f.instructions.len() <= usize::MAX,
    ensures
        run_passes(f, ps)->Some_0.instructions.len() <= f.instructions.len(),
    decreases ps.len(),
{
    if ps.len() > 0 {
        law_passes_never_lengthen(f, ps.drop_last());
        law_pass_never_lengthens(ps.last(), run_passes(f, ps.drop_last())->Some_0);
    }
}

/// The rounds end with code no longer than they start with.
proof fn lemma_rounds_len(f: FunctionV, level: usize, settled: bool)
    requires
        rounds_v(f, level, settled) is Some,
    ensures
        rounds_v(f, level, settled)->Some_0.instructions.len() <= f.instructions.len(),
    decreases f.instructions.len(), (if settled { 0nat } else { 1nat }),
{
    let g = run_passes(f, round_passes(level))->Some_0;
    if g.instructions.len() == f.instructions.len() {
        if !settled {
            lemma_rounds_len(g, level, true);
        }
    } else if g.instructions.len() < f.instructions.len() {
        lemma_rounds_len(g, level, false);
    }
}

/// The optimized function is no longer than the function it was made from.
pub proof fn law_optimizing_never_lengthens(f: FunctionV, level: usize, combine: bool)
    requires
        optimized_v(f, level, combine) is Some,
        f.instructions.len() <= usize::MAX,
    ensures
        optimized_v(f, level, combine)->Some_0.instructions.len() <= f.instructions.len(),
{
    reveal(optimized_v);
    let first = seq![Pass::CleanBranches, Pass::RemoveNop];
    law_passes_never_lengthen(f, first);
    let g0 = run_passes(f, first)->Some_0;
    lemma_rounds_len(g0, level, false);
    if combine {
        let g = optimized_plain(f, level)->Some_0;
        law_combine_domains_in_place(g);
        let h = domains_combined(g);
        law_passes_never_lengthen(h, first);
        lemma_rounds_len(run_passes(h, first)->Some_0, level, false);
    }
}

/// `g` has the name, return type, arguments and symbols of `f`.
pub open spec fn keeps_signature(f: FunctionV, g: FunctionV) -> bool {
    &&& g.name == f.name
    &&& g.return_type == f.return_type
    &&& g.arguments == f.arguments
    &&& g.symbol_table == f.symbol_table
}

/// No pass changes the name, return type, arguments or symbols of a function.
pub proof fn law_pass_keeps_signature(p: Pass, f: FunctionV)
    requires
        pass_ready(p, f),
        f.instructions.len() <= usize::MAX,
    ensures
        keeps_signature(f, pass_v(p, f)),
{
    match p {
        Pass::CleanBranches => law_clean_branches_in_place(f, all_symbols(f.instructions)),
        Pass::CleanRegisters => law_clean_registers_in_place(f, all_symbols(f.instructions)),
        Pass::RemoveCasts => law_remove_casts_in_place(f, all_symbols(f.instructions)),
        Pass::JumpChaining => law_jump_chaining_in_place(f, f.instructions.len() as nat),
        Pass::RemoveUnusedRegisters => law_remove_unused_registers_in_place(f, all_symbols(f.instructions)),
        _ => {},
    }
}

proof fn lemma_passes_keep_signature(f: FunctionV, ps: Seq<Pass>)
    requires
        run_passes(f, ps) is Some,
        f.instructions.len() <= usize::MAX,
    ensures
        keeps_signature(f, run_passes(f, ps)->Some_0),
    decreases ps.len(),
{
    if ps.len() > 0 {
        lemma_passes_keep_signature(f, ps.drop_last());
        law_passes_never_lengthen(f, ps.drop_last());
        law_pass_keeps_signature(ps.last(), run_passes(f, ps.drop_last())->Some_0);
    }
}

proof fn lemma_rounds_keep_signature(f: FunctionV, level: usize, settled: bool)
    requires
        rounds_v(f, level, settled) is Some,
        f.instructions.len() <= usize::MAX,
    ensures
        keeps_signature(f, rounds_v(f, level, settled)->Some_0),
    decreases f.instructions.len(), (if settled { 0nat } else { 1nat }),
{
    let g = run_passes(f, round_passes(level))->Some_0;
    lemma_passes_keep_signature(f, round_passes(level));
    if g.instructions.len() == f.instructions.len() {
        if !settled {
            lemma_rounds_keep_signature(g, level, true);
        }
    } else if g.instructions.len() < f.instructions.len() {
        lemma_rounds_keep_signature(g, level, false);
    }
}

/// Optimizing keeps the name, return type, arguments and symbols of a function.
pub proof fn law_optimizing_keeps_signature(f: FunctionV, level: usize, combine: bool)
    requires
        optimized_v(f, level, combine) is Some,
        f.instructions.len() <= usize::MAX,
    ensures
        keeps_signature(f, optimized_v(f, level, combine)->Some_0),
{
    reveal(optimized_v);
    let first = seq![Pass::CleanBranches, Pass::RemoveNop];
    lemma_passes_keep_signature(f, first);
    law_passes_never_lengthen(f, first);
    let g0 = run_passes(f, first)->Some_0;
    lemma_rounds_keep_signature(g0, level, false);
    if combine {
        let g = optimized_plain(f, level)->Some_0;
        lemma_rounds_len(g0, level, false);
        law_combine_domains_in_place(g);
        let h = domains_combined(g);
        lemma_passes_keep_signature(h, first);
        law_passes_never_lengthen(h, first);
        lemma_rounds_keep_signature(run_passes(h, first)->Some_0, level, false);
    }
}

/// Run pass `p`.
fn apply_pass(f: Function, p: Pass) -> (r: Function)
    requires
        pass_ready(p, f@),
    ensures
        r@ == pass_v(p, f@),
{
    match p {
        Pass::CleanBranches => optimization_clean_branches(f),
        Pass::RemoveNop => optimization_remove_nop(f),
        Pass::CleanRegisters => optimization_clean_registers(f),
        Pass::RemoveCasts => optimization_remove_casts(f),
        Pass::JumpChaining => optimization_jump_chaining(f),
        Pass::ArithmaticConstants => optimization_arithmatic_constants(f),
        Pass::RemoveUnusedRegisters => optimization_remove_unused_registers(f),
        Pass::RedundantMoves => optimization_redundant_moves(f),
        Pass::DeadCode => optimization_dead_code(f),
        Pass::RedundantLabels => optimization_redundant_labels(f),
        Pass::RemoveUnusedLabels => optimization_remove_unused_labels(f),
    }
}

/// Where a run of passes succeeds, so does every run of its first passes.
proof fn lemma_run_prefix(f: FunctionV, ps: Seq<Pass>, i: int)
    requires
        0 <= i <= ps.len(),
        run_passes(f, ps) is Some,
    ensures
        run_passes(f, ps.take(i)) is Some,
    decreases ps.len(),
{
    if i < ps.len() {
        assert(ps.drop_last().take(i) =~= ps.take(i));
        lemma_run_prefix(f, ps.drop_last(), i);
    } else {
        assert(ps.take(i) =~= ps);
    }
}

/// Run the passes `ps` in order.
fn run_pass_list(f: Function, ps: &Vec<Pass>) -> (r: Function)
    requires
        run_passes(f@, ps@) is Some,
    ensures
        Some(r@) == run_passes(f@, ps@),
{
    let mut func = f;
    let ghost fv = f@;
    let mut i: usize = 0;
    while i < ps.len()
        invariant
            i <= ps@.len(),
            run_passes(fv, ps@) is Some,
            Some(func@) == run_passes(fv, ps@.take(i as int)),
        decreases ps@.len() - i,
    {
        proof {
            lemma_run_prefix(fv, ps@, i + 1);
            assert(ps@.take(i + 1).drop_last() =~= ps@.take(i as int));
            assert(ps@.take(i + 1).last() == ps@[i as int]);
        }
        func = apply_pass(func, ps[i]);
        i = i + 1;
    }
    assert(ps@.take(ps@.len() as int) =~= ps@);
    func
}

/// The passes of one round at level `level`.
fn round_pass_list(level: usize) -> (r: Vec<Pass>)
    ensures
        r@ == round_passes(level),
{
    let mut r: Vec<Pass> = Vec::new();
    if level >= 2 {
        r.push(Pass::CleanRegisters);
        r.push(Pass::RemoveNop);
    }
    if level >= 1 {
        r.push(Pass::RemoveCasts);
        r.push(Pass::RemoveNop);
        r.push(Pass::JumpChaining);
        r.push(Pass::RemoveNop);
    }
    r.push(Pass::ArithmaticConstants);
    r.push(Pass::RemoveUnusedRegisters);
    r.push(Pass::RemoveNop);
    r.push(Pass::RedundantMoves);
    r.push(Pass::RemoveNop);
    r.push(Pass::DeadCode);
    r.push(Pass::RemoveNop);
    r.push(Pass::RedundantLabels);
    r.push(Pass::RemoveUnusedLabels);
    r.push(Pass::RemoveNop);
    assert(r@ =~= round_passes(level));
    r
}

/// Branches cleaned, `nop`s removed, then rounds of passes until the code
/// settles.
fn optimize_plain(f: Function, level: usize) -> (r: Function)
    requires
        optimized_plain(f@, level) is Some,
    ensures
        Some(r@) == optimized_plain(f@, level),
{
    let mut first: Vec<Pass> = Vec::new();
    first.push(Pass::CleanBranches);
    first.push(Pass::RemoveNop);
    assert(first@ =~= seq![Pass::CleanBranches, Pass::RemoveNop]);
    let mut func = run_pass_list(f, &first);
    let ps = round_pass_list(level);
    let ghost target = rounds_v(func@, level, false);
    let mut settled = false;
    loop
        invariant_except_break
            target == rounds_v(func@, level, settled),
        invariant
            ps@ == round_passes(level),
            target is Some,
        ensures
            target == Some(func@),
        decreases func@.instructions.len(), (if settled { 0nat } else { 1nat }),
    {
        let before = func.instructions.len();
        func = run_pass_list(func, &ps);
        let after = func.instructions.len();
        if after == before {
            if settled {
                break;
            }
            settled = true;
        } else {
            settled = false;
        }
    }
    func
}

/// Optimize a function: at level 2 and above its registers are cleaned, at
/// level 1 and above its casts removed and its jumps chained, and at every
/// level constants folded and unused registers, redundant moves, dead code,
/// unused labels and `nop`s removed, round after round until the code
/// settles; with `combine`, registers whose domains never meet are then
/// combined and the function optimized again.
pub fn optimize_function(f: Function, level: usize, combine: bool) -> (r: Function)
    requires
        optimized_v(f@, level, combine) is Some,
    ensures
        Some(r@) == optimized_v(f@, level, combine),
        r@.instructions.len() <= f@.instructions.len(),
        keeps_signature(f@, r@),
{
    let n = f.instructions.len();
    proof {
        reveal(optimized_v);
        assert(f@.instructions.len() == n);
        law_optimizing_never_lengthens(f@, level, combine);
        law_optimizing_keeps_signature(f@, level, combine);
    }
    let func = optimize_plain(f, level);
    if combine {
        let merged = optimization_combine_domains(func);
        optimize_plain(merged, level)
    } else {
        func
    }
}

} // verus!
