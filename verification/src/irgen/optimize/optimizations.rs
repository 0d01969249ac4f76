//! Optimization passes over an IR function. Each pass takes a function and
//! returns the transformed function.
use vstd::prelude::*;
use crate::irgen::function::{
    Function, FunctionV, instructions_view, is_path, jumps_resolved, lemma_closed_holds_reachable,
    lemma_reach_step, next_branches, reachable, vec_contains,
};
use crate::irgen::instruction::{
    Instruction, InstructionV, Literal, OpCode, Value, ValueV, clone_values, values_view,
};

verus! {

/// A `nop` without arguments.
pub open spec fn nop_v() -> InstructionV {
    InstructionV { opcode: OpCode::Nop, arguments: Seq::empty() }
}

/// Every `mov` has a source and a destination.
pub open spec fn moves_have_two_arguments(insts: Seq<InstructionV>) -> bool {
    forall|i: int|
        0 <= i < insts.len() && (#[trigger] insts[i]).opcode == OpCode::Mov ==> insts[i].arguments.len()
            >= 2
}

/// A move of a value onto itself becomes a `nop`.
pub open spec fn redundant_move_v(i: InstructionV) -> InstructionV {
    if i.opcode == OpCode::Mov && i.arguments[0] == i.arguments[1] {
        nop_v()
    } else {
        i
    }
}

/// Remove redundant moves
pub fn optimization_redundant_moves(f: Function) -> (r: Function)
    requires
        moves_have_two_arguments(f@.instructions),
    ensures
        r@ == (FunctionV {
            instructions: f@.instructions.map_values(|i: InstructionV| redundant_move_v(i)),
            ..f@
        }),
{
    let mut func = f;
    let ghost insts = func@.instructions;
    let mut i: usize = 0;
    while i < func.instructions.len()
        invariant
            i <= func@.instructions.len(),
            insts.len() == func@.instructions.len(),
            moves_have_two_arguments(insts),
            forall|j: int| 0 <= j < i ==> #[trigger] func@.instructions[j] == redundant_move_v(insts[j]),
            forall|j: int| i <= j < insts.len() ==> #[trigger] func@.instructions[j] == insts[j],
            func@ == (FunctionV { instructions: func@.instructions, ..f@ }),
        decreases insts.len() - i,
    {
        assert(func@.instructions[i as int] == insts[i as int]);
        let redundant = func.instructions[i].opcode == OpCode::Mov
            && func.instructions[i].arguments[0] == func.instructions[i].arguments[1];
        if redundant {
            func.change_to_nop(i);
        }
        i = i + 1;
    }
    assert(func@.instructions =~= insts.map_values(|i: InstructionV| redundant_move_v(i)));
    func
}

/// Folding `lit0 op lit1` is defined: no overflow and no division by zero.
pub open spec fn fold_defined(op: OpCode, a: i128, b: i128) -> bool {
    match op {
        OpCode::Add => i128::MIN <= a + b <= i128::MAX,
        OpCode::Sub => i128::MIN <= a - b <= i128::MAX,
        OpCode::Mul => i128::MIN <= a * b <= i128::MAX,
        OpCode::Div => b != 0 && !(a == i128::MIN && b == -1),
        _ => true,
    }
}

pub open spec fn abs_int(x: int) -> int {
    if x >= 0 {
        x
    } else {
        -x
    }
}

/// The value of `a op b` with Rust's truncating division.
pub open spec fn fold_value(op: OpCode, a: i128, b: i128) -> int {
    match op {
        OpCode::Add => a + b,
        OpCode::Sub => a - b,
        OpCode::Mul => a * b,
        _ => {
            let q = abs_int(a as int) / abs_int(b as int);
            if (a >= 0) == (b >= 0) {
                q
            } else {
                -q
            }
        },
    }
}

fn fold_i128(op: OpCode, a: i128, b: i128) -> (r: i128)
    requires
        fold_defined(op, a, b),
        op == OpCode::Add || op == OpCode::Sub || op == OpCode::Mul || op == OpCode::Div,
    ensures
        r == fold_value(op, a, b),
{
    match op {
        OpCode::Add => {
            assert(fold_value(OpCode::Add, a, b) == a + b);
            a + b
        },
        OpCode::Sub => {
            assert(fold_value(OpCode::Sub, a, b) == a - b);
            a - b
        },
        OpCode::Mul => {
            assert(fold_value(OpCode::Mul, a, b) == a * b);
            a * b
        },
        _ => {
            let ma: u128 = if a >= 0 { a as u128 } else { ((-(a + 1)) as u128) + 1 };
            let mb: u128 = if b >= 0 { b as u128 } else { ((-(b + 1)) as u128) + 1 };
            let q: u128 = ma / mb;
            assert(q as int == abs_int(a as int) / abs_int(b as int));
            if (a >= 0) == (b >= 0) {
                assert(q <= i128::MAX) by {
                    if a == i128::MIN {
                        assert(mb >= 2);
                        assert(q <= ma / 2) by (nonlinear_arith)
                            requires
                                mb >= 2,
                                q == ma / mb,
                        ;
                    } else {
                        assert(q <= ma) by (nonlinear_arith)
                            requires
                                mb >= 1,
                                q == ma / mb,
                        ;
                    }
                }
                q as i128
            } else {
                assert(q <= ma) by (nonlinear_arith)
                    requires
                        mb >= 1,
                        q == ma / mb,
                ;
                if q == 0 {
                    0
                } else {
                    -((q - 1) as i128) - 1
                }
            }
        },
    }
}

/// An arithmetic instruction on two literals.
pub open spec fn is_constant_arith(i: InstructionV) -> bool {
    &&& i.arguments.len() > 2
    &&& i.arguments[1] is Literal
    &&& i.arguments[2] is Literal
    &&& (i.opcode == OpCode::Add || i.opcode == OpCode::Sub || i.opcode == OpCode::Mul || i.opcode
        == OpCode::Div)
}

/// Every arithmetic instruction on two literals can be folded.
pub open spec fn constants_foldable(insts: Seq<InstructionV>) -> bool {
    forall|j: int|
        0 <= j < insts.len() && is_constant_arith(#[trigger] insts[j]) ==> fold_defined(
            insts[j].opcode,
            insts[j].arguments[1]->Literal_0.value,
            insts[j].arguments[2]->Literal_0.value,
        )
}

/// An arithmetic instruction on two literals becomes a move of the result
/// (typed as the first literal) into the destination.
pub open spec fn constant_fold_v(i: InstructionV) -> InstructionV {
    if is_constant_arith(i) {
        let lit0 = i.arguments[1]->Literal_0;
        let lit1 = i.arguments[2]->Literal_0;
        InstructionV {
            opcode: OpCode::Mov,
            arguments: seq![
                i.arguments[0],
                ValueV::Literal(
                    Literal {
                        value: fold_value(i.opcode, lit0.value, lit1.value) as i128,
                        datatype: lit0.datatype,
                    },
                )
            ],
        }
    } else {
        i
    }
}

/// Perform arithmatic operations on constants
pub fn optimization_arithmatic_constants(f: Function) -> (r: Function)
    requires
        constants_foldable(f@.instructions),
    ensures
        r@ == (FunctionV {
            instructions: f@.instructions.map_values(|i: InstructionV| constant_fold_v(i)),
            ..f@
        }),
{
    let mut func = f;
    let ghost insts = func@.instructions;
    let mut i: usize = 0;
    while i < func.instructions.len()
        invariant
            i <= func@.instructions.len(),
            insts.len() == func@.instructions.len(),
            constants_foldable(insts),
            forall|j: int| 0 <= j < i ==> #[trigger] func@.instructions[j] == constant_fold_v(insts[j]),
            forall|j: int| i <= j < insts.len() ==> #[trigger] func@.instructions[j] == insts[j],
            func@ == (FunctionV { instructions: func@.instructions, ..f@ }),
        decreases insts.len() - i,
    {
        assert(func@.instructions[i as int] == insts[i as int]);
        let ghost iv = insts[i as int];
        let mut replacement: Option<Instruction> = None;
        {
            let instruction = &func.instructions[i];
            if instruction.arguments.len() > 2 {
                if let Value::Literal(lit0) = &instruction.arguments[1] {
                    if let Value::Literal(lit1) = &instruction.arguments[2] {
                        let op = instruction.opcode;
                        let folded: Option<i128> = if op == OpCode::Add || op == OpCode::Sub || op
                            == OpCode::Mul || op == OpCode::Div {
                            assert(is_constant_arith(insts[i as int]));
                            Some(fold_i128(op, lit0.value, lit1.value))
                        } else {
                            None
                        };
                        if let Some(value) = folded {
                            assert(value == fold_value(iv.opcode, lit0.value, lit1.value));
                            let mut new_arg = *lit0;
                            new_arg.value = value;
                            let dest = instruction.arguments[0].clone();
                            let args = vec![dest, Value::Literal(new_arg)];
                            assert(values_view(args@) =~= constant_fold_v(iv).arguments);
                            replacement = Some(Instruction::new(OpCode::Mov, args));
                        }
                    }
                }
            }
        }
        if let Some(inst) = replacement {
            let ghost before = func@.instructions;
            func.instructions.set(i, inst);
            assert(func@.instructions =~= before.update(i as int, constant_fold_v(iv)));
        }
        i = i + 1;
    }
    assert(func@.instructions =~= insts.map_values(|i: InstructionV| constant_fold_v(i)));
    func
}

/// An instruction that cannot be reached from the first one becomes a `nop`,
/// except a return.
pub open spec fn dead_code_v(f: FunctionV, j: int) -> InstructionV {
    if reachable(f, 0, j as usize) || f.instructions[j].opcode == OpCode::Ret {
        f.instructions[j]
    } else {
        nop_v()
    }
}

/// `f` with each instruction that cannot be reached from the first one
/// turned into a `nop`, except the returns.
pub open spec fn dead_code_removed(f: FunctionV) -> FunctionV {
    FunctionV { instructions: Seq::new(f.instructions.len(), |j: int| dead_code_v(f, j)), ..f }
}

/// Two functions that differ at most in their instructions, have as many, and
/// agree on the instruction at `u` (if there is one) give `u` the same successors.
proof fn lemma_same_successors(f: FunctionV, g: FunctionV, u: usize)
    requires
        g == (FunctionV { instructions: g.instructions, ..f }),
        g.instructions.len() == f.instructions.len(),
        u < f.instructions.len() ==> g.instructions[u as int] == f.instructions[u as int],
    ensures
        next_branches(g, u) == next_branches(f, u),
{
}

/// Removing dead code changes nothing about what can be reached from the
/// first instruction.
proof fn lemma_dead_code_keeps_reachable(f: FunctionV, x: usize)
    ensures
        reachable(dead_code_removed(f), 0, x) == reachable(f, 0, x),
{
    let g = dead_code_removed(f);
    let ef = Set::new(|y: usize| reachable(f, 0, y));
    let eg = Set::new(|y: usize| reachable(g, 0, y));
    assert(is_path(f, seq![0usize]));
    assert(is_path(g, seq![0usize]));
    assert(ef.contains(0));
    assert(eg.contains(0));
    assert forall|u: usize, v: usize| ef.contains(u) && next_branches(g, u).contains(v) implies ef.contains(
        v,
    ) by {
        lemma_same_successors(f, g, u);
        lemma_reach_step(f, 0, u, v);
    }
    if reachable(g, 0, x) {
        lemma_closed_holds_reachable(g, 0, ef, x);
    }
    assert forall|u: usize, v: usize| eg.contains(u) && next_branches(f, u).contains(v) implies eg.contains(
        v,
    ) by {
        lemma_closed_holds_reachable(g, 0, ef, u);
        lemma_same_successors(f, g, u);
        lemma_reach_step(g, 0, u, v);
    }
    if reachable(f, 0, x) {
        lemma_closed_holds_reachable(f, 0, eg, x);
    }
}

/// Removing dead code twice does no more than once: what stays reachable is
/// unchanged, and what is not is already a `nop` or a return.
pub proof fn law_dead_code_idempotent(f: FunctionV)
    ensures
        dead_code_removed(dead_code_removed(f)) == dead_code_removed(f),
{
    let g = dead_code_removed(f);
    assert forall|j: int| 0 <= j < g.instructions.len() implies #[trigger] dead_code_v(g, j)
        == g.instructions[j] by {
        lemma_dead_code_keeps_reachable(f, j as usize);
    }
    assert(dead_code_removed(g).instructions =~= g.instructions);
}

/// Remove dead code
pub fn optimization_dead_code(f: Function) -> (r: Function)
    requires
        f@.instructions.len() > 0,
        jumps_resolved(f@),
    ensures
        r@ == dead_code_removed(f@),
{
    let mut func = f;
    let ghost fv = func@;
    let explored = func.get_explored_from(0);
    let mut index: usize = 0;
    while index < func.instructions.len()
        invariant
            index <= func@.instructions.len(),
            fv.instructions.len() == func@.instructions.len(),
            forall|x: usize| explored@.contains(x) <==> reachable(fv, 0, x),
            forall|j: int| 0 <= j < index ==> #[trigger] func@.instructions[j] == dead_code_v(fv, j),
            forall|j: int| index <= j < fv.instructions.len() ==> #[trigger] func@.instructions[j]
                == fv.instructions[j],
            func@ == (FunctionV { instructions: func@.instructions, ..fv }),
        decreases fv.instructions.len() - index,
    {
        assert(func@.instructions[index as int] == fv.instructions[index as int]);
        if !vec_contains(&explored, index) {
            if func.instructions[index].opcode != OpCode::Ret {
                func.change_to_nop(index);
            }
        }
        index = index + 1;
    }
    assert(func@.instructions =~= Seq::new(fv.instructions.len(), |j: int| dead_code_v(fv, j)));
    func
}

} // verus!
