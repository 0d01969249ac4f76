//! Passes over the jumps and labels of an IR function.
use vstd::prelude::*;
use crate::irgen::function::{
    Function, FunctionV, jump_targets, jumps_resolved, jumps_resolved_at,
};
use crate::irgen::instruction::{Instruction, InstructionV, OpCode, Value, ValueV, clone_values, values_view};
use crate::irgen::function::strings_contain;
use super::optimizations::nop_v;
use crate::table::Table;

verus! {

/// Every jump names where it goes in its first argument.
pub open spec fn jumps_have_argument(insts: Seq<InstructionV>) -> bool {
    forall|i: int|
        0 <= i < insts.len() && (#[trigger] insts[i]).opcode == OpCode::Jmp ==> insts[i].arguments.len()
            >= 1
}

/// Every other instruction with two jump targets has them as its third and
/// fourth arguments (as a conditional branch does).
pub open spec fn branches_have_four_arguments(f: FunctionV) -> bool {
    forall|i: usize|
        i < f.instructions.len() && f.instructions[i as int].opcode != OpCode::Jmp && (
        #[trigger] jump_targets(f, i)).len() == 2 ==> f.instructions[i as int].arguments.len() >= 4
}

/// The instruction at `v` is a jump.
pub open spec fn is_jump_at(f: FunctionV, v: int) -> bool {
    0 <= v < f.instructions.len() && f.instructions[v].opcode == OpCode::Jmp
}

/// Where a jump to `v` ends up after one step: the destination of the jump
/// standing at `v`, or `current` if none stands there.
pub open spec fn chained_target(f: FunctionV, v: int, current: ValueV) -> ValueV {
    if is_jump_at(f, v) {
        f.instructions[v].arguments[0]
    } else {
        current
    }
}

/// `f` with the instruction at `index` replaced by `inst`.
pub open spec fn with_instruction(f: FunctionV, index: int, inst: InstructionV) -> FunctionV {
    FunctionV { instructions: f.instructions.update(index, inst), ..f }
}

/// One step of jump chaining, at `index`. A jump to the next instruction
/// becomes a `nop`; a jump to a jump takes over that jump's destination. An
/// instruction with two targets takes over the destination of each target
/// that is a jump, and becomes a jump when both targets are the same.
pub open spec fn chain_step(f: FunctionV, index: int) -> FunctionV {
    let inst = f.instructions[index];
    let vs = jump_targets(f, index as usize);
    if inst.opcode == OpCode::Jmp {
        if vs.len() == 0 {
            f
        } else if vs[0] == index + 1 {
            with_instruction(f, index, nop_v())
        } else if is_jump_at(f, vs[0] as int) {
            with_instruction(
                f,
                index,
                InstructionV {
                    arguments: inst.arguments.update(0, f.instructions[vs[0] as int].arguments[0]),
                    ..inst
                },
            )
        } else {
            f
        }
    } else if vs.len() == 2 {
        let a2 = chained_target(f, vs[0] as int, inst.arguments[2]);
        let a3 = chained_target(f, vs[1] as int, inst.arguments[3]);
        if vs[0] == vs[1] {
            with_instruction(f, index, InstructionV { opcode: OpCode::Jmp, arguments: seq![a2] })
        } else {
            with_instruction(
                f,
                index,
                InstructionV { arguments: inst.arguments.update(2, a2).update(3, a3), ..inst },
            )
        }
    } else {
        f
    }
}

/// `f` after chaining the jumps of its first `n` instructions, in order.
pub open spec fn chained(f: FunctionV, n: nat) -> FunctionV
    decreases n,
{
    if n == 0 {
        f
    } else {
        chain_step(chained(f, (n - 1) as nat), n - 1)
    }
}

/// What jump chaining needs of a function: resolvable labels, jumps with a
/// destination and two-way branches with four arguments.
pub open spec fn chainable(f: FunctionV) -> bool {
    &&& jumps_resolved(f)
    &&& jumps_have_argument(f.instructions)
    &&& branches_have_four_arguments(f)
}

/// Replace the instruction at `index`.
pub(crate) fn put_instruction(f: &mut Function, index: usize, inst: Instruction)
    requires
        index < old(f)@.instructions.len(),
    ensures
        final(f)@ == with_instruction(old(f)@, index as int, inst@),
{
    let ghost before = f@.instructions;
    let ghost iv = inst@;
    f.instructions.set(index, inst);
    assert(f@.instructions =~= before.update(index as int, iv));
}

/// Each step of jump chaining keeps what chaining needs, the labels and the length.
pub proof fn lemma_chain_step_keeps(f: FunctionV, index: int)
    requires
        chainable(f),
        0 <= index < f.instructions.len(),
    ensures
        chainable(chain_step(f, index)),
        chain_step(f, index).instructions.len() == f.instructions.len(),
        chain_step(f, index) == (FunctionV { instructions: chain_step(f, index).instructions, ..f }),
{
    let g = chain_step(f, index);
    let inst = f.instructions[index];
    let vs = jump_targets(f, index as usize);
    assert(jumps_resolved_at(f, index as usize));
    if vs.len() > 0 && is_jump_at(f, vs[0] as int) {
        assert(jumps_resolved_at(f, vs[0]));
        assert(f.instructions[vs[0] as int].arguments.len() >= 1);
    }
    if vs.len() > 1 && is_jump_at(f, vs[1] as int) {
        assert(jumps_resolved_at(f, vs[1]));
        assert(f.instructions[vs[1] as int].arguments.len() >= 1);
    }
    assert forall|i: usize| i < g.instructions.len() implies #[trigger] jumps_resolved_at(g, i) by {
        assert(jumps_resolved_at(f, i));
        if i as int != index {
            assert(g.instructions[i as int] == f.instructions[i as int]);
        }
    }
    assert forall|i: usize|
        i < g.instructions.len() && g.instructions[i as int].opcode != OpCode::Jmp && (
        #[trigger] jump_targets(g, i)).len() == 2 implies g.instructions[i as int].arguments.len()
        >= 4 by {
        if i as int != index {
            assert(g.instructions[i as int] == f.instructions[i as int]);
            assert(jump_targets(g, i) == jump_targets(f, i));
        } else {
            assert(jump_targets(f, i).len() == 2);
        }
    }
}

/// Connect the ends of a chain of jumps
pub fn optimization_jump_chaining(f: Function) -> (r: Function)
    requires
        chainable(f@),
    ensures
        r@ == chained(f@, f@.instructions.len() as nat),
        chainable(r@),
{
    let mut func = f;
    let ghost fv = func@;
    let n = func.instructions.len();
    let mut index: usize = 0;
    while index < n
        invariant
            index <= n,
            n == fv.instructions.len(),
            func@ == chained(fv, index as nat),
            func@.instructions.len() == n,
            chainable(func@),
        decreases n - index,
    {
        let ghost before = func@;
        proof {
            lemma_chain_step_keeps(before, index as int);
            assert(jumps_resolved_at(before, index));
        }
        if func.instructions[index].opcode == OpCode::Jmp {
            if let Some(vs) = func.get_jump_values(index) {
                let v = vs[0];
                if v == index + 1 {
                    func.change_to_nop(index);
                    assert(func@ == with_instruction(before, index as int, nop_v()));
                } else if v < func.instructions.len() && func.instructions[v].opcode == OpCode::Jmp {
                    let target = func.instructions[v].arguments[0].clone();
                    let mut args = clone_values(&func.instructions[index].arguments);
                    args.set(0, target);
                    let inst = Instruction::new(OpCode::Jmp, args);
                    proof {
                        assert(values_view(args@) =~= before.instructions[index as int].arguments.update(
                            0,
                            before.instructions[v as int].arguments[0],
                        ));
                    }
                    put_instruction(&mut func, index, inst);
                }
            }
        } else if let Some(vs) = func.get_jump_values(index) {
            if vs.len() == 2 {
                let ghost inst_v = before.instructions[index as int];
                let mut args = clone_values(&func.instructions[index].arguments);
                let op = func.instructions[index].opcode;
                if vs[0] < func.instructions.len() && func.instructions[vs[0]].opcode == OpCode::Jmp {
                    let t = func.instructions[vs[0]].arguments[0].clone();
                    args.set(2, t);
                }
                if vs[1] < func.instructions.len() && func.instructions[vs[1]].opcode == OpCode::Jmp {
                    let t = func.instructions[vs[1]].arguments[0].clone();
                    args.set(3, t);
                }
                let ghost a2 = chained_target(before, vs@[0] as int, inst_v.arguments[2]);
                let ghost a3 = chained_target(before, vs@[1] as int, inst_v.arguments[3]);
                assert(values_view(args@) =~= inst_v.arguments.update(2, a2).update(3, a3));
                if vs[0] == vs[1] {
                    let a = args[2].clone();
                    let only = vec![a];
                    assert(values_view(only@) =~= seq![a2]);
                    put_instruction(&mut func, index, Instruction::new(OpCode::Jmp, only));
                } else {
                    put_instruction(&mut func, index, Instruction::new(op, args));
                }
            }
        }
        assert(func@ == chain_step(before, index as int));
        index = index + 1;
    }
    func
}

/// Every position that a label argument of an instruction names through the
/// reverse table, and that has labels, has at least one.
pub open spec fn named_places_labelled(f: FunctionV) -> bool {
    forall|j: int, k: int|
        0 <= j < f.instructions.len() && 0 <= k < f.instructions[j].arguments.len() && (
        #[trigger] f.instructions[j].arguments[k]) is Label && f.labels_reverse.contains_key(
            f.instructions[j].arguments[k]->Label_0,
        ) && f.labels.contains_key(f.labels_reverse[f.instructions[j].arguments[k]->Label_0])
            ==> f.labels[f.labels_reverse[f.instructions[j].arguments[k]->Label_0]].len() > 0
}

/// The first label placed where label `l` points, if `l` is placed and labels stand there.
pub open spec fn first_label_at(f: FunctionV, l: Seq<char>) -> Option<Seq<char>> {
    if f.labels_reverse.contains_key(l) && f.labels.contains_key(f.labels_reverse[l]) {
        Some(f.labels[f.labels_reverse[l]][0])
    } else {
        None
    }
}

/// The arguments with each label replaced by the first label placed where it
/// points; a label that cannot be followed is dropped.
pub open spec fn relabelled(f: FunctionV, args: Seq<ValueV>) -> Seq<ValueV>
    decreases args.len(),
{
    if args.len() == 0 {
        Seq::empty()
    } else {
        let rest = relabelled(f, args.drop_last());
        match args.last() {
            ValueV::Label(l) => match first_label_at(f, l) {
                Some(m) => rest.push(ValueV::Label(m)),
                None => rest,
            },
            a => rest.push(a),
        }
    }
}

/// Some label among the arguments can be followed.
pub open spec fn some_label_followed(f: FunctionV, args: Seq<ValueV>) -> bool
    decreases args.len(),
{
    if args.len() == 0 {
        false
    } else {
        some_label_followed(f, args.drop_last()) || (args.last() is Label && first_label_at(
            f,
            args.last()->Label_0,
        ) is Some)
    }
}

/// An instruction whose labels can be followed refers to each place by the
/// first label placed there.
pub open spec fn redundant_labels_v(f: FunctionV, inst: InstructionV) -> InstructionV {
    if some_label_followed(f, inst.arguments) {
        InstructionV { arguments: relabelled(f, inst.arguments), ..inst }
    } else {
        inst
    }
}

/// Remove redundant labels
pub fn optimization_redundant_labels(f: Function) -> (r: Function)
    requires
        named_places_labelled(f@),
    ensures
        r@ == (FunctionV {
            instructions: f@.instructions.map_values(|i: InstructionV| redundant_labels_v(f@, i)),
            ..f@
        }),
{
    let mut func = f;
    let ghost fv = func@;
    let ghost insts = fv.instructions;
    let mut i: usize = 0;
    while i < func.instructions.len()
        invariant
            i <= func@.instructions.len(),
            insts.len() == func@.instructions.len(),
            named_places_labelled(fv),
            insts == fv.instructions,
            forall|j: int| 0 <= j < i ==> #[trigger] func@.instructions[j] == redundant_labels_v(fv, insts[j]),
            forall|j: int| i <= j < insts.len() ==> #[trigger] func@.instructions[j] == insts[j],
            func@ == (FunctionV { instructions: func@.instructions, ..fv }),
        decreases insts.len() - i,
    {
        assert(func@.instructions[i as int] == insts[i as int]);
        let ghost args = insts[i as int].arguments;
        let mut new_args: Vec<Value> = Vec::new();
        let mut flag = false;
        let mut k: usize = 0;
        let n = func.instructions[i].arguments.len();
        while k < n
            invariant
                k <= n,
                n == args.len(),
                func@ == (FunctionV { instructions: func@.instructions, ..fv }),
                i < func@.instructions.len(),
                func@.instructions[i as int].arguments == args,
                named_places_labelled(fv),
                i < insts.len(),
                insts == fv.instructions,
                args == insts[i as int].arguments,
                values_view(new_args@) == relabelled(fv, args.take(k as int)),
                flag == some_label_followed(fv, args.take(k as int)),
            decreases n - k,
        {
            proof {
                assert(args.take(k + 1).drop_last() =~= args.take(k as int));
                assert(args.take(k + 1).last() == args[k as int]);
            }
            let ghost before = values_view(new_args@);
            match &func.instructions[i].arguments[k] {
                Value::Label(label) => {
                    if let Some(target) = func.labels_reverse.get(label) {
                        if let Some(labels) = func.labels.get(target) {
                            assert(fv.labels.contains_key(*target));
                            assert(fv.instructions[i as int].arguments[k as int] == ValueV::Label(label@));
                            assert(*target == fv.labels_reverse[label@]);
                            assert(labels.deep_view().len() > 0);
                            let first = labels[0].clone();
                            new_args.push(Value::Label(first));
                            flag = true;
                            assert(values_view(new_args@) =~= before.push(
                                ValueV::Label(fv.labels[fv.labels_reverse[label@]][0]),
                            ));
                        }
                    }
                },
                other => {
                    new_args.push(other.clone());
                    assert(values_view(new_args@) =~= before.push(args[k as int]));
                },
            }
            k = k + 1;
        }
        assert(args.take(n as int) =~= args);
        if flag {
            let op = func.instructions[i].opcode;
            put_instruction(&mut func, i, Instruction::new(op, new_args));
        }
        i = i + 1;
    }
    assert(func@.instructions =~= insts.map_values(|i: InstructionV| redundant_labels_v(fv, i)));
    func
}

/// The labels among the arguments, in order.
pub open spec fn argument_labels(args: Seq<ValueV>) -> Seq<Seq<char>>
    decreases args.len(),
{
    if args.len() == 0 {
        Seq::empty()
    } else {
        let rest = argument_labels(args.drop_last());
        match args.last() {
            ValueV::Label(l) => rest.push(l),
            _ => rest,
        }
    }
}

/// The labels named by the instructions' arguments, in order.
pub open spec fn named_labels(insts: Seq<InstructionV>) -> Seq<Seq<char>>
    decreases insts.len(),
{
    if insts.len() == 0 {
        Seq::empty()
    } else {
        named_labels(insts.drop_last()) + argument_labels(insts.last().arguments)
    }
}

/// Label `l` is an argument of some instruction.
pub open spec fn label_used(insts: Seq<InstructionV>, l: Seq<char>) -> bool {
    named_labels(insts).contains(l)
}

/// The label `l` at position `p` goes: nothing names it, and the reverse
/// table places it at `p`.
pub open spec fn label_dropped(f: FunctionV, p: usize, l: Seq<char>) -> bool {
    !label_used(f.instructions, l) && f.labels_reverse.contains_key(l) && f.labels_reverse[l] == p
}

/// The labels of `ls` that stay at position `p`, in order.
pub open spec fn labels_kept(f: FunctionV, p: usize, ls: Seq<Seq<char>>) -> Seq<Seq<char>>
    decreases ls.len(),
{
    if ls.len() == 0 {
        Seq::empty()
    } else {
        let rest = labels_kept(f, p, ls.drop_last());
        if label_dropped(f, p, ls.last()) {
            rest
        } else {
            rest.push(ls.last())
        }
    }
}

/// Position `p` keeps an entry in the label table: it had one, and it did not
/// lose every label it had.
pub open spec fn position_kept(f: FunctionV, p: usize) -> bool {
    f.labels.contains_key(p) && !(labels_kept(f, p, f.labels[p]).len() == 0 && f.labels[p].len() > 0)
}

/// `f` without the labels that no instruction names: they leave the reverse
/// table and the positions it places them at; a position that loses all its
/// labels leaves the label table.
pub open spec fn unused_labels_removed(f: FunctionV) -> FunctionV {
    FunctionV {
        labels: Map::new(|p: usize| position_kept(f, p), |p: usize| labels_kept(f, p, f.labels[p])),
        labels_reverse: f.labels_reverse.restrict(Set::new(|l: Seq<char>| label_used(f.instructions, l))),
        ..f
    }
}

/// Remove unused labels
pub fn optimization_remove_unused_labels(f: Function) -> (r: Function)
    ensures
        r@ == unused_labels_removed(f@),
{
    let mut func = f;
    let ghost fv = func@;
    let ghost insts = fv.instructions;
    let mut used: Vec<String> = Vec::new();
    let mut i: usize = 0;
    while i < func.instructions.len()
        invariant
            i <= func@.instructions.len(),
            func@ == fv,
            insts == fv.instructions,
            used.deep_view() == named_labels(insts.take(i as int)),
        decreases func@.instructions.len() - i,
    {
        let ghost args = insts[i as int].arguments;
        let ghost start = used.deep_view();
        let mut k: usize = 0;
        let n = func.instructions[i].arguments.len();
        while k < n
            invariant
                k <= n,
                i < insts.len(),
                args == insts[i as int].arguments,
                n == args.len(),
                func@ == fv,
                insts == fv.instructions,
                used.deep_view() == start + argument_labels(args.take(k as int)),
            decreases n - k,
        {
            proof {
                assert(args.take(k + 1).drop_last() =~= args.take(k as int));
                assert(args[k as int] == func.instructions[i as int].arguments@[k as int]@);
            }
            let ghost before = used.deep_view();
            if let Value::Label(label) = &func.instructions[i].arguments[k] {
                used.push(label.clone());
                assert(used.deep_view() =~= before.push(label@));
            }
            assert(used.deep_view() =~= start + argument_labels(args.take(k + 1)));
            k = k + 1;
        }
        proof {
            assert(args.take(n as int) =~= args);
            assert(insts.take(i + 1).drop_last() =~= insts.take(i as int));
        }
        i = i + 1;
    }
    assert(insts.take(insts.len() as int) =~= insts);
    let positions = func.labels.keys();
    let ghost pk = f.labels.key_seq();
    let mut labels: Table<usize, Vec<String>> = Table::new();
    let mut j: usize = 0;
    while j < positions.len()
        invariant
            j <= positions@.len(),
            func@ == fv,
            insts == fv.instructions,
            positions@.map_values(|k: usize| k.deep_view()) == pk,
            pk.no_duplicates(),
            pk.to_set() == fv.labels.dom(),
            forall|l: Seq<char>| used.deep_view().contains(l) <==> label_used(insts, l),
            labels.map() == Map::new(
                |p: usize| pk.take(j as int).contains(p) && position_kept(fv, p),
                |p: usize| labels_kept(fv, p, fv.labels[p]),
            ),
        decreases positions@.len() - j,
    {
        let p = positions[j];
        proof {
            assert(pk[j as int] == p);
            assert(pk.to_set().contains(p));
        }
        let ghost before = labels.map();
        if let Some(ls) = func.labels.get(&p) {
            let ghost lsv = ls.deep_view();
            let mut kept: Vec<String> = Vec::new();
            let mut q: usize = 0;
            while q < ls.len()
                invariant
                    q <= ls@.len(),
                    lsv == ls.deep_view(),
                    func@ == fv,
                    insts == fv.instructions,
                    forall|l: Seq<char>| used.deep_view().contains(l) <==> label_used(insts, l),
                    kept.deep_view() == labels_kept(fv, p, lsv.take(q as int)),
                decreases ls@.len() - q,
            {
                proof {
                    assert(lsv.take(q + 1).drop_last() =~= lsv.take(q as int));
                    assert(lsv[q as int] == ls@[q as int]@);
                }
                let placed_here = match func.labels_reverse.get(&ls[q]) {
                    Some(x) => *x == p,
                    None => false,
                };
                if strings_contain(&used, &ls[q]) || !placed_here {
                    let ghost kb = kept.deep_view();
                    kept.push(ls[q].clone());
                    assert(kept.deep_view() =~= kb.push(lsv[q as int]));
                }
                q = q + 1;
            }
            assert(lsv.take(ls@.len() as int) =~= lsv);
            if !(kept.len() == 0 && ls.len() > 0) {
                labels.insert(p, kept);
            }
        }
        proof {
            assert(pk.take(j + 1) =~= pk.take(j as int).push(p));
            assert forall|x: usize| #[trigger] pk.take(j + 1).contains(x) <==> pk.take(j as int).contains(x)
                || x == p by {
                let t1 = pk.take(j + 1);
                if t1.contains(x) && x != p {
                    let m = choose|m: int| 0 <= m < t1.len() && t1[m] == x;
                    assert(pk.take(j as int)[m] == x);
                }
                if x == p {
                    assert(pk.take(j + 1)[j as int] == p);
                }
            }
            assert(!pk.take(j as int).contains(p)) by {
                let t0 = pk.take(j as int);
                if t0.contains(p) {
                    let m = choose|m: int| 0 <= m < t0.len() && t0[m] == p;
                    assert(pk[m] == pk[j as int]);
                }
            }
            assert(labels.map() =~= Map::new(
                |x: usize| pk.take(j + 1).contains(x) && position_kept(fv, x),
                |x: usize| labels_kept(fv, x, fv.labels[x]),
            ));
        }
        j = j + 1;
    }
    proof {
        assert(pk.take(positions@.len() as int) =~= pk);
        assert forall|x: usize| #[trigger] pk.contains(x) <==> fv.labels.contains_key(x) by {
            assert(pk.to_set().contains(x) == pk.contains(x));
        }
        assert(labels.map() =~= unused_labels_removed(fv).labels);
    }
    let names = func.labels_reverse.keys();
    let ghost rk = f.labels_reverse.key_seq();
    let mut reverse: Table<String, usize> = Table::new();
    let mut m: usize = 0;
    while m < names.len()
        invariant
            m <= names@.len(),
            func@ == fv,
            insts == fv.instructions,
            names@.map_values(|k: String| k.deep_view()) == rk,
            rk.to_set() == fv.labels_reverse.dom(),
            forall|l: Seq<char>| used.deep_view().contains(l) <==> label_used(insts, l),
            reverse.map() == fv.labels_reverse.restrict(
                Set::new(|l: Seq<char>| rk.take(m as int).contains(l) && label_used(insts, l)),
            ),
        decreases names@.len() - m,
    {
        let ghost l = names@[m as int]@;
        proof {
            assert(rk[m as int] == l);
            assert(rk.to_set().contains(l));
            assert(rk.take(m + 1) =~= rk.take(m as int).push(l));
            assert forall|x: Seq<char>| #[trigger] rk.take(m + 1).contains(x) <==> rk.take(m as int).contains(x)
                || x == l by {
                let t1 = rk.take(m + 1);
                if t1.contains(x) && x != l {
                    let q = choose|q: int| 0 <= q < t1.len() && t1[q] == x;
                    assert(rk.take(m as int)[q] == x);
                }
                if x == l {
                    assert(rk.take(m + 1)[m as int] == l);
                }
            }
        }
        if strings_contain(&used, &names[m]) {
            if let Some(x) = func.labels_reverse.get(&names[m]) {
                reverse.insert(names[m].clone(), *x);
            }
        }
        assert(reverse.map() =~= fv.labels_reverse.restrict(
            Set::new(|x: Seq<char>| rk.take(m + 1).contains(x) && label_used(insts, x)),
        ));
        m = m + 1;
    }
    proof {
        assert(rk.take(names@.len() as int) =~= rk);
        assert forall|x: Seq<char>| #[trigger] rk.contains(x) <==> fv.labels_reverse.contains_key(x) by {
            assert(rk.to_set().contains(x) == rk.contains(x));
        }
        assert(reverse.map() =~= unused_labels_removed(fv).labels_reverse);
    }
    func.labels = labels;
    func.labels_reverse = reverse;
    func
}

} // verus!
