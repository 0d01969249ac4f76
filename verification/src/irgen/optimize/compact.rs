//! Removing the `nop`s of a function: the other instructions close up, and
//! each label moves with the instructions to the next one that stays.
use vstd::prelude::*;
use crate::irgen::function::{Function, FunctionV, clone_strings, instructions_view};
use crate::irgen::instruction::{Instruction, InstructionV, OpCode};
use crate::table::Table;

verus! {

/// The number of `nop`s among the first `i` instructions (all of them, for
/// `i` past the end).
pub open spec fn nops_before(insts: Seq<InstructionV>, i: int) -> int
    decreases i,
{
    if i <= 0 {
        0
    } else if i > insts.len() {
        nops_before(insts, insts.len() as int)
    } else {
        nops_before(insts, i - 1) + if insts[i - 1].opcode == OpCode::Nop {
            1int
        } else {
            0int
        }
    }
}

/// Where position `i` lies once the `nop`s are gone: a label at a `nop`
/// moves to the next instruction that stays.
pub open spec fn shifted(insts: Seq<InstructionV>, i: usize) -> usize {
    (i - nops_before(insts, i as int)) as usize
}

/// The instructions that are not `nop`s, in order.
pub open spec fn non_nops(insts: Seq<InstructionV>) -> Seq<InstructionV>
    decreases insts.len(),
{
    if insts.len() == 0 {
        Seq::empty()
    } else if insts.last().opcode == OpCode::Nop {
        non_nops(insts.drop_last())
    } else {
        non_nops(insts.drop_last()).push(insts.last())
    }
}

/// The reverse table after pointing each label of `ls` at `k`.
pub open spec fn pointed(r: Map<Seq<char>, usize>, ls: Seq<Seq<char>>, k: usize) -> Map<Seq<char>, usize>
    decreases ls.len(),
{
    if ls.len() == 0 {
        r
    } else {
        pointed(r, ls.drop_last(), k).insert(ls.last(), k)
    }
}

/// The label tables after moving the labels of the positions `ks`, in order:
/// the labels of a position are added after those already at its new place,
/// and the reverse table points each at the new place.
pub open spec fn moved_labels(f: FunctionV, ks: Seq<usize>) -> (
    Map<usize, Seq<Seq<char>>>,
    Map<Seq<char>, usize>,
)
    decreases ks.len(),
{
    if ks.len() == 0 {
        (Map::empty(), Map::empty())
    } else {
        let (m, r) = moved_labels(f, ks.drop_last());
        let i = ks.last();
        if f.labels.contains_key(i) {
            let k = shifted(f.instructions, i);
            let ls = f.labels[i];
            (
                m.insert(k, (if m.contains_key(k) { m[k] } else { Seq::empty() }) + ls),
                pointed(r, ls, k),
            )
        } else {
            (m, r)
        }
    }
}

/// `f` without its `nop`s, its labels moved position by position in the order
/// `ks` (the order of the label table).
pub open spec fn nops_removed(f: FunctionV, ks: Seq<usize>) -> FunctionV {
    FunctionV {
        instructions: non_nops(f.instructions),
        labels: moved_labels(f, ks).0,
        labels_reverse: moved_labels(f, ks).1,
        ..f
    }
}

proof fn lemma_nops_before_bounds(insts: Seq<InstructionV>, i: int)
    ensures
        0 <= nops_before(insts, i),
        i >= 0 ==> nops_before(insts, i) <= i,
        i >= 0 && i <= insts.len() ==> nops_before(insts, i) <= i,
        nops_before(insts, i) <= insts.len(),
    decreases i,
{
    if i > insts.len() {
        lemma_nops_before_bounds(insts, insts.len() as int);
    } else if i > 0 {
        lemma_nops_before_bounds(insts, i - 1);
    }
}

pub(crate) proof fn lemma_non_nops_len(insts: Seq<InstructionV>)
    ensures
        non_nops(insts).len() == insts.len() - nops_before(insts, insts.len() as int),
    decreases insts.len(),
{
    if insts.len() > 0 {
        lemma_non_nops_len(insts.drop_last());
        lemma_nops_before_drop_last(insts, insts.len() - 1);
    }
}

/// Removing `nop`s never lengthens the code.
pub proof fn law_remove_nop_never_lengthens(f: FunctionV, ks: Seq<usize>)
    ensures
        nops_removed(f, ks).instructions.len() <= f.instructions.len(),
{
    lemma_non_nops_len(f.instructions);
    lemma_nops_before_bounds(f.instructions, f.instructions.len() as int);
}

/// The `nop` count of a sequence and of the sequence without its last
/// element agree up to its last position.
proof fn lemma_nops_before_drop_last(insts: Seq<InstructionV>, j: int)
    requires
        0 <= j < insts.len(),
    ensures
        nops_before(insts.drop_last(), j) == nops_before(insts, j),
    decreases j,
{
    if j > 0 {
        lemma_nops_before_drop_last(insts, j - 1);
    }
}

/// `q` is strictly increasing.
pub open spec fn increasing(q: Seq<usize>) -> bool {
    forall|i: int, j: int| 0 <= i < j < q.len() ==> #[trigger] q[i] < #[trigger] q[j]
}

/// The positions that carry labels, in increasing order.
pub open spec fn label_positions(f: FunctionV) -> Seq<usize> {
    choose|q: Seq<usize>| increasing(q) && q.to_set() == f.labels.dom()
}

/// Two increasing sequences with the same elements are equal.
proof fn lemma_increasing_unique(a: Seq<usize>, b: Seq<usize>)
    requires
        increasing(a),
        increasing(b),
        a.to_set() == b.to_set(),
    ensures
        a == b,
    decreases a.len(),
{
    if a.len() == 0 {
        if b.len() > 0 {
            assert(b.to_set().contains(b[0]));
        }
        assert(b.len() == 0);
    } else {
        assert(a.to_set().contains(a[0]));
        assert(b.len() > 0);
        assert(b.to_set().contains(b[0]));
        assert(a.to_set().contains(b[0]));
        assert(b.to_set().contains(a[0]));
        let ia = choose|i: int| 0 <= i < a.len() && a[i] == b[0];
        let ib = choose|i: int| 0 <= i < b.len() && b[i] == a[0];
        if ia > 0 {
            assert(a[0] < a[ia]);
        }
        if ib > 0 {
            assert(b[0] < b[ib]);
        }
        assert(a[0] == b[0]);
        let a1 = a.drop_first();
        let b1 = b.drop_first();
        assert forall|x: usize| a1.to_set().contains(x) implies b1.to_set().contains(x) by {
            let i = choose|i: int| 0 <= i < a1.len() && a1[i] == x;
            assert(a[i + 1] == x);
            assert(a[0] < a[i + 1]);
            assert(a.to_set().contains(x));
            assert(b.to_set().contains(x));
            let j = choose|j: int| 0 <= j < b.len() && b[j] == x;
            assert(j != 0);
            assert(b1[j - 1] == x);
        }
        assert forall|x: usize| b1.to_set().contains(x) implies a1.to_set().contains(x) by {
            let i = choose|i: int| 0 <= i < b1.len() && b1[i] == x;
            assert(b[i + 1] == x);
            assert(b[0] < b[i + 1]);
            assert(b.to_set().contains(x));
            assert(a.to_set().contains(x));
            let j = choose|j: int| 0 <= j < a.len() && a[j] == x;
            assert(j != 0);
            assert(a1[j - 1] == x);
        }
        assert(a1.to_set() =~= b1.to_set());
        lemma_increasing_unique(a1, b1);
        assert(a.len() == b.len());
        assert forall|k: int| 0 <= k < a.len() implies a[k] == b[k] by {
            if k > 0 {
                assert(a[k] == a1[k - 1]);
                assert(b[k] == b1[k - 1]);
            }
        }
        assert(a =~= b);
    }
}

/// The distinct positions of `keys`, in increasing order.
fn sorted_positions(keys: &Vec<usize>) -> (r: Vec<usize>)
    requires
        keys@.no_duplicates(),
    ensures
        increasing(r@),
        r@.to_set() == keys@.to_set(),
{
    let mut r: Vec<usize> = Vec::new();
    let mut i: usize = 0;
    while i < keys.len()
        invariant
            i <= keys@.len(),
            keys@.no_duplicates(),
            increasing(r@),
            r@.to_set() == keys@.take(i as int).to_set(),
        decreases keys@.len() - i,
    {
        let x = keys[i];
        let mut p: usize = 0;
        while p < r.len() && r[p] < x
            invariant
                p <= r@.len(),
                forall|m: int| 0 <= m < p ==> #[trigger] r@[m] < x,
            decreases r@.len() - p,
        {
            p = p + 1;
        }
        proof {
            assert(!keys@.take(i as int).to_set().contains(x)) by {
                if keys@.take(i as int).to_set().contains(x) {
                    let ki = keys@.take(i as int);
                    let m = choose|m: int| 0 <= m < ki.len() && ki[m] == x;
                    assert(keys@[m] == keys@[i as int]);
                }
            }
            if p < r@.len() {
                assert(r@.to_set().contains(r@[p as int]));
                assert(r@[p as int] != x);
                assert(r@[p as int] > x);
            }
        }
        let ghost before = r@;
        r.insert(p, x);
        proof {
            assert(r@ =~= before.insert(p as int, x));
            assert forall|a: int, b: int| 0 <= a < b < r@.len() implies #[trigger] r@[a] < #[trigger] r@[b] by {
                if b < p {
                } else if a < p && b == p {
                } else if a < p {
                    assert(r@[b] == before[b - 1]);
                    if p < before.len() {
                        assert(before[p as int] > x);
                        if b - 1 > p {
                            assert(before[p as int] < before[b - 1]);
                        }
                    }
                } else if a == p {
                    assert(r@[b] == before[b - 1]);
                    assert(before[p as int] > x);
                    if b - 1 > p {
                        assert(before[p as int] < before[b - 1]);
                    }
                } else {
                    assert(r@[a] == before[a - 1]);
                    assert(r@[b] == before[b - 1]);
                }
            }
            assert(keys@.take(i + 1) =~= keys@.take(i as int).push(x));
            assert forall|y: usize| r@.to_set().contains(y) <==> keys@.take(i + 1).to_set().contains(y) by {
                if r@.to_set().contains(y) {
                    let m = choose|m: int| 0 <= m < r@.len() && r@[m] == y;
                    if m < p {
                        assert(before[m] == y);
                        assert(before.to_set().contains(y));
                    } else if m > p {
                        assert(before[m - 1] == y);
                        assert(before.to_set().contains(y));
                    }
                    if y != x {
                        let k = choose|k: int| 0 <= k < before.len() && before[k] == y;
                        assert(keys@.take(i as int).to_set().contains(y));
                        let ki = keys@.take(i as int);
                        let k2 = choose|k2: int| 0 <= k2 < ki.len() && ki[k2] == y;
                        assert(keys@.take(i + 1)[k2] == y);
                    } else {
                        assert(keys@.take(i + 1)[i as int] == x);
                    }
                }
                let kk = keys@.take(i + 1);
                if kk.to_set().contains(y) {
                    let k = choose|k: int| 0 <= k < kk.len() && kk[k] == y;
                    if k < i {
                        assert(keys@.take(i as int)[k] == y);
                        assert(before.to_set().contains(y));
                        let m = choose|m: int| 0 <= m < before.len() && before[m] == y;
                        if m < p {
                            assert(r@[m] == y);
                        } else {
                            assert(r@[m + 1] == y);
                        }
                    } else {
                        assert(r@[p as int] == y);
                    }
                }
            }
            assert(r@.to_set() =~= keys@.take(i + 1).to_set());
        }
        i = i + 1;
    }
    assert(keys@.take(keys@.len() as int) =~= keys@);
    r
}

/// Remove nop instructions; the labels of a removed instruction move to the
/// next one that stays, those of earlier positions first.
pub fn optimization_remove_nop(f: Function) -> (r: Function)
    ensures
        r@ == nops_removed(f@, label_positions(f@)),
        r@.instructions.len() <= f@.instructions.len(),
{
    let mut func = f;
    let ghost fv = func@;
    let ghost insts = fv.instructions;
    let n = func.instructions.len();
    let mut prefix: Vec<usize> = Vec::new();
    prefix.push(0);
    let mut kept: Vec<Instruction> = Vec::new();
    let mut i: usize = 0;
    while i < n
        invariant
            i <= n,
            n == insts.len(),
            insts == func@.instructions,
            prefix@.len() == i + 1,
            forall|j: int| 0 <= j <= i ==> #[trigger] prefix@[j] == nops_before(insts, j),
            instructions_view(kept@) == non_nops(insts.take(i as int)),
        decreases n - i,
    {
        proof {
            lemma_nops_before_bounds(insts, i as int);
            assert(insts.take(i + 1).drop_last() =~= insts.take(i as int));
            assert(insts.take(i + 1).last() == insts[i as int]);
        }
        let last = prefix[i];
        if func.instructions[i].opcode == OpCode::Nop {
            prefix.push(last + 1);
        } else {
            let ghost before = instructions_view(kept@);
            kept.push(func.instructions[i].clone());
            assert(instructions_view(kept@) =~= before.push(insts[i as int]));
            prefix.push(last);
        }
        i = i + 1;
    }
    assert(insts.take(n as int) =~= insts);
    proof {
        lemma_nops_before_bounds(insts, n as int);
    }
    let total = prefix[n];
    let all_keys = func.labels.keys();
    proof {
        assert(all_keys@ =~= f.labels.key_seq());
    }
    let keys = sorted_positions(&all_keys);
    let ghost ks = label_positions(fv);
    proof {
        lemma_increasing_unique(keys@, ks);
    }
    let mut labels: Table<usize, Vec<String>> = Table::new();
    let mut reverse: Table<String, usize> = Table::new();
    let mut j: usize = 0;
    while j < keys.len()
        invariant
            j <= keys@.len(),
            keys@ == ks,
            n == insts.len(),
            total == nops_before(insts, n as int),
            prefix@.len() == n + 1,
            forall|q: int| 0 <= q <= n ==> #[trigger] prefix@[q] == nops_before(insts, q),
            func@ == fv,
            insts == fv.instructions,
            (labels.map(), reverse.map()) == moved_labels(fv, ks.take(j as int)),
        decreases keys@.len() - j,
    {
        let i = keys[j];
        proof {
            assert(ks.take(j + 1).drop_last() =~= ks.take(j as int));
            assert(ks[j as int] == i);
            lemma_nops_before_bounds(insts, i as int);
        }
        let nops = if i <= n { prefix[i] } else { total };
        let k = i - nops;
        assert(k == shifted(insts, i));
        if let Some(ls) = func.labels.get(&i) {
            let mut merged = match labels.get(&k) {
                Some(existing) => clone_strings(existing),
                None => Vec::new(),
            };
            let ghost base = merged.deep_view();
            let ghost lsv = ls.deep_view();
            let ghost r0 = reverse.map();
            let mut q: usize = 0;
            while q < ls.len()
                invariant
                    q <= ls@.len(),
                    lsv == ls.deep_view(),
                    merged.deep_view() == base + lsv.take(q as int),
                    reverse.map() == pointed(r0, lsv.take(q as int), k),
                decreases ls@.len() - q,
            {
                proof {
                    assert(lsv.take(q + 1).drop_last() =~= lsv.take(q as int));
                    assert(lsv[q as int] == ls@[q as int]@);
                }
                let ghost mb = merged.deep_view();
                merged.push(ls[q].clone());
                assert(merged.deep_view() =~= mb.push(lsv[q as int]));
                assert(base + lsv.take(q + 1) =~= (base + lsv.take(q as int)).push(lsv[q as int]));
                reverse.insert(ls[q].clone(), k);
                q = q + 1;
            }
            assert(lsv.take(ls@.len() as int) =~= lsv);
            labels.insert(k, merged);
        }
        j = j + 1;
    }
    assert(ks.take(keys@.len() as int) =~= ks);
    proof {
        lemma_non_nops_len(insts);
    }
    func.instructions = kept;
    func.labels = labels;
    func.labels_reverse = reverse;
    func
}

} // verus!
