//! Giving every value of a function a type: values of unknown type take the
//! type of the other values of their instruction, or of the symbol they name.
use vstd::prelude::*;
use crate::irgen::function::{Function, FunctionV};
use crate::irgen::instruction::{Instruction, InstructionV, Literal, OpCode, Symbol, SymbolV, Value, ValueV, values_view};
use crate::irgen::types::{DataType, NonPtrType};
use crate::irgen::utils::{correct_type_references, correct_type_references_v};
use crate::table::Table;
use super::jumps::put_instruction;

verus! {

/// A type other than the unknown one.
pub open spec fn known(t: DataType) -> bool {
    t.raw_type != NonPtrType::Unknown
}

/// A literal or symbol whose type is unknown.
pub open spec fn untyped(v: ValueV) -> bool {
    match v {
        ValueV::Literal(l) => !known(l.datatype),
        ValueV::Symbol(s) => !known(s.datatype),
        ValueV::Label(_) => false,
    }
}

/// The type of the first argument of known type; the unknown type when there
/// is none.
pub open spec fn first_known_type(args: Seq<ValueV>) -> DataType
    decreases args.len(),
{
    if args.len() == 0 {
        DataType { raw_type: NonPtrType::Unknown, num_ptr: 0, is_ref: false }
    } else {
        match args[0] {
            ValueV::Literal(l) => if known(l.datatype) {
                l.datatype
            } else {
                first_known_type(args.drop_first())
            },
            ValueV::Symbol(s) => if known(s.datatype) {
                s.datatype
            } else {
                first_known_type(args.drop_first())
            },
            ValueV::Label(_) => first_known_type(args.drop_first()),
        }
    }
}

/// A value of unknown type takes the known type `t` (without reference).
pub open spec fn forced_v(v: ValueV, t: DataType) -> ValueV {
    if untyped(v) && known(t) {
        match v {
            ValueV::Literal(l) => ValueV::Literal(Literal { datatype: correct_type_references_v(t), ..l }),
            ValueV::Symbol(s) => ValueV::Symbol(SymbolV { datatype: correct_type_references_v(t), ..s }),
            ValueV::Label(_) => v,
        }
    } else {
        v
    }
}

/// The arguments with those of unknown type given the type `t`.
pub open spec fn forced_args(args: Seq<ValueV>, t: DataType) -> Seq<ValueV> {
    Seq::new(args.len(), |k: int| forced_v(args[k], t))
}

/// An instruction whose arguments of unknown type take the type of its first
/// argument of known type.
pub open spec fn forced_inst(i: InstructionV) -> InstructionV {
    InstructionV { arguments: forced_args(i.arguments, first_known_type(i.arguments)), ..i }
}

/// The symbol types after recording those of `args`: a symbol of known type
/// not yet recorded is recorded with its type.
pub open spec fn recorded_types(m: Map<Seq<char>, DataType>, args: Seq<ValueV>) -> Map<Seq<char>, DataType>
    decreases args.len(),
{
    if args.len() == 0 {
        m
    } else {
        let m0 = recorded_types(m, args.drop_last());
        match args.last() {
            ValueV::Symbol(s) => if !m0.contains_key(s.title) && known(s.datatype) {
                m0.insert(s.title, s.datatype)
            } else {
                m0
            },
            _ => m0,
        }
    }
}

/// The instructions after giving types within each (array instructions are
/// left alone), and the symbol types recorded on the way.
pub open spec fn forced_round(insts: Seq<InstructionV>, m: Map<Seq<char>, DataType>) -> (
    Seq<InstructionV>,
    Map<Seq<char>, DataType>,
)
    decreases insts.len(),
{
    if insts.len() == 0 {
        (Seq::empty(), m)
    } else {
        let (is, m0) = forced_round(insts.drop_last(), m);
        let i = insts.last();
        if i.opcode == OpCode::Array {
            (is.push(i), m0)
        } else {
            (is.push(forced_inst(i)), recorded_types(m0, forced_inst(i).arguments))
        }
    }
}

/// A symbol of unknown type whose name has a recorded known type takes it.
pub open spec fn filled_v(v: ValueV, m: Map<Seq<char>, DataType>) -> ValueV {
    match v {
        ValueV::Symbol(s) => if !known(s.datatype) && m.contains_key(s.title) && known(m[s.title]) {
            ValueV::Symbol(SymbolV { datatype: m[s.title], ..s })
        } else {
            v
        },
        _ => v,
    }
}

pub open spec fn filled_inst(i: InstructionV, m: Map<Seq<char>, DataType>) -> InstructionV {
    InstructionV { arguments: Seq::new(i.arguments.len(), |k: int| filled_v(i.arguments[k], m)), ..i }
}

pub open spec fn filled_all(insts: Seq<InstructionV>, m: Map<Seq<char>, DataType>) -> Seq<InstructionV> {
    Seq::new(insts.len(), |j: int| filled_inst(insts[j], m))
}

/// One round: types within instructions, then types of recorded symbols.
pub open spec fn typed_round(insts: Seq<InstructionV>, m: Map<Seq<char>, DataType>) -> (
    Seq<InstructionV>,
    Map<Seq<char>, DataType>,
) {
    let (g, m1) = forced_round(insts, m);
    (filled_all(g, m1), m1)
}

/// The number of arguments of unknown type.
pub open spec fn untyped_in(args: Seq<ValueV>) -> nat
    decreases args.len(),
{
    if args.len() == 0 {
        0
    } else {
        untyped_in(args.drop_last()) + if untyped(args.last()) {
            1nat
        } else {
            0nat
        }
    }
}

/// The number of arguments of unknown type over all instructions.
pub open spec fn untyped_count(insts: Seq<InstructionV>) -> nat
    decreases insts.len(),
{
    if insts.len() == 0 {
        0
    } else {
        untyped_count(insts.drop_last()) + untyped_in(insts.last().arguments)
    }
}

/// `b` is `a`, or `a` had an unknown type and `b` has one no longer.
pub open spec fn settles(a: ValueV, b: ValueV) -> bool {
    a == b || (untyped(a) && !untyped(b))
}

/// Each instruction of `b` is that of `a` with some arguments settled.
pub open spec fn all_settle(a: Seq<InstructionV>, b: Seq<InstructionV>) -> bool {
    &&& a.len() == b.len()
    &&& forall|j: int| 0 <= j < a.len() ==> #[trigger] b[j].opcode == a[j].opcode
    &&& forall|j: int| 0 <= j < a.len() ==> #[trigger] b[j].arguments.len() == a[j].arguments.len()
    &&& forall|j: int, k: int|
        0 <= j < a.len() && 0 <= k < a[j].arguments.len() ==> settles(
            #[trigger] a[j].arguments[k],
            b[j].arguments[k],
        )
}

proof fn lemma_args_count(a: Seq<ValueV>, b: Seq<ValueV>)
    requires
        a.len() == b.len(),
        forall|k: int| 0 <= k < a.len() ==> settles(#[trigger] a[k], b[k]),
    ensures
        untyped_in(b) <= untyped_in(a),
        a != b ==> untyped_in(b) < untyped_in(a),
    decreases a.len(),
{
    if a.len() > 0 {
        lemma_args_count(a.drop_last(), b.drop_last());
        assert(settles(a[a.len() - 1], b[b.len() - 1]));
        if a != b && a.drop_last() == b.drop_last() {
            assert(a.last() != b.last()) by {
                if a.last() == b.last() {
                    assert forall|k: int| 0 <= k < a.len() implies a[k] == b[k] by {
                        if k < a.len() - 1 {
                            assert(a[k] == a.drop_last()[k]);
                            assert(b[k] == b.drop_last()[k]);
                        }
                    }
                    assert(a =~= b);
                }
            }
        }
    } else {
        assert(a =~= b);
    }
}

proof fn lemma_insts_count(a: Seq<InstructionV>, b: Seq<InstructionV>)
    requires
        all_settle(a, b),
    ensures
        untyped_count(b) <= untyped_count(a),
        a != b ==> untyped_count(b) < untyped_count(a),
    decreases a.len(),
{
    if a.len() > 0 {
        let n = a.len() - 1;
        assert(all_settle(a.drop_last(), b.drop_last())) by {
            assert forall|j: int, k: int|
                0 <= j < a.drop_last().len() && 0 <= k < a.drop_last()[j].arguments.len() implies settles(
                #[trigger] a.drop_last()[j].arguments[k],
                b.drop_last()[j].arguments[k],
            ) by {
                assert(settles(a[j].arguments[k], b[j].arguments[k]));
            }
        }
        lemma_insts_count(a.drop_last(), b.drop_last());
        assert forall|k: int| 0 <= k < a[n].arguments.len() implies settles(#[trigger] a[n].arguments[k], b[n].arguments[k]) by {
            assert(settles(a[n].arguments[k], b[n].arguments[k]));
        }
        lemma_args_count(a[n].arguments, b[n].arguments);
        if a != b && a.drop_last() == b.drop_last() {
            assert(a[n] != b[n]) by {
                if a[n] == b[n] {
                    assert forall|j: int| 0 <= j < a.len() implies a[j] == b[j] by {
                        if j < n {
                            assert(a[j] == a.drop_last()[j]);
                            assert(b[j] == b.drop_last()[j]);
                        }
                    }
                    assert(a =~= b);
                }
            }
            assert(b[n].opcode == a[n].opcode);
            assert(a[n].arguments != b[n].arguments) by {
                if a[n].arguments == b[n].arguments {
                    assert(a[n] == b[n]);
                }
            }
        }
    } else {
        assert(a =~= b);
    }
}

/// The instruction at `j` after the typing within instructions.
proof fn lemma_forced_round_at(insts: Seq<InstructionV>, m: Map<Seq<char>, DataType>, j: int)
    requires
        0 <= j < insts.len(),
    ensures
        forced_round(insts, m).0.len() == insts.len(),
        forced_round(insts, m).0[j] == (if insts[j].opcode == OpCode::Array {
            insts[j]
        } else {
            forced_inst(insts[j])
        }),
    decreases insts.len(),
{
    lemma_forced_round_len(insts, m);
    if j < insts.len() - 1 {
        lemma_forced_round_at(insts.drop_last(), m, j);
    }
}

proof fn lemma_forced_round_len(insts: Seq<InstructionV>, m: Map<Seq<char>, DataType>)
    ensures
        forced_round(insts, m).0.len() == insts.len(),
    decreases insts.len(),
{
    if insts.len() > 0 {
        lemma_forced_round_len(insts.drop_last(), m);
    }
}

/// A round settles arguments only: it changes nothing but types that were
/// unknown, and a change within instructions is not undone.
proof fn lemma_round_settles(insts: Seq<InstructionV>, m: Map<Seq<char>, DataType>)
    ensures
        all_settle(insts, typed_round(insts, m).0),
        all_settle(insts, forced_round(insts, m).0),
        (typed_round(insts, m).0 != insts) == (forced_round(insts, m).0 != insts || typed_round(insts, m).0
            != forced_round(insts, m).0),
{
    let (g, m1) = forced_round(insts, m);
    let h = filled_all(g, m1);
    lemma_forced_round_len(insts, m);
    assert forall|j: int| 0 <= j < insts.len() implies #[trigger] g[j].opcode == insts[j].opcode
        && g[j].arguments.len() == insts[j].arguments.len() by {
        lemma_forced_round_at(insts, m, j);
    }
    assert forall|j: int, k: int| 0 <= j < insts.len() && 0 <= k < insts[j].arguments.len() implies settles(
        #[trigger] insts[j].arguments[k],
        g[j].arguments[k],
    ) && settles(insts[j].arguments[k], h[j].arguments[k]) by {
        lemma_forced_round_at(insts, m, j);
        let a = insts[j].arguments[k];
        let b = g[j].arguments[k];
        assert(h[j].arguments[k] == filled_v(b, m1));
    }
    assert(insts.len() == g.len());
    assert(forall|j: int| 0 <= j < insts.len() ==> #[trigger] g[j].opcode == insts[j].opcode);
    assert forall|j: int| 0 <= j < insts.len() implies #[trigger] g[j].arguments.len() == insts[j].arguments.len() by {
        lemma_forced_round_at(insts, m, j);
    }
    assert(all_settle(insts, g));
    assert(all_settle(insts, h));
    if h == insts {
        assert forall|j: int| 0 <= j < insts.len() implies g[j] == insts[j] by {
            lemma_forced_round_at(insts, m, j);
            assert forall|k: int| 0 <= k < insts[j].arguments.len() implies g[j].arguments[k]
                == insts[j].arguments[k] by {
                assert(settles(insts[j].arguments[k], g[j].arguments[k]));
                assert(h[j].arguments[k] == filled_v(g[j].arguments[k], m1));
                assert(h[j] == insts[j]);
            }
            assert(g[j].arguments =~= insts[j].arguments);
        }
        assert(g =~= insts);
    }
}

/// Rounds until one changes nothing.
pub closed spec fn settled_types(insts: Seq<InstructionV>, m: Map<Seq<char>, DataType>) -> Seq<InstructionV>
    decreases untyped_count(insts),
{
    let (h, m1) = typed_round(insts, m);
    if h == insts {
        insts
    } else {
        proof {
            lemma_round_settles(insts, m);
            lemma_insts_count(insts, h);
        }
        settled_types(h, m1)
    }
}

proof fn lemma_all_settle_trans(a: Seq<InstructionV>, b: Seq<InstructionV>, c: Seq<InstructionV>)
    requires
        all_settle(a, b),
        all_settle(b, c),
    ensures
        all_settle(a, c),
{
    assert forall|j: int| 0 <= j < a.len() implies #[trigger] c[j].opcode == a[j].opcode
        && c[j].arguments.len() == a[j].arguments.len() by {
        assert(b[j].opcode == a[j].opcode);
        assert(c[j].opcode == b[j].opcode);
        assert(b[j].arguments.len() == a[j].arguments.len());
        assert(c[j].arguments.len() == b[j].arguments.len());
    }
    assert forall|j: int, k: int| 0 <= j < a.len() && 0 <= k < a[j].arguments.len() implies settles(
        #[trigger] a[j].arguments[k],
        c[j].arguments[k],
    ) by {
        assert(b[j].arguments.len() == a[j].arguments.len());
        assert(settles(a[j].arguments[k], b[j].arguments[k]));
        assert(settles(b[j].arguments[k], c[j].arguments[k]));
    }
    assert forall|j: int| 0 <= j < a.len() implies #[trigger] c[j].arguments.len() == a[j].arguments.len() by {
        assert(b[j].arguments.len() == a[j].arguments.len());
        assert(c[j].arguments.len() == b[j].arguments.len());
    }
}

/// The rounds only settle arguments.
proof fn lemma_settled_types_settle(insts: Seq<InstructionV>, m: Map<Seq<char>, DataType>)
    ensures
        all_settle(insts, settled_types(insts, m)),
    decreases untyped_count(insts),
{
    let (h, m1) = typed_round(insts, m);
    lemma_round_settles(insts, m);
    if h == insts {
        assert forall|j: int| 0 <= j < insts.len() implies #[trigger] insts[j].arguments.len()
            == insts[j].arguments.len() by {
        }
    } else {
        lemma_insts_count(insts, h);
        lemma_settled_types_settle(h, m1);
        lemma_all_settle_trans(insts, h, settled_types(h, m1));
    }
}

/// A value still of unknown type becomes an `i32`.
pub open spec fn defaulted_v(v: ValueV) -> ValueV {
    let i32t = DataType { raw_type: NonPtrType::I32, num_ptr: 0, is_ref: false };
    match v {
        ValueV::Literal(l) => if !known(l.datatype) {
            ValueV::Literal(Literal { datatype: i32t, ..l })
        } else {
            v
        },
        ValueV::Symbol(s) => if !known(s.datatype) {
            ValueV::Symbol(SymbolV { datatype: i32t, ..s })
        } else {
            v
        },
        ValueV::Label(_) => v,
    }
}

pub open spec fn defaulted_inst(i: InstructionV) -> InstructionV {
    InstructionV { arguments: Seq::new(i.arguments.len(), |k: int| defaulted_v(i.arguments[k])), ..i }
}

/// `f` with every value typed: rounds of typing until nothing changes, then
/// what is still of unknown type becomes an `i32`.
pub open spec fn types_corrected(f: FunctionV) -> FunctionV {
    let s = settled_types(f.instructions, Map::empty());
    FunctionV { instructions: Seq::new(s.len(), |j: int| defaulted_inst(s[j])), ..f }
}

proof fn lemma_push_eq<A>(p: Seq<A>, q: Seq<A>, x: A, y: A)
    requires
        p.len() == q.len(),
    ensures
        (p.push(x) == q.push(y)) == (p == q && x == y),
{
    if p.push(x) == q.push(y) {
        assert(p =~= p.push(x).drop_last());
        assert(q =~= q.push(y).drop_last());
        assert(p.push(x)[p.len() as int] == x);
    }
    if p == q && x == y {
        assert(p.push(x) =~= q.push(y));
    }
}

/// The type of the first argument of known type.
fn first_known(args: &Vec<Value>) -> (t: DataType)
    ensures
        t == first_known_type(values_view(args@)),
{
    let ghost vs = values_view(args@);
    let mut k: usize = 0;
    assert(vs.skip(0) =~= vs);
    while k < args.len()
        invariant
            k <= args@.len(),
            vs == values_view(args@),
            first_known_type(vs) == first_known_type(vs.skip(k as int)),
        decreases args@.len() - k,
    {
        let ghost rest = vs.skip(k as int);
        assert(rest[0] == args@[k as int]@);
        assert(rest.drop_first() =~= vs.skip(k + 1));
        match &args[k] {
            Value::Literal(l) => {
                if l.datatype.raw_type != NonPtrType::Unknown {
                    return l.datatype;
                }
            },
            Value::Symbol(sy) => {
                if sy.datatype.raw_type != NonPtrType::Unknown {
                    return sy.datatype;
                }
            },
            Value::Label(_) => {},
        }
        k = k + 1;
    }
    assert(vs.skip(k as int) =~= Seq::<ValueV>::empty());
    DataType::new(NonPtrType::Unknown, 0, false)
}

/// A value of unknown type given the known type `t`, and whether it changed.
fn force_value(v: &Value, t: DataType) -> (r: (Value, bool))
    ensures
        r.0@ == forced_v(v@, t),
        r.1 == (forced_v(v@, t) != v@),
{
    let known_t = t.raw_type != NonPtrType::Unknown;
    match v {
        Value::Literal(l) => {
            if known_t && l.datatype.raw_type == NonPtrType::Unknown {
                let mut n = *l;
                n.datatype = correct_type_references(t);
                (Value::Literal(n), true)
            } else {
                (Value::Literal(*l), false)
            }
        },
        Value::Symbol(sy) => {
            if known_t && sy.datatype.raw_type == NonPtrType::Unknown {
                (Value::Symbol(Symbol { title: sy.title.clone(), datatype: correct_type_references(t) }), true)
            } else {
                (Value::Symbol(sy.clone()), false)
            }
        },
        Value::Label(_) => (v.clone(), false),
    }
}

/// A symbol of unknown type given its recorded type, and whether it changed.
fn fill_value(v: &Value, m: &Table<String, DataType>) -> (r: (Value, bool))
    ensures
        r.0@ == filled_v(v@, m.map()),
        r.1 == (filled_v(v@, m.map()) != v@),
{
    match v {
        Value::Symbol(sy) => {
            if sy.datatype.raw_type == NonPtrType::Unknown {
                match m.get(&sy.title) {
                    Some(t) => {
                        if t.raw_type != NonPtrType::Unknown {
                            return (Value::Symbol(Symbol { title: sy.title.clone(), datatype: *t }), true);
                        }
                    },
                    None => {},
                }
            }
            (Value::Symbol(sy.clone()), false)
        },
        _ => (v.clone(), false),
    }
}

/// An instruction with its arguments typed, whether it changed; the types of
/// its symbols are recorded.
fn force_instruction(inst: &Instruction, m: &mut Table<String, DataType>) -> (r: (Instruction, bool))
    ensures
        r.0@ == forced_inst(inst@),
        r.1 == (forced_inst(inst@) != inst@),
        final(m).map() == recorded_types(old(m).map(), forced_inst(inst@).arguments),
{
    let ghost vs = inst@.arguments;
    let t = first_known(&inst.arguments);
    let ghost fa = forced_args(vs, t);
    let ghost m0 = m.map();
    let mut args: Vec<Value> = Vec::new();
    let mut changed = false;
    let mut k: usize = 0;
    assert(values_view(args@) =~= fa.take(0));
    assert(fa.take(0) =~= vs.take(0));
    while k < inst.arguments.len()
        invariant
            k <= vs.len(),
            vs == inst@.arguments,
            vs.len() == inst.arguments@.len(),
            fa == forced_args(vs, t),
            values_view(args@) == fa.take(k as int),
            changed == (fa.take(k as int) != vs.take(k as int)),
            m.map() == recorded_types(m0, fa.take(k as int)),
        decreases vs.len() - k,
    {
        assert(vs[k as int] == inst.arguments@[k as int]@);
        let (nv, c) = force_value(&inst.arguments[k], t);
        proof {
            assert(fa.take(k + 1) =~= fa.take(k as int).push(fa[k as int]));
            assert(vs.take(k + 1) =~= vs.take(k as int).push(vs[k as int]));
            lemma_push_eq(fa.take(k as int), vs.take(k as int), fa[k as int], vs[k as int]);
            assert(fa.take(k + 1).drop_last() =~= fa.take(k as int));
        }
        if let Value::Symbol(sy) = &nv {
            if sy.datatype.raw_type != NonPtrType::Unknown && !m.contains_key(&sy.title) {
                m.insert(sy.title.clone(), sy.datatype);
            }
        }
        let ghost before = values_view(args@);
        args.push(nv);
        assert(values_view(args@) =~= before.push(fa[k as int]));
        changed = changed || c;
        k = k + 1;
    }
    assert(fa.take(vs.len() as int) =~= fa);
    assert(vs.take(vs.len() as int) =~= vs);
    let r = Instruction { opcode: inst.opcode, arguments: args };
    proof {
        if forced_inst(inst@) == inst@ {
            assert(fa == vs);
        }
    }
    (r, changed)
}

/// An instruction with its symbols of unknown type given their recorded
/// types, and whether it changed.
fn fill_instruction(inst: &Instruction, m: &Table<String, DataType>) -> (r: (Instruction, bool))
    ensures
        r.0@ == filled_inst(inst@, m.map()),
        r.1 == (filled_inst(inst@, m.map()) != inst@),
{
    let ghost vs = inst@.arguments;
    let ghost fa = filled_inst(inst@, m.map()).arguments;
    let mut args: Vec<Value> = Vec::new();
    let mut changed = false;
    let mut k: usize = 0;
    assert(values_view(args@) =~= fa.take(0));
    assert(fa.take(0) =~= vs.take(0));
    while k < inst.arguments.len()
        invariant
            k <= vs.len(),
            vs == inst@.arguments,
            vs.len() == inst.arguments@.len(),
            fa == filled_inst(inst@, m.map()).arguments,
            values_view(args@) == fa.take(k as int),
            changed == (fa.take(k as int) != vs.take(k as int)),
        decreases vs.len() - k,
    {
        assert(vs[k as int] == inst.arguments@[k as int]@);
        let (nv, c) = fill_value(&inst.arguments[k], m);
        proof {
            assert(fa.take(k + 1) =~= fa.take(k as int).push(fa[k as int]));
            assert(vs.take(k + 1) =~= vs.take(k as int).push(vs[k as int]));
            lemma_push_eq(fa.take(k as int), vs.take(k as int), fa[k as int], vs[k as int]);
        }
        let ghost before = values_view(args@);
        args.push(nv);
        assert(values_view(args@) =~= before.push(fa[k as int]));
        changed = changed || c;
        k = k + 1;
    }
    assert(fa.take(vs.len() as int) =~= fa);
    assert(vs.take(vs.len() as int) =~= vs);
    let r = Instruction { opcode: inst.opcode, arguments: args };
    proof {
        if filled_inst(inst@, m.map()) == inst@ {
            assert(fa == vs);
        }
    }
    (r, changed)
}

/// An instruction whose values still of unknown type become `i32`s.
fn default_instruction(inst: &Instruction) -> (r: Instruction)
    ensures
        r@ == defaulted_inst(inst@),
{
    let ghost vs = inst@.arguments;
    let ghost da = defaulted_inst(inst@).arguments;
    let i32t = DataType::new(NonPtrType::I32, 0, false);
    let mut args: Vec<Value> = Vec::new();
    let mut k: usize = 0;
    while k < inst.arguments.len()
        invariant
            k <= vs.len(),
            vs == inst@.arguments,
            vs.len() == inst.arguments@.len(),
            da == defaulted_inst(inst@).arguments,
            i32t == (DataType { raw_type: NonPtrType::I32, num_ptr: 0, is_ref: false }),
            values_view(args@) == da.take(k as int),
        decreases vs.len() - k,
    {
        assert(vs[k as int] == inst.arguments@[k as int]@);
        let nv = match &inst.arguments[k] {
            Value::Literal(l) => if l.datatype.raw_type == NonPtrType::Unknown {
                let mut n = *l;
                n.datatype = i32t;
                Value::Literal(n)
            } else {
                Value::Literal(*l)
            },
            Value::Symbol(sy) => if sy.datatype.raw_type == NonPtrType::Unknown {
                Value::Symbol(Symbol { title: sy.title.clone(), datatype: i32t })
            } else {
                Value::Symbol(sy.clone())
            },
            Value::Label(l) => Value::Label(l.clone()),
        };
        let ghost before = values_view(args@);
        args.push(nv);
        assert(values_view(args@) =~= before.push(da[k as int]));
        k = k + 1;
    }
    assert(da.take(vs.len() as int) =~= da);
    Instruction { opcode: inst.opcode, arguments: args }
}

/// Correct the types within the instructions in an IR Function
pub fn correct_types(f: Function) -> (r: Function)
    ensures
        r@ == types_corrected(f@),
        forall|j: int, k: int|
            0 <= j < r@.instructions.len() && 0 <= k < r@.instructions[j].arguments.len() ==> !untyped(
                #[trigger] r@.instructions[j].arguments[k],
            ),
        r@.instructions.len() == f@.instructions.len(),
        forall|j: int| 0 <= j < f@.instructions.len() ==> #[trigger] r@.instructions[j].opcode == f@.instructions[j].opcode
            && r@.instructions[j].arguments.len() == f@.instructions[j].arguments.len(),
        forall|j: int, k: int|
            0 <= j < f@.instructions.len() && 0 <= k < f@.instructions[j].arguments.len() && !untyped(
                #[trigger] f@.instructions[j].arguments[k],
            ) ==> r@.instructions[j].arguments[k] == f@.instructions[j].arguments[k],
{
    let mut func = f;
    let ghost fv = func@;
    let mut map: Table<String, DataType> = Table::new();
    let ghost target = settled_types(fv.instructions, Map::empty());
    let n = func.instructions.len();
    loop
        invariant_except_break
            target == settled_types(func@.instructions, map.map()),
        invariant
            func@ == (FunctionV { instructions: func@.instructions, ..fv }),
            func@.instructions.len() == n,
        ensures
            target == func@.instructions,
        decreases untyped_count(func@.instructions),
    {
        let ghost insts = func@.instructions;
        let ghost m0 = map.map();
        let ghost g = forced_round(insts, m0).0;
        proof {
            lemma_forced_round_len(insts, m0);
        }
        let mut forced_changed = false;
        let mut i: usize = 0;
        assert(insts.take(0) =~= Seq::<InstructionV>::empty());
        assert(func@.instructions =~= forced_round(insts.take(0), m0).0 + insts.skip(0));
        while i < n
            invariant
                i <= n,
                n == insts.len(),
                g == forced_round(insts, m0).0,
                g.len() == n,
                func@ == (FunctionV { instructions: func@.instructions, ..fv }),
                func@.instructions == forced_round(insts.take(i as int), m0).0 + insts.skip(i as int),
                func.instructions@.len() == n,
                map.map() == forced_round(insts.take(i as int), m0).1,
                forced_changed == (forced_round(insts.take(i as int), m0).0 != insts.take(i as int)),
            decreases n - i,
        {
            let ghost fr = forced_round(insts.take(i as int), m0);
            proof {
                lemma_forced_round_len(insts.take(i as int), m0);
                assert(insts.take(i + 1).drop_last() =~= insts.take(i as int));
                assert(insts.take(i + 1).last() == insts[i as int]);
                assert(insts.take(i + 1) =~= insts.take(i as int).push(insts[i as int]));
                assert(func@.instructions[i as int] == insts[i as int]);
            }
            if func.instructions[i].opcode != OpCode::Array {
                let (ni, c) = force_instruction(&func.instructions[i], &mut map);
                put_instruction(&mut func, i, ni);
                proof {
                    lemma_push_eq(fr.0, insts.take(i as int), forced_inst(insts[i as int]), insts[i as int]);
                    assert(func@.instructions =~= fr.0.push(forced_inst(insts[i as int])) + insts.skip(i + 1));
                }
                forced_changed = forced_changed || c;
            } else {
                proof {
                    lemma_push_eq(fr.0, insts.take(i as int), insts[i as int], insts[i as int]);
                    assert(func@.instructions =~= fr.0.push(insts[i as int]) + insts.skip(i + 1));
                }
            }
            i = i + 1;
        }
        proof {
            assert(insts.take(n as int) =~= insts);
            assert(func@.instructions =~= g);
        }
        let ghost m1 = map.map();
        let ghost h = filled_all(g, m1);
        let mut filled_changed = false;
        let mut i: usize = 0;
        assert(func@.instructions =~= h.take(0) + g.skip(0));
        assert(h.take(0) =~= g.take(0));
        while i < n
            invariant
                i <= n,
                g.len() == n,
                h == filled_all(g, m1),
                m1 == map.map(),
                func@ == (FunctionV { instructions: func@.instructions, ..fv }),
                func@.instructions == h.take(i as int) + g.skip(i as int),
                func.instructions@.len() == n,
                filled_changed == (h.take(i as int) != g.take(i as int)),
            decreases n - i,
        {
            proof {
                assert(func@.instructions[i as int] == g[i as int]);
                assert(h.take(i + 1) =~= h.take(i as int).push(h[i as int]));
                assert(g.take(i + 1) =~= g.take(i as int).push(g[i as int]));
                lemma_push_eq(h.take(i as int), g.take(i as int), h[i as int], g[i as int]);
            }
            let (ni, c) = fill_instruction(&func.instructions[i], &map);
            put_instruction(&mut func, i, ni);
            assert(func@.instructions =~= h.take(i + 1) + g.skip(i + 1));
            filled_changed = filled_changed || c;
            i = i + 1;
        }
        proof {
            assert(h.take(n as int) =~= h);
            assert(g.take(n as int) =~= g);
            assert(func@.instructions =~= h);
            lemma_round_settles(insts, m0);
            lemma_insts_count(insts, h);
        }
        if !(forced_changed || filled_changed) {
            break;
        }
    }
    let ghost s = func@.instructions;
    let mut i: usize = 0;
    while i < n
        invariant
            i <= n,
            s.len() == n,
            func@ == (FunctionV { instructions: func@.instructions, ..fv }),
            func@.instructions == Seq::new(s.len(), |j: int| defaulted_inst(s[j])).take(i as int) + s.skip(i as int),
            func.instructions@.len() == n,
        decreases n - i,
    {
        assert(func@.instructions[i as int] == s[i as int]);
        let ni = default_instruction(&func.instructions[i]);
        put_instruction(&mut func, i, ni);
        assert(func@.instructions =~= Seq::new(s.len(), |j: int| defaulted_inst(s[j])).take(i + 1) + s.skip(i + 1));
        i = i + 1;
    }
    assert(func@.instructions =~= Seq::new(s.len(), |j: int| defaulted_inst(s[j])));
    proof {
        lemma_settled_types_settle(fv.instructions, Map::empty());
        let r = func@.instructions;
        let a = fv.instructions;
        assert forall|j: int| 0 <= j < a.len() implies #[trigger] r[j].opcode == a[j].opcode
            && r[j].arguments.len() == a[j].arguments.len() by {
            assert(s[j].opcode == a[j].opcode);
            assert(s[j].arguments.len() == a[j].arguments.len());
        }
        assert forall|j: int, k: int| 0 <= j < a.len() && 0 <= k < a[j].arguments.len() && !untyped(
            #[trigger] a[j].arguments[k],
        ) implies r[j].arguments[k] == a[j].arguments[k] by {
            assert(s[j].arguments.len() == a[j].arguments.len());
            assert(settles(a[j].arguments[k], s[j].arguments[k]));
        }
    }
    func
}

} // verus!
