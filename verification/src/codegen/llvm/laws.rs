//! What the comparisons of the LLVM back end mean.
use vstd::prelude::*;
use crate::irgen::OpCode;
use super::functions::compare_name;

verus! {

/// Whether LLVM's `icmp` with predicate `pred` holds of operands `a` and `b`
/// (the signed and unsigned predicates read the operands as signed and as
/// unsigned numbers; `a` and `b` are those numbers).
pub open spec fn icmp_holds(pred: Seq<char>, a: int, b: int) -> bool {
    if pred == "eq"@ {
        a == b
    } else if pred == "ne"@ {
        a != b
    } else if pred == "sgt"@ || pred == "ugt"@ {
        a > b
    } else if pred == "sge"@ || pred == "uge"@ {
        a >= b
    } else if pred == "slt"@ || pred == "ult"@ {
        a < b
    } else if pred == "sle"@ || pred == "ule"@ {
        a <= b
    } else {
        false
    }
}

/// Whether a predicate reads its operands as signed numbers.
pub open spec fn signed_predicate(pred: Seq<char>) -> bool {
    pred == "sgt"@ || pred == "sge"@ || pred == "slt"@ || pred == "sle"@
}

/// Whether a predicate reads its operands as unsigned numbers.
pub open spec fn unsigned_predicate(pred: Seq<char>) -> bool {
    pred == "ugt"@ || pred == "uge"@ || pred == "ult"@ || pred == "ule"@
}

/// A comparison of the IR: a compare (`ceq` .. `cge`) or a branch (`beq` .. `bge`).
pub open spec fn is_comparison(op: OpCode) -> bool {
    op == OpCode::Ceq || op == OpCode::Cne || op == OpCode::Clt || op == OpCode::Cle || op == OpCode::Cgt
        || op == OpCode::Cge || op == OpCode::Beq || op == OpCode::Bne || op == OpCode::Blt || op
        == OpCode::Ble || op == OpCode::Bgt || op == OpCode::Bge
}

/// What a comparison of the IR asks of its operands `a` and `b`.
pub open spec fn ir_compares(op: OpCode, a: int, b: int) -> bool {
    match op {
        OpCode::Ceq | OpCode::Beq => a == b,
        OpCode::Cne | OpCode::Bne => a != b,
        OpCode::Clt | OpCode::Blt => a < b,
        OpCode::Cle | OpCode::Ble => a <= b,
        OpCode::Cgt | OpCode::Bgt => a > b,
        _ => a >= b,
    }
}

/// The `icmp` predicate emitted for a comparison holds exactly when the
/// comparison does, for all operands; an ordering comparison uses a signed
/// predicate on signed operands and an unsigned one otherwise.
pub proof fn law_compare_predicates(op: OpCode, signed: bool, a: int, b: int)
    requires
        is_comparison(op),
    ensures
        icmp_holds(compare_name(op, signed), a, b) == ir_compares(op, a, b),
        !(op == OpCode::Ceq || op == OpCode::Cne || op == OpCode::Beq || op == OpCode::Bne) ==> (
        signed_predicate(compare_name(op, signed)) == signed && unsigned_predicate(compare_name(op, signed))
            == !signed),
{
    reveal_strlit("eq");
    reveal_strlit("ne");
    reveal_strlit("sgt");
    reveal_strlit("ugt");
    reveal_strlit("sge");
    reveal_strlit("uge");
    reveal_strlit("slt");
    reveal_strlit("ult");
    reveal_strlit("sle");
    reveal_strlit("ule");
    let p = compare_name(op, signed);
    assert(p.len() == 2 || p.len() == 3);
    assert("eq"@ != "ne"@) by {
        assert("eq"@[0] != "ne"@[0]);
    }
    let names = seq!["sgt"@, "ugt"@, "sge"@, "uge"@, "slt"@, "ult"@, "sle"@, "ule"@];
    assert forall|i: int, j: int| 0 <= i < 8 && 0 <= j < 8 && i != j implies names[i] != names[j] by {
        if names[i] == names[j] {
            assert(names[i][0] == names[j][0] && names[i][1] == names[j][1] && names[i][2] == names[j][2]);
        }
    }
    assert(names[0] == "sgt"@ && names[1] == "ugt"@ && names[2] == "sge"@ && names[3] == "uge"@);
    assert(names[4] == "slt"@ && names[5] == "ult"@ && names[6] == "sle"@ && names[7] == "ule"@);
}

} // verus!
