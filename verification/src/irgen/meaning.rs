//! What the operators of the source language and the instructions of the IR
//! compute, and that the lowering keeps it.
use vstd::prelude::*;
use vstd::arithmetic::power2::pow2;
use crate::parser::ExpressionType as ExpressionTypeP;
use super::instruction::OpCode;
use super::expression::{ExpressionType, binary_kind};

verus! {

/// 1 for true, 0 for false.
pub open spec fn truth(b: bool) -> int {
    if b {
        1
    } else {
        0
    }
}

/// The value an arithmetic, shift, comparison or bitwise instruction of the
/// IR computes from its operands `a` and `b`.
pub open spec fn opcode_value(op: OpCode, a: i128, b: i128) -> int {
    match op {
        OpCode::Add => a + b,
        OpCode::Sub => a - b,
        OpCode::Mul => a * b,
        OpCode::Div => a as int / b as int,
        OpCode::Mod => a as int % b as int,
        OpCode::Shl => a as int * pow2(b as nat) as int,
        OpCode::Shr => a as int / pow2(b as nat) as int,
        OpCode::Clt => truth(a < b),
        OpCode::Cle => truth(a <= b),
        OpCode::Cgt => truth(a > b),
        OpCode::Cge => truth(a >= b),
        OpCode::Ceq => truth(a == b),
        OpCode::Cne => truth(a != b),
        OpCode::And => (a & b) as int,
        OpCode::Or => (a | b) as int,
        OpCode::Xor => (a ^ b) as int,
        _ => 0,
    }
}

/// The value the operator `k` of the source language gives for operands `a`
/// and `b` (for an assigning operator, the value it assigns); `None` for an
/// operator that computes no such value.
pub open spec fn operator_value(k: ExpressionTypeP, a: i128, b: i128) -> Option<int> {
    match k {
        ExpressionTypeP::Add | ExpressionTypeP::AddAssign => Some(a + b),
        ExpressionTypeP::Subtract | ExpressionTypeP::SubtractAssign => Some(a - b),
        ExpressionTypeP::Multiply | ExpressionTypeP::MultiplyAssign => Some(a * b),
        ExpressionTypeP::Divide | ExpressionTypeP::DivideAssign => Some(a as int / b as int),
        ExpressionTypeP::Modulus | ExpressionTypeP::ModulusAssign => Some(a as int % b as int),
        ExpressionTypeP::ShiftLeft | ExpressionTypeP::ShiftLeftAssign => Some(a as int * pow2(b as nat) as int),
        ExpressionTypeP::ShiftRight | ExpressionTypeP::ShiftRightAssign => Some(a as int / pow2(b as nat) as int),
        ExpressionTypeP::LessThan => Some(truth(a < b)),
        ExpressionTypeP::LessThanOrEqual => Some(truth(a <= b)),
        ExpressionTypeP::GreaterThan => Some(truth(a > b)),
        ExpressionTypeP::GreaterThanOrEqual => Some(truth(a >= b)),
        ExpressionTypeP::Equal => Some(truth(a == b)),
        ExpressionTypeP::NotEqual => Some(truth(a != b)),
        ExpressionTypeP::BitwiseAnd | ExpressionTypeP::BitwiseAndAssign => Some((a & b) as int),
        ExpressionTypeP::BitwiseOr | ExpressionTypeP::BitwiseOrAssign => Some((a | b) as int),
        ExpressionTypeP::BitwiseXor | ExpressionTypeP::BitwiseXorAssign => Some((a ^ b) as int),
        _ => None,
    }
}

/// Each operator with two operands is lowered to an instruction that computes
/// what the operator computes, for all operands (a shift by `b` with
/// `0 <= b < 128`): an operation to the instruction of the operation, an
/// assigning operator to an assignment through that instruction.
pub proof fn law_operators_lower_to_their_instruction(k: ExpressionTypeP, a: i128, b: i128)
    requires
        0 <= b < 128,
        operator_value(k, a, b) is Some,
    ensures
        match binary_kind(k) {
            Some(ExpressionType::BinaryExpression(op)) => opcode_value(op, a, b) == operator_value(k, a, b)->Some_0,
            Some(ExpressionType::AssignmentExpression(Some(op))) => opcode_value(op, a, b) == operator_value(
                k,
                a,
                b,
            )->Some_0,
            _ => false,
        },
{
}

/// Different operators are lowered to different kinds of expression.
pub proof fn law_operators_kept_apart(k1: ExpressionTypeP, k2: ExpressionTypeP)
    requires
        k1 != k2,
        binary_kind(k1) is Some,
    ensures
        binary_kind(k1) != binary_kind(k2),
{
}

} // verus!
