//! Where the conditional branches of the AVR back end go.
use vstd::prelude::*;
use crate::irgen::OpCode;
use crate::irgen::instruction::{InstructionV, ValueV, is_branch};
use super::functions::{ContextV, branch_v, instruction_v};

verus! {

/// Whether the AVR branch `m`, right after comparing `x` with `y` (`cp x, y`
/// or `cpi x, y`), is taken: `breq` on equal, `brne` on different, `brlo`
/// when `x` is lower than `y` and `brsh` when it is the same or higher
/// (unsigned).
pub open spec fn avr_branch_taken(m: Seq<char>, x: int, y: int) -> bool {
    if m == "breq"@ {
        x == y
    } else if m == "brne"@ {
        x != y
    } else if m == "brlo"@ {
        x < y
    } else if m == "brsh"@ {
        x >= y
    } else {
        false
    }
}

/// Whether the IR branch `op` on operands `x` and `y` goes to its first label.
pub open spec fn ir_branch_taken(op: OpCode, x: int, y: int) -> bool {
    match op {
        OpCode::Beq => x == y,
        OpCode::Bne => x != y,
        OpCode::Blt => x < y,
        OpCode::Ble => x <= y,
        OpCode::Bgt => x > y,
        _ => x >= y,
    }
}

/// The branch `op` with arguments `a` becomes: a comparison of `a[0]` with
/// `a[1]` (or, with `swap`, of `a[1]` with `a[0]`), the AVR branch `m` to
/// `taken`, and a jump to `other`; and, for all values `x0` of `a[0]` and `x1`
/// of `a[1]`, that code reaches `a[2]` exactly when the IR branch is taken and
/// `a[3]` otherwise.
pub open spec fn branch_as(
    c: ContextV,
    op: OpCode,
    a: Seq<ValueV>,
    m: Seq<char>,
    swap: bool,
    taken: ValueV,
    other: ValueV,
) -> bool {
    &&& instruction_v(c, InstructionV { opcode: op, arguments: a }) == branch_v(
        c,
        m,
        if swap { a[1] } else { a[0] },
        if swap { a[0] } else { a[1] },
        taken,
        other,
    )
    &&& forall|x0: int, x1: int|
        #![trigger avr_branch_taken(m, x0, x1)]
        #![trigger avr_branch_taken(m, x1, x0)]
        (if avr_branch_taken(m, if swap { x1 } else { x0 }, if swap { x0 } else { x1 }) {
            taken
        } else {
            other
        }) == (if ir_branch_taken(op, x0, x1) {
            a[2]
        } else {
            a[3]
        })
}

/// A conditional branch of the IR becomes a comparison of its two operands
/// (in one order or the other), an AVR branch and a jump, that reach its
/// first label exactly when the IR branch is taken and its second otherwise.
pub proof fn law_branches_go_where_the_ir_says(c: ContextV, op: OpCode, a: Seq<ValueV>)
    requires
        is_branch(op),
        a.len() >= 4,
    ensures
        exists|m: Seq<char>, swap: bool, taken: ValueV, other: ValueV| #[trigger] branch_as(c, op, a, m, swap, taken, other),
{
    reveal(instruction_v);
    reveal_strlit("breq");
    reveal_strlit("brne");
    reveal_strlit("brlo");
    reveal_strlit("brsh");
    assert("breq"@ != "brne"@) by {
        assert("breq"@[3] != "brne"@[3]);
    }
    assert("breq"@ != "brlo"@) by {
        assert("breq"@[2] != "brlo"@[2]);
    }
    assert("brne"@ != "brlo"@) by {
        assert("brne"@[2] != "brlo"@[2]);
    }
    match op {
        OpCode::Beq => {
            assert(branch_as(c, op, a, "breq"@, false, a[2], a[3]));
        },
        OpCode::Bne => {
            assert(branch_as(c, op, a, "brne"@, false, a[2], a[3]));
        },
        OpCode::Blt => {
            assert(branch_as(c, op, a, "brlo"@, false, a[2], a[3]));
        },
        OpCode::Ble => {
            assert(branch_as(c, op, a, "brlo"@, true, a[3], a[2]));
        },
        OpCode::Bgt => {
            assert(branch_as(c, op, a, "brlo"@, true, a[2], a[3]));
        },
        _ => {
            assert(branch_as(c, op, a, "brlo"@, false, a[3], a[2]));
        },
    }
}

} // verus!
