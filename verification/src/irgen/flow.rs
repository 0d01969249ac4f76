//! Where the branches of the lowered code go: lowering only appends code and
//! places fresh labels, and a `while` loop branches into its body while its
//! condition holds and past the loop once it does not.
use vstd::prelude::*;
use super::instruction::{InstructionV, OpCode, ValueV};
use super::function::{FunctionV, label_name, law_fresh_names_distinct, place_label_v};
use super::expression::{
    ExprV, ExpressionType, branch_head, branch_tail, emit, finish_one_v, finish_two_v, place_here, ready,
    rendered, rendered_args, take_register, take_three_labels,
};
use super::statement::{
    StatementType, StmtV, branch_args, entered_loop_v, exited_loop_v, place_label_v_here, rendered_block,
    rendered_statement, rendered_value,
};

verus! {

/// `l` is one of the labels numbered `n` and on.
pub open spec fn label_from(l: Seq<char>, n: usize) -> bool {
    exists|k: usize| k >= n && l == #[trigger] label_name(k)
}

/// `g` extends `f`: the instructions of `f` stay where they are (more may
/// follow), no label number is given back, every label placed in `f` that is
/// not numbered from `f`'s next label on keeps its place, and a function whose
/// next instruction goes at its end stays so.
pub open spec fn extends(f: FunctionV, g: FunctionV) -> bool {
    &&& f.instructions.len() <= g.instructions.len()
    &&& forall|i: int| 0 <= i < f.instructions.len() ==> #[trigger] g.instructions[i] == f.instructions[i]
    &&& f.next_label <= g.next_label
    &&& forall|l: Seq<char>|
        #[trigger] f.labels_reverse.contains_key(l) && !label_from(l, f.next_label) ==> g.labels_reverse.contains_key(l)
            && g.labels_reverse[l] == f.labels_reverse[l]
    &&& ready(f) ==> ready(g)
}

proof fn lemma_extends_refl(f: FunctionV)
    ensures
        extends(f, f),
{
}

proof fn lemma_extends_trans(f: FunctionV, g: FunctionV, h: FunctionV)
    requires
        extends(f, g),
        extends(g, h),
    ensures
        extends(f, h),
{
    assert forall|l: Seq<char>| #[trigger] f.labels_reverse.contains_key(l) && !label_from(l, f.next_label) implies h.labels_reverse.contains_key(l)
        && h.labels_reverse[l] == f.labels_reverse[l] by {
        if label_from(l, g.next_label) {
            let k = choose|k: usize| k >= g.next_label && l == #[trigger] label_name(k);
            assert(label_from(l, f.next_label));
        }
    }
}

/// Appending an instruction extends a function.
proof fn lemma_emit(f0: FunctionV, h: FunctionV, op: OpCode, args: Seq<ValueV>)
    requires
        extends(f0, h),
        emit(Some(h), op, args) is Some,
    ensures
        extends(f0, emit(Some(h), op, args)->Some_0),
        emit(Some(h), op, args)->Some_0.instructions[h.instructions.len() as int] == (InstructionV {
            opcode: op,
            arguments: args,
        }),
        emit(Some(h), op, args)->Some_0.instructions.len() == h.instructions.len() + 1,
        emit(Some(h), op, args)->Some_0.next_label == h.next_label,
{
    let g = emit(Some(h), op, args)->Some_0;
    assert(extends(h, g));
    lemma_extends_trans(f0, h, g);
}

/// Placing a label numbered from `f0`'s next label on extends a function.
proof fn lemma_place(f0: FunctionV, h: FunctionV, k: usize)
    requires
        extends(f0, h),
        k >= f0.next_label,
    ensures
        extends(f0, place_label_v(h, label_name(k), h.next_index)),
        place_label_v(h, label_name(k), h.next_index).labels_reverse[label_name(k)] == h.next_index,
        place_label_v(h, label_name(k), h.next_index).instructions == h.instructions,
        place_label_v(h, label_name(k), h.next_index).next_label == h.next_label,
        place_label_v(h, label_name(k), h.next_index).next_index == h.next_index,
{
    let g = place_label_v(h, label_name(k), h.next_index);
    assert forall|l: Seq<char>| #[trigger] f0.labels_reverse.contains_key(l) && !label_from(l, f0.next_label) implies g.labels_reverse.contains_key(l)
        && g.labels_reverse[l] == f0.labels_reverse[l] by {
        if l == label_name(k) {
            assert(label_from(l, f0.next_label));
        }
    }
}

/// Taking labels or a register extends a function.
proof fn lemma_take(f0: FunctionV, h: FunctionV, g: FunctionV)
    requires
        extends(f0, h),
        g == (FunctionV { next_label: g.next_label, next_register: g.next_register, ..h }),
        g.next_label >= h.next_label,
    ensures
        extends(f0, g),
{
    assert(extends(h, g));
    lemma_extends_trans(f0, h, g);
}

proof fn lemma_finish_one(e: ExprV, c0: ExprV, f1: FunctionV)
    ensures
        finish_one_v(e, c0, f1) is Some ==> extends(f1, finish_one_v(e, c0, f1)->Some_0.1),
{
}

proof fn lemma_finish_two(e: ExprV, c0: ExprV, c1: ExprV, f2: FunctionV)
    ensures
        finish_two_v(e, c0, c1, f2) is Some ==> extends(f2, finish_two_v(e, c0, c1, f2)->Some_0.1),
{
}

/// Rendering an expression extends the function.
pub proof fn lemma_rendered_extends(e: ExprV, f: FunctionV)
    ensures
        rendered(e, f) is Some ==> extends(f, rendered(e, f)->Some_0.1),
    decreases e, 2nat,
{
    let cs = e.children;
    if rendered(e, f) is Some {
        match e.mode {
            ExpressionType::IntegerLiteral | ExpressionType::Identifier => {
                lemma_extends_refl(f);
            },
            ExpressionType::ArrayAccess => {},
            ExpressionType::FunctionCall => {
                let f1 = take_register(Some(f))->Some_0;
                lemma_extends_refl(f);
                lemma_take(f, f, f1);
                lemma_args_extends(cs, f1, cs.len());
                let f2 = rendered_args(cs, f1, cs.len())->Some_0.1;
                lemma_extends_trans(f, f1, f2);
                let value = super::expression::register_value(f, super::expression::unknown_type());
                lemma_emit(f, f2, OpCode::Call, seq![value, e.value->Some_0]);
            },
            ExpressionType::BinaryExpression(_) | ExpressionType::AssignmentExpression(_) | ExpressionType::Comma => {
                lemma_rendered_extends(cs[0], f);
                let (c0, f1) = rendered(cs[0], f)->Some_0;
                lemma_rendered_extends(cs[1], f1);
                let (c1, f2) = rendered(cs[1], f1)->Some_0;
                lemma_extends_trans(f, f1, f2);
                lemma_finish_two(e, c0, c1, f2);
                lemma_extends_trans(f, f2, finish_two_v(e, c0, c1, f2)->Some_0.1);
            },
            ExpressionType::Ternary | ExpressionType::LogicalNot | ExpressionType::LogicalAnd
            | ExpressionType::LogicalOr => {
                lemma_branch_head_extends(e, f);
                let (c0, f3) = branch_head(e, f)->Some_0;
                lemma_branch_tail_extends(
                    e,
                    c0,
                    f3,
                    super::expression::register_value(f, super::expression::unknown_type()),
                    f,
                );
            },
            _ => {
                lemma_rendered_extends(cs[0], f);
                let (c0, f1) = rendered(cs[0], f)->Some_0;
                lemma_finish_one(e, c0, f1);
                lemma_extends_trans(f, f1, finish_one_v(e, c0, f1)->Some_0.1);
            },
        }
    }
}

proof fn lemma_args_extends(cs: Seq<ExprV>, f: FunctionV, n: nat)
    ensures
        rendered_args(cs, f, n) is Some ==> extends(f, rendered_args(cs, f, n)->Some_0.1),
    decreases cs, n,
{
    if n == 0 {
        lemma_extends_refl(f);
    } else if rendered_args(cs, f, n) is Some {
        lemma_args_extends(cs, f, (n - 1) as nat);
        let (cs2, f2) = rendered_args(cs, f, (n - 1) as nat)->Some_0;
        lemma_rendered_extends(cs[n - 1], f2);
        let (c, f3) = rendered(cs[n - 1], f2)->Some_0;
        lemma_extends_trans(f, f2, f3);
        lemma_emit(f, f3, OpCode::Push, seq![c.value->Some_0]);
    }
}

proof fn lemma_branch_head_extends(e: ExprV, f: FunctionV)
    ensures
        branch_head(e, f) is Some ==> extends(f, branch_head(e, f)->Some_0.1) && f.next_label + 2 < usize::MAX,
    decreases e, 1nat,
{
    if branch_head(e, f) is Some {
        let f0 = take_three_labels(f)->Some_0;
        let f1 = take_register(Some(f0))->Some_0;
        lemma_extends_refl(f);
        lemma_take(f, f, f0);
        lemma_take(f, f0, f1);
        lemma_rendered_extends(e.children[0], f1);
        let (c0, f2) = rendered(e.children[0], f1)->Some_0;
        lemma_extends_trans(f, f1, f2);
        let v0 = c0.value->Some_0;
        let args = seq![v0, super::expression::unknown_literal(0), ValueV::Label(label_name(f.next_label)),
            ValueV::Label(label_name((f.next_label + 1) as usize))];
        lemma_emit(f, f2, OpCode::Bne, args);
        lemma_place(f, emit(Some(f2), OpCode::Bne, args)->Some_0, f.next_label);
    }
}

proof fn lemma_branch_tail_extends(e: ExprV, c0: ExprV, f3: FunctionV, value: ValueV, f: FunctionV)
    requires
        extends(f, f3),
        f.next_label + 2 < usize::MAX,
    ensures
        ({
            let r = branch_tail(
                e,
                c0,
                f3,
                value,
                label_name((f.next_label + 1) as usize),
                label_name((f.next_label + 2) as usize),
            );
            r is Some ==> extends(f, r->Some_0.1)
        }),
    decreases e, 1nat,
{
    let clause = label_name((f.next_label + 1) as usize);
    let exit = label_name((f.next_label + 2) as usize);
    let cs = e.children;
    let jump = seq![ValueV::Label(exit)];
    let k1 = (f.next_label + 1) as usize;
    let k2 = (f.next_label + 2) as usize;
    let u0 = super::expression::unknown_literal(0);
    let u1 = super::expression::unknown_literal(1);
    if branch_tail(e, c0, f3, value, clause, exit) is Some {
        match e.mode {
            ExpressionType::LogicalNot => {
                lemma_emit(f, f3, OpCode::Mov, seq![value, u0]);
                let a = emit(Some(f3), OpCode::Mov, seq![value, u0])->Some_0;
                lemma_emit(f, a, OpCode::Jmp, jump);
                let b = emit(Some(a), OpCode::Jmp, jump)->Some_0;
                lemma_place(f, b, k1);
                let c = place_label_v(b, clause, b.next_index);
                lemma_emit(f, c, OpCode::Mov, seq![value, u1]);
                let d = emit(Some(c), OpCode::Mov, seq![value, u1])->Some_0;
                lemma_place(f, d, k2);
            },
            ExpressionType::LogicalOr => {
                lemma_emit(f, f3, OpCode::Mov, seq![value, u1]);
                let a = emit(Some(f3), OpCode::Mov, seq![value, u1])->Some_0;
                lemma_emit(f, a, OpCode::Jmp, jump);
                let b = emit(Some(a), OpCode::Jmp, jump)->Some_0;
                lemma_place(f, b, k1);
                let f4 = place_label_v(b, clause, b.next_index);
                lemma_rendered_extends(cs[1], f4);
                let (c1, f5) = rendered(cs[1], f4)->Some_0;
                lemma_extends_trans(f, f4, f5);
                lemma_emit(f, f5, OpCode::Mov, seq![value, c1.value->Some_0]);
                let g = emit(Some(f5), OpCode::Mov, seq![value, c1.value->Some_0])->Some_0;
                lemma_place(f, g, k2);
            },
            _ => {
                lemma_rendered_extends(cs[1], f3);
                let (c1, f4) = rendered(cs[1], f3)->Some_0;
                lemma_extends_trans(f, f3, f4);
                let v1 = c1.value->Some_0;
                lemma_emit(f, f4, OpCode::Mov, seq![value, v1]);
                let a = emit(Some(f4), OpCode::Mov, seq![value, v1])->Some_0;
                lemma_emit(f, a, OpCode::Jmp, jump);
                let b = emit(Some(a), OpCode::Jmp, jump)->Some_0;
                lemma_place(f, b, k1);
                let f5 = place_label_v(b, clause, b.next_index);
                if e.mode == ExpressionType::LogicalAnd {
                    lemma_emit(f, f5, OpCode::Mov, seq![value, u0]);
                    let g = emit(Some(f5), OpCode::Mov, seq![value, u0])->Some_0;
                    lemma_place(f, g, k2);
                } else {
                    lemma_rendered_extends(cs[2], f5);
                    let (c2, f6) = rendered(cs[2], f5)->Some_0;
                    lemma_extends_trans(f, f5, f6);
                    lemma_emit(f, f6, OpCode::Mov, seq![value, c2.value->Some_0]);
                    let g = emit(Some(f6), OpCode::Mov, seq![value, c2.value->Some_0])->Some_0;
                    lemma_place(f, g, k2);
                }
            },
        }
    }
}

proof fn lemma_value_extends(e: Option<ExprV>, f: FunctionV)
    ensures
        rendered_value(e, f) is Some ==> extends(f, rendered_value(e, f)->Some_0.1),
{
    if let Some(x) = e {
        lemma_rendered_extends(x, f);
    }
}

/// The function a rendering outcome leaves, if any.
pub open spec fn left_by(o: Option<(Option<Seq<char>>, FunctionV)>) -> Option<FunctionV> {
    match o {
        Some((_, g)) => Some(g),
        None => None,
    }
}

proof fn lemma_block_extends(cs: Seq<StmtV>, f: FunctionV, n: nat)
    ensures
        left_by(rendered_block(cs, f, n)) matches Some(g) ==> extends(f, g),
    decreases cs, n,
{
    reveal(rendered_statement);
    if n == 0 {
        lemma_extends_refl(f);
    } else {
        lemma_block_extends(cs, f, (n - 1) as nat);
        let prev = rendered_block(cs, f, (n - 1) as nat);
        match prev {
            Some((None, f1)) => if n - 1 < cs.len() {
                lemma_statement_extends(cs[n - 1], f1);
                assert(rendered_block(cs, f, n) == rendered_statement(cs[n - 1], f1));
                if let Some(g) = left_by(rendered_statement(cs[n - 1], f1)) {
                    lemma_extends_trans(f, f1, g);
                }
            } else {
                assert(rendered_block(cs, f, n) is None);
            },
            _ => {
                assert(rendered_block(cs, f, n) == prev);
            },
        }
    }
}

/// Rendering a statement extends the function, whatever the outcome.
pub proof fn lemma_statement_extends(s: StmtV, f: FunctionV)
    ensures
        left_by(rendered_statement(s, f)) matches Some(g) ==> extends(f, g),
    decreases s, 1nat,
{
    lemma_extends_refl(f);
    match s.mode {
        StatementType::IfStatement => lemma_if_extends(s, f),
        StatementType::WhileStatement => lemma_while_extends(s, f),
        StatementType::DoWhileStatement | StatementType::LoopStatement => lemma_loop_extends(s, f),
        StatementType::CompoundStatement => {
            reveal(rendered_statement);
            lemma_block_extends(s.children, f, s.children.len());
        },
        _ => lemma_simple_extends(s, f),
    }
}

proof fn lemma_simple_extends(s: StmtV, f: FunctionV)
    requires
        s.mode != StatementType::IfStatement,
        s.mode != StatementType::WhileStatement,
        s.mode != StatementType::DoWhileStatement,
        s.mode != StatementType::LoopStatement,
        s.mode != StatementType::CompoundStatement,
    ensures
        left_by(rendered_statement(s, f)) matches Some(g) ==> extends(f, g),
{
    reveal(rendered_statement);
    lemma_extends_refl(f);
    if left_by(rendered_statement(s, f)) is Some {
        match s.mode {
            StatementType::Empty => {
                lemma_emit(f, f, OpCode::Nop, Seq::empty());
            },
            StatementType::ContinueStatement => {
                if f.continue_stack.len() > 0 {
                    lemma_emit(f, f, OpCode::Jmp, seq![ValueV::Label(f.continue_stack.last())]);
                }
            },
            StatementType::BreakStatement => {
                if f.break_stack.len() > 0 && 0 < f.continue_stack.len() <= f.break_stack.len() {
                    lemma_emit(f, f, OpCode::Jmp, seq![ValueV::Label(f.break_stack[f.continue_stack.len() - 1])]);
                }
            },
            StatementType::InitializationStatement => {
                lemma_value_extends(s.expr, f);
                let (v, f2) = rendered_value(s.expr, f)->Some_0;
                let name = s.init_data->Some_0.1;
                let symbol = f.symbol_table[name];
                lemma_emit(f, f2, OpCode::Alloc, seq![ValueV::Symbol(symbol), super::utils::attempt_mutate_v(v, symbol.datatype)]);
            },
            StatementType::ReturnStatement => {
                lemma_value_extends(s.expr, f);
                let (v, f2) = rendered_value(s.expr, f)->Some_0;
                lemma_emit(f, f2, OpCode::Mov, seq![f2.return_value, v]);
                let e2 = emit(Some(f2), OpCode::Mov, seq![f2.return_value, v])->Some_0;
                lemma_emit(f, e2, OpCode::Jmp, seq![ValueV::Label("exit"@)]);
            },
            _ => {
                lemma_rendered_extends(s.expr->Some_0, f);
            },
        }
    }
}

proof fn lemma_if_extends(s: StmtV, f: FunctionV)
    requires
        s.mode == StatementType::IfStatement,
    ensures
        left_by(rendered_statement(s, f)) matches Some(g) ==> extends(f, g),
    decreases s, 0nat,
{
    reveal(rendered_statement);
    let cs = s.children;
    lemma_extends_refl(f);
    if left_by(rendered_statement(s, f)) is Some {
        let n = f.next_label;
        let f1 = take_three_labels(f)->Some_0;
        lemma_take(f, f, f1);
        lemma_value_extends(s.expr, f1);
        let (v, f2) = rendered_value(s.expr, f1)->Some_0;
        lemma_extends_trans(f, f1, f2);
        let args = branch_args(v, label_name(n), label_name((n + 1) as usize));
        lemma_emit(f, f2, OpCode::Bne, args);
        let e2 = emit(Some(f2), OpCode::Bne, args)->Some_0;
        lemma_place(f, e2, n);
        let f3 = place_label_v(e2, label_name(n), e2.next_index);
        lemma_statement_extends(cs[0], f3);
        lemma_extends_trans(f, f3, left_by(rendered_statement(cs[0], f3))->Some_0);
        if let Some((None, f4)) = rendered_statement(cs[0], f3) {
            let jump = seq![ValueV::Label(label_name((n + 2) as usize))];
            lemma_emit(f, f4, OpCode::Jmp, jump);
            let e4 = emit(Some(f4), OpCode::Jmp, jump)->Some_0;
            lemma_place(f, e4, (n + 1) as usize);
            let f5 = place_label_v(e4, label_name((n + 1) as usize), e4.next_index);
            if cs.len() >= 2 {
                lemma_statement_extends(cs[1], f5);
                lemma_extends_trans(f, f5, left_by(rendered_statement(cs[1], f5))->Some_0);
                if let Some((None, f6)) = rendered_statement(cs[1], f5) {
                    lemma_place(f, f6, (n + 2) as usize);
                }
            }
        }
    }
}

/// The parts of a `while` loop lowered from `f`: the function after its head
/// label is placed, after its condition is rendered to `v`, after the branch
/// and the body label, after the body, and after the back jump.
proof fn lemma_while_parts(s: StmtV, f: FunctionV)
    requires
        s.mode == StatementType::WhileStatement,
        left_by(rendered_statement(s, f)) is Some,
    ensures
        ({
            let n = f.next_label;
            let p1 = place_label_v_here(FunctionV { next_label: (n + 3) as usize, ..entered_loop_v(f) }, label_name(n));
            &&& n + 2 < usize::MAX
            &&& s.expr is Some
            &&& s.children.len() >= 1
            &&& rendered_value(s.expr, p1) is Some
            &&& extends(f, p1)
            &&& p1.labels_reverse[label_name(n)] == f.next_index
            &&& p1.next_label == n + 3
            &&& ({
                let (v, f2) = rendered_value(s.expr, p1)->Some_0;
                let e2 = emit(Some(f2), OpCode::Bne, branch_args(v, label_name((n + 2) as usize), label_name((n + 1) as usize)));
                &&& e2 is Some
                &&& ({
                    let f3 = place_label_v(e2->Some_0, label_name((n + 2) as usize), e2->Some_0.next_index);
                    &&& rendered_statement(s, f) == (match rendered_statement(s.children[0], f3) {
                        Some((None, f4)) => match place_here(emit(Some(f4), OpCode::Jmp, seq![ValueV::Label(label_name(n))]), label_name((n + 1) as usize)) {
                            None => None,
                            Some(f5) => Some((None, exited_loop_v(f5))),
                        },
                        other => other,
                    })
                })
            })
        }),
{
    reveal(rendered_statement);
    let n = f.next_label;
    let f1 = FunctionV { next_label: (n + 3) as usize, ..entered_loop_v(f) };
    assert(extends(f, f1));
    lemma_place(f, f1, n);
}

proof fn lemma_while_extends(s: StmtV, f: FunctionV)
    requires
        s.mode == StatementType::WhileStatement,
    ensures
        left_by(rendered_statement(s, f)) matches Some(g) ==> extends(f, g),
    decreases s, 0nat,
{
    if left_by(rendered_statement(s, f)) is Some {
        lemma_while_parts(s, f);
        let cs = s.children;
        let n = f.next_label;
        let p1 = place_label_v_here(FunctionV { next_label: (n + 3) as usize, ..entered_loop_v(f) }, label_name(n));
        lemma_value_extends(s.expr, p1);
        let (v, f2) = rendered_value(s.expr, p1)->Some_0;
        lemma_extends_trans(f, p1, f2);
        let args = branch_args(v, label_name((n + 2) as usize), label_name((n + 1) as usize));
        lemma_emit(f, f2, OpCode::Bne, args);
        let e2 = emit(Some(f2), OpCode::Bne, args)->Some_0;
        lemma_place(f, e2, (n + 2) as usize);
        let f3 = place_label_v(e2, label_name((n + 2) as usize), e2.next_index);
        lemma_statement_extends(cs[0], f3);
        if let Some(g4) = left_by(rendered_statement(cs[0], f3)) {
            lemma_extends_trans(f, f3, g4);
        }
        if let Some((None, f4)) = rendered_statement(cs[0], f3) {
            let jump = seq![ValueV::Label(label_name(n))];
            lemma_emit(f, f4, OpCode::Jmp, jump);
            let e4 = emit(Some(f4), OpCode::Jmp, jump)->Some_0;
            lemma_place(f, e4, (n + 1) as usize);
            let f5 = place_label_v(e4, label_name((n + 1) as usize), e4.next_index);
            assert(extends(f5, exited_loop_v(f5)));
            lemma_extends_trans(f, f5, exited_loop_v(f5));
        }
    }
}

proof fn lemma_loop_extends(s: StmtV, f: FunctionV)
    requires
        s.mode == StatementType::DoWhileStatement || s.mode == StatementType::LoopStatement,
    ensures
        left_by(rendered_statement(s, f)) matches Some(g) ==> extends(f, g),
    decreases s, 0nat,
{
    reveal(rendered_statement);
    let cs = s.children;
    lemma_extends_refl(f);
    if left_by(rendered_statement(s, f)) is Some {
        let n = f.next_label;
        let f1 = entered_loop_v(f);
        assert(extends(f, f1));
        lemma_place(f, f1, n);
        let p1 = place_label_v_here(f1, label_name(n));
        lemma_statement_extends(cs[0], p1);
        if let Some(g2) = left_by(rendered_statement(cs[0], p1)) {
            lemma_extends_trans(f, p1, g2);
        }
        if let Some((None, f2)) = rendered_statement(cs[0], p1) {
            if s.mode == StatementType::DoWhileStatement {
                lemma_value_extends(s.expr, f2);
                let (v, f3) = rendered_value(s.expr, f2)->Some_0;
                lemma_extends_trans(f, f2, f3);
                let args = branch_args(v, label_name(n), label_name((n + 1) as usize));
                lemma_emit(f, f3, OpCode::Bne, args);
                let e3 = emit(Some(f3), OpCode::Bne, args)->Some_0;
                lemma_place(f, e3, (n + 1) as usize);
                let f4 = place_label_v(e3, label_name((n + 1) as usize), e3.next_index);
                assert(extends(f4, exited_loop_v(f4)));
                lemma_extends_trans(f, f4, exited_loop_v(f4));
            } else {
                let jump = seq![ValueV::Label(label_name(n))];
                lemma_emit(f, f2, OpCode::Jmp, jump);
                let e2 = emit(Some(f2), OpCode::Jmp, jump)->Some_0;
                lemma_place(f, e2, (n + 1) as usize);
                let f3 = place_label_v(e2, label_name((n + 1) as usize), e2.next_index);
                assert(extends(f3, exited_loop_v(f3)));
                lemma_extends_trans(f, f3, exited_loop_v(f3));
            }
        }
    }
}

/// The loop test of a `while` loop lowered from `f` into `g` is the
/// instruction at `b`: after the condition's code, a `bne` of its value
/// against 0 whose first target (taken when the value is not 0) is placed at
/// the next instruction, where the body starts, and whose second target (taken
/// when it is 0) is placed past the whole loop; the loop's last instruction
/// jumps back to where the condition's code starts.
pub open spec fn while_test_at(f: FunctionV, g: FunctionV, b: int) -> bool {
    let t = g.instructions[b];
    let last = g.instructions[g.instructions.len() - 1];
    &&& f.instructions.len() <= b
    &&& b + 1 < g.instructions.len()
    &&& t.opcode == OpCode::Bne
    &&& t.arguments.len() == 4
    &&& t.arguments[1] matches ValueV::Literal(z) && z.value == 0
    &&& t.arguments[2] is Label
    &&& t.arguments[3] is Label
    &&& g.labels_reverse.contains_key(t.arguments[2]->Label_0)
    &&& g.labels_reverse[t.arguments[2]->Label_0] == b + 1
    &&& g.labels_reverse.contains_key(t.arguments[3]->Label_0)
    &&& g.labels_reverse[t.arguments[3]->Label_0] == g.instructions.len()
    &&& last.opcode == OpCode::Jmp
    &&& last.arguments.len() == 1
    &&& last.arguments[0] is Label
    &&& g.labels_reverse.contains_key(last.arguments[0]->Label_0)
    &&& g.labels_reverse[last.arguments[0]->Label_0] == f.instructions.len()
}

/// A label numbered below `n` is not numbered from `n` on.
proof fn lemma_not_from(k: usize, n: usize)
    requires
        k < n,
    ensures
        !label_from(label_name(k), n),
{
    if label_from(label_name(k), n) {
        let j = choose|j: usize| j >= n && label_name(k) == #[trigger] label_name(j);
        law_fresh_names_distinct(k, j);
    }
}

/// A `while` loop runs its body while its condition holds and leaves once it
/// does not: lowering `while (c) S` gives a `bne` on the value of `c` that
/// goes, when the value is not 0, to the label placed right after it (where
/// `S` starts) and, when it is 0, to the label placed after the loop's jump
/// back to its condition.
pub proof fn law_while_tests_before_its_body(s: StmtV, f: FunctionV)
    requires
        s.mode == StatementType::WhileStatement,
        ready(f),
        rendered_statement(s, f) matches Some((None, _)),
    ensures
        exists|b: int| #[trigger] while_test_at(f, rendered_statement(s, f)->Some_0.1, b),
{
    lemma_while_parts(s, f);
    let cs = s.children;
    let n = f.next_label;
    let start = label_name(n);
    let end = label_name((n + 1) as usize);
    let allow = label_name((n + 2) as usize);
    law_fresh_names_distinct(n, (n + 1) as usize);
    law_fresh_names_distinct(n, (n + 2) as usize);
    law_fresh_names_distinct((n + 1) as usize, (n + 2) as usize);
    let p1 = place_label_v_here(FunctionV { next_label: (n + 3) as usize, ..entered_loop_v(f) }, start);
    lemma_value_extends(s.expr, p1);
    let (v, f2) = rendered_value(s.expr, p1)->Some_0;
    lemma_not_from(n, p1.next_label);
    assert(p1.labels_reverse.contains_key(start));
    assert(extends(p1, f2));
    assert(f2.labels_reverse.contains_key(start));
    assert(f2.labels_reverse[start] == f.instructions.len());
    let b = f2.instructions.len() as int;
    let args = branch_args(v, allow, end);
    let e2 = emit(Some(f2), OpCode::Bne, args)->Some_0;
    let f3 = place_label_v(e2, allow, e2.next_index);
    assert(f3.labels_reverse[allow] == b + 1);
    assert(f3.labels_reverse[start] == f.instructions.len());
    assert(f3.instructions[b] == (InstructionV { opcode: OpCode::Bne, arguments: args }));
    assert(ready(f3));
    lemma_statement_extends(cs[0], f3);
    let f4 = rendered_statement(cs[0], f3)->Some_0.1;
    assert(rendered_statement(cs[0], f3) matches Some((None, _)));
    lemma_not_from((n + 2) as usize, f3.next_label);
    lemma_not_from(n, f3.next_label);
    assert(f3.labels_reverse.contains_key(allow));
    assert(f3.labels_reverse.contains_key(start));
    assert(extends(f3, f4));
    assert(f4.labels_reverse[allow] == b + 1);
    assert(f4.labels_reverse[start] == f.instructions.len());
    assert(f4.instructions[b] == f3.instructions[b]);
    let jump = seq![ValueV::Label(start)];
    let e4 = emit(Some(f4), OpCode::Jmp, jump)->Some_0;
    let f5 = place_label_v(e4, end, e4.next_index);
    let g = exited_loop_v(f5);
    assert(g == rendered_statement(s, f)->Some_0.1);
    assert(g.instructions[b] == f4.instructions[b]);
    assert(g.instructions[g.instructions.len() - 1] == (InstructionV { opcode: OpCode::Jmp, arguments: jump }));
    assert(while_test_at(f, g, b));
}

/// The test of an `if` statement lowered from `f` into `g` is the instruction
/// at `b`: a `bne` of the condition's value against 0 whose first target (taken
/// when the value is not 0) is placed at the next instruction, where the
/// first branch starts, and whose second target (taken when it is 0) is placed
/// at `q`, right after the jump that ends the first branch; that jump goes past
/// the whole statement.
pub open spec fn if_test_at(f: FunctionV, g: FunctionV, b: int, q: int) -> bool {
    let t = g.instructions[b];
    let j = g.instructions[q - 1];
    &&& f.instructions.len() <= b
    &&& b + 1 < q <= g.instructions.len()
    &&& t.opcode == OpCode::Bne
    &&& t.arguments.len() == 4
    &&& t.arguments[1] matches ValueV::Literal(z) && z.value == 0
    &&& t.arguments[2] is Label
    &&& t.arguments[3] is Label
    &&& g.labels_reverse.contains_key(t.arguments[2]->Label_0)
    &&& g.labels_reverse[t.arguments[2]->Label_0] == b + 1
    &&& g.labels_reverse.contains_key(t.arguments[3]->Label_0)
    &&& g.labels_reverse[t.arguments[3]->Label_0] == q
    &&& j.opcode == OpCode::Jmp
    &&& j.arguments.len() == 1
    &&& j.arguments[0] is Label
    &&& g.labels_reverse.contains_key(j.arguments[0]->Label_0)
    &&& g.labels_reverse[j.arguments[0]->Label_0] == g.instructions.len()
}

/// An `if` statement runs its first branch when its condition holds and its
/// second otherwise: lowering `if (c) S else T` gives a `bne` on the value of
/// `c` that goes, when the value is not 0, to the label placed right after it
/// (where `S` starts) and, when it is 0, to the label placed after the jump
/// that ends `S` (where `T` starts); that jump leaves the statement.
pub proof fn law_if_tests_before_its_branches(s: StmtV, f: FunctionV)
    requires
        s.mode == StatementType::IfStatement,
        ready(f),
        rendered_statement(s, f) matches Some((None, _)),
    ensures
        exists|b: int, q: int| #[trigger] if_test_at(f, rendered_statement(s, f)->Some_0.1, b, q),
{
    reveal(rendered_statement);
    let cs = s.children;
    let n = f.next_label;
    let body = label_name(n);
    let clause = label_name((n + 1) as usize);
    let exit = label_name((n + 2) as usize);
    law_fresh_names_distinct(n, (n + 1) as usize);
    law_fresh_names_distinct(n, (n + 2) as usize);
    law_fresh_names_distinct((n + 1) as usize, (n + 2) as usize);
    let f1 = take_three_labels(f)->Some_0;
    lemma_value_extends(s.expr, f1);
    let (v, f2) = rendered_value(s.expr, f1)->Some_0;
    let b = f2.instructions.len() as int;
    let args = branch_args(v, body, clause);
    let e2 = emit(Some(f2), OpCode::Bne, args)->Some_0;
    let f3 = place_label_v(e2, body, e2.next_index);
    assert(f3.labels_reverse[body] == b + 1);
    assert(f3.instructions[b] == (InstructionV { opcode: OpCode::Bne, arguments: args }));
    lemma_statement_extends(cs[0], f3);
    assert(rendered_statement(cs[0], f3) matches Some((None, _)));
    let f4 = rendered_statement(cs[0], f3)->Some_0.1;
    lemma_not_from(n, f3.next_label);
    assert(f3.labels_reverse.contains_key(body));
    assert(extends(f3, f4));
    let jump = seq![ValueV::Label(exit)];
    let e4 = emit(Some(f4), OpCode::Jmp, jump)->Some_0;
    let q = e4.instructions.len() as int;
    let f5 = place_label_v(e4, clause, e4.next_index);
    assert(f5.labels_reverse[clause] == q);
    assert(f5.labels_reverse[body] == b + 1);
    lemma_statement_extends(cs[1], f5);
    assert(rendered_statement(cs[1], f5) matches Some((None, _)));
    let f6 = rendered_statement(cs[1], f5)->Some_0.1;
    lemma_not_from(n, f5.next_label);
    lemma_not_from((n + 1) as usize, f5.next_label);
    assert(f5.labels_reverse.contains_key(body));
    assert(f5.labels_reverse.contains_key(clause));
    assert(extends(f5, f6));
    let g = place_label_v(f6, exit, f6.next_index);
    assert(g == rendered_statement(s, f)->Some_0.1);
    assert(g.instructions[q - 1] == (InstructionV { opcode: OpCode::Jmp, arguments: jump }));
    assert(g.instructions[b] == f3.instructions[b]);
    assert(if_test_at(f, g, b, q));
}

/// A `do`-`while` loop lowered from `f` into `g` ends with a `bne` of the
/// condition's value against 0 whose first target (taken when the value is
/// not 0) is placed where the body starts, at the loop's first instruction,
/// and whose second target (taken when it is 0) is placed right after it.
pub open spec fn do_while_test(f: FunctionV, g: FunctionV) -> bool {
    let b = g.instructions.len() - 1;
    let t = g.instructions[b];
    &&& f.instructions.len() <= b
    &&& t.opcode == OpCode::Bne
    &&& t.arguments.len() == 4
    &&& t.arguments[1] matches ValueV::Literal(z) && z.value == 0
    &&& t.arguments[2] is Label
    &&& t.arguments[3] is Label
    &&& g.labels_reverse.contains_key(t.arguments[2]->Label_0)
    &&& g.labels_reverse[t.arguments[2]->Label_0] == f.instructions.len()
    &&& g.labels_reverse.contains_key(t.arguments[3]->Label_0)
    &&& g.labels_reverse[t.arguments[3]->Label_0] == g.instructions.len()
}

/// A `do`-`while` loop runs its body again while its condition holds and
/// leaves once it does not.
pub proof fn law_do_while_tests_after_its_body(s: StmtV, f: FunctionV)
    requires
        s.mode == StatementType::DoWhileStatement,
        ready(f),
        rendered_statement(s, f) matches Some((None, _)),
    ensures
        do_while_test(f, rendered_statement(s, f)->Some_0.1),
{
    reveal(rendered_statement);
    let cs = s.children;
    let n = f.next_label;
    let start = label_name(n);
    let end = label_name((n + 1) as usize);
    law_fresh_names_distinct(n, (n + 1) as usize);
    let f1 = entered_loop_v(f);
    let p1 = place_label_v_here(f1, start);
    assert(p1.labels_reverse[start] == f.instructions.len());
    lemma_statement_extends(cs[0], p1);
    assert(rendered_statement(cs[0], p1) matches Some((None, _)));
    let f2 = rendered_statement(cs[0], p1)->Some_0.1;
    lemma_not_from(n, p1.next_label);
    assert(p1.labels_reverse.contains_key(start));
    assert(extends(p1, f2));
    lemma_value_extends(s.expr, f2);
    let (v, f3) = rendered_value(s.expr, f2)->Some_0;
    lemma_not_from(n, f2.next_label);
    assert(f2.labels_reverse.contains_key(start));
    assert(extends(f2, f3));
    let args = branch_args(v, start, end);
    let e3 = emit(Some(f3), OpCode::Bne, args)->Some_0;
    let f4 = place_label_v(e3, end, e3.next_index);
    let g = exited_loop_v(f4);
    assert(g == rendered_statement(s, f)->Some_0.1);
    assert(g.instructions[g.instructions.len() - 1] == (InstructionV { opcode: OpCode::Bne, arguments: args }));
}

/// A `loop` lowered from `f` into `g` ends with a jump back to the label
/// placed at its first instruction, and the label after it (where a `break`
/// goes) is placed past that jump.
pub open spec fn loop_back(f: FunctionV, g: FunctionV) -> bool {
    let j = g.instructions[g.instructions.len() - 1];
    &&& f.instructions.len() < g.instructions.len()
    &&& j.opcode == OpCode::Jmp
    &&& j.arguments.len() == 1
    &&& j.arguments[0] is Label
    &&& g.labels_reverse.contains_key(j.arguments[0]->Label_0)
    &&& g.labels_reverse[j.arguments[0]->Label_0] == f.instructions.len()
    &&& g.labels_reverse.contains_key(label_name((f.next_label + 1) as usize))
    &&& g.labels_reverse[label_name((f.next_label + 1) as usize)] == g.instructions.len()
}

/// A `loop` runs its body again and again: its code ends with a jump back to
/// its start, and its end label lies past that jump.
pub proof fn law_loop_jumps_back(s: StmtV, f: FunctionV)
    requires
        s.mode == StatementType::LoopStatement,
        ready(f),
        rendered_statement(s, f) matches Some((None, _)),
    ensures
        loop_back(f, rendered_statement(s, f)->Some_0.1),
{
    reveal(rendered_statement);
    let cs = s.children;
    let n = f.next_label;
    let start = label_name(n);
    let end = label_name((n + 1) as usize);
    law_fresh_names_distinct(n, (n + 1) as usize);
    let p1 = place_label_v_here(entered_loop_v(f), start);
    lemma_statement_extends(cs[0], p1);
    assert(rendered_statement(cs[0], p1) matches Some((None, _)));
    let f2 = rendered_statement(cs[0], p1)->Some_0.1;
    lemma_not_from(n, p1.next_label);
    assert(p1.labels_reverse.contains_key(start));
    assert(extends(p1, f2));
    let jump = seq![ValueV::Label(start)];
    let e2 = emit(Some(f2), OpCode::Jmp, jump)->Some_0;
    let f3 = place_label_v(e2, end, e2.next_index);
    let g = exited_loop_v(f3);
    assert(g == rendered_statement(s, f)->Some_0.1);
    assert(g.instructions[g.instructions.len() - 1] == (InstructionV { opcode: OpCode::Jmp, arguments: jump }));
}

} // verus!
