use llvm_compiler::irgen::optimize::{
    optimization_arithmatic_constants, optimization_clean_branches, optimization_dead_code,
    optimization_jump_chaining, optimization_redundant_labels, optimization_redundant_moves,
    optimization_remove_casts, optimization_remove_unused_labels, optimization_remove_unused_registers,
    optimization_clean_registers, optimization_combine_domains, optimization_remove_nop, optimize_function,
    correct_types,
};
use llvm_compiler::irgen::{DataType, Function, Instruction, Literal, NonPtrType, OpCode, Symbol, Value};

fn i32t() -> DataType {
    DataType::new(NonPtrType::I32, 0, false)
}

fn sym(name: &str) -> Value {
    Value::Symbol(Symbol::new(name.to_string(), i32t()))
}

fn lit(v: i128) -> Value {
    Value::Literal(Literal::new(v, i32t()))
}

fn label(name: &str) -> Value {
    Value::Label(name.to_string())
}

fn build(insts: Vec<(OpCode, Vec<Value>)>) -> Function {
    let mut f = Function::new();
    for (op, args) in insts {
        f.add_instruction(Instruction::new(op, args));
    }
    f
}

fn ops(f: &Function) -> Vec<OpCode> {
    f.instructions.iter().map(|i| i.opcode).collect()
}

#[test]
fn fresh_labels_and_registers_are_distinct() {
    let mut f = Function::new();
    assert_eq!(f.get_label(), "L0");
    assert_eq!(f.get_label(), "L1");
    assert_eq!(f.get_register(), "R1");
    assert_eq!(f.get_register(), "R2");
}

#[test]
fn listing_of_a_function() {
    let mut f = Function::new();
    f.set_function_signature(i32t(), "main".to_string(), vec![("a".to_string(), i32t())]);
    f.place_label_here("exit".to_string());
    f.add_instruction(Instruction::new(OpCode::Ret, vec![sym("a")]));
    assert_eq!(f.render_signature(), "i32 main(i32 a)");
    assert_eq!(f.render(), "i32 main(i32 a)\n000 exit:          ret    %a (i32)       \n");
}

#[test]
fn redundant_moves_become_nops() {
    let f = build(vec![(OpCode::Mov, vec![sym("R1"), sym("R1")]), (OpCode::Mov, vec![sym("R1"), sym("R2")])]);
    let r = optimization_redundant_moves(f);
    assert_eq!(ops(&r), vec![OpCode::Nop, OpCode::Mov]);
    assert!(r.instructions[0].arguments.is_empty());
    // Applying it again changes nothing.
    let again = optimization_redundant_moves(r);
    assert_eq!(ops(&again), vec![OpCode::Nop, OpCode::Mov]);
}

#[test]
fn constants_are_folded() {
    let f = build(vec![
        (OpCode::Add, vec![sym("R1"), lit(2), lit(3)]),
        (OpCode::Mul, vec![sym("R2"), lit(-4), lit(5)]),
        (OpCode::Div, vec![sym("R3"), lit(-7), lit(2)]),
        (OpCode::Sub, vec![sym("R4"), sym("R1"), lit(2)]),
    ]);
    let r = optimization_arithmatic_constants(f);
    assert_eq!(ops(&r), vec![OpCode::Mov, OpCode::Mov, OpCode::Mov, OpCode::Sub]);
    assert_eq!(r.instructions[0].arguments, vec![sym("R1"), lit(5)]);
    assert_eq!(r.instructions[1].arguments, vec![sym("R2"), lit(-20)]);
    assert_eq!(r.instructions[2].arguments, vec![sym("R3"), lit(-3)]);
    let again = optimization_arithmatic_constants(r);
    assert_eq!(again.instructions[0].arguments, vec![sym("R1"), lit(5)]);
}

#[test]
fn unreachable_code_becomes_nops_but_returns_stay() {
    let mut f = build(vec![
        (OpCode::Jmp, vec![label("L1")]),
        (OpCode::Add, vec![sym("R1"), lit(1), lit(2)]),
        (OpCode::Ret, vec![sym("R1")]),
        (OpCode::Ret, vec![lit(0)]),
    ]);
    f.place_label("L1".to_string(), 3);
    let r = optimization_dead_code(f);
    assert_eq!(ops(&r), vec![OpCode::Jmp, OpCode::Nop, OpCode::Ret, OpCode::Ret]);
    // Removing dead code again changes nothing.
    let again = optimization_dead_code(r);
    assert_eq!(ops(&again), vec![OpCode::Jmp, OpCode::Nop, OpCode::Ret, OpCode::Ret]);
    assert_eq!(again.instructions[2].arguments, vec![sym("R1")]);
}

#[test]
fn jumps_to_jumps_are_chained() {
    let mut f = build(vec![
        (OpCode::Jmp, vec![label("L1")]),
        (OpCode::Nop, vec![]),
        (OpCode::Jmp, vec![label("L2")]),
        (OpCode::Ret, vec![lit(0)]),
    ]);
    f.place_label("L1".to_string(), 2);
    f.place_label("L2".to_string(), 3);
    let r = optimization_jump_chaining(f);
    assert_eq!(ops(&r), vec![OpCode::Jmp, OpCode::Nop, OpCode::Nop, OpCode::Ret]);
    assert_eq!(r.instructions[0].arguments, vec![label("L2")]);
    assert_eq!(r.instructions.len(), 4);
}

#[test]
fn branch_with_equal_targets_becomes_jump() {
    let mut f = build(vec![
        (OpCode::Bne, vec![sym("R1"), lit(0), label("A"), label("B")]),
        (OpCode::Ret, vec![lit(0)]),
    ]);
    f.place_label("A".to_string(), 1);
    f.place_label("B".to_string(), 1);
    let r = optimization_jump_chaining(f);
    assert_eq!(ops(&r), vec![OpCode::Jmp, OpCode::Ret]);
    assert_eq!(r.instructions[0].arguments, vec![label("A")]);
}

#[test]
fn labels_are_referred_to_by_the_first_label_of_their_place() {
    let mut f = build(vec![(OpCode::Jmp, vec![label("L3")]), (OpCode::Ret, vec![lit(0)])]);
    f.place_label("L2".to_string(), 1);
    f.place_label("L3".to_string(), 1);
    let r = optimization_redundant_labels(f);
    assert_eq!(r.instructions[0].arguments, vec![label("L2")]);
    let r = optimization_remove_unused_labels(r);
    assert!(r.labels_reverse.contains_key(&"L2".to_string()));
    assert!(!r.labels_reverse.contains_key(&"L3".to_string()));
    assert_eq!(r.labels.get(&1), Some(&vec!["L2".to_string()]));
}

#[test]
fn compare_and_branch_become_one_branch() {
    let mut f = build(vec![
        (OpCode::Ceq, vec![sym("R1"), sym("a"), lit(3)]),
        (OpCode::Bne, vec![sym("R1"), lit(0), label("T"), label("F")]),
        (OpCode::Ret, vec![lit(1)]),
        (OpCode::Ret, vec![lit(0)]),
    ]);
    f.place_label("T".to_string(), 2);
    f.place_label("F".to_string(), 3);
    let r = optimization_clean_branches(f);
    assert_eq!(ops(&r), vec![OpCode::Nop, OpCode::Beq, OpCode::Ret, OpCode::Ret]);
    assert_eq!(r.instructions[1].arguments, vec![sym("a"), lit(3), label("T"), label("F")]);
}

#[test]
fn writes_never_read_are_removed() {
    let f = build(vec![(OpCode::Mov, vec![sym("R1"), lit(5)]), (OpCode::Ret, vec![sym("R2")])]);
    let r = optimization_remove_unused_registers(f);
    assert_eq!(ops(&r), vec![OpCode::Nop, OpCode::Ret]);
}

#[test]
fn written_register_that_is_read_stays() {
    let f = build(vec![(OpCode::Mov, vec![sym("R1"), lit(5)]), (OpCode::Ret, vec![sym("R1")])]);
    let r = optimization_remove_unused_registers(f);
    assert_eq!(ops(&r), vec![OpCode::Mov, OpCode::Ret]);
}

#[test]
fn casts_of_literals_are_folded_into_their_reads() {
    let i8t = DataType::new(NonPtrType::I8, 0, false);
    let f = build(vec![
        (OpCode::Cast, vec![sym("R1"), Value::Literal(Literal::new(5, i8t))]),
        (OpCode::Add, vec![sym("R2"), sym("R1"), sym("R1")]),
        (OpCode::Ret, vec![sym("R2")]),
    ]);
    let r = optimization_remove_casts(f);
    assert_eq!(ops(&r), vec![OpCode::Nop, OpCode::Add, OpCode::Ret]);
    assert_eq!(r.instructions[1].arguments, vec![sym("R2"), lit(5), lit(5)]);
}

#[test]
fn removing_a_label_undoes_placing_it() {
    let mut f = build(vec![(OpCode::Ret, vec![lit(0)])]);
    f.place_label("A".to_string(), 0);
    f.place_label("B".to_string(), 0);
    assert_eq!(f.labels.get(&0), Some(&vec!["A".to_string(), "B".to_string()]));
    f.remove_label("B".to_string());
    assert_eq!(f.labels.get(&0), Some(&vec!["A".to_string()]));
    assert!(!f.labels_reverse.contains_key(&"B".to_string()));
    f.place_label("C".to_string(), 5);
    f.remove_label("C".to_string());
    assert_eq!(f.labels.get(&5), None);
    assert_eq!(f.labels_reverse.len(), 1);
}

#[test]
fn signature_writes_each_argument_type_first() {
    let mut f = Function::new();
    let i8p2 = DataType::new(NonPtrType::I8, 2, false);
    f.set_function_signature(i32t(), "main".to_string(), vec![("argc".to_string(), i32t()), ("argv".to_string(), i8p2)]);
    assert_eq!(f.render_signature(), "i32 main(i32 argc, i8** argv)");
}

#[test]
fn nops_go_and_labels_move_to_the_next_instruction() {
    let mut f = build(vec![
        (OpCode::Nop, vec![]),
        (OpCode::Mov, vec![sym("a"), lit(1)]),
        (OpCode::Nop, vec![]),
        (OpCode::Nop, vec![]),
        (OpCode::Ret, vec![sym("a")]),
    ]);
    f.place_label("L0".to_string(), 0);
    f.place_label("L2".to_string(), 2);
    f.place_label("L3".to_string(), 3);
    f.place_label("L5".to_string(), 5);
    let r = optimization_remove_nop(f);
    assert_eq!(ops(&r), vec![OpCode::Mov, OpCode::Ret]);
    assert_eq!(r.labels.get(&0).unwrap(), &vec!["L0".to_string()]);
    assert_eq!(r.labels.get(&1).unwrap(), &vec!["L2".to_string(), "L3".to_string()]);
    assert_eq!(r.labels.get(&2).unwrap(), &vec!["L5".to_string()]);
    assert_eq!(*r.labels_reverse.get(&"L3".to_string()).unwrap(), 1);
    assert_eq!(*r.labels_reverse.get(&"L5".to_string()).unwrap(), 2);
    assert_eq!(r.labels.len(), 3);
}

#[test]
fn unused_labels_leave_both_tables() {
    let mut f = build(vec![(OpCode::Jmp, vec![label("L1")]), (OpCode::Ret, vec![lit(0)])]);
    f.place_label("L1".to_string(), 1);
    f.place_label("L9".to_string(), 1);
    f.place_label("L7".to_string(), 0);
    let r = optimization_remove_unused_labels(f);
    assert_eq!(r.labels.get(&1).unwrap(), &vec!["L1".to_string()]);
    assert!(r.labels.get(&0).is_none());
    assert!(r.labels_reverse.get(&"L9".to_string()).is_none());
    assert_eq!(*r.labels_reverse.get(&"L1".to_string()).unwrap(), 1);
}

#[test]
fn a_register_set_once_from_a_literal_is_replaced_by_it() {
    let f = build(vec![
        (OpCode::Mov, vec![sym("t"), lit(7)]),
        (OpCode::Add, vec![sym("b"), sym("t"), sym("t")]),
        (OpCode::Ret, vec![sym("b")]),
    ]);
    let r = optimization_clean_registers(f);
    assert_eq!(ops(&r), vec![OpCode::Nop, OpCode::Add, OpCode::Ret]);
    assert_eq!(r.instructions[1].arguments, vec![sym("b"), lit(7), lit(7)]);
}

#[test]
fn a_copy_is_read_through_until_its_source_changes() {
    let mut f = build(vec![
        (OpCode::Mov, vec![sym("t"), sym("s")]),
        (OpCode::Add, vec![sym("b"), sym("t"), lit(1)]),
        (OpCode::Mov, vec![sym("s"), lit(3)]),
        (OpCode::Add, vec![sym("c"), sym("t"), lit(2)]),
        (OpCode::Ret, vec![sym("c")]),
    ]);
    // `s` is an argument, so its own writes are left alone.
    f.set_function_signature(i32t(), "f".to_string(), vec![("s".to_string(), i32t())]);
    let r = optimization_clean_registers(f);
    assert_eq!(r.instructions[1].arguments, vec![sym("b"), sym("s"), lit(1)]);
    assert_eq!(r.instructions[3].arguments, vec![sym("c"), sym("t"), lit(2)]);
}

#[test]
fn registers_with_separate_domains_are_combined() {
    let f = build(vec![
        (OpCode::Mov, vec![sym("x"), lit(1)]),
        (OpCode::Push, vec![sym("x")]),
        (OpCode::Mov, vec![sym("y"), lit(2)]),
        (OpCode::Push, vec![sym("y")]),
        (OpCode::Ret, vec![lit(0)]),
    ]);
    let r = optimization_combine_domains(f);
    assert_eq!(r.instructions[2].arguments, vec![sym("x"), lit(2)]);
    assert_eq!(r.instructions[3].arguments, vec![sym("x")]);
}

#[test]
fn registers_with_overlapping_domains_stay_apart() {
    let f = build(vec![
        (OpCode::Mov, vec![sym("x"), lit(1)]),
        (OpCode::Mov, vec![sym("y"), lit(2)]),
        (OpCode::Add, vec![sym("z"), sym("x"), sym("y")]),
        (OpCode::Ret, vec![sym("z")]),
    ]);
    let r = optimization_combine_domains(f);
    assert_eq!(r.instructions[1].arguments, vec![sym("y"), lit(2)]);
    assert_eq!(r.instructions[2].arguments[1], sym("x"));
}

#[test]
fn optimizing_folds_a_return_of_a_literal() {
    let mut f = build(vec![
        (OpCode::Mov, vec![sym("R0"), lit(0)]),
        (OpCode::Jmp, vec![label("exit")]),
        (OpCode::Ret, vec![sym("R0")]),
    ]);
    f.place_label("exit".to_string(), 2);
    let r = optimize_function(f, 2, true);
    assert_eq!(ops(&r), vec![OpCode::Ret]);
    assert_eq!(r.instructions[0].arguments, vec![lit(0)]);
    assert_eq!(r.labels.len(), 0);
}

#[test]
fn optimizing_at_level_zero_keeps_registers() {
    let mut f = build(vec![
        (OpCode::Mov, vec![sym("R0"), lit(0)]),
        (OpCode::Jmp, vec![label("exit")]),
        (OpCode::Ret, vec![sym("R0")]),
    ]);
    f.place_label("exit".to_string(), 2);
    let r = optimize_function(f, 0, false);
    assert_eq!(ops(&r), vec![OpCode::Mov, OpCode::Jmp, OpCode::Ret]);
}

fn unknown() -> DataType {
    DataType::new(NonPtrType::Unknown, 0, false)
}

#[test]
fn unknown_types_take_the_type_of_their_instruction() {
    let u8t = DataType::new(NonPtrType::U8, 0, false);
    let f = build(vec![
        (OpCode::Mov, vec![Value::Symbol(Symbol::new("x".to_string(), u8t)), Value::Literal(Literal::new(4, unknown()))]),
        (OpCode::Add, vec![
            Value::Symbol(Symbol::new("y".to_string(), unknown())),
            Value::Symbol(Symbol::new("x".to_string(), unknown())),
            Value::Literal(Literal::new(1, unknown())),
        ]),
        (OpCode::Ret, vec![Value::Symbol(Symbol::new("z".to_string(), unknown()))]),
    ]);
    let r = correct_types(f);
    // The literal takes the type of the symbol beside it.
    assert_eq!(r.instructions[0].arguments[1], Value::Literal(Literal::new(4, u8t)));
    // `x` is known to be a `u8`; the rest of its instruction follows.
    assert_eq!(r.instructions[1].arguments[1], Value::Symbol(Symbol::new("x".to_string(), u8t)));
    assert_eq!(r.instructions[1].arguments[0], Value::Symbol(Symbol::new("y".to_string(), u8t)));
    assert_eq!(r.instructions[1].arguments[2], Value::Literal(Literal::new(1, u8t)));
    // Nothing says what `z` is: it becomes an `i32`.
    assert_eq!(r.instructions[2].arguments[0], sym("z"));
}

#[test]
fn optimizing_keeps_the_signature() {
    let mut f = build(vec![
        (OpCode::Mov, vec![sym("t"), lit(3)]),
        (OpCode::Add, vec![sym("R0"), sym("a"), sym("t")]),
        (OpCode::Ret, vec![sym("R0")]),
    ]);
    f.set_function_signature(i32t(), "add3".to_string(), vec![("a".to_string(), i32t())]);
    let r = optimize_function(f, 2, false);
    assert_eq!(r.render_signature(), "i32 add3(i32 a)");
    assert_eq!(ops(&r), vec![OpCode::Add, OpCode::Ret]);
    assert_eq!(r.instructions[0].arguments, vec![sym("R0"), sym("a"), lit(3)]);
}

#[test]
fn an_unnamed_place_without_labels_does_not_stop_relabelling() {
    let mut f = build(vec![(OpCode::Jmp, vec![label("L3")]), (OpCode::Ret, vec![lit(0)])]);
    f.place_label("L2".to_string(), 1);
    f.place_label("L3".to_string(), 1);
    f.labels.insert(0, vec![]);
    let r = optimization_redundant_labels(f);
    assert_eq!(r.instructions[0].arguments, vec![label("L2")]);
    assert_eq!(r.labels.get(&0), Some(&vec![]));
}

#[test]
fn removing_a_fresh_label_restores_the_tables() {
    let mut f = build(vec![(OpCode::Ret, vec![lit(0)])]);
    f.place_label("A".to_string(), 0);
    f.place_label("X".to_string(), 0);
    f.remove_label("X".to_string());
    assert_eq!(f.labels.get(&0), Some(&vec!["A".to_string()]));
    assert_eq!(f.labels.len(), 1);
    assert_eq!(*f.labels_reverse.get(&"A".to_string()).unwrap(), 0);
    assert_eq!(f.labels_reverse.len(), 1);
    // A place whose label list is empty loses its entry.
    f.labels.insert(3, vec![]);
    f.place_label("Y".to_string(), 3);
    f.remove_label("Y".to_string());
    assert_eq!(f.labels.get(&3), None);
}
