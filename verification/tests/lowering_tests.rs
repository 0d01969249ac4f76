use llvm_compiler::cli::{Options, Severity};
use llvm_compiler::irgen::OpCode;
use llvm_compiler::parser::ExpressionType;
use llvm_compiler::compile::generate_code;
use llvm_compiler::irgen::optimize::{optimization_dead_code, optimization_jump_chaining};
use llvm_compiler::irgen::Function;
use llvm_compiler::parser::ParseTreeNode;
use llvm_compiler::tokenizer::{FileLocation, Token};

fn tok(s: &str) -> Token {
    Token::new(FileLocation::from_name("main.pc"), s.to_string())
}

/// `i32 main() { return 0; }`
fn main_returning_zero() -> ParseTreeNode {
    ParseTreeNode::Function(vec![
        ParseTreeNode::Type(vec![ParseTreeNode::RawType(tok("i32"))]),
        ParseTreeNode::Identifier(tok("main")),
        ParseTreeNode::Empty,
        ParseTreeNode::Statements(vec![ParseTreeNode::ReturnStatement(vec![
            ParseTreeNode::IntegerLiteral(tok("0")),
        ])]),
    ])
}

fn expected_listing() -> String {
    format!(
        "i32 main()\n000 {:15}{:7}{:15}{:15}\n001 {:15}{:7}{:15}\n002 {:15}{:7}{:15}\n",
        "", "mov", "%R0 (i32)", "0 (Unk)", "", "jmp", "exit", "exit: ", "ret", "%R0 (i32)"
    )
}

#[test]
fn lowering_a_return() {
    let f = Function::from_parse_tree_node(main_returning_zero()).unwrap();
    assert_eq!(f.render(), expected_listing());
}

#[test]
fn lowering_reports_unknown_type() {
    let node = ParseTreeNode::Function(vec![
        ParseTreeNode::Type(vec![ParseTreeNode::RawType(tok("f32"))]),
        ParseTreeNode::Identifier(tok("main")),
        ParseTreeNode::Empty,
        ParseTreeNode::Statements(vec![]),
    ]);
    let e = Function::from_parse_tree_node(node).err().unwrap();
    assert_eq!(e.message().as_str(), "Compilation Error: Bad type, 'f32'");
}

#[test]
fn lowering_reports_unknown_symbol() {
    let node = ParseTreeNode::Function(vec![
        ParseTreeNode::Type(vec![ParseTreeNode::RawType(tok("i32"))]),
        ParseTreeNode::Identifier(tok("main")),
        ParseTreeNode::Empty,
        ParseTreeNode::Statements(vec![ParseTreeNode::ReturnStatement(vec![
            ParseTreeNode::Identifier(tok("nope")),
        ])]),
    ]);
    let e = Function::from_parse_tree_node(node).err().unwrap();
    assert_eq!(
        e.message().as_str(),
        "Compilation Error: Symbol nope not found in symbol table at Line 1:1 in file 'main.pc'"
    );
}

#[test]
fn passes_on_a_lowered_function() {
    let f = Function::from_parse_tree_node(main_returning_zero()).unwrap();
    // The jump to the next instruction disappears.
    let chained = optimization_jump_chaining(f);
    assert_eq!(chained.instructions.len(), 3);
    assert_eq!(chained.instructions[1].opcode, llvm_compiler::irgen::OpCode::Nop);
    let live = optimization_dead_code(chained);
    assert_eq!(live.instructions.len(), 3);
    assert_eq!(live.instructions[2].opcode, llvm_compiler::irgen::OpCode::Ret);
}

#[test]
fn compiling_a_library_in_ir_mode() {
    let lib = ParseTreeNode::Library(vec![main_returning_zero()]);
    let opts = Options::new(vec!["compiler".to_string(), "main.pc".to_string()]);
    let optimized = format!("i32 main()\n000 {:15}{:7}{:15}\n", "", "ret", "0 (Unk)");
    assert_eq!(generate_code(&lib, &opts).unwrap(), format!("{}\n", optimized));
}

#[test]
fn compiling_at_level_zero_keeps_the_listing() {
    let lib = ParseTreeNode::Library(vec![main_returning_zero()]);
    let opts = Options::new(vec!["compiler".to_string(), "-O".to_string(), "0".to_string(), "--nocomp".to_string(), "main.pc".to_string()]);
    assert_eq!(generate_code(&lib, &opts).unwrap(), format!("{}\n", expected_listing()));
}

#[test]
fn compiling_with_a_bad_level_is_fatal() {
    let lib = ParseTreeNode::Library(vec![main_returning_zero()]);
    let opts = Options::new(vec!["compiler".to_string(), "-O".to_string(), "fast".to_string(), "main.pc".to_string()]);
    let e = generate_code(&lib, &opts).err().unwrap();
    assert_eq!(e.severity(), Severity::FatalError);
    assert_eq!(e.message().as_str(), "Invalid optimization level");
}

fn i32_type() -> ParseTreeNode {
    ParseTreeNode::Type(vec![ParseTreeNode::RawType(tok("i32"))])
}

fn ops_of(f: &Function) -> Vec<OpCode> {
    f.instructions.iter().map(|i| i.opcode).collect()
}

/// `i32 main(i32 a) { <body> }`
fn main_with_argument(body: Vec<ParseTreeNode>) -> ParseTreeNode {
    ParseTreeNode::Function(vec![
        i32_type(),
        ParseTreeNode::Identifier(tok("main")),
        ParseTreeNode::Arguments(vec![ParseTreeNode::Argument(vec![i32_type(), ParseTreeNode::Identifier(tok("a"))])]),
        ParseTreeNode::Statements(body),
    ])
}

#[test]
fn bitwise_not_is_an_exclusive_or_with_all_ones() {
    let node = main_with_argument(vec![ParseTreeNode::ReturnStatement(vec![ParseTreeNode::Expression(
        ExpressionType::BitwiseNot,
        vec![ParseTreeNode::Identifier(tok("a"))],
    )])]);
    let f = Function::from_parse_tree_node(node).unwrap();
    let ops = ops_of(&f);
    assert!(ops.contains(&OpCode::Xor));
    assert!(!ops.contains(&OpCode::Sub));
}

#[test]
fn compound_assignments_apply_their_operator() {
    for (kind, op) in [
        (ExpressionType::SubtractAssign, OpCode::Sub),
        (ExpressionType::MultiplyAssign, OpCode::Mul),
        (ExpressionType::BitwiseXorAssign, OpCode::Xor),
        (ExpressionType::ShiftLeftAssign, OpCode::Shl),
    ] {
        let node = main_with_argument(vec![
            ParseTreeNode::Statement(vec![ParseTreeNode::Expression(
                kind,
                vec![ParseTreeNode::Identifier(tok("a")), ParseTreeNode::IntegerLiteral(tok("1"))],
            )]),
            ParseTreeNode::ReturnStatement(vec![ParseTreeNode::Identifier(tok("a"))]),
        ]);
        let f = Function::from_parse_tree_node(node).unwrap();
        assert!(ops_of(&f).contains(&op));
    }
}

#[test]
fn the_else_branch_follows_the_else_label() {
    let node = main_with_argument(vec![ParseTreeNode::IfStatement(vec![
        ParseTreeNode::Identifier(tok("a")),
        ParseTreeNode::Empty,
        ParseTreeNode::ReturnStatement(vec![ParseTreeNode::Identifier(tok("a"))]),
    ])]);
    let f = Function::from_parse_tree_node(node).unwrap();
    let ops = ops_of(&f);
    assert!(ops.contains(&OpCode::Bne));
    assert!(ops.contains(&OpCode::Mov));
}
