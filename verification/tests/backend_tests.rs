use llvm_compiler::cli::{Options, Severity};
use llvm_compiler::codegen::{CodeGenerator, CodegenMode};
use llvm_compiler::compile::generate_code;
use llvm_compiler::codegen::llvm::LLVMGenerator;
use llvm_compiler::codegen::avrasm::FunctionGenerationContext;
use llvm_compiler::irgen::{DataType, Function, Instruction, Literal, NonPtrType, OpCode, Symbol, Value};
use llvm_compiler::parser::display::display_parse_tree;
use llvm_compiler::parser::ParseTreeNode;
use llvm_compiler::tokenizer::{FileLocation, Token};

fn opts(words: &[&str]) -> Options {
    Options::new(words.iter().map(|w| w.to_string()).collect())
}

fn tok(s: &str) -> Token {
    Token::new(FileLocation::from_name("f"), s.to_string())
}

#[test]
fn codegen_modes_by_name() {
    assert_eq!(CodegenMode::from_mode("ir"), CodegenMode::IntermediateRepresentation);
    assert_eq!(CodegenMode::from_mode("llvm"), CodegenMode::LLVM);
    assert_eq!(CodegenMode::from_mode("avrasm"), CodegenMode::AvrAssembly);
    assert_eq!(CodegenMode::from_mode("x86"), CodegenMode::Unknown);
}

#[test]
fn ir_output_lists_each_function_then_an_empty_line() {
    let i32t = DataType::new(NonPtrType::I32, 0, false);
    let mut f = Function::new();
    f.set_function_signature(i32t, "one".to_string(), vec![]);
    f.add_instruction(Instruction::new(OpCode::Ret, vec![Value::Literal(Literal::new(1, i32t))]));
    let expected = format!("{}\n", f.render());
    let g = CodeGenerator::new(CodegenMode::IntermediateRepresentation, vec![f], opts(&["compiler"]));
    let out = g.render().unwrap();
    assert_eq!(out, expected);
    assert_eq!(out, format!("i32 one()\n000 {:15}ret    {:15}\n\n", "", "1 (i32)"));
}

#[test]
fn unknown_mode_is_fatal() {
    let g = CodeGenerator::new(CodegenMode::Unknown, vec![], opts(&["compiler"]));
    let e = g.render().err().unwrap();
    assert_eq!(e.severity(), Severity::FatalError);
    assert_eq!(e.message().as_str(), "Unknown Codegen Mode");
}

#[test]
fn generate_code_for_an_empty_library() {
    let lib = ParseTreeNode::Library(vec![]);
    assert_eq!(generate_code(&lib, &opts(&["compiler"])).unwrap(), "");
    assert_eq!(generate_code(&lib, &opts(&["compiler", "-g", "llvm"])).unwrap(), "");
    let e = generate_code(&lib, &opts(&["compiler", "-g", "bogus"])).err().unwrap();
    assert_eq!(e.message().as_str(), "Unknown Codegen Mode");
    // A tree that is not a library has no functions.
    assert_eq!(generate_code(&ParseTreeNode::Empty, &opts(&["compiler"])).unwrap(), "");
}

#[test]
fn generate_code_reports_a_bad_function() {
    let lib = ParseTreeNode::Library(vec![ParseTreeNode::Empty]);
    let e = generate_code(&lib, &opts(&["compiler"])).err().unwrap();
    assert_eq!(e.severity(), Severity::Error);
    assert_eq!(e.message().as_str(), "Compilation Error: Expected Function, got Empty");
}

#[test]
fn parse_tree_drawing() {
    let tree = ParseTreeNode::Library(vec![ParseTreeNode::Function(vec![
        ParseTreeNode::Type(vec![ParseTreeNode::RawType(tok("i32"))]),
        ParseTreeNode::Identifier(tok("main")),
    ])]);
    assert_eq!(
        display_parse_tree(tree, String::new(), false),
        "┬Library\n└┬Function\n ├┬Type\n │└─Raw Type (i32)\n └─Identifier (main)\n"
    );
}

#[test]
fn parse_tree_drawing_of_a_leaf_below_a_prefix() {
    let leaf = ParseTreeNode::Expression(llvm_compiler::parser::ExpressionType::Add, vec![]);
    assert_eq!(display_parse_tree(leaf, "││".to_string(), true), "│└─Expression (Add)\n");
    assert_eq!(display_parse_tree(ParseTreeNode::Empty, String::new(), true), "─Empty\n");
}

#[test]
fn llvm_output_of_small_functions() {
    let i32t = DataType::new(NonPtrType::I32, 0, false);
    let mut id = Function::new();
    id.set_function_signature(i32t, "id".to_string(), vec![("a".to_string(), i32t)]);
    id.add_instruction(Instruction::new(OpCode::Ret, vec![Value::Symbol(Symbol::new("a".to_string(), i32t))]));
    let mut g = Function::new();
    g.set_function_signature(i32t, "g".to_string(), vec![]);
    g.add_instruction(Instruction::new(OpCode::Jmp, vec![Value::Label("L1".to_string())]));
    g.add_instruction(Instruction::new(OpCode::Ret, vec![Value::Literal(Literal::new(5, i32t))]));
    g.place_label("L1".to_string(), 1);
    let out = LLVMGenerator::new(vec![id, g]).render(Some("x86_64-unknown-linux"), None).unwrap();
    assert_eq!(
        out,
        "target triple = \"x86_64-unknown-linux\"\n\
define i32 @id(i32 %a)\n{\n    %V0 = alloca i32, align 4\n    store i32 %a, i32* %V0\n    %V1 = load i32, i32* %V0, align 4\n    ret i32 %V1\n}\n\
define i32 @g()\n{\n    br label %L1\n    br label %L1\n\n  L1:\n    ret i32 5\n}\n"
    );
}

#[test]
fn two_byte_dereference_of_an_io_address_loads_both_bytes() {
    let mut c = FunctionGenerationContext::new(Function::new());
    let u16t = DataType::new(NonPtrType::U16, 0, false);
    let w = Value::Symbol(Symbol::new("w".to_string(), u16t));
    let addr = Value::Literal(Literal::new(0x3C, DataType::new(NonPtrType::U16, 1, false)));
    assert_eq!(c.dereference_instruction(&w, &addr).unwrap(), "     in r22, 28\n     in r23, 29\n");
}

#[test]
fn unsigned_comparisons_use_unsigned_predicates() {
    let i32t = DataType::new(NonPtrType::I32, 0, false);
    let u32t = DataType::new(NonPtrType::U32, 0, false);
    let mut f = Function::new();
    f.set_function_signature(i32t, "lt".to_string(), vec![("x".to_string(), u32t), ("y".to_string(), u32t)]);
    f.add_instruction(Instruction::new(
        OpCode::Clt,
        vec![
            Value::Symbol(Symbol::new("d".to_string(), i32t)),
            Value::Symbol(Symbol::new("x".to_string(), u32t)),
            Value::Symbol(Symbol::new("y".to_string(), u32t)),
        ],
    ));
    f.add_instruction(Instruction::new(OpCode::Ret, vec![Value::Symbol(Symbol::new("d".to_string(), i32t))]));
    let out = LLVMGenerator::new(vec![f]).render(None, None).unwrap();
    assert!(out.contains("icmp ult"));
    assert!(!out.contains("icmp lt "));
}

#[test]
fn registers_of_different_symbols_never_overlap() {
    let mut c = FunctionGenerationContext::new(Function::new());
    let u8t = DataType::new(NonPtrType::U8, 0, false);
    let u16t = DataType::new(NonPtrType::U16, 0, false);
    let a = Symbol::new("a".to_string(), u8t);
    let b = Symbol::new("b".to_string(), u16t);
    let d = Symbol::new("d".to_string(), u8t);
    assert_eq!(c.get_register(&a).unwrap(), 17);
    // A two byte symbol takes an even register and the one after it.
    assert_eq!(c.get_register(&b).unwrap(), 22);
    assert_eq!(c.get_register(&d).unwrap(), 18);
    // A symbol seen before keeps its register.
    assert_eq!(c.get_register(&a).unwrap(), 17);
}

#[test]
fn adding_one_to_two_bytes_carries_into_the_high_byte() {
    let mut c = FunctionGenerationContext::new(Function::new());
    let u16t = DataType::new(NonPtrType::U16, 0, false);
    let a = Value::Symbol(Symbol::new("a".to_string(), u16t));
    let one = Value::Literal(Literal::new(1, u16t));
    assert_eq!(
        c.add_instruction(&a, &a, &one).unwrap(),
        "     ldi r16, 1\n     add r22, r16\n     ldi r16, 0\n     adc r23, r16\n"
    );
}

#[test]
fn adding_one_to_one_byte_is_an_increment() {
    let mut c = FunctionGenerationContext::new(Function::new());
    let u8t = DataType::new(NonPtrType::U8, 0, false);
    let a = Value::Symbol(Symbol::new("a".to_string(), u8t));
    let one = Value::Literal(Literal::new(1, u8t));
    assert_eq!(c.add_instruction(&a, &a, &one).unwrap(), "     inc r17\n");
}

#[test]
fn a_run_of_requests_keeps_registers_apart() {
    let mut c = FunctionGenerationContext::new(Function::new());
    let u8t = DataType::new(NonPtrType::U8, 0, false);
    let u16t = DataType::new(NonPtrType::U16, 0, false);
    let names = ["p", "q", "r", "s"];
    let types = [u16t, u16t, u8t, u8t];
    let mut taken: Vec<(usize, usize)> = vec![];
    for (n, t) in names.iter().zip(types.iter()) {
        let size = if *t == u8t { 1 } else { 2 };
        let r = c.get_register(&Symbol::new(n.to_string(), *t)).unwrap();
        if size == 2 {
            assert_eq!(r % 2, 0);
        }
        for x in r..r + size {
            assert!((17..=23).contains(&x) || x == 25);
            assert!(taken.iter().all(|(a, z)| !(*a <= x && x < a + z)));
        }
        taken.push((r, size));
    }
    assert_eq!(c.get_register(&Symbol::new("p".to_string(), u16t)).unwrap(), taken[0].0);
}
