use llvm_compiler::cli::{Error, Severity};
use llvm_compiler::codegen::avrasm::AvrAsmGenerator;
use llvm_compiler::irgen::{DataType, Function, Instruction, NonPtrType, OpCode, Value};
use llvm_compiler::parser::{expected_got_error, parse_error, unexpected_eof_error, ParseTreeNode};
use llvm_compiler::tokenizer::{FileLocation, Token};

fn tok(s: &str) -> Token {
    Token::new(FileLocation::from_name("f.pc"), s.to_string())
}

#[test]
fn parse_errors_name_the_location() {
    let r: Result<(), Error> = parse_error(FileLocation::from_name("f.pc"), "oops".to_string());
    assert_eq!(r.unwrap_err().message().as_str(), "Parse Error: oops at Line 1:1 in file 'f.pc'");
    let r: Result<(), Error> = expected_got_error("';'", &tok("}"));
    assert_eq!(r.unwrap_err().message().as_str(), "Parse Error: Expected ';', got '}' at Line 1:1 in file 'f.pc'");
    let r: Result<(), Error> = unexpected_eof_error("'}'", &tok("return"));
    let e = r.unwrap_err();
    assert_eq!(e.severity(), Severity::Error);
    assert_eq!(e.message().as_str(), "Parse Error: Unexpected EOF while parsing, expected '}' at Line 1:7 in file 'f.pc'");
}

#[test]
fn ir_generation_errors() {
    let r: Result<(), Error> = llvm_compiler::irgen::compiler_error("bad".to_string());
    assert_eq!(r.unwrap_err().message().as_str(), "Compilation Error: bad");
    let r: Result<(), Error> = llvm_compiler::irgen::compiler_error_loc("bad".to_string(), &None);
    assert_eq!(r.unwrap_err().message().as_str(), "Compilation Error: bad");
    let r: Result<(), Error> =
        llvm_compiler::irgen::compiler_error_loc("bad".to_string(), &Some(FileLocation::from_name("g")));
    assert_eq!(r.unwrap_err().message().as_str(), "Compilation Error: bad at Line 1:1 in file 'g'");
    let r: Result<(), Error> = llvm_compiler::irgen::expected_got_error("Type", ParseTreeNode::Empty);
    assert_eq!(r.unwrap_err().message().as_str(), "Compilation Error: Expected Type, got Empty");
}

#[test]
fn llvm_back_end_errors() {
    let r: Result<(), Error> = llvm_compiler::llvm::compiler_error("x".to_string());
    assert_eq!(r.unwrap_err().message().as_str(), "Compilation Error: x");
    let r: Result<(), Error> = llvm_compiler::llvm::expected_got_error("Library", ParseTreeNode::Loop(vec![]));
    assert_eq!(r.unwrap_err().message().as_str(), "Compilation Error: Expected Library, got Loop");
}

#[test]
fn avr_assembly_of_a_jump() {
    let mut f = Function::new();
    f.set_function_signature(DataType::new(NonPtrType::Void, 0, false), "f".to_string(), vec![]);
    f.add_instruction(Instruction::new(OpCode::Jmp, vec![Value::Label("end".to_string())]));
    f.add_instruction(Instruction::new(OpCode::Nop, vec![]));
    f.place_label("end".to_string(), 1);
    let out = AvrAsmGenerator::new(vec![f]).render().unwrap();
    assert_eq!(out, "; Function void f()\nff:\n     jmp fend\nfend:\n");
}
