use llvm_compiler::llvm::{
    Architecture, DataType, Expression, ExpressionType, Function, Module, NonPtrType, OperatingSystem,
    Statement, StatementContext, StatementTypes, TargetTriple, Vendor,
};
use llvm_compiler::parser::ParseTreeNode;
use llvm_compiler::tokenizer::{FileLocation, Token};

fn tok(s: &str) -> Token {
    Token::new(FileLocation::from_name("f"), s.to_string())
}

fn i32t() -> DataType {
    DataType::new(NonPtrType::I32, 0)
}

fn ret(v: i128) -> Statement {
    Statement::new(
        StatementTypes::ReturnStatement(Expression::new(ExpressionType::IntegerLiteral(v))),
        StatementContext::new(i32t()),
    )
}

#[test]
fn llvm_type_text() {
    assert_eq!(DataType::new(NonPtrType::I8, 2).render(), "i8**");
    assert_eq!(DataType::new(NonPtrType::Bool, 0).render(), "i1");
    assert_eq!(DataType::new(NonPtrType::Unknown, 1).render(), "Unk*");
}

#[test]
fn target_triple_text() {
    let t = TargetTriple::new(Architecture::X86_64, Vendor::Unknown, OperatingSystem::Linux);
    assert_eq!(t.render(), "x86_64-unknown-linux");
    let t = TargetTriple::new(Architecture::Thumbv7em, Vendor::NoneGiven, OperatingSystem::Elf);
    assert_eq!(t.render(), "thumbv7em-none-elf");
    let t = TargetTriple::new(Architecture::Riscv64gc, Vendor::NoneGiven, OperatingSystem::NoneGiven);
    assert_eq!(t.render(), "riscv64gc-none-none");
}

#[test]
fn expression_symbols() {
    assert_eq!(Expression::new(ExpressionType::IntegerLiteral(-5)).get_symbol(), "-5");
    assert_eq!(Expression::new(ExpressionType::Identifier("x".to_string())).get_symbol(), "%x");
    assert_eq!(Expression::new(ExpressionType::IntegerLiteral(3)).render(), "");
    let e = Expression::from_parse_tree_node(ParseTreeNode::IntegerLiteral(tok("42"))).unwrap();
    assert_eq!(e.get_symbol(), "42");
    let e = Expression::from_parse_tree_node(ParseTreeNode::Identifier(tok("n"))).unwrap();
    assert_eq!(e.get_symbol(), "%n");
    let err = Expression::from_parse_tree_node(ParseTreeNode::Empty).err().unwrap();
    assert_eq!(err.message().as_str(), "Compilation Error: Expected an expression, got Empty");
}

#[test]
fn function_definition_text() {
    let f = Function::new(
        "main".to_string(),
        i32t(),
        vec![("argc".to_string(), i32t()), ("argv".to_string(), DataType::new(NonPtrType::I8, 2))],
    );
    assert_eq!(f.render(), "define i32 @main(i32 %argc, i8** %argv)\n{\n}\n");
    let g = Function::new("f".to_string(), DataType::new(NonPtrType::Void, 0), vec![]);
    assert_eq!(g.render(), "define void @f()\n{\n}\n");
}

#[test]
fn function_from_parse_tree() {
    let node = ParseTreeNode::Function(vec![
        ParseTreeNode::Type(vec![ParseTreeNode::RawType(tok("u8")), ParseTreeNode::Empty]),
        ParseTreeNode::Identifier(tok("get")),
        ParseTreeNode::Arguments(vec![ParseTreeNode::Argument(vec![
            ParseTreeNode::Type(vec![ParseTreeNode::RawType(tok("i64"))]),
            ParseTreeNode::Identifier(tok("n")),
        ])]),
    ]);
    let f = Function::from_parse_tree_node(node).unwrap();
    assert_eq!(f.render(), "define u8* @get(i64 %n)\n{\n}\n");
    let bad = Function::from_parse_tree_node(ParseTreeNode::Empty).err().unwrap();
    assert_eq!(bad.message().as_str(), "Compilation Error: Expected Function, got Empty");
}

#[test]
fn module_text_and_loading() {
    let triple = TargetTriple::new(Architecture::X86_64, Vendor::Unknown, OperatingSystem::Linux);
    let mut m = Module::new(triple);
    let header = "target datalayout = \"e-p:64:64:64-i1:8:8-i8:8:8-i16:16:16-i32:32:32-i64:64:64-f32:32:32-f64:64:64-v64:64:64-v128:128:128-a0:0:64-s0:64:64-f80:128:128-n8:16:32:64-S128\"\ntarget triple = \"x86_64-unknown-linux\"\n";
    assert_eq!(m.render(), header);
    let lib = ParseTreeNode::Library(vec![
        ParseTreeNode::Function(vec![
            ParseTreeNode::Type(vec![ParseTreeNode::RawType(tok("i32"))]),
            ParseTreeNode::Identifier(tok("main")),
            ParseTreeNode::Empty,
        ]),
        ParseTreeNode::Empty,
    ]);
    let e = m.load_from_parse_tree(lib).err().unwrap();
    assert_eq!(e.message().as_str(), "Compilation Error: Expected Function, got Empty");
    // The function read before the bad child stays added.
    assert_eq!(m.render(), format!("{}define i32 @main()\n{{\n}}\n\n", header));
    let e = m.load_from_parse_tree(ParseTreeNode::Empty).err().unwrap();
    assert_eq!(e.message().as_str(), "Compilation Error: Expected Library, got Empty");
    m.add_function(Function::new("g".to_string(), i32t(), vec![]));
    assert_eq!(
        m.render(),
        format!("{}define i32 @main()\n{{\n}}\n\ndefine i32 @g()\n{{\n}}\n\n", header)
    );
}

#[test]
fn statement_context_labels_and_loops() {
    let mut c = StatementContext::new(i32t());
    assert_eq!(c.get_label(), 1);
    assert_eq!(c.push_loop(), (2, 3));
    assert_eq!(c.get_continue(), 2);
    assert_eq!(c.get_break(), 3);
    assert_eq!(c.push_loop(), (4, 5));
    assert_eq!(c.get_continue(), 4);
    c.pop_loop();
    assert_eq!(c.get_continue(), 2);
    assert_eq!(c.get_break(), 3);
    assert_eq!(c.get_label(), 6);
}

#[test]
fn return_and_if_statements() {
    assert_eq!(ret(0).render(), "ret i32 0\n");
    let mut s = Statement::new(
        StatementTypes::IfStatement(
            Expression::new(ExpressionType::Identifier("x".to_string())),
            vec![ret(1), ret(0)],
        ),
        StatementContext::new(i32t()),
    );
    assert_eq!(
        s.render(),
        "%a1 = icmp ne i32 %x, 0\nbr i1 %a1, label %a2, label %a3\na2:\nret i32 1\na3:\nret i32 0\n"
    );
    // Writing it again takes fresh labels.
    assert_eq!(
        s.render(),
        "%a4 = icmp ne i32 %x, 0\nbr i1 %a4, label %a5, label %a6\na5:\nret i32 1\na6:\nret i32 0\n"
    );
}

#[test]
fn loop_and_compound_statements() {
    let body = Statement::new(StatementTypes::Empty, StatementContext::new(i32t()));
    let mut l = Statement::new(StatementTypes::LoopStatement(vec![body]), StatementContext::new(i32t()));
    assert_eq!(l.render(), "a1:\nbr label %a1\na2:\n");
    let mut c = Statement::new(
        StatementTypes::CompoundStatement(vec![ret(0), Statement::new(StatementTypes::Empty, StatementContext::new(i32t()))]),
        StatementContext::new(i32t()),
    );
    assert_eq!(c.render(), "ret i32 0\n\n\n");
}

#[test]
fn continue_in_an_open_loop() {
    let mut ctx = StatementContext::new(i32t());
    ctx.push_loop();
    let mut s = Statement::new(StatementTypes::ContinueStatement, ctx);
    assert_eq!(s.render(), "br label %a1\n");
    let mut ctx = StatementContext::new(i32t());
    ctx.push_loop();
    let mut b = Statement::new(StatementTypes::BreakStatement, ctx);
    assert_eq!(b.render(), "br label %a2\n");
}

#[test]
fn statements_from_parse_tree() {
    let ctx = StatementContext::new(i32t());
    let node = ParseTreeNode::Statements(vec![
        ParseTreeNode::ReturnStatement(vec![ParseTreeNode::IntegerLiteral(tok("7"))]),
        ParseTreeNode::Statement(vec![]),
    ]);
    let mut s = Statement::from_parse_tree_node(node, &ctx).unwrap();
    assert_eq!(s.render(), "ret i32 7\n\n\n");
    let bad = ParseTreeNode::Statement(vec![ParseTreeNode::RawToken(tok("foo"))]);
    let e = Statement::from_parse_tree_node(bad, &ctx).err().unwrap();
    assert_eq!(e.message().as_str(), "Compilation Error: Expected 'continue' or 'break', got 'foo'");
    let e = Statement::from_parse_tree_node(ParseTreeNode::Empty, &ctx).err().unwrap();
    assert_eq!(e.message().as_str(), "Compilation Error: Expected A Statement, got Empty");
    let cont = ParseTreeNode::Statement(vec![ParseTreeNode::RawToken(tok("continue"))]);
    assert!(Statement::from_parse_tree_node(cont, &ctx).is_ok());
}
