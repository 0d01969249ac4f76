//! The parse tree.
use vstd::prelude::*;
use crate::tokenizer::Token;
use crate::text::push_char;

verus! {

/// Expression Types
#[derive(Debug, Clone, Copy, PartialEq, Eq, Structural)]
pub enum ExpressionType {
    ArrayAccess,
    FunctionCall,
    PostIncrement,
    PostDecrement,
    PreIncrement,
    PreDecrement,
    UnaryPlus,
    UnaryMinus,
    LogicalNot,
    BitwiseNot,
    Dereference,
    DereferenceLeft,
    Reference,
    Multiply,
    Divide,
    Modulus,
    Add,
    Subtract,
    ShiftLeft,
    ShiftRight,
    LessThan,
    LessThanOrEqual,
    GreaterThan,
    GreaterThanOrEqual,
    Equal,
    NotEqual,
    BitwiseAnd,
    BitwiseXor,
    BitwiseOr,
    LogicalAnd,
    LogicalOr,
    Ternary,
    Assignment,
    AddAssign,
    SubtractAssign,
    MultiplyAssign,
    DivideAssign,
    ModulusAssign,
    ShiftLeftAssign,
    ShiftRightAssign,
    BitwiseAndAssign,
    BitwiseXorAssign,
    BitwiseOrAssign,
    Cast,
    Comma,
}

/// Parse Tree Node
#[derive(Debug)]
pub enum ParseTreeNode {
    Library(Vec<ParseTreeNode>),
    Function(Vec<ParseTreeNode>),
    Arguments(Vec<ParseTreeNode>),
    Argument(Vec<ParseTreeNode>),
    Type(Vec<ParseTreeNode>),
    Identifier(Token),
    RawType(Token),
    Statement(Vec<ParseTreeNode>),
    Statements(Vec<ParseTreeNode>),
    Assignments(Vec<ParseTreeNode>),
    Assignment(Vec<ParseTreeNode>),
    Expression(ExpressionType, Vec<ParseTreeNode>),
    RawToken(Token),
    IntegerLiteral(Token),
    AssignmentStatement(Vec<ParseTreeNode>),
    IfStatement(Vec<ParseTreeNode>),
    ReturnStatement(Vec<ParseTreeNode>),
    WhileLoop(Vec<ParseTreeNode>),
    DoWhileLoop(Vec<ParseTreeNode>),
    Loop(Vec<ParseTreeNode>),
    Empty,
}

/// The name of the variant of a node (what its debug form starts with).
pub open spec fn node_name(n: ParseTreeNode) -> Seq<char> {
    match n {
        ParseTreeNode::Library(_) => "Library"@,
        ParseTreeNode::Function(_) => "Function"@,
        ParseTreeNode::Arguments(_) => "Arguments"@,
        ParseTreeNode::Argument(_) => "Argument"@,
        ParseTreeNode::Type(_) => "Type"@,
        ParseTreeNode::Identifier(_) => "Identifier"@,
        ParseTreeNode::RawType(_) => "RawType"@,
        ParseTreeNode::Statement(_) => "Statement"@,
        ParseTreeNode::Statements(_) => "Statements"@,
        ParseTreeNode::Assignments(_) => "Assignments"@,
        ParseTreeNode::Assignment(_) => "Assignment"@,
        ParseTreeNode::Expression(_, _) => "Expression"@,
        ParseTreeNode::RawToken(_) => "RawToken"@,
        ParseTreeNode::IntegerLiteral(_) => "IntegerLiteral"@,
        ParseTreeNode::AssignmentStatement(_) => "AssignmentStatement"@,
        ParseTreeNode::IfStatement(_) => "IfStatement"@,
        ParseTreeNode::ReturnStatement(_) => "ReturnStatement"@,
        ParseTreeNode::WhileLoop(_) => "WhileLoop"@,
        ParseTreeNode::DoWhileLoop(_) => "DoWhileLoop"@,
        ParseTreeNode::Loop(_) => "Loop"@,
        ParseTreeNode::Empty => "Empty"@,
    }
}

impl ParseTreeNode {
    /// The name of the variant of this node.
    pub fn variant_name(&self) -> (s: String)
        ensures
            s@ == node_name(*self),
    {
        match self {
            ParseTreeNode::Library(_) => String::from_str("Library"),
            ParseTreeNode::Function(_) => String::from_str("Function"),
            ParseTreeNode::Arguments(_) => String::from_str("Arguments"),
            ParseTreeNode::Argument(_) => String::from_str("Argument"),
            ParseTreeNode::Type(_) => String::from_str("Type"),
            ParseTreeNode::Identifier(_) => String::from_str("Identifier"),
            ParseTreeNode::RawType(_) => String::from_str("RawType"),
            ParseTreeNode::Statement(_) => String::from_str("Statement"),
            ParseTreeNode::Statements(_) => String::from_str("Statements"),
            ParseTreeNode::Assignments(_) => String::from_str("Assignments"),
            ParseTreeNode::Assignment(_) => String::from_str("Assignment"),
            ParseTreeNode::Expression(_, _) => String::from_str("Expression"),
            ParseTreeNode::RawToken(_) => String::from_str("RawToken"),
            ParseTreeNode::IntegerLiteral(_) => String::from_str("IntegerLiteral"),
            ParseTreeNode::AssignmentStatement(_) => String::from_str("AssignmentStatement"),
            ParseTreeNode::IfStatement(_) => String::from_str("IfStatement"),
            ParseTreeNode::ReturnStatement(_) => String::from_str("ReturnStatement"),
            ParseTreeNode::WhileLoop(_) => String::from_str("WhileLoop"),
            ParseTreeNode::DoWhileLoop(_) => String::from_str("DoWhileLoop"),
            ParseTreeNode::Loop(_) => String::from_str("Loop"),
            ParseTreeNode::Empty => String::from_str("Empty"),
        }
    }
}

} // verus!
