//! The parse tree drawn as text, one node per line.
use vstd::prelude::*;
use super::node::{ExpressionType, ParseTreeNode};
use crate::text::push_char;

verus! {

/// The name of an expression type, as its debug form writes it.
pub open spec fn expression_type_name(t: ExpressionType) -> Seq<char> {
    match t {
        ExpressionType::ArrayAccess => "ArrayAccess"@,
        ExpressionType::FunctionCall => "FunctionCall"@,
        ExpressionType::PostIncrement => "PostIncrement"@,
        ExpressionType::PostDecrement => "PostDecrement"@,
        ExpressionType::PreIncrement => "PreIncrement"@,
        ExpressionType::PreDecrement => "PreDecrement"@,
        ExpressionType::UnaryPlus => "UnaryPlus"@,
        ExpressionType::UnaryMinus => "UnaryMinus"@,
        ExpressionType::LogicalNot => "LogicalNot"@,
        ExpressionType::BitwiseNot => "BitwiseNot"@,
        ExpressionType::Dereference => "Dereference"@,
        ExpressionType::DereferenceLeft => "DereferenceLeft"@,
        ExpressionType::Reference => "Reference"@,
        ExpressionType::Multiply => "Multiply"@,
        ExpressionType::Divide => "Divide"@,
        ExpressionType::Modulus => "Modulus"@,
        ExpressionType::Add => "Add"@,
        ExpressionType::Subtract => "Subtract"@,
        ExpressionType::ShiftLeft => "ShiftLeft"@,
        ExpressionType::ShiftRight => "ShiftRight"@,
        ExpressionType::LessThan => "LessThan"@,
        ExpressionType::LessThanOrEqual => "LessThanOrEqual"@,
        ExpressionType::GreaterThan => "GreaterThan"@,
        ExpressionType::GreaterThanOrEqual => "GreaterThanOrEqual"@,
        ExpressionType::Equal => "Equal"@,
        ExpressionType::NotEqual => "NotEqual"@,
        ExpressionType::BitwiseAnd => "BitwiseAnd"@,
        ExpressionType::BitwiseXor => "BitwiseXor"@,
        ExpressionType::BitwiseOr => "BitwiseOr"@,
        ExpressionType::LogicalAnd => "LogicalAnd"@,
        ExpressionType::LogicalOr => "LogicalOr"@,
        ExpressionType::Ternary => "Ternary"@,
        ExpressionType::Assignment => "Assignment"@,
        ExpressionType::AddAssign => "AddAssign"@,
        ExpressionType::SubtractAssign => "SubtractAssign"@,
        ExpressionType::MultiplyAssign => "MultiplyAssign"@,
        ExpressionType::DivideAssign => "DivideAssign"@,
        ExpressionType::ModulusAssign => "ModulusAssign"@,
        ExpressionType::ShiftLeftAssign => "ShiftLeftAssign"@,
        ExpressionType::ShiftRightAssign => "ShiftRightAssign"@,
        ExpressionType::BitwiseAndAssign => "BitwiseAndAssign"@,
        ExpressionType::BitwiseXorAssign => "BitwiseXorAssign"@,
        ExpressionType::BitwiseOrAssign => "BitwiseOrAssign"@,
        ExpressionType::Cast => "Cast"@,
        ExpressionType::Comma => "Comma"@,
    }
}

fn expression_type_name_str(t: ExpressionType) -> (r: &'static str)
    ensures
        r@ == expression_type_name(t),
{
    match t {
        ExpressionType::ArrayAccess => "ArrayAccess",
        ExpressionType::FunctionCall => "FunctionCall",
        ExpressionType::PostIncrement => "PostIncrement",
        ExpressionType::PostDecrement => "PostDecrement",
        ExpressionType::PreIncrement => "PreIncrement",
        ExpressionType::PreDecrement => "PreDecrement",
        ExpressionType::UnaryPlus => "UnaryPlus",
        ExpressionType::UnaryMinus => "UnaryMinus",
        ExpressionType::LogicalNot => "LogicalNot",
        ExpressionType::BitwiseNot => "BitwiseNot",
        ExpressionType::Dereference => "Dereference",
        ExpressionType::DereferenceLeft => "DereferenceLeft",
        ExpressionType::Reference => "Reference",
        ExpressionType::Multiply => "Multiply",
        ExpressionType::Divide => "Divide",
        ExpressionType::Modulus => "Modulus",
        ExpressionType::Add => "Add",
        ExpressionType::Subtract => "Subtract",
        ExpressionType::ShiftLeft => "ShiftLeft",
        ExpressionType::ShiftRight => "ShiftRight",
        ExpressionType::LessThan => "LessThan",
        ExpressionType::LessThanOrEqual => "LessThanOrEqual",
        ExpressionType::GreaterThan => "GreaterThan",
        ExpressionType::GreaterThanOrEqual => "GreaterThanOrEqual",
        ExpressionType::Equal => "Equal",
        ExpressionType::NotEqual => "NotEqual",
        ExpressionType::BitwiseAnd => "BitwiseAnd",
        ExpressionType::BitwiseXor => "BitwiseXor",
        ExpressionType::BitwiseOr => "BitwiseOr",
        ExpressionType::LogicalAnd => "LogicalAnd",
        ExpressionType::LogicalOr => "LogicalOr",
        ExpressionType::Ternary => "Ternary",
        ExpressionType::Assignment => "Assignment",
        ExpressionType::AddAssign => "AddAssign",
        ExpressionType::SubtractAssign => "SubtractAssign",
        ExpressionType::MultiplyAssign => "MultiplyAssign",
        ExpressionType::DivideAssign => "DivideAssign",
        ExpressionType::ModulusAssign => "ModulusAssign",
        ExpressionType::ShiftLeftAssign => "ShiftLeftAssign",
        ExpressionType::ShiftRightAssign => "ShiftRightAssign",
        ExpressionType::BitwiseAndAssign => "BitwiseAndAssign",
        ExpressionType::BitwiseXorAssign => "BitwiseXorAssign",
        ExpressionType::BitwiseOrAssign => "BitwiseOrAssign",
        ExpressionType::Cast => "Cast",
        ExpressionType::Comma => "Comma",
    }
}

/// The text that stands for a node in the drawing.
pub open spec fn node_label(node: ParseTreeNode) -> Seq<char> {
    match node {
        ParseTreeNode::Library(_) => "Library"@,
        ParseTreeNode::Function(_) => "Function"@,
        ParseTreeNode::Arguments(_) => "Arguments"@,
        ParseTreeNode::Argument(_) => "Argument"@,
        ParseTreeNode::Type(_) => "Type"@,
        ParseTreeNode::Identifier(token) => "Identifier ("@ + token.data@ + ")"@,
        ParseTreeNode::RawType(token) => "Raw Type ("@ + token.data@ + ")"@,
        ParseTreeNode::Statement(_) => "Statement"@,
        ParseTreeNode::Statements(_) => "Statements"@,
        ParseTreeNode::Assignments(_) => "Assignments"@,
        ParseTreeNode::Assignment(_) => "Assignment"@,
        ParseTreeNode::RawToken(token) => "Raw Token ("@ + token.data@ + ")"@,
        ParseTreeNode::IntegerLiteral(token) => "Integer ("@ + token.data@ + ")"@,
        ParseTreeNode::AssignmentStatement(_) => "Assignment Statement"@,
        ParseTreeNode::IfStatement(_) => "If Statement"@,
        ParseTreeNode::ReturnStatement(_) => "Return Statement"@,
        ParseTreeNode::WhileLoop(_) => "While Loop"@,
        ParseTreeNode::DoWhileLoop(_) => "Do While Loop"@,
        ParseTreeNode::Loop(_) => "Loop"@,
        ParseTreeNode::Expression(t, _) => "Expression ("@ + expression_type_name(t) + ")"@,
        ParseTreeNode::Empty => "Empty"@,
    }
}

/// The nodes under a node.
pub open spec fn node_children(node: ParseTreeNode) -> Seq<ParseTreeNode> {
    match node {
        ParseTreeNode::Library(v) => v@,
        ParseTreeNode::Function(v) => v@,
        ParseTreeNode::Arguments(v) => v@,
        ParseTreeNode::Argument(v) => v@,
        ParseTreeNode::Type(v) => v@,
        ParseTreeNode::Statement(v) => v@,
        ParseTreeNode::Statements(v) => v@,
        ParseTreeNode::Assignments(v) => v@,
        ParseTreeNode::Assignment(v) => v@,
        ParseTreeNode::AssignmentStatement(v) => v@,
        ParseTreeNode::IfStatement(v) => v@,
        ParseTreeNode::ReturnStatement(v) => v@,
        ParseTreeNode::WhileLoop(v) => v@,
        ParseTreeNode::DoWhileLoop(v) => v@,
        ParseTreeNode::Loop(v) => v@,
        ParseTreeNode::Expression(_, v) => v@,
        _ => Seq::empty(),
    }
}

/// A node is larger than each node under it.
pub proof fn lemma_children_smaller(node: ParseTreeNode)
    ensures
        forall|i: int| 0 <= i < node_children(node).len() ==> decreases_to!(node => #[trigger] node_children(node)[i]),
{
    match node {
        ParseTreeNode::Library(v) => {
            assert(decreases_to!(node => v));
        },
        ParseTreeNode::Function(v) => {
            assert(decreases_to!(node => v));
        },
        ParseTreeNode::Arguments(v) => {
            assert(decreases_to!(node => v));
        },
        ParseTreeNode::Argument(v) => {
            assert(decreases_to!(node => v));
        },
        ParseTreeNode::Type(v) => {
            assert(decreases_to!(node => v));
        },
        ParseTreeNode::Statement(v) => {
            assert(decreases_to!(node => v));
        },
        ParseTreeNode::Statements(v) => {
            assert(decreases_to!(node => v));
        },
        ParseTreeNode::Assignments(v) => {
            assert(decreases_to!(node => v));
        },
        ParseTreeNode::Assignment(v) => {
            assert(decreases_to!(node => v));
        },
        ParseTreeNode::AssignmentStatement(v) => {
            assert(decreases_to!(node => v));
        },
        ParseTreeNode::IfStatement(v) => {
            assert(decreases_to!(node => v));
        },
        ParseTreeNode::ReturnStatement(v) => {
            assert(decreases_to!(node => v));
        },
        ParseTreeNode::WhileLoop(v) => {
            assert(decreases_to!(node => v));
        },
        ParseTreeNode::DoWhileLoop(v) => {
            assert(decreases_to!(node => v));
        },
        ParseTreeNode::Loop(v) => {
            assert(decreases_to!(node => v));
        },
        ParseTreeNode::Expression(_, v) => {
            assert(decreases_to!(node => v));
        },
        _ => {},
    }
}

/// Appends the text that stands for a node.
fn append_node_label(s: &mut String, node: &ParseTreeNode)
    ensures
        final(s)@ == old(s)@ + node_label(*node),
{
    match node {
        ParseTreeNode::Library(_) => s.append("Library"),
        ParseTreeNode::Function(_) => s.append("Function"),
        ParseTreeNode::Arguments(_) => s.append("Arguments"),
        ParseTreeNode::Argument(_) => s.append("Argument"),
        ParseTreeNode::Type(_) => s.append("Type"),
        ParseTreeNode::Identifier(token) => {
            s.append("Identifier (");
            s.append(token.data.as_str());
            s.append(")");
        },
        ParseTreeNode::RawType(token) => {
            s.append("Raw Type (");
            s.append(token.data.as_str());
            s.append(")");
        },
        ParseTreeNode::Statement(_) => s.append("Statement"),
        ParseTreeNode::Statements(_) => s.append("Statements"),
        ParseTreeNode::Assignments(_) => s.append("Assignments"),
        ParseTreeNode::Assignment(_) => s.append("Assignment"),
        ParseTreeNode::RawToken(token) => {
            s.append("Raw Token (");
            s.append(token.data.as_str());
            s.append(")");
        },
        ParseTreeNode::IntegerLiteral(token) => {
            s.append("Integer (");
            s.append(token.data.as_str());
            s.append(")");
        },
        ParseTreeNode::AssignmentStatement(_) => s.append("Assignment Statement"),
        ParseTreeNode::IfStatement(_) => s.append("If Statement"),
        ParseTreeNode::ReturnStatement(_) => s.append("Return Statement"),
        ParseTreeNode::WhileLoop(_) => s.append("While Loop"),
        ParseTreeNode::DoWhileLoop(_) => s.append("Do While Loop"),
        ParseTreeNode::Loop(_) => s.append("Loop"),
        ParseTreeNode::Expression(t, _) => {
            s.append("Expression (");
            s.append(expression_type_name_str(*t));
            s.append(")");
        },
        ParseTreeNode::Empty => s.append("Empty"),
    }
}

/// The nodes under a node, if it can have any.
fn children_of(node: &ParseTreeNode) -> (r: Option<&Vec<ParseTreeNode>>)
    ensures
        match r {
            Some(v) => v@ == node_children(*node),
            None => node_children(*node).len() == 0,
        },
{
    match node {
        ParseTreeNode::Library(v) => Some(v),
        ParseTreeNode::Function(v) => Some(v),
        ParseTreeNode::Arguments(v) => Some(v),
        ParseTreeNode::Argument(v) => Some(v),
        ParseTreeNode::Type(v) => Some(v),
        ParseTreeNode::Statement(v) => Some(v),
        ParseTreeNode::Statements(v) => Some(v),
        ParseTreeNode::Assignments(v) => Some(v),
        ParseTreeNode::Assignment(v) => Some(v),
        ParseTreeNode::AssignmentStatement(v) => Some(v),
        ParseTreeNode::IfStatement(v) => Some(v),
        ParseTreeNode::ReturnStatement(v) => Some(v),
        ParseTreeNode::WhileLoop(v) => Some(v),
        ParseTreeNode::DoWhileLoop(v) => Some(v),
        ParseTreeNode::Loop(v) => Some(v),
        ParseTreeNode::Expression(_, v) => Some(v),
        _ => None,
    }
}

/// The prefix of a node's own line: the last mark of `prev` becomes a corner
/// for the last child, a tee otherwise.
pub open spec fn marked_prefix(prev: Seq<char>, is_last: bool) -> Seq<char> {
    if prev.len() > 0 {
        prev.drop_last().push(if is_last { '└' } else { '├' })
    } else {
        prev
    }
}

/// The prefix below a node: the last mark of `prev` becomes a blank for the
/// last child, a bar otherwise.
pub open spec fn continued_prefix(prev: Seq<char>, is_last: bool) -> Seq<char> {
    if prev.len() > 0 {
        prev.drop_last().push(if is_last { ' ' } else { '│' })
    } else {
        prev
    }
}

/// The drawing of `node` below the prefix `prev`: its own line, then each
/// node under it drawn below the continued prefix and a bar.
pub open spec fn tree_text(node: ParseTreeNode, prev: Seq<char>, is_last: bool) -> Seq<char>
    decreases node, 1nat, 0nat,
{
    let cs = node_children(node);
    let line = marked_prefix(prev, is_last) + seq![if cs.len() == 0 { '─' } else { '┬' }]
        + node_label(node) + seq!['\n'];
    line + forest_text(node, continued_prefix(prev, is_last).push('│'), cs.len())
}

/// The drawings of the first `n` nodes under `node`, below `prefix`.
pub open spec fn forest_text(node: ParseTreeNode, prefix: Seq<char>, n: nat) -> Seq<char>
    decreases node, 0nat, n,
{
    let cs = node_children(node);
    if n == 0 || n > cs.len() {
        Seq::empty()
    } else {
        proof {
            lemma_children_smaller(node);
        }
        forest_text(node, prefix, (n - 1) as nat) + tree_text(cs[n - 1], prefix, n - 1 == cs.len() - 1)
    }
}

/// `s` without its last character.
fn without_last_char(s: &String) -> (r: String)
    requires
        s@.len() > 0,
    ensures
        r@ == s@.drop_last(),
{
    let n = s.as_str().unicode_len();
    let sub = s.as_str().substring_char(0, n - 1);
    assert(s@.subrange(0, n - 1) =~= s@.drop_last());
    sub.to_owned()
}

fn tree_text_of(node: &ParseTreeNode, prev: &String, is_last: bool) -> (r: String)
    ensures
        r@ == tree_text(*node, prev@, is_last),
    decreases node, 1nat, 0nat,
{
    let children = children_of(node);
    let has_children = match children {
        Some(v) => v.len() > 0,
        None => false,
    };
    let mut line = if prev.as_str().unicode_len() > 0 {
        let mut m = without_last_char(prev);
        push_char(&mut m, if is_last { '└' } else { '├' });
        m
    } else {
        prev.clone()
    };
    push_char(&mut line, if has_children { '┬' } else { '─' });
    append_node_label(&mut line, node);
    push_char(&mut line, '\n');
    let mut below = if prev.as_str().unicode_len() > 0 {
        let mut m = without_last_char(prev);
        push_char(&mut m, if is_last { ' ' } else { '│' });
        m
    } else {
        prev.clone()
    };
    push_char(&mut below, '│');
    let ghost cs = node_children(*node);
    let ghost p = below@;
    let mut text = line;
    let ghost head = text@;
    assert(head == marked_prefix(prev@, is_last) + seq![if cs.len() == 0 { '─' } else { '┬' }]
        + node_label(*node) + seq!['\n']);
    assert(p == continued_prefix(prev@, is_last).push('│'));
    if let Some(v) = children {
        let mut i: usize = 0;
        while i < v.len()
            invariant
                i <= v@.len(),
                v@ == cs,
                cs == node_children(*node),
                p == below@,
                text@ == head + forest_text(*node, p, i as nat),
            decreases v@.len() - i,
        {
            proof {
                lemma_children_smaller(*node);
                assert(decreases_to!(*node => cs[i as int]));
            }
            let t = tree_text_of(&v[i], &below, i == v.len() - 1);
            text.append(t.as_str());
            i = i + 1;
        }
    }
    text
}

/// The drawing of a parse tree, one node per line, below the prefix `prev`
/// (`is_last`: the node is the last under its parent).
pub fn display_parse_tree(node: ParseTreeNode, prev: String, is_last: bool) -> (r: String)
    ensures
        r@ == tree_text(node, prev@, is_last),
{
    tree_text_of(&node, &prev, is_last)
}

} // verus!
