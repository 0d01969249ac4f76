//! Expressions of the LLVM back end: integer literals and identifiers.
use vstd::prelude::*;
use crate::cli::Error;
use crate::cli::errors::is_error_with;
use crate::irgen::errors::expected_got_text;
use crate::irgen::utils::expected_got_type_error;
use crate::parser::ParseTreeNode;
use crate::text::{i128_from_decimal, int_text, parse_decimal_i128};

verus! {

#[derive(Debug)]
pub enum ExpressionType {
    IntegerLiteral(i128),
    Identifier(String),
}

/// The mathematical value of an [`Expression`].
pub enum ExpressionV {
    IntegerLiteral(i128),
    Identifier(Seq<char>),
}

impl View for ExpressionType {
    type V = ExpressionV;

    open spec fn view(&self) -> ExpressionV {
        match self {
            ExpressionType::IntegerLiteral(v) => ExpressionV::IntegerLiteral(*v),
            ExpressionType::Identifier(s) => ExpressionV::Identifier(s@),
        }
    }
}

impl Clone for ExpressionType {
    fn clone(&self) -> (r: Self)
        ensures
            r@ == self@,
    {
        match self {
            ExpressionType::IntegerLiteral(v) => ExpressionType::IntegerLiteral(*v),
            ExpressionType::Identifier(s) => ExpressionType::Identifier(s.clone()),
        }
    }
}

#[derive(Debug)]
pub struct Expression {
    expr_type: ExpressionType,
}

impl View for Expression {
    type V = ExpressionV;

    closed spec fn view(&self) -> ExpressionV {
        self.expr_type@
    }
}

impl Clone for Expression {
    fn clone(&self) -> (r: Self)
        ensures
            r@ == self@,
    {
        Expression { expr_type: self.expr_type.clone() }
    }
}

/// The expression a parse tree node stands for: an integer literal or an
/// identifier; any other node gives an "expected an expression" error.
pub open spec fn expression_result(node: ParseTreeNode) -> Result<ExpressionV, Seq<char>> {
    match node {
        ParseTreeNode::IntegerLiteral(token) => Ok(
            ExpressionV::IntegerLiteral(i128_from_decimal(token.data@).unwrap()),
        ),
        ParseTreeNode::Identifier(token) => Ok(ExpressionV::Identifier(token.data@)),
        _ => Err(expected_got_text("an expression"@, node)),
    }
}

/// An integer literal node holds decimal text that fits an `i128`.
pub open spec fn expression_node_ok(node: ParseTreeNode) -> bool {
    node matches ParseTreeNode::IntegerLiteral(token) ==> i128_from_decimal(token.data@) is Some
}

/// How an expression is referred to: a literal by its value, an identifier as `%name`.
pub open spec fn symbol_text(e: ExpressionV) -> Seq<char> {
    match e {
        ExpressionV::IntegerLiteral(v) => int_text(v as int),
        ExpressionV::Identifier(s) => "%"@ + s,
    }
}

impl Expression {
    pub fn new(expr_type: ExpressionType) -> (e: Self)
        ensures
            e@ == expr_type@,
    {
        Self { expr_type }
    }

    /// The expression a parse tree node stands for.
    pub fn from_parse_tree_node(node: ParseTreeNode) -> (r: Result<Self, Error>)
        requires
            expression_node_ok(node),
        ensures
            match expression_result(node) {
                Ok(e) => r is Ok && r->Ok_0@ == e,
                Err(m) => is_error_with(r, m),
            },
    {
        Self::from_node(&node)
    }

    /// The expression a parse tree node stands for, the node seen by reference.
    pub(crate) fn from_node(node: &ParseTreeNode) -> (r: Result<Self, Error>)
        requires
            expression_node_ok(*node),
        ensures
            match expression_result(*node) {
                Ok(e) => r is Ok && r->Ok_0@ == e,
                Err(m) => is_error_with(r, m),
            },
    {
        match node {
            ParseTreeNode::IntegerLiteral(token) => {
                let v = parse_decimal_i128(token.data.as_str());
                Ok(Expression::new(ExpressionType::IntegerLiteral(v.unwrap())))
            },
            ParseTreeNode::Identifier(token) => {
                Ok(Expression::new(ExpressionType::Identifier(token.data.clone())))
            },
            _ => expected_got_type_error("an expression", node),
        }
    }

    /// How the expression is referred to: a literal by its value, an identifier as `%name`.
    pub fn get_symbol(&self) -> (s: String)
        ensures
            s@ == symbol_text(self@),
    {
        match &self.expr_type {
            ExpressionType::IntegerLiteral(val) => crate::text::i128_text(*val),
            ExpressionType::Identifier(val) => {
                let mut s = String::from_str("%");
                s.append(val.as_str());
                s
            },
        }
    }

    /// The code that computes the expression before it is used: none, for a
    /// literal or an identifier.
    pub fn render(&self) -> (s: String)
        ensures
            s@ == Seq::<char>::empty(),
    {
        String::new()
    }
}

} // verus!
