//! Expressions of a function body: how they are read from the parse tree and
//! the instructions they render to.
use vstd::prelude::*;
use super::types::{DataType, NonPtrType};
use super::instruction::{Instruction, InstructionV, Literal, OpCode, Symbol, SymbolV, Value, ValueV};
use super::function::{
    Function, FunctionV, add_instruction_v, label_name, next_label_v, next_register_v,
    place_label_v, register_name, value_type,
};
use super::utils::{
    attempt_mutate_type, attempt_mutate_v, correct_type_references, correct_type_references_v,
    get_value_type, has_unknown_type, has_unknown_v, type_from_node, type_node_ok,
    type_result, expected_got_type_error,
};
use super::errors::{compiler_error_loc, compiler_error_text, expected_got_text};
use crate::cli::Error;
use crate::cli::errors::is_error_with;
use crate::parser::ParseTreeNode;
use crate::parser::ExpressionType as ExpressionTypeP;
use crate::tokenizer::FileLocation;
use crate::tokenizer::stream::{LocationV, location_text};
use crate::text::{i128_from_decimal, parse_decimal_i128};

verus! {

/// Expression Types
#[derive(Debug, Clone, Copy, PartialEq, Eq, Structural)]
pub enum ExpressionType {
    LogicalAnd,
    LogicalOr,
    FunctionCall,
    LogicalNot,
    ArrayAccess,
    BitwiseNot,
    Ternary,
    UnaryOperation(OpCode, isize),
    DereferenceLeft,
    Cast(DataType),
    Comma,
    UnaryMinus,
    IntegerLiteral,
    Identifier,
    PreExpression(OpCode),
    PostExpression(OpCode),
    BinaryExpression(OpCode),
    AssignmentExpression(Option<OpCode>),
}

#[derive(Debug)]
pub struct Expression {
    mode: ExpressionType,
    value: Option<Value>,
    children: Vec<Expression>,
    pos: Option<FileLocation>,
}

/// The mathematical value of an [`Expression`].
pub struct ExprV {
    pub mode: ExpressionType,
    pub value: Option<ValueV>,
    pub children: Seq<ExprV>,
    pub pos: Option<LocationV>,
}

/// The view of an optional value.
pub open spec fn option_value_view(v: Option<Value>) -> Option<ValueV> {
    match v {
        Some(x) => Some(x@),
        None => None,
    }
}

/// The view of an optional location.
pub open spec fn option_location_view(l: Option<FileLocation>) -> Option<LocationV> {
    match l {
        Some(x) => Some(x@),
        None => None,
    }
}

/// An expression with no children, used where a child is missing.
pub open spec fn empty_expr_v() -> ExprV {
    ExprV { mode: ExpressionType::Comma, value: None, children: Seq::empty(), pos: None }
}

/// The view of an expression, its children viewed in turn.
pub closed spec fn expression_view(e: &Expression) -> ExprV
    decreases e,
{
    ExprV {
        mode: e.mode,
        value: option_value_view(e.value),
        children: Seq::new(
            e.children@.len(),
            |i: int|
                if 0 <= i < e.children@.len() {
                    expression_view(&e.children@[i])
                } else {
                    empty_expr_v()
                },
        ),
        pos: option_location_view(e.pos),
    }
}

impl View for Expression {
    type V = ExprV;

    open spec fn view(&self) -> ExprV {
        expression_view(self)
    }
}

/// The views of a sequence of expressions.
pub open spec fn expressions_view(es: Seq<Expression>) -> Seq<ExprV> {
    es.map_values(|e: Expression| e@)
}

proof fn lemma_view_fields(e: &Expression)
    ensures
        e@.mode == e.mode,
        e@.value == option_value_view(e.value),
        e@.pos == option_location_view(e.pos),
        e@.children == expressions_view(e.children@),
{
    assert(e@.children =~= expressions_view(e.children@));
}

/// Copies an expression with all its children.
fn clone_expression(e: &Expression) -> (r: Expression)
    ensures
        r@ == e@,
    decreases e@,
{
    proof {
        lemma_view_fields(e);
    }
    let mut children: Vec<Expression> = Vec::new();
    let mut i: usize = 0;
    while i < e.children.len()
        invariant
            i <= e.children@.len(),
            e@.children == expressions_view(e.children@),
            expressions_view(children@) == e@.children.take(i as int),
        decreases e.children@.len() - i,
    {
        proof {
            assert(e@.children[i as int] == e.children@[i as int]@);
            assert(decreases_to!(e@ => e@.children));
            assert(decreases_to!(e@.children => e@.children[i as int]));
        }
        let c = clone_expression(&e.children[i]);
        let ghost before = children@;
        children.push(c);
        proof {
            assert(expressions_view(children@) =~= expressions_view(before).push(c@));
            assert(e@.children.take(i + 1) =~= e@.children.take(i as int).push(e@.children[i as int]));
        }
        i = i + 1;
    }
    let value = match &e.value {
        Some(v) => Some(v.clone()),
        None => None,
    };
    let pos = match &e.pos {
        Some(l) => Some(l.clone()),
        None => None,
    };
    let r = Expression { mode: e.mode, value, children, pos };
    proof {
        lemma_view_fields(&r);
        assert(e@.children.take(e.children@.len() as int) =~= e@.children);
    }
    r
}

impl Clone for Expression {
    fn clone(&self) -> (r: Self)
        ensures
            r@ == self@,
    {
        clone_expression(self)
    }
}

impl Expression {
    pub fn new(mode: ExpressionType, value: Option<Value>, children: Vec<Expression>) -> (e: Self)
        ensures
            e@ == (ExprV {
                mode,
                value: option_value_view(value),
                children: expressions_view(children@),
                pos: None,
            }),
    {
        let e = Self { mode, value, children, pos: None };
        proof {
            lemma_view_fields(&e);
        }
        e
    }

    pub fn new_with_token(
        mode: ExpressionType,
        value: Option<Value>,
        children: Vec<Expression>,
        token: &crate::tokenizer::Token,
    ) -> (e: Self)
        ensures
            e@ == (ExprV {
                mode,
                value: option_value_view(value),
                children: expressions_view(children@),
                pos: Some(token.location@),
            }),
    {
        let e = Self { mode, value, children, pos: Some(token.location.clone()) };
        proof {
            lemma_view_fields(&e);
        }
        e
    }

    /// The value of the expression (that of a literal or symbol, or the register
    /// holding its result once rendered).
    pub fn value(&self, _func: &Function) -> (r: Result<Value, Error>)
        requires
            self@.value is Some,
        ensures
            r is Ok,
            r->Ok_0@ == self@.value->Some_0,
    {
        proof {
            lemma_view_fields(self);
        }
        match &self.value {
            Some(v) => Ok(v.clone()),
            None => Ok(Value::Label(String::new())),
        }
    }
}


/// The type of a literal or register whose type is not known yet.
pub open spec fn unknown_type() -> DataType {
    DataType { raw_type: NonPtrType::Unknown, num_ptr: 0, is_ref: false }
}

/// An expression without a source position.
pub open spec fn expr_v(mode: ExpressionType, value: Option<ValueV>, children: Seq<ExprV>) -> ExprV {
    ExprV { mode, value, children, pos: None }
}

/// The opcode of a binary operator of the parse tree.
pub open spec fn binary_opcode(k: ExpressionTypeP) -> Option<OpCode> {
    match k {
        ExpressionTypeP::Add => Some(OpCode::Add),
        ExpressionTypeP::Subtract => Some(OpCode::Sub),
        ExpressionTypeP::Multiply => Some(OpCode::Mul),
        ExpressionTypeP::Divide => Some(OpCode::Div),
        ExpressionTypeP::Modulus => Some(OpCode::Mod),
        ExpressionTypeP::ShiftLeft => Some(OpCode::Shl),
        ExpressionTypeP::ShiftRight => Some(OpCode::Shr),
        ExpressionTypeP::LessThan => Some(OpCode::Clt),
        ExpressionTypeP::LessThanOrEqual => Some(OpCode::Cle),
        ExpressionTypeP::GreaterThan => Some(OpCode::Cgt),
        ExpressionTypeP::GreaterThanOrEqual => Some(OpCode::Cge),
        ExpressionTypeP::Equal => Some(OpCode::Ceq),
        ExpressionTypeP::NotEqual => Some(OpCode::Cne),
        ExpressionTypeP::BitwiseAnd => Some(OpCode::And),
        ExpressionTypeP::BitwiseOr => Some(OpCode::Or),
        ExpressionTypeP::BitwiseXor => Some(OpCode::Xor),
        ExpressionTypeP::ArrayAccess => Some(OpCode::Array),
        _ => None,
    }
}

/// The expression kind of a parse-tree operator with one operand.
pub open spec fn unary_kind(k: ExpressionTypeP) -> Option<ExpressionType> {
    match k {
        ExpressionTypeP::UnaryMinus => Some(ExpressionType::UnaryMinus),
        ExpressionTypeP::BitwiseNot => Some(ExpressionType::BitwiseNot),
        ExpressionTypeP::LogicalNot => Some(ExpressionType::LogicalNot),
        ExpressionTypeP::PreIncrement => Some(ExpressionType::PreExpression(OpCode::Add)),
        ExpressionTypeP::PreDecrement => Some(ExpressionType::PreExpression(OpCode::Sub)),
        ExpressionTypeP::PostIncrement => Some(ExpressionType::PostExpression(OpCode::Add)),
        ExpressionTypeP::PostDecrement => Some(ExpressionType::PostExpression(OpCode::Sub)),
        ExpressionTypeP::Reference => Some(ExpressionType::UnaryOperation(OpCode::Ref, 1isize)),
        ExpressionTypeP::Dereference => Some(ExpressionType::UnaryOperation(OpCode::Deref, -1isize)),
        ExpressionTypeP::DereferenceLeft => Some(ExpressionType::DereferenceLeft),
        _ => None,
    }
}

/// The expression kind of a parse-tree operator with two operands.
pub open spec fn binary_kind(k: ExpressionTypeP) -> Option<ExpressionType> {
    match binary_opcode(k) {
        Some(op) => Some(ExpressionType::BinaryExpression(op)),
        None => match k {
            ExpressionTypeP::AddAssign => Some(ExpressionType::AssignmentExpression(Some(OpCode::Add))),
            ExpressionTypeP::SubtractAssign => Some(ExpressionType::AssignmentExpression(Some(OpCode::Sub))),
            ExpressionTypeP::MultiplyAssign => Some(ExpressionType::AssignmentExpression(Some(OpCode::Mul))),
            ExpressionTypeP::DivideAssign => Some(ExpressionType::AssignmentExpression(Some(OpCode::Div))),
            ExpressionTypeP::ModulusAssign => Some(ExpressionType::AssignmentExpression(Some(OpCode::Mod))),
            ExpressionTypeP::ShiftLeftAssign => Some(ExpressionType::AssignmentExpression(Some(OpCode::Shl))),
            ExpressionTypeP::ShiftRightAssign => Some(ExpressionType::AssignmentExpression(Some(OpCode::Shr))),
            ExpressionTypeP::BitwiseAndAssign => Some(ExpressionType::AssignmentExpression(Some(OpCode::And))),
            ExpressionTypeP::BitwiseXorAssign => Some(ExpressionType::AssignmentExpression(Some(OpCode::Xor))),
            ExpressionTypeP::BitwiseOrAssign => Some(ExpressionType::AssignmentExpression(Some(OpCode::Or))),
            ExpressionTypeP::Assignment => Some(ExpressionType::AssignmentExpression(None)),
            ExpressionTypeP::Comma => Some(ExpressionType::Comma),
            ExpressionTypeP::LogicalAnd => Some(ExpressionType::LogicalAnd),
            ExpressionTypeP::LogicalOr => Some(ExpressionType::LogicalOr),
            _ => None,
        },
    }
}

/// The outcome of reading a node: `None` where reading it stops the program,
/// else the expression or the message of the error it causes.
pub type ParseOutcome = Option<Result<ExprV, Seq<char>>>;

/// An expression with the given children, once each of them was read.
pub open spec fn with_children(mode: ExpressionType, outcomes: Seq<ParseOutcome>) -> ParseOutcome
    decreases outcomes.len(),
{
    if outcomes.len() == 0 {
        Some(Ok(expr_v(mode, None, Seq::empty())))
    } else {
        match with_children(mode, outcomes.drop_last()) {
            Some(Ok(e)) => match outcomes.last() {
                Some(Ok(c)) => Some(Ok(expr_v(mode, None, e.children.push(c)))),
                other => other,
            },
            other => other,
        }
    }
}

/// What reading each of `cs` as an expression gives.
pub open spec fn child_outcomes(cs: Seq<ParseTreeNode>, st: Map<Seq<char>, SymbolV>) -> Seq<ParseOutcome>
    decreases cs,
{
    Seq::new(
        cs.len(),
        |i: int|
            if 0 <= i < cs.len() {
                parsed_expression(cs[i], st)
            } else {
                None
            },
    )
}

/// The outcomes of the first `count` operands; a missing operand stops the program.
pub open spec fn operands(os: Seq<ParseOutcome>, count: nat) -> Seq<ParseOutcome> {
    if count <= os.len() {
        os.take(count as int)
    } else {
        os.push(None)
    }
}

/// What reading `node` as an expression gives, with `st` as the symbol table.
pub open spec fn parsed_expression(node: ParseTreeNode, st: Map<Seq<char>, SymbolV>) -> ParseOutcome
    decreases node,
{
    match node {
        ParseTreeNode::IntegerLiteral(token) => match i128_from_decimal(token.data@) {
            Some(v) => Some(
                Ok(
                    ExprV {
                        mode: ExpressionType::IntegerLiteral,
                        value: Some(ValueV::Literal(Literal { value: v, datatype: unknown_type() })),
                        children: Seq::empty(),
                        pos: Some(token.location@),
                    },
                ),
            ),
            None => None,
        },
        ParseTreeNode::Identifier(token) => if st.contains_key(token.data@) {
            Some(Ok(expr_v(ExpressionType::Identifier, Some(ValueV::Symbol(st[token.data@])), Seq::empty())))
        } else {
            Some(
                Err(
                    compiler_error_text(
                        "Symbol "@ + token.data@ + " not found in symbol table"@ + " at "@
                            + location_text(token.location@),
                    ),
                ),
            )
        },
        ParseTreeNode::Expression(kind, children) => {
            let cs = children@;
            let outcomes = child_outcomes(cs, st);
            if kind == ExpressionTypeP::UnaryPlus {
                if cs.len() >= 1 {
                    outcomes[0]
                } else {
                    None
                }
            } else if unary_kind(kind) is Some {
                with_children(unary_kind(kind)->Some_0, operands(outcomes, 1))
            } else if binary_kind(kind) is Some {
                with_children(binary_kind(kind)->Some_0, operands(outcomes, 2))
            } else if kind == ExpressionTypeP::Ternary {
                with_children(ExpressionType::Ternary, operands(outcomes, 3))
            } else if kind == ExpressionTypeP::Cast {
                if cs.len() == 0 {
                    None
                } else {
                    match outcomes[0] {
                        Some(Ok(c0)) => if cs.len() < 2 || !type_node_ok(cs[1]) {
                            None
                        } else {
                            match type_result(cs[1]) {
                                Ok(t) => Some(Ok(expr_v(ExpressionType::Cast(t), None, seq![c0]))),
                                Err(m) => Some(Err(m)),
                            }
                        },
                        other => other,
                    }
                }
            } else if kind == ExpressionTypeP::FunctionCall {
                if cs.len() == 0 {
                    None
                } else {
                    match cs[0] {
                        ParseTreeNode::Identifier(name) => match with_children(
                            ExpressionType::FunctionCall,
                            outcomes.skip(1),
                        ) {
                            Some(Ok(e)) => Some(
                                Ok(
                                    expr_v(
                                        ExpressionType::FunctionCall,
                                        Some(ValueV::Label(name.data@)),
                                        e.children,
                                    ),
                                ),
                            ),
                            other => other,
                        },
                        _ => None,
                    }
                }
            } else {
                None
            }
        },
        other => Some(Err(expected_got_text("an expression"@, other))),
    }
}


/// `r` is what the outcome `o` describes.
pub open spec fn parse_matches(r: Result<Expression, Error>, o: ParseOutcome) -> bool {
    match o {
        Some(Ok(e)) => r is Ok && r->Ok_0@ == e,
        Some(Err(m)) => is_error_with(r, m),
        None => false,
    }
}

proof fn lemma_with_children_stops(mode: ExpressionType, os: Seq<ParseOutcome>, k: int)
    requires
        0 <= k <= os.len(),
        !(with_children(mode, os.take(k)) matches Some(Ok(_))),
    ensures
        with_children(mode, os) == with_children(mode, os.take(k)),
    decreases os.len() - k,
{
    if k < os.len() {
        assert(os.take(k + 1).drop_last() =~= os.take(k));
        lemma_with_children_stops(mode, os, k + 1);
    } else {
        assert(os.take(k) =~= os);
    }
}

proof fn lemma_with_children_step(mode: ExpressionType, os: Seq<ParseOutcome>, k: int)
    requires
        0 <= k < os.len(),
        with_children(mode, os) is Some,
        with_children(mode, os.take(k)) matches Some(Ok(_)),
    ensures
        os[k] is Some,
        os[k] matches Some(Err(m)) ==> with_children(mode, os) == os[k],
        os[k] matches Some(Ok(c)) ==> with_children(mode, os.take(k + 1)) == Some(
            Ok::<ExprV, Seq<char>>(
                expr_v(mode, None, with_children(mode, os.take(k))->Some_0->Ok_0.children.push(c)),
            ),
        ),
{
    assert(os.take(k + 1).drop_last() =~= os.take(k));
    assert(os.take(k + 1).last() == os[k]);
    if !(os[k] matches Some(Ok(_))) {
        lemma_with_children_stops(mode, os, k + 1);
    }
}

/// The exec form of [`unary_kind`].
fn unary_kind_of(k: ExpressionTypeP) -> (r: Option<ExpressionType>)
    ensures
        r == unary_kind(k),
{
    match k {
        ExpressionTypeP::UnaryMinus => Some(ExpressionType::UnaryMinus),
        ExpressionTypeP::BitwiseNot => Some(ExpressionType::BitwiseNot),
        ExpressionTypeP::LogicalNot => Some(ExpressionType::LogicalNot),
        ExpressionTypeP::PreIncrement => Some(ExpressionType::PreExpression(OpCode::Add)),
        ExpressionTypeP::PreDecrement => Some(ExpressionType::PreExpression(OpCode::Sub)),
        ExpressionTypeP::PostIncrement => Some(ExpressionType::PostExpression(OpCode::Add)),
        ExpressionTypeP::PostDecrement => Some(ExpressionType::PostExpression(OpCode::Sub)),
        ExpressionTypeP::Reference => Some(ExpressionType::UnaryOperation(OpCode::Ref, 1)),
        ExpressionTypeP::Dereference => Some(ExpressionType::UnaryOperation(OpCode::Deref, -1)),
        ExpressionTypeP::DereferenceLeft => Some(ExpressionType::DereferenceLeft),
        _ => None,
    }
}

/// The exec form of [`binary_kind`].
fn binary_kind_of(k: ExpressionTypeP) -> (r: Option<ExpressionType>)
    ensures
        r == binary_kind(k),
{
    match k {
        ExpressionTypeP::Add => Some(ExpressionType::BinaryExpression(OpCode::Add)),
        ExpressionTypeP::Subtract => Some(ExpressionType::BinaryExpression(OpCode::Sub)),
        ExpressionTypeP::Multiply => Some(ExpressionType::BinaryExpression(OpCode::Mul)),
        ExpressionTypeP::Divide => Some(ExpressionType::BinaryExpression(OpCode::Div)),
        ExpressionTypeP::Modulus => Some(ExpressionType::BinaryExpression(OpCode::Mod)),
        ExpressionTypeP::ShiftLeft => Some(ExpressionType::BinaryExpression(OpCode::Shl)),
        ExpressionTypeP::ShiftRight => Some(ExpressionType::BinaryExpression(OpCode::Shr)),
        ExpressionTypeP::LessThan => Some(ExpressionType::BinaryExpression(OpCode::Clt)),
        ExpressionTypeP::LessThanOrEqual => Some(ExpressionType::BinaryExpression(OpCode::Cle)),
        ExpressionTypeP::GreaterThan => Some(ExpressionType::BinaryExpression(OpCode::Cgt)),
        ExpressionTypeP::GreaterThanOrEqual => Some(ExpressionType::BinaryExpression(OpCode::Cge)),
        ExpressionTypeP::Equal => Some(ExpressionType::BinaryExpression(OpCode::Ceq)),
        ExpressionTypeP::NotEqual => Some(ExpressionType::BinaryExpression(OpCode::Cne)),
        ExpressionTypeP::BitwiseAnd => Some(ExpressionType::BinaryExpression(OpCode::And)),
        ExpressionTypeP::BitwiseOr => Some(ExpressionType::BinaryExpression(OpCode::Or)),
        ExpressionTypeP::BitwiseXor => Some(ExpressionType::BinaryExpression(OpCode::Xor)),
        ExpressionTypeP::ArrayAccess => Some(ExpressionType::BinaryExpression(OpCode::Array)),
        ExpressionTypeP::AddAssign => Some(ExpressionType::AssignmentExpression(Some(OpCode::Add))),
        ExpressionTypeP::SubtractAssign => Some(ExpressionType::AssignmentExpression(Some(OpCode::Sub))),
        ExpressionTypeP::MultiplyAssign => Some(ExpressionType::AssignmentExpression(Some(OpCode::Mul))),
        ExpressionTypeP::DivideAssign => Some(ExpressionType::AssignmentExpression(Some(OpCode::Div))),
        ExpressionTypeP::ModulusAssign => Some(ExpressionType::AssignmentExpression(Some(OpCode::Mod))),
        ExpressionTypeP::ShiftLeftAssign => Some(ExpressionType::AssignmentExpression(Some(OpCode::Shl))),
        ExpressionTypeP::ShiftRightAssign => Some(ExpressionType::AssignmentExpression(Some(OpCode::Shr))),
        ExpressionTypeP::BitwiseAndAssign => Some(ExpressionType::AssignmentExpression(Some(OpCode::And))),
        ExpressionTypeP::BitwiseXorAssign => Some(ExpressionType::AssignmentExpression(Some(OpCode::Xor))),
        ExpressionTypeP::BitwiseOrAssign => Some(ExpressionType::AssignmentExpression(Some(OpCode::Or))),
        ExpressionTypeP::Assignment => Some(ExpressionType::AssignmentExpression(None)),
        ExpressionTypeP::Comma => Some(ExpressionType::Comma),
        ExpressionTypeP::LogicalAnd => Some(ExpressionType::LogicalAnd),
        ExpressionTypeP::LogicalOr => Some(ExpressionType::LogicalOr),
        _ => None,
    }
}

impl Expression {
    /// Reads an expression from the parse tree; identifiers are looked up in
    /// the symbol table of `func`.
    pub fn from_parse_tree_node(node: ParseTreeNode, func: &Function) -> (r: Result<Self, Error>)
        requires
            parsed_expression(node, func@.symbol_table) is Some,
        ensures
            parse_matches(r, parsed_expression(node, func@.symbol_table)),
    {
        Self::from_node(&node, func)
    }

    /// Reads `count` children of an operator node from position `first` on, in
    /// order, and builds the expression of kind `mode` from them.
    fn from_operands(
        node: &ParseTreeNode,
        children: &Vec<ParseTreeNode>,
        first: usize,
        count: usize,
        mode: ExpressionType,
        func: &Function,
    ) -> (r: Result<Expression, Error>)
        requires
            decreases_to!(*node => *children),
            first <= children@.len(),
            with_children(
                mode,
                operands(child_outcomes(children@, func@.symbol_table).skip(first as int), count as nat),
            ) is Some,
        ensures
            parse_matches(
                r,
                with_children(
                    mode,
                    operands(child_outcomes(children@, func@.symbol_table).skip(first as int), count as nat),
                ),
            ),
        decreases node, 0nat,
    {
        let ghost st = func@.symbol_table;
        let ghost all = child_outcomes(children@, st).skip(first as int);
        let ghost os = operands(all, count as nat);
        let mut result: Vec<Expression> = Vec::new();
        let mut i: usize = 0;
        let available = children.len() - first;
        assert(os.take(0) =~= Seq::<ParseOutcome>::empty());
        assert(expressions_view(result@) =~= Seq::<ExprV>::empty());
        while i < count && i < available
            invariant
                i <= count,
                i <= available,
                first + available == children@.len(),
                st == func@.symbol_table,
                all == child_outcomes(children@, st).skip(first as int),
                os == operands(all, count as nat),
                with_children(mode, os) is Some,
                decreases_to!(*node => *children),
                with_children(mode, os.take(i as int)) == Some(
                    Ok::<ExprV, Seq<char>>(expr_v(mode, None, expressions_view(result@))),
                ),
            decreases count - i,
        {
            proof {
                assert(os[i as int] == parsed_expression(children@[first + i], st));
                lemma_with_children_step(mode, os, i as int);
                assert(decreases_to!(*children => children@));
                assert(decreases_to!(children@ => children@[first + i]));
            }
            assert(first + i < children.len());
            let at = first + i;
            let c = match Self::from_node(&children[at], func) {
                Ok(c) => c,
                Err(e) => {
                    return Err(e);
                },
            };
            let ghost before = result@;
            result.push(c);
            proof {
                assert(expressions_view(result@) =~= expressions_view(before).push(c@));
            }
            i = i + 1;
        }
        proof {
            if i < count {
                assert(os[i as int] is None);
                lemma_with_children_step(mode, os, i as int);
            }
            assert(os.take(count as int) =~= os);
        }
        Ok(Expression::new(mode, None, result))
    }

    pub(crate) fn from_node(node: &ParseTreeNode, func: &Function) -> (r: Result<Expression, Error>)
        requires
            parsed_expression(*node, func@.symbol_table) is Some,
        ensures
            parse_matches(r, parsed_expression(*node, func@.symbol_table)),
        decreases node, 1nat,
    {
        let ghost st = func@.symbol_table;
        match node {
            ParseTreeNode::IntegerLiteral(token) => {
                let v = parse_decimal_i128(token.data.as_str()).unwrap();
                let none: Vec<Expression> = Vec::new();
                assert(expressions_view(none@) =~= Seq::<ExprV>::empty());
                Ok(
                    Expression::new_with_token(
                        ExpressionType::IntegerLiteral,
                        Some(Value::Literal(Literal::new(v, DataType::new(NonPtrType::Unknown, 0, false)))),
                        none,
                        token,
                    ),
                )
            },
            ParseTreeNode::Identifier(token) => {
                match func.symbol_table.get(&token.data) {
                    Some(symbol) => {
                        let none: Vec<Expression> = Vec::new();
                        assert(expressions_view(none@) =~= Seq::<ExprV>::empty());
                        Ok(Expression::new(ExpressionType::Identifier, Some(Value::Symbol(symbol.clone())), none))
                    },
                    None => {
                        let mut text = String::from_str("Symbol ");
                        text.append(token.data.as_str());
                        text.append(" not found in symbol table");
                        compiler_error_loc(text, &Some(token.location.clone()))
                    },
                }
            },
            ParseTreeNode::Expression(kind, children) => {
                let ghost all = child_outcomes(children@, st);
                proof {
                    assert(decreases_to!(*node => *children));
                    assert(all.skip(0) =~= all);
                }
                if *kind == ExpressionTypeP::UnaryPlus {
                    proof {
                        assert(decreases_to!(*children => children@));
                        assert(decreases_to!(children@ => children@[0]));
                    }
                    return Self::from_node(&children[0], func);
                }
                match unary_kind_of(*kind) {
                    Some(mode) => {
                        return Self::from_operands(node, children, 0, 1, mode, func);
                    },
                    None => {},
                }
                match binary_kind_of(*kind) {
                    Some(mode) => {
                        return Self::from_operands(node, children, 0, 2, mode, func);
                    },
                    None => {},
                }
                if *kind == ExpressionTypeP::Ternary {
                    return Self::from_operands(node, children, 0, 3, ExpressionType::Ternary, func);
                }
                if *kind == ExpressionTypeP::Cast {
                    let c0 = Self::from_node(&children[0], func)?;
                    let t = type_from_node(&children[1])?;
                    let mut kids: Vec<Expression> = Vec::new();
                    kids.push(c0);
                    assert(expressions_view(kids@) =~= seq![c0@]);
                    return Ok(Expression::new(ExpressionType::Cast(t), None, kids));
                }
                let name = match &children[0] {
                    ParseTreeNode::Identifier(token) => token.data.clone(),
                    _ => {
                        return expected_got_type_error("Identifier", &children[0]);
                    },
                };
                proof {
                    assert(all.skip(1).take(all.len() - 1) =~= all.skip(1));
                }
                let mut call = Self::from_operands(
                    node,
                    children,
                    1,
                    children.len() - 1,
                    ExpressionType::FunctionCall,
                    func,
                )?;
                proof {
                    lemma_view_fields(&call);
                }
                call.value = Some(Value::Label(name));
                proof {
                    lemma_view_fields(&call);
                }
                Ok(call)
            },
            _ => expected_got_type_error("an expression", node),
        }
    }
}


/// The instruction list is filled up to the next instruction position.
pub open spec fn ready(f: FunctionV) -> bool {
    f.next_index == f.instructions.len()
}

/// The register the function hands out next, as a value of type `t`.
pub open spec fn register_value(f: FunctionV, t: DataType) -> ValueV {
    ValueV::Symbol(SymbolV { title: register_name(f.next_register), datatype: t })
}

/// A literal of unknown type.
pub open spec fn unknown_literal(v: i128) -> ValueV {
    ValueV::Literal(Literal { value: v, datatype: unknown_type() })
}

/// A literal of the given type.
pub open spec fn typed_literal(v: i128, t: DataType) -> ValueV {
    ValueV::Literal(Literal { value: v, datatype: t })
}

/// The function after taking a fresh register; `None` once the counter is exhausted.
pub open spec fn take_register(o: Option<FunctionV>) -> Option<FunctionV> {
    match o {
        Some(f) => if f.next_register < usize::MAX {
            Some(next_register_v(f))
        } else {
            None
        },
        None => None,
    }
}

/// The function after taking three fresh labels; `None` once the counter is exhausted.
pub open spec fn take_three_labels(f: FunctionV) -> Option<FunctionV> {
    if f.next_label + 2 < usize::MAX {
        Some(FunctionV { next_label: (f.next_label + 3) as usize, ..f })
    } else {
        None
    }
}

/// The function after appending an instruction; `None` once the position counter is exhausted.
pub open spec fn emit(o: Option<FunctionV>, op: OpCode, args: Seq<ValueV>) -> Option<FunctionV> {
    match o {
        Some(f) => if f.next_index < usize::MAX {
            Some(add_instruction_v(f, InstructionV { opcode: op, arguments: args }))
        } else {
            None
        },
        None => None,
    }
}

/// The function after placing `label` at the position of the next instruction.
pub open spec fn place_here(o: Option<FunctionV>, label: Seq<char>) -> Option<FunctionV> {
    match o {
        Some(f) => Some(place_label_v(f, label, f.next_index)),
        None => None,
    }
}

/// The type both operands of a binary operation take: the type of the one that
/// is known, their common type when both are known and equal, else unknown.
pub open spec fn common_type(v0: ValueV, v1: ValueV) -> DataType {
    if !has_unknown_v(v0) && has_unknown_v(v1) {
        value_type(v0)->Some_0
    } else if has_unknown_v(v0) && !has_unknown_v(v1) {
        value_type(v1)->Some_0
    } else if !has_unknown_v(v0) && !has_unknown_v(v1) {
        if value_type(v0) == value_type(v1) {
            value_type(v0)->Some_0
        } else {
            unknown_type()
        }
    } else {
        unknown_type()
    }
}

/// The pointer count `(n as isize + delta) as usize`; `None` where the
/// addition overflows `isize`.
pub open spec fn shifted_pointers(n: usize, delta: isize) -> Option<usize> {
    let a: int = if n <= isize::MAX {
        n as int
    } else {
        n - usize::MAX - 1
    };
    let s = a + delta;
    if isize::MIN <= s <= isize::MAX {
        Some(
            (if s < 0 {
                s + usize::MAX + 1
            } else {
                s
            }) as usize,
        )
    } else {
        None
    }
}

/// `e` with the given value and children.
pub open spec fn with_result(e: ExprV, value: ValueV, children: Seq<ExprV>) -> ExprV {
    ExprV { value: Some(value), children, ..e }
}

/// The rest of rendering an expression with one operand, once that operand
/// was rendered to `c0` leaving the function as `f1`.
pub open spec fn finish_one_v(e: ExprV, c0: ExprV, f1: FunctionV) -> Option<(ExprV, FunctionV)> {
    let kids = e.children.update(0, c0);
    match c0.value {
        None => None,
        Some(v0) => match e.mode {
            ExpressionType::UnaryMinus | ExpressionType::BitwiseNot => match value_type(v0) {
                None => None,
                Some(t) => {
                    let value = register_value(f1, correct_type_references_v(t));
                    let op = if e.mode == ExpressionType::UnaryMinus { OpCode::Sub } else { OpCode::Xor };
                    let k: i128 = if e.mode == ExpressionType::UnaryMinus { 0i128 } else { -1i128 };
                    match emit(take_register(Some(f1)), op, seq![value, typed_literal(k, t), v0]) {
                        Some(f2) => Some((with_result(e, value, kids), f2)),
                        None => None,
                    }
                },
            },
            ExpressionType::PreExpression(op) => match value_type(v0) {
                None => None,
                Some(t) => match emit(Some(f1), op, seq![v0, v0, typed_literal(1, t)]) {
                    Some(f2) => Some((with_result(e, v0, kids), f2)),
                    None => None,
                },
            },
            ExpressionType::PostExpression(op) => match value_type(v0) {
                None => None,
                Some(t) => {
                    let value = register_value(f1, correct_type_references_v(t));
                    match emit(
                        emit(take_register(Some(f1)), OpCode::Mov, seq![value, v0]),
                        op,
                        seq![v0, v0, typed_literal(1, t)],
                    ) {
                        Some(f2) => Some((with_result(e, value, kids), f2)),
                        None => None,
                    }
                },
            },
            ExpressionType::Cast(dt) => {
                let ct = correct_type_references_v(dt);
                let value = register_value(f1, ct);
                match emit(take_register(Some(f1)), OpCode::Cast, seq![value, attempt_mutate_v(v0, ct)]) {
                    Some(f2) => Some((with_result(e, value, kids), f2)),
                    None => None,
                }
            },
            ExpressionType::UnaryOperation(op, delta) => match value_type(v0) {
                None => None,
                Some(t) => match shifted_pointers(t.num_ptr, delta) {
                    None => None,
                    Some(n) => {
                        let value = register_value(f1, DataType { num_ptr: n, ..t });
                        match emit(take_register(Some(f1)), op, seq![value, v0]) {
                            Some(f2) => Some((with_result(e, value, kids), f2)),
                            None => None,
                        }
                    },
                },
            },
            ExpressionType::DereferenceLeft => match value_type(v0) {
                None => None,
                Some(t) => if t.num_ptr == 0 {
                    None
                } else {
                    let nt = DataType { is_ref: true, num_ptr: (t.num_ptr - 1) as usize, ..t };
                    let value = register_value(f1, nt);
                    match emit(take_register(Some(f1)), OpCode::Cast, seq![value, attempt_mutate_v(v0, nt)]) {
                        Some(f2) => Some((with_result(e, value, kids), f2)),
                        None => None,
                    }
                },
            },
            _ => None,
        },
    }
}

/// The rest of rendering an expression with two operands, once they were
/// rendered to `c0` and `c1` leaving the function as `f2`.
pub open spec fn finish_two_v(e: ExprV, c0: ExprV, c1: ExprV, f2: FunctionV) -> Option<(ExprV, FunctionV)> {
    let kids = e.children.update(0, c0).update(1, c1);
    if e.mode == ExpressionType::Comma {
        match c1.value {
            Some(v1) => Some((with_result(e, v1, kids), f2)),
            None => None,
        }
    } else {
        match (c0.value, c1.value) {
            (Some(v0), Some(v1)) => {
                let t = common_type(v0, v1);
                let a0 = attempt_mutate_v(v0, t);
                let a1 = attempt_mutate_v(v1, t);
                let value = register_value(f2, correct_type_references_v(t));
                let f3 = take_register(Some(f2));
                let f4 = match e.mode {
                    ExpressionType::BinaryExpression(op) => emit(f3, op, seq![value, a0, a1]),
                    ExpressionType::AssignmentExpression(Some(op)) => emit(
                        emit(f3, op, seq![a0, a0, a1]),
                        OpCode::Mov,
                        seq![value, a0],
                    ),
                    ExpressionType::AssignmentExpression(None) => emit(
                        emit(f3, OpCode::Mov, seq![a0, a1]),
                        OpCode::Mov,
                        seq![value, a1],
                    ),
                    _ => None,
                };
                match f4 {
                    Some(f4) => Some((with_result(e, value, kids), f4)),
                    None => None,
                }
            },
            _ => None,
        }
    }
}

/// The state after the branch that every conditional form starts with: three
/// labels and a register taken, `cs0` rendered to `c0`, a branch on its value
/// to the first two labels, and the first label placed; with `c0`.
pub open spec fn branch_head(e: ExprV, f: FunctionV) -> Option<(ExprV, FunctionV)>
    decreases e, 1nat,
{
    let body = label_name(f.next_label);
    let clause = label_name((f.next_label + 1) as usize);
    if e.children.len() < 1 {
        None
    } else {
        match take_register(take_three_labels(f)) {
            None => None,
            Some(f1) => match rendered(e.children[0], f1) {
                None => None,
                Some((c0, f2)) => match c0.value {
                    None => None,
                    Some(v0) => match place_here(
                        emit(
                            Some(f2),
                            OpCode::Bne,
                            seq![v0, unknown_literal(0), ValueV::Label(body), ValueV::Label(clause)],
                        ),
                        body,
                    ) {
                        None => None,
                        Some(f3) => Some((c0, f3)),
                    },
                },
            },
        }
    }
}

/// The rest of a conditional form after its head: the moves that give the
/// result on each path, with the operands they need rendered in between; `value`
/// is the result register, `clause` and `exit` the second and third labels.
pub open spec fn branch_tail(
    e: ExprV,
    c0: ExprV,
    f3: FunctionV,
    value: ValueV,
    clause: Seq<char>,
    exit: Seq<char>,
) -> Option<(ExprV, FunctionV)>
    decreases e, 1nat,
{
    let cs = e.children;
    let jump = seq![ValueV::Label(exit)];
    match e.mode {
        ExpressionType::LogicalNot => match place_here(
            emit(
                place_here(
                    emit(emit(Some(f3), OpCode::Mov, seq![value, unknown_literal(0)]), OpCode::Jmp, jump),
                    clause,
                ),
                OpCode::Mov,
                seq![value, unknown_literal(1)],
            ),
            exit,
        ) {
            None => None,
            Some(f4) => Some((with_result(e, value, cs.update(0, c0)), f4)),
        },
        ExpressionType::LogicalOr => if cs.len() < 2 {
            None
        } else {
            match place_here(
                emit(emit(Some(f3), OpCode::Mov, seq![value, unknown_literal(1)]), OpCode::Jmp, jump),
                clause,
            ) {
                None => None,
                Some(f4) => match rendered(cs[1], f4) {
                    None => None,
                    Some((c1, f5)) => match c1.value {
                        None => None,
                        Some(v1) => match place_here(emit(Some(f5), OpCode::Mov, seq![value, v1]), exit) {
                            None => None,
                            Some(f6) => Some((with_result(e, value, cs.update(0, c0).update(1, c1)), f6)),
                        },
                    },
                },
            }
        },
        _ => if cs.len() < 2 || (e.mode != ExpressionType::LogicalAnd && cs.len() < 3) {
            None
        } else {
            match rendered(cs[1], f3) {
                None => None,
                Some((c1, f4)) => match c1.value {
                    None => None,
                    Some(v1) => match place_here(
                        emit(emit(Some(f4), OpCode::Mov, seq![value, v1]), OpCode::Jmp, jump),
                        clause,
                    ) {
                        None => None,
                        Some(f5) => if e.mode == ExpressionType::LogicalAnd {
                            match place_here(emit(Some(f5), OpCode::Mov, seq![value, unknown_literal(0)]), exit) {
                                None => None,
                                Some(f6) => Some((with_result(e, value, cs.update(0, c0).update(1, c1)), f6)),
                            }
                        } else {
                            match rendered(cs[2], f5) {
                                None => None,
                                Some((c2, f6)) => match c2.value {
                                    None => None,
                                    Some(v2) => match place_here(emit(Some(f6), OpCode::Mov, seq![value, v2]), exit) {
                                        None => None,
                                        Some(f7) => Some(
                                            (
                                                with_result(e, value, cs.update(0, c0).update(1, c1).update(2, c2)),
                                                f7,
                                            ),
                                        ),
                                    },
                                },
                            }
                        },
                    },
                },
            }
        },
    }
}

/// What rendering the first `n` arguments of a call gives: each is rendered
/// and pushed in turn.
pub open spec fn rendered_args(cs: Seq<ExprV>, f: FunctionV, n: nat) -> Option<(Seq<ExprV>, FunctionV)>
    decreases cs, n,
{
    if n == 0 {
        Some((cs, f))
    } else {
        match rendered_args(cs, f, (n - 1) as nat) {
            None => None,
            Some((cs2, f2)) => if n - 1 < cs.len() {
                match rendered(cs[n - 1], f2) {
                    None => None,
                    Some((c, f3)) => match c.value {
                        None => None,
                        Some(v) => match emit(Some(f3), OpCode::Push, seq![v]) {
                            None => None,
                            Some(f4) => Some((cs2.update(n - 1, c), f4)),
                        },
                    },
                }
            } else {
                None
            },
        }
    }
}

/// What rendering `e` into `f` gives: the expression with its value and its
/// rendered children, and the function with the instructions and labels
/// added; `None` where rendering stops the program.
pub open spec fn rendered(e: ExprV, f: FunctionV) -> Option<(ExprV, FunctionV)>
    decreases e, 2nat,
{
    let cs = e.children;
    match e.mode {
        ExpressionType::IntegerLiteral => Some((e, f)),
        ExpressionType::Identifier => Some((e, f)),
        ExpressionType::ArrayAccess => None,
        ExpressionType::FunctionCall => {
            let value = register_value(f, unknown_type());
            match take_register(Some(f)) {
                None => None,
                Some(f1) => match rendered_args(cs, f1, cs.len()) {
                    None => None,
                    Some((cs2, f2)) => match e.value {
                        None => None,
                        Some(callee) => match emit(Some(f2), OpCode::Call, seq![value, callee]) {
                            None => None,
                            Some(f3) => Some((with_result(e, value, cs2), f3)),
                        },
                    },
                },
            }
        },
        ExpressionType::BinaryExpression(_) | ExpressionType::AssignmentExpression(_) | ExpressionType::Comma => {
            if cs.len() < 2 {
                None
            } else {
                match rendered(cs[0], f) {
                    None => None,
                    Some((c0, f1)) => match rendered(cs[1], f1) {
                        None => None,
                        Some((c1, f2)) => finish_two_v(e, c0, c1, f2),
                    },
                }
            }
        },
        ExpressionType::Ternary | ExpressionType::LogicalNot | ExpressionType::LogicalAnd | ExpressionType::LogicalOr => {
            match branch_head(e, f) {
                None => None,
                Some((c0, f3)) => branch_tail(
                    e,
                    c0,
                    f3,
                    register_value(f, unknown_type()),
                    label_name((f.next_label + 1) as usize),
                    label_name((f.next_label + 2) as usize),
                ),
            }
        },
        _ => if cs.len() < 1 {
            None
        } else {
            match rendered(cs[0], f) {
                None => None,
                Some((c0, f1)) => finish_one_v(e, c0, f1),
            }
        },
    }
}


/// Appends an instruction without arguments.
pub(crate) fn emit0(func: &mut Function, op: OpCode)
    requires
        ready(old(func)@),
        old(func)@.next_index < usize::MAX,
    ensures
        ready(final(func)@),
        Some(final(func)@) == emit(Some(old(func)@), op, Seq::empty()),
{
    let args: Vec<Value> = Vec::new();
    assert(super::instruction::values_view(args@) =~= Seq::<ValueV>::empty());
    func.add_instruction(Instruction::new(op, args));
}

/// Appends an instruction with one argument.
pub(crate) fn emit1(func: &mut Function, op: OpCode, a: Value)
    requires
        ready(old(func)@),
        old(func)@.next_index < usize::MAX,
    ensures
        ready(final(func)@),
        Some(final(func)@) == emit(Some(old(func)@), op, seq![a@]),
{
    let args = vec![a];
    assert(super::instruction::values_view(args@) =~= seq![args@[0]@]);
    func.add_instruction(Instruction::new(op, args));
}

/// Appends an instruction with two arguments.
pub(crate) fn emit2(func: &mut Function, op: OpCode, a: Value, b: Value)
    requires
        ready(old(func)@),
        old(func)@.next_index < usize::MAX,
    ensures
        ready(final(func)@),
        Some(final(func)@) == emit(Some(old(func)@), op, seq![a@, b@]),
{
    let args = vec![a, b];
    assert(super::instruction::values_view(args@) =~= seq![args@[0]@, args@[1]@]);
    func.add_instruction(Instruction::new(op, args));
}

/// Appends an instruction with three arguments.
pub(crate) fn emit3(func: &mut Function, op: OpCode, a: Value, b: Value, c: Value)
    requires
        ready(old(func)@),
        old(func)@.next_index < usize::MAX,
    ensures
        ready(final(func)@),
        Some(final(func)@) == emit(Some(old(func)@), op, seq![a@, b@, c@]),
{
    let args = vec![a, b, c];
    assert(super::instruction::values_view(args@) =~= seq![args@[0]@, args@[1]@, args@[2]@]);
    func.add_instruction(Instruction::new(op, args));
}

/// Appends an instruction with four arguments.
pub(crate) fn emit4(func: &mut Function, op: OpCode, a: Value, b: Value, c: Value, d: Value)
    requires
        ready(old(func)@),
        old(func)@.next_index < usize::MAX,
    ensures
        ready(final(func)@),
        Some(final(func)@) == emit(Some(old(func)@), op, seq![a@, b@, c@, d@]),
{
    let args = vec![a, b, c, d];
    assert(super::instruction::values_view(args@) =~= seq![args@[0]@, args@[1]@, args@[2]@, args@[3]@]);
    func.add_instruction(Instruction::new(op, args));
}

/// Takes a fresh register of type `t`.
fn new_register(func: &mut Function, t: DataType) -> (v: Value)
    requires
        old(func)@.next_register < usize::MAX,
    ensures
        v@ == register_value(old(func)@, t),
        Some(final(func)@) == take_register(Some(old(func)@)),
{
    Value::Symbol(Symbol::new(func.get_register(), t))
}

/// Places `label` at the position of the next instruction.
pub(crate) fn place_label_at_end(func: &mut Function, label: String)
    ensures
        Some(final(func)@) == place_here(Some(old(func)@), label@),
        ready(old(func)@) ==> ready(final(func)@),
{
    func.place_label_here(label);
}

/// The exec form of [`common_type`].
fn common_type_of(v0: &Value, v1: &Value) -> (t: DataType)
    ensures
        t == common_type(v0@, v1@),
{
    let u0 = has_unknown_type(v0);
    let u1 = has_unknown_type(v1);
    if !u0 && u1 {
        get_value_type(v0).unwrap()
    } else if u0 && !u1 {
        get_value_type(v1).unwrap()
    } else if !u0 && !u1 {
        let t0 = get_value_type(v0).unwrap();
        let t1 = get_value_type(v1).unwrap();
        if t0 == t1 {
            t0
        } else {
            DataType::new(NonPtrType::Unknown, 0, false)
        }
    } else {
        DataType::new(NonPtrType::Unknown, 0, false)
    }
}

/// The exec form of [`shifted_pointers`].
fn shift_pointers(n: usize, delta: isize) -> (r: Option<usize>)
    ensures
        r == shifted_pointers(n, delta),
{
    let a: i128 = if n <= isize::MAX as usize {
        n as i128
    } else {
        n as i128 - (usize::MAX as i128) - 1
    };
    let s: i128 = a + delta as i128;
    if (isize::MIN as i128) <= s && s <= (isize::MAX as i128) {
        if s < 0 {
            Some((s + (usize::MAX as i128) + 1) as usize)
        } else {
            Some(s as usize)
        }
    } else {
        None
    }
}

impl Expression {
    /// Renders the expression into `func`: its operands first, then the
    /// instructions that compute its value; the value is kept in the expression.
    pub fn render(&mut self, func: &mut Function) -> (r: Result<(), Error>)
        requires
            ready(old(func)@),
            rendered(old(self)@, old(func)@) is Some,
        ensures
            r is Ok,
            ready(final(func)@),
            (final(self)@, final(func)@) == rendered(old(self)@, old(func)@)->Some_0,
        decreases old(self)@, 2nat,
    {
        proof {
            lemma_view_fields(self);
        }
        match self.mode {
            ExpressionType::IntegerLiteral | ExpressionType::Identifier | ExpressionType::ArrayAccess => Ok(()),
            ExpressionType::FunctionCall => self.render_call(func),
            ExpressionType::LogicalNot => self.render_not(func),
            ExpressionType::LogicalOr => self.render_or(func),
            ExpressionType::LogicalAnd | ExpressionType::Ternary => self.render_and_or_choice(func),
            ExpressionType::BinaryExpression(_) | ExpressionType::AssignmentExpression(_)
            | ExpressionType::Comma => {
                let ghost e = self@;
                proof {
                    assert(decreases_to!(e => e.children));
                    assert(decreases_to!(e.children => e.children[0]));
                    assert(decreases_to!(e.children => e.children[1]));
                }
                self.render_child(0, func)?;
                self.render_child(1, func)?;
                proof {
                    assert(self@.children.update(0, self@.children[0]).update(1, self@.children[1])
                        =~= self@.children);
                    assert(e.children.update(0, self@.children[0]).update(1, self@.children[1])
                        =~= self@.children);
                }
                self.complete_two(func);
                Ok(())
            },
            _ => {
                let ghost e = self@;
                proof {
                    assert(decreases_to!(e => e.children));
                    assert(decreases_to!(e.children => e.children[0]));
                }
                self.render_child(0, func)?;
                proof {
                    assert(self@.children.update(0, self@.children[0]) =~= self@.children);
                    assert(e.children.update(0, self@.children[0]) =~= self@.children);
                }
                self.complete_one(func);
                Ok(())
            },
        }
    }

    /// Renders child `i` in place.
    fn render_child(&mut self, i: usize, func: &mut Function) -> (r: Result<(), Error>)
        requires
            i < old(self)@.children.len(),
            ready(old(func)@),
            rendered(old(self)@.children[i as int], old(func)@) is Some,
        ensures
            r is Ok,
            ready(final(func)@),
            final(func)@ == rendered(old(self)@.children[i as int], old(func)@)->Some_0.1,
            final(self)@ == (ExprV {
                children: old(self)@.children.update(
                    i as int,
                    rendered(old(self)@.children[i as int], old(func)@)->Some_0.0,
                ),
                ..old(self)@
            }),
        decreases old(self)@.children[i as int], 3nat,
    {
        proof {
            lemma_view_fields(self);
            assert(self@.children[i as int] == self.children@[i as int]@);
        }
        let r = self.children[i].render(func);
        proof {
            lemma_view_fields(self);
            assert(expressions_view(self.children@) =~= old(self)@.children.update(
                i as int,
                self.children@[i as int]@,
            ));
        }
        r
    }

    /// The value of child `i`, once rendered.
    fn child_value(&self, i: usize, func: &Function) -> (v: Value)
        requires
            i < self@.children.len(),
            self@.children[i as int].value is Some,
        ensures
            v@ == self@.children[i as int].value->Some_0,
    {
        proof {
            lemma_view_fields(self);
            assert(self@.children[i as int] == self.children@[i as int]@);
        }
        self.children[i].value(func).unwrap()
    }

    /// Sets the value of the expression.
    fn set_value(&mut self, v: Value)
        ensures
            final(self)@ == (ExprV { value: Some(v@), ..old(self)@ }),
    {
        proof {
            lemma_view_fields(self);
        }
        self.value = Some(v);
        proof {
            lemma_view_fields(self);
        }
    }

    /// The instructions of an expression with one operand, once it is rendered.
    fn complete_one(&mut self, func: &mut Function)
        requires
            old(self)@.children.len() >= 1,
            ready(old(func)@),
            finish_one_v(old(self)@, old(self)@.children[0], old(func)@) is Some,
        ensures
            ready(final(func)@),
            (final(self)@, final(func)@) == finish_one_v(old(self)@, old(self)@.children[0], old(func)@)->Some_0,
    {
        proof {
            lemma_view_fields(self);
            assert(old(self)@.children.update(0, old(self)@.children[0]) =~= old(self)@.children);
        }
        let v0 = self.child_value(0, func);
        match self.mode {
            ExpressionType::UnaryMinus | ExpressionType::BitwiseNot => {
                let t = get_value_type(&v0).unwrap();
                let value = new_register(func, correct_type_references(t));
                if self.mode == ExpressionType::UnaryMinus {
                    emit3(func, OpCode::Sub, value.clone(), Value::Literal(Literal::new(0, t)), v0);
                } else {
                    emit3(func, OpCode::Xor, value.clone(), Value::Literal(Literal::new(-1, t)), v0);
                }
                self.set_value(value);
            },
            ExpressionType::PreExpression(op) => {
                let t = get_value_type(&v0).unwrap();
                emit3(func, op, v0.clone(), v0.clone(), Value::Literal(Literal::new(1, t)));
                self.set_value(v0);
            },
            ExpressionType::PostExpression(op) => {
                let t = get_value_type(&v0).unwrap();
                let value = new_register(func, correct_type_references(t));
                emit2(func, OpCode::Mov, value.clone(), v0.clone());
                emit3(func, op, v0.clone(), v0.clone(), Value::Literal(Literal::new(1, t)));
                self.set_value(value);
            },
            ExpressionType::Cast(dt) => {
                let ct = correct_type_references(dt);
                let value = new_register(func, ct);
                let a0 = attempt_mutate_type(v0, ct);
                emit2(func, OpCode::Cast, value.clone(), a0);
                self.set_value(value);
            },
            ExpressionType::UnaryOperation(op, delta) => {
                let mut t = get_value_type(&v0).unwrap();
                t.num_ptr = shift_pointers(t.num_ptr, delta).unwrap();
                let value = new_register(func, t);
                emit2(func, op, value.clone(), v0);
                self.set_value(value);
            },
            _ => {
                let mut t = get_value_type(&v0).unwrap();
                t.is_ref = true;
                t.num_ptr = t.num_ptr - 1;
                let value = new_register(func, t);
                let a0 = attempt_mutate_type(v0, t);
                emit2(func, OpCode::Cast, value.clone(), a0);
                self.set_value(value);
            },
        }
    }

    /// The instructions of an expression with two operands, once they are rendered.
    fn complete_two(&mut self, func: &mut Function)
        requires
            old(self)@.children.len() >= 2,
            ready(old(func)@),
            finish_two_v(old(self)@, old(self)@.children[0], old(self)@.children[1], old(func)@) is Some,
        ensures
            ready(final(func)@),
            (final(self)@, final(func)@) == finish_two_v(
                old(self)@,
                old(self)@.children[0],
                old(self)@.children[1],
                old(func)@,
            )->Some_0,
    {
        proof {
            lemma_view_fields(self);
            assert(old(self)@.children.update(0, old(self)@.children[0]).update(1, old(self)@.children[1])
                =~= old(self)@.children);
        }
        if self.mode == ExpressionType::Comma {
            let v1 = self.child_value(1, func);
            self.set_value(v1);
        } else {
            let v0 = self.child_value(0, func);
            let v1 = self.child_value(1, func);
            let t = common_type_of(&v0, &v1);
            let a0 = attempt_mutate_type(v0, t);
            let a1 = attempt_mutate_type(v1, t);
            let value = new_register(func, correct_type_references(t));
            match self.mode {
                ExpressionType::BinaryExpression(op) => {
                    emit3(func, op, value.clone(), a0, a1);
                },
                ExpressionType::AssignmentExpression(Some(op)) => {
                    emit3(func, op, a0.clone(), a0.clone(), a1);
                    emit2(func, OpCode::Mov, value.clone(), a0);
                },
                _ => {
                    emit2(func, OpCode::Mov, a0, a1.clone());
                    emit2(func, OpCode::Mov, value.clone(), a1);
                },
            }
            self.set_value(value);
        }
    }
}


proof fn lemma_rendered_args_prefix(cs: Seq<ExprV>, f: FunctionV, i: nat, n: nat)
    requires
        i <= n,
        rendered_args(cs, f, n) is Some,
    ensures
        rendered_args(cs, f, i) is Some,
    decreases n - i,
{
    if i < n {
        lemma_rendered_args_prefix(cs, f, i, (n - 1) as nat);
    }
}

proof fn lemma_rendered_args_keeps(cs: Seq<ExprV>, f: FunctionV, n: nat)
    requires
        rendered_args(cs, f, n) is Some,
    ensures
        rendered_args(cs, f, n)->Some_0.0.len() == cs.len(),
        forall|j: int| n <= j < cs.len() ==> rendered_args(cs, f, n)->Some_0.0[j] == cs[j],
    decreases n,
{
    if n > 0 {
        lemma_rendered_args_keeps(cs, f, (n - 1) as nat);
    }
}

impl Expression {
    /// Renders a call: each argument is rendered and pushed, then the call is made.
    fn render_call(&mut self, func: &mut Function) -> (r: Result<(), Error>)
        requires
            old(self)@.mode == ExpressionType::FunctionCall,
            ready(old(func)@),
            rendered(old(self)@, old(func)@) is Some,
        ensures
            r is Ok,
            ready(final(func)@),
            (final(self)@, final(func)@) == rendered(old(self)@, old(func)@)->Some_0,
        decreases old(self)@, 1nat,
    {
        proof {
            lemma_view_fields(self);
        }
        let ghost e = self@;
        let ghost cs = e.children;
        let value = new_register(func, DataType::new(NonPtrType::Unknown, 0, false));
        let ghost f1 = func@;
        let n = self.children.len();
        let mut i: usize = 0;
        proof {
            assert(decreases_to!(e => cs));
        }
        while i < n
            invariant
                i <= n,
                n == cs.len(),
                e == old(self)@,
                cs == e.children,
                decreases_to!(e => cs),
                ready(func@),
                self@ == (ExprV { children: self@.children, ..e }),
                rendered_args(cs, f1, i as nat) == Some((self@.children, func@)),
                rendered_args(cs, f1, n as nat) is Some,
                self@.children.len() == n,
                forall|j: int| i <= j < n ==> self@.children[j] == cs[j],
            decreases n - i,
        {
            proof {
                lemma_rendered_args_prefix(cs, f1, (i + 1) as nat, n as nat);
                assert(decreases_to!(cs => cs[i as int]));
            }
            self.render_child(i, func)?;
            let v = self.child_value(i, func);
            emit1(func, OpCode::Push, v);
            proof {
                assert(self@.children =~= rendered_args(cs, f1, (i + 1) as nat)->Some_0.0);
            }
            i = i + 1;
        }
        proof {
            lemma_view_fields(self);
        }
        let callee = self.value.as_ref().unwrap().clone();
        emit2(func, OpCode::Call, value.clone(), callee);
        self.set_value(value);
        Ok(())
    }

    /// The head of a conditional form: three labels and the result register are
    /// taken, the first operand is rendered, a branch on its value goes to the
    /// first or second label, and the first label is placed.
    fn branch_head_exec(&mut self, func: &mut Function) -> (r: (Value, String, String))
        requires
            ready(old(func)@),
            branch_head(old(self)@, old(func)@) is Some,
        ensures
            ready(final(func)@),
            final(func)@ == branch_head(old(self)@, old(func)@)->Some_0.1,
            final(self)@ == (ExprV {
                value: Some(r.0@),
                children: old(self)@.children.update(0, branch_head(old(self)@, old(func)@)->Some_0.0),
                ..old(self)@
            }),
            r.0@ == register_value(old(func)@, unknown_type()),
            r.1@ == label_name((old(func)@.next_label + 1) as usize),
            r.2@ == label_name((old(func)@.next_label + 2) as usize),
        decreases old(self)@, 0nat,
    {
        proof {
            lemma_view_fields(self);
        }
        let ghost e = self@;
        proof {
            assert(decreases_to!(e => e.children));
            assert(decreases_to!(e.children => e.children[0]));
        }
        let body = func.get_label();
        let clause = func.get_label();
        let exit = func.get_label();
        let value = new_register(func, DataType::new(NonPtrType::Unknown, 0, false));
        self.set_value(value.clone());
        let _ = self.render_child(0, func);
        let v0 = self.child_value(0, func);
        emit4(
            func,
            OpCode::Bne,
            v0,
            Value::Literal(Literal::new(0, DataType::new(NonPtrType::Unknown, 0, false))),
            Value::Label(body.clone()),
            Value::Label(clause.clone()),
        );
        place_label_at_end(func, body);
        (value, clause, exit)
    }

    /// Renders a logical not: the result is 0 on the path where the operand is
    /// not 0, and 1 on the other.
    fn render_not(&mut self, func: &mut Function) -> (r: Result<(), Error>)
        requires
            old(self)@.mode == ExpressionType::LogicalNot,
            ready(old(func)@),
            rendered(old(self)@, old(func)@) is Some,
        ensures
            r is Ok,
            ready(final(func)@),
            (final(self)@, final(func)@) == rendered(old(self)@, old(func)@)->Some_0,
        decreases old(self)@, 1nat,
    {
        let ghost e = old(self)@;
        let ghost f0 = old(func)@;
        let (value, clause, exit) = self.branch_head_exec(func);
        assert(rendered(e, f0) == branch_tail(e, self@.children[0], func@, value@, clause@, exit@));
        let unknown = DataType::new(NonPtrType::Unknown, 0, false);
        emit2(func, OpCode::Mov, value.clone(), Value::Literal(Literal::new(0, unknown)));
        emit1(func, OpCode::Jmp, Value::Label(exit.clone()));
        place_label_at_end(func, clause);
        emit2(func, OpCode::Mov, value.clone(), Value::Literal(Literal::new(1, unknown)));
        place_label_at_end(func, exit);
        proof {
            assert(self@.children =~= old(self)@.children.update(0, self@.children[0]));
        }
        Ok(())
    }

    /// Renders a logical or: the result is 1 on the path where the first operand
    /// is not 0, and the second operand on the other.
    fn render_or(&mut self, func: &mut Function) -> (r: Result<(), Error>)
        requires
            old(self)@.mode == ExpressionType::LogicalOr,
            ready(old(func)@),
            rendered(old(self)@, old(func)@) is Some,
        ensures
            r is Ok,
            ready(final(func)@),
            (final(self)@, final(func)@) == rendered(old(self)@, old(func)@)->Some_0,
        decreases old(self)@, 1nat,
    {
        let ghost e = self@;
        let ghost f0 = func@;
        let (value, clause, exit) = self.branch_head_exec(func);
        assert(rendered(e, f0) == branch_tail(e, self@.children[0], func@, value@, clause@, exit@));
        assert(e.children.len() >= 2);
        proof {
            assert(decreases_to!(e => e.children));
            assert(decreases_to!(e.children => e.children[1]));
        }
        let unknown = DataType::new(NonPtrType::Unknown, 0, false);
        emit2(func, OpCode::Mov, value.clone(), Value::Literal(Literal::new(1, unknown)));
        emit1(func, OpCode::Jmp, Value::Label(exit.clone()));
        place_label_at_end(func, clause);
        self.render_child(1, func)?;
        let v1 = self.child_value(1, func);
        emit2(func, OpCode::Mov, value.clone(), v1);
        place_label_at_end(func, exit);
        proof {
            assert(self@.children =~= e.children.update(0, self@.children[0]).update(1, self@.children[1]));
        }
        Ok(())
    }

    /// Renders a logical and (`ternary` false) or a conditional (`ternary` true):
    /// on the path where the first operand is not 0 the result is the second
    /// operand; on the other it is 0, or the third operand.
    fn render_and_or_choice(&mut self, func: &mut Function) -> (r: Result<(), Error>)
        requires
            old(self)@.mode == ExpressionType::LogicalAnd || old(self)@.mode == ExpressionType::Ternary,
            ready(old(func)@),
            rendered(old(self)@, old(func)@) is Some,
        ensures
            r is Ok,
            ready(final(func)@),
            (final(self)@, final(func)@) == rendered(old(self)@, old(func)@)->Some_0,
        decreases old(self)@, 1nat,
    {
        let ghost e = self@;
        let ghost f0 = func@;
        let (value, clause, exit) = self.branch_head_exec(func);
        assert(rendered(e, f0) == branch_tail(e, self@.children[0], func@, value@, clause@, exit@));
        assert(e.children.len() >= 2);
        proof {
            assert(decreases_to!(e => e.children));
            assert(decreases_to!(e.children => e.children[1]));
        }
        self.render_child(1, func)?;
        let v1 = self.child_value(1, func);
        emit2(func, OpCode::Mov, value.clone(), v1);
        emit1(func, OpCode::Jmp, Value::Label(exit.clone()));
        place_label_at_end(func, clause);
        if self.mode == ExpressionType::LogicalAnd {
            emit2(func, OpCode::Mov, value.clone(), Value::Literal(Literal::new(0, DataType::new(NonPtrType::Unknown, 0, false))));
            place_label_at_end(func, exit);
            proof {
                assert(self@.children =~= e.children.update(0, self@.children[0]).update(1, self@.children[1]));
            }
        } else {
            assert(e.children.len() >= 3);
            proof {
                assert(decreases_to!(e.children => e.children[2]));
            }
            self.render_child(2, func)?;
            let v2 = self.child_value(2, func);
            emit2(func, OpCode::Mov, value.clone(), v2);
            place_label_at_end(func, exit);
            proof {
                assert(self@.children =~= e.children.update(0, self@.children[0]).update(1, self@.children[1]).update(
                    2,
                    self@.children[2],
                ));
            }
        }
        Ok(())
    }
}

} // verus!
