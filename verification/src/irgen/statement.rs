//! Statements of a function body: how they are read from the parse tree and
//! the instructions they render to.
use vstd::prelude::*;
use super::types::{DataType, NonPtrType};
use super::instruction::{Instruction, InstructionV, Literal, OpCode, Symbol, SymbolV, Value, ValueV};
use super::function::{Function, FunctionV};
use super::expression::{
    ExprV, Expression, ParseOutcome, emit, option_location_view, parse_matches, parsed_expression,
    place_here, ready, rendered, take_three_labels, unknown_literal, emit0, emit1, emit2, emit4,
    place_label_at_end,
};
use super::errors::compiler_error_loc;
use super::function::{insert_arguments, label_name, new_function_v};
use super::utils::attempt_mutate_v;
use crate::tokenizer::stream::location_text;
use super::utils::{
    arguments_from_node, arguments_node_ok, arguments_result, identifier_from_node,
    identifier_result, type_from_node, type_node_ok, type_result, expected_got_type_error,
};
use super::errors::{compiler_error, compiler_error_text, expected_got_text};
use crate::cli::Error;
use crate::cli::errors::is_error_with;
use crate::parser::ParseTreeNode;
use crate::tokenizer::{FileLocation, Token};
use crate::tokenizer::stream::LocationV;
use crate::text::str_eq;

verus! {

#[derive(Debug, Clone, Copy, PartialEq, Eq, Structural)]
pub enum StatementType {
    Empty,
    CompoundStatement,
    ContinueStatement,
    BreakStatement,
    InitializationStatement,
    IfStatement,
    WhileStatement,
    DoWhileStatement,
    LoopStatement,
    ReturnStatement,
    ExpressionStatement,
}

#[derive(Debug)]
pub struct Statement {
    mode: StatementType,
    expr: Option<Expression>,
    children: Vec<Statement>,
    pos: Option<FileLocation>,
    init_data: Option<(DataType, String)>,
}

/// The mathematical value of a [`Statement`].
pub struct StmtV {
    pub mode: StatementType,
    pub expr: Option<ExprV>,
    pub children: Seq<StmtV>,
    pub pos: Option<LocationV>,
    pub init_data: Option<(DataType, Seq<char>)>,
}

/// The view of an optional expression.
pub open spec fn option_expr_view(e: Option<Expression>) -> Option<ExprV> {
    match e {
        Some(x) => Some(x@),
        None => None,
    }
}

/// The view of optional initialisation data: a type and a name.
pub open spec fn init_data_view(d: Option<(DataType, String)>) -> Option<(DataType, Seq<char>)> {
    match d {
        Some((t, n)) => Some((t, n@)),
        None => None,
    }
}

/// A statement of the given kind with nothing else in it.
pub open spec fn stmt_v(mode: StatementType) -> StmtV {
    StmtV { mode, expr: None, children: Seq::empty(), pos: None, init_data: None }
}

/// The view of a statement, its children viewed in turn.
pub closed spec fn statement_view(s: &Statement) -> StmtV
    decreases s,
{
    StmtV {
        mode: s.mode,
        expr: option_expr_view(s.expr),
        children: Seq::new(
            s.children@.len(),
            |i: int|
                if 0 <= i < s.children@.len() {
                    statement_view(&s.children@[i])
                } else {
                    stmt_v(StatementType::Empty)
                },
        ),
        pos: option_location_view(s.pos),
        init_data: init_data_view(s.init_data),
    }
}

impl View for Statement {
    type V = StmtV;

    open spec fn view(&self) -> StmtV {
        statement_view(self)
    }
}

/// The views of a sequence of statements.
pub open spec fn statements_view(ss: Seq<Statement>) -> Seq<StmtV> {
    ss.map_values(|s: Statement| s@)
}

proof fn lemma_stmt_fields(s: &Statement)
    ensures
        s@.mode == s.mode,
        s@.expr == option_expr_view(s.expr),
        s@.pos == option_location_view(s.pos),
        s@.init_data == init_data_view(s.init_data),
        s@.children == statements_view(s.children@),
{
    assert(s@.children =~= statements_view(s.children@));
}

impl Statement {
    pub fn new(mode: StatementType) -> (s: Self)
        ensures
            s@ == stmt_v(mode),
    {
        let s = Self { mode, expr: None, children: Vec::new(), pos: None, init_data: None };
        proof {
            lemma_stmt_fields(&s);
            assert(s@.children =~= Seq::<StmtV>::empty());
        }
        s
    }

    pub fn new_with_token(mode: StatementType, token: &Token) -> (s: Self)
        ensures
            s@ == (StmtV { pos: Some(token.location@), ..stmt_v(mode) }),
    {
        let s = Self {
            mode,
            expr: None,
            children: Vec::new(),
            pos: Some(token.location.clone()),
            init_data: None,
        };
        proof {
            lemma_stmt_fields(&s);
            assert(s@.children =~= Seq::<StmtV>::empty());
        }
        s
    }

    pub fn add_child(&mut self, child: Self)
        ensures
            final(self)@ == (StmtV { children: old(self)@.children.push(child@), ..old(self)@ }),
    {
        proof {
            lemma_stmt_fields(self);
        }
        let ghost c = child@;
        self.children.push(child);
        proof {
            lemma_stmt_fields(self);
            assert(statements_view(self.children@) =~= old(self)@.children.push(c));
        }
    }

    /// The expression of the statement, if it has one.
    pub fn expr(&self) -> (r: &Option<Expression>)
        ensures
            option_expr_view(*r) == self@.expr,
    {
        proof {
            lemma_stmt_fields(self);
        }
        &self.expr
    }

    /// Sets the expression of the statement.
    pub fn set_expr(&mut self, e: Expression)
        ensures
            final(self)@ == (StmtV { expr: Some(e@), ..old(self)@ }),
    {
        proof {
            lemma_stmt_fields(self);
        }
        self.expr = Some(e);
        proof {
            lemma_stmt_fields(self);
        }
    }
}


/// The outcome of reading a statement: `None` where reading it stops the
/// program, else the statement or an error message, with the symbol table
/// as it is left (declarations read before an error stay in it).
pub type StmtOutcome = Option<(Result<StmtV, Seq<char>>, Map<Seq<char>, SymbolV>)>;

/// The outcome of reading a sequence of statements.
pub type StmtsOutcome = Option<(Result<Seq<StmtV>, Seq<char>>, Map<Seq<char>, SymbolV>)>;

/// A statement of kind `mode` holding the expression that `e` reads.
pub open spec fn with_expression(
    mode: StatementType,
    e: ParseOutcome,
    st: Map<Seq<char>, SymbolV>,
) -> StmtOutcome {
    match e {
        None => None,
        Some(Err(m)) => Some((Err(m), st)),
        Some(Ok(x)) => Some((Ok(StmtV { expr: Some(x), ..stmt_v(mode) }), st)),
    }
}

/// The statement `s` with `child` added, once the child is read.
pub open spec fn then_child(s: StmtV, child: StmtOutcome) -> StmtOutcome {
    match child {
        None => None,
        Some((Err(m), st)) => Some((Err(m), st)),
        Some((Ok(c), st)) => Some((Ok(StmtV { children: s.children.push(c), ..s }), st)),
    }
}

/// The declarations of the first `n` assignments of an initialisation of
/// type `t`: each names a symbol and the expression it starts with; each
/// symbol is declared once its expression is read.
pub open spec fn assignments_fold(
    acs: Seq<ParseTreeNode>,
    t: DataType,
    st: Map<Seq<char>, SymbolV>,
    n: nat,
) -> StmtsOutcome
    decreases n,
{
    if n == 0 {
        Some((Ok(Seq::empty()), st))
    } else {
        match assignments_fold(acs, t, st, (n - 1) as nat) {
            Some((Ok(acc), st1)) => if n - 1 >= acs.len() {
                None
            } else {
                match acs[n - 1] {
                    ParseTreeNode::Assignment(data) => if data@.len() < 1 {
                        None
                    } else {
                        match identifier_result(data@[0]) {
                            Err(m) => Some((Err(m), st1)),
                            Ok(name) => if data@.len() < 2 {
                                None
                            } else {
                                match parsed_expression(data@[1], st1) {
                                    None => None,
                                    Some(Err(m)) => Some((Err(m), st1)),
                                    Some(Ok(e)) => Some(
                                        (
                                            Ok(
                                                acc.push(
                                                    StmtV {
                                                        expr: Some(e),
                                                        init_data: Some((t, name)),
                                                        ..stmt_v(StatementType::InitializationStatement)
                                                    },
                                                ),
                                            ),
                                            st1.insert(name, SymbolV { title: name, datatype: t }),
                                        ),
                                    ),
                                }
                            },
                        }
                    },
                    other => Some((Err(expected_got_text("an assignment"@, other)), st1)),
                }
            },
            other => other,
        }
    }
}

/// The first `n` statements of a block, each read with the symbol table the
/// ones before it leave.
pub open spec fn statements_fold(cs: Seq<ParseTreeNode>, st: Map<Seq<char>, SymbolV>, n: nat) -> StmtsOutcome
    decreases cs, n,
{
    if n == 0 {
        Some((Ok(Seq::empty()), st))
    } else {
        match statements_fold(cs, st, (n - 1) as nat) {
            Some((Ok(acc), st1)) => if n - 1 < cs.len() {
                match parsed_statement(cs[n - 1], st1) {
                    None => None,
                    Some((Err(m), st2)) => Some((Err(m), st2)),
                    Some((Ok(s), st2)) => Some((Ok(acc.push(s)), st2)),
                }
            } else {
                None
            },
            other => other,
        }
    }
}

/// What reading `node` as a statement gives, with `st` as the symbol table.
#[verifier::opaque]
pub open spec fn parsed_statement(node: ParseTreeNode, st: Map<Seq<char>, SymbolV>) -> StmtOutcome
    decreases node, 0nat,
{
    match node {
        ParseTreeNode::Empty => Some((Ok(stmt_v(StatementType::Empty)), st)),
        ParseTreeNode::Statement(children) => {
            let cs = children@;
            if cs.len() == 0 {
                Some((Ok(stmt_v(StatementType::Empty)), st))
            } else {
                match cs[0] {
                    ParseTreeNode::RawToken(t) => if t.data@ == "continue"@ {
                        Some((Ok(StmtV { pos: Some(t.location@), ..stmt_v(StatementType::ContinueStatement) }), st))
                    } else if t.data@ == "break"@ {
                        Some((Ok(StmtV { pos: Some(t.location@), ..stmt_v(StatementType::BreakStatement) }), st))
                    } else {
                        Some((Err(compiler_error_text("Expected 'continue' or 'break', got '"@ + t.data@ + "'"@)), st))
                    },
                    ParseTreeNode::Expression(_, _) => with_expression(
                        StatementType::ExpressionStatement,
                        parsed_expression(cs[0], st),
                        st,
                    ),
                    other => Some((Err(expected_got_text("RawToken or Expression"@, other)), st)),
                }
            }
        },
        ParseTreeNode::Statements(children) => match statements_fold(children@, st, children@.len()) {
            Some((Ok(ss), st2)) => Some((Ok(StmtV { children: ss, ..stmt_v(StatementType::CompoundStatement) }), st2)),
            Some((Err(m), st2)) => Some((Err(m), st2)),
            None => None,
        },
        ParseTreeNode::ReturnStatement(children) => if children@.len() == 0 {
            None
        } else {
            with_expression(StatementType::ReturnStatement, parsed_expression(children@[0], st), st)
        },
        ParseTreeNode::Loop(children) => if children@.len() == 0 {
            None
        } else {
            then_child(stmt_v(StatementType::LoopStatement), parsed_statement(children@[0], st))
        },
        ParseTreeNode::IfStatement(children) => {
            let cs = children@;
            if cs.len() == 0 {
                None
            } else {
                match with_expression(StatementType::IfStatement, parsed_expression(cs[0], st), st) {
                    Some((Ok(s), st1)) => if cs.len() < 2 {
                        None
                    } else {
                        match then_child(s, parsed_statement(cs[1], st1)) {
                            Some((Ok(s2), st2)) => if cs.len() < 3 {
                                None
                            } else {
                                then_child(s2, parsed_statement(cs[2], st2))
                            },
                            other => other,
                        }
                    },
                    other => other,
                }
            }
        },
        ParseTreeNode::WhileLoop(children) | ParseTreeNode::DoWhileLoop(children) => {
            let cs = children@;
            let mode = if node is WhileLoop {
                StatementType::WhileStatement
            } else {
                StatementType::DoWhileStatement
            };
            if cs.len() == 0 {
                None
            } else {
                match with_expression(mode, parsed_expression(cs[0], st), st) {
                    Some((Ok(s), st1)) => if cs.len() < 2 {
                        None
                    } else {
                        then_child(s, parsed_statement(cs[1], st1))
                    },
                    other => other,
                }
            }
        },
        ParseTreeNode::AssignmentStatement(children) => {
            let cs = children@;
            if cs.len() == 0 || !type_node_ok(cs[0]) {
                None
            } else {
                match type_result(cs[0]) {
                    Err(m) => Some((Err(m), st)),
                    Ok(t) => if cs.len() < 2 {
                        None
                    } else {
                        match cs[1] {
                            ParseTreeNode::Assignments(acs) => match assignments_fold(acs@, t, st, acs@.len()) {
                                Some((Ok(ss), st2)) => Some(
                                    (Ok(StmtV { children: ss, ..stmt_v(StatementType::CompoundStatement) }), st2),
                                ),
                                Some((Err(m), st2)) => Some((Err(m), st2)),
                                None => None,
                            },
                            other => Some((Err(expected_got_text("assignments"@, other)), st)),
                        }
                    },
                }
            }
        },
        other => Some((Err(expected_got_text("a statement"@, other)), st)),
    }
}


/// `r` and the function `f` (which was `f0`) are what the outcome `o` describes.
pub open spec fn stmt_matches(r: Result<Statement, Error>, f: FunctionV, f0: FunctionV, o: StmtOutcome) -> bool {
    match o {
        Some((res, st)) => f == (FunctionV { symbol_table: st, ..f0 }) && match res {
            Ok(s) => r is Ok && r->Ok_0@ == s,
            Err(m) => is_error_with(r, m),
        },
        None => false,
    }
}

proof fn lemma_statements_fold_stops(cs: Seq<ParseTreeNode>, st: Map<Seq<char>, SymbolV>, k: nat, n: nat)
    requires
        k <= n,
        !(statements_fold(cs, st, k) matches Some((Ok(_), _))),
    ensures
        statements_fold(cs, st, n) == statements_fold(cs, st, k),
    decreases n - k,
{
    if k < n {
        lemma_statements_fold_stops(cs, st, k, (n - 1) as nat);
    }
}

proof fn lemma_statements_fold_some(cs: Seq<ParseTreeNode>, st: Map<Seq<char>, SymbolV>, k: nat, n: nat)
    requires
        k <= n,
        statements_fold(cs, st, n) is Some,
    ensures
        statements_fold(cs, st, k) is Some,
    decreases n - k,
{
    if k < n {
        lemma_statements_fold_some(cs, st, k, (n - 1) as nat);
        if !(statements_fold(cs, st, (n - 1) as nat) matches Some((Ok(_), _))) {
            lemma_statements_fold_stops(cs, st, (n - 1) as nat, n);
        }
    }
}

proof fn lemma_statements_fold_step(cs: Seq<ParseTreeNode>, st: Map<Seq<char>, SymbolV>, k: nat, n: nat)
    requires
        k < n <= cs.len(),
        statements_fold(cs, st, n) is Some,
        statements_fold(cs, st, k) matches Some((Ok(_), _)),
    ensures
        parsed_statement(cs[k as int], statements_fold(cs, st, k)->Some_0.1) is Some,
        parsed_statement(cs[k as int], statements_fold(cs, st, k)->Some_0.1) matches Some((Ok(s), st2))
            ==> statements_fold(cs, st, k + 1) == Some(
            (Ok::<Seq<StmtV>, Seq<char>>(statements_fold(cs, st, k)->Some_0.0->Ok_0.push(s)), st2),
        ),
        parsed_statement(cs[k as int], statements_fold(cs, st, k)->Some_0.1) matches Some((Err(m), st2))
            ==> statements_fold(cs, st, n) == Some((Err::<Seq<StmtV>, Seq<char>>(m), st2)),
{
    let acc = statements_fold(cs, st, k)->Some_0.0->Ok_0;
    let st1 = statements_fold(cs, st, k)->Some_0.1;
    let next = parsed_statement(cs[k as int], st1);
    lemma_statements_fold_some(cs, st, k + 1, n);
    assert(statements_fold(cs, st, k + 1) == match next {
        None => None,
        Some((Err(m), st2)) => Some((Err::<Seq<StmtV>, Seq<char>>(m), st2)),
        Some((Ok(s), st2)) => Some((Ok::<Seq<StmtV>, Seq<char>>(acc.push(s)), st2)),
    }) by {
        reveal(parsed_statement);
    }
    if !(statements_fold(cs, st, k + 1) matches Some((Ok(_), _))) {
        lemma_statements_fold_stops(cs, st, k + 1, n);
    }
}

proof fn lemma_parsed_block(node: ParseTreeNode, children: Vec<ParseTreeNode>, st: Map<Seq<char>, SymbolV>)
    requires
        node == ParseTreeNode::Statements(children),
    ensures
        parsed_statement(node, st) == match statements_fold(children@, st, children@.len()) {
            Some((Ok(ss), st2)) => Some((Ok(StmtV { children: ss, ..stmt_v(StatementType::CompoundStatement) }), st2)),
            Some((Err(m), st2)) => Some((Err::<StmtV, Seq<char>>(m), st2)),
            None => None,
        },
{
    reveal(parsed_statement);
}

proof fn lemma_parsed_if(node: ParseTreeNode, children: Vec<ParseTreeNode>, st: Map<Seq<char>, SymbolV>)
    requires
        node == ParseTreeNode::IfStatement(children),
    ensures
        parsed_statement(node, st) == (if children@.len() == 0 {
            None
        } else {
            match with_expression(StatementType::IfStatement, parsed_expression(children@[0], st), st) {
                Some((Ok(s), st1)) => if children@.len() < 2 {
                    None
                } else {
                    match then_child(s, parsed_statement(children@[1], st1)) {
                        Some((Ok(s2), st2)) => if children@.len() < 3 {
                            None
                        } else {
                            then_child(s2, parsed_statement(children@[2], st2))
                        },
                        other => other,
                    }
                },
                other => other,
            }
        }),
{
    reveal(parsed_statement);
}

proof fn lemma_assignments_fold_stops(
    acs: Seq<ParseTreeNode>,
    t: DataType,
    st: Map<Seq<char>, SymbolV>,
    k: nat,
    n: nat,
)
    requires
        k <= n,
        !(assignments_fold(acs, t, st, k) matches Some((Ok(_), _))),
    ensures
        assignments_fold(acs, t, st, n) == assignments_fold(acs, t, st, k),
    decreases n - k,
{
    if k < n {
        lemma_assignments_fold_stops(acs, t, st, k, (n - 1) as nat);
    }
}

proof fn lemma_assignments_fold_some(
    acs: Seq<ParseTreeNode>,
    t: DataType,
    st: Map<Seq<char>, SymbolV>,
    k: nat,
    n: nat,
)
    requires
        k <= n,
        assignments_fold(acs, t, st, n) is Some,
    ensures
        assignments_fold(acs, t, st, k) is Some,
    decreases n - k,
{
    if k < n {
        lemma_assignments_fold_some(acs, t, st, k, (n - 1) as nat);
        if !(assignments_fold(acs, t, st, (n - 1) as nat) matches Some((Ok(_), _))) {
            lemma_assignments_fold_stops(acs, t, st, (n - 1) as nat, n);
        }
    }
}

impl Statement {
    /// Sets the type and name that an initialisation declares.
    fn set_init_data(&mut self, t: DataType, name: String)
        ensures
            final(self)@ == (StmtV { init_data: Some((t, name@)), ..old(self)@ }),
    {
        proof {
            lemma_stmt_fields(self);
        }
        self.init_data = Some((t, name));
        proof {
            lemma_stmt_fields(self);
        }
    }

    /// Reads a statement from the parse tree; declarations add their symbols
    /// to the symbol table of `func`, which expressions are read against.
    pub fn from_parse_tree_node(node: ParseTreeNode, func: &mut Function) -> (r: Result<Self, Error>)
        requires
            parsed_statement(node, old(func)@.symbol_table) is Some,
        ensures
            stmt_matches(r, final(func)@, old(func)@, parsed_statement(node, old(func)@.symbol_table)),
    {
        Self::from_node(&node, func)
    }

    /// Reads the declarations of an initialisation of type `t`.
    fn from_assignments(
        acs: &Vec<ParseTreeNode>,
        t: DataType,
        func: &mut Function,
    ) -> (r: Result<Self, Error>)
        requires
            assignments_fold(acs@, t, old(func)@.symbol_table, acs@.len()) is Some,
        ensures
            stmt_matches(
                r,
                final(func)@,
                old(func)@,
                match assignments_fold(acs@, t, old(func)@.symbol_table, acs@.len()) {
                    Some((Ok(ss), st2)) => Some(
                        (Ok(StmtV { children: ss, ..stmt_v(StatementType::CompoundStatement) }), st2),
                    ),
                    Some((Err(m), st2)) => Some((Err(m), st2)),
                    None => None,
                },
            ),
    {
        let ghost f0 = func@;
        let ghost st0 = f0.symbol_table;
        let mut result = Statement::new(StatementType::CompoundStatement);
        let mut i: usize = 0;
        while i < acs.len()
            invariant
                i <= acs@.len(),
                f0 == old(func)@,
                st0 == f0.symbol_table,
                assignments_fold(acs@, t, st0, acs@.len()) is Some,
                assignments_fold(acs@, t, st0, i as nat) == Some(
                    (Ok::<Seq<StmtV>, Seq<char>>(result@.children), func@.symbol_table),
                ),
                func@ == (FunctionV { symbol_table: func@.symbol_table, ..f0 }),
                result@ == (StmtV { children: result@.children, ..stmt_v(StatementType::CompoundStatement) }),
            decreases acs@.len() - i,
        {
            proof {
                lemma_assignments_fold_some(acs@, t, st0, (i + 1) as nat, acs@.len());
            }
            match &acs[i] {
                ParseTreeNode::Assignment(data) => {
                    let name = match identifier_from_node(&data[0]) {
                        Ok(n) => n,
                        Err(e) => {
                            proof {
                                lemma_assignments_fold_stops(acs@, t, st0, (i + 1) as nat, acs@.len());
                            }
                            return Err(e);
                        },
                    };
                    let e = match Expression::from_node(&data[1], func) {
                        Ok(e) => e,
                        Err(e) => {
                            proof {
                                lemma_assignments_fold_stops(acs@, t, st0, (i + 1) as nat, acs@.len());
                            }
                            return Err(e);
                        },
                    };
                    let mut temp = Statement::new(StatementType::InitializationStatement);
                    temp.set_init_data(t, name.clone());
                    temp.set_expr(e);
                    func.symbol_table.insert(name.clone(), Symbol::new(name, t));
                    result.add_child(temp);
                },
                _ => {
                    proof {
                        lemma_assignments_fold_stops(acs@, t, st0, (i + 1) as nat, acs@.len());
                    }
                    return expected_got_type_error("an assignment", &acs[i]);
                },
            }
            i = i + 1;
        }
        Ok(result)
    }


    /// Reads a block: each statement in turn.
    fn from_block(node: &ParseTreeNode, children: &Vec<ParseTreeNode>, func: &mut Function) -> (r: Result<Self, Error>)
        requires
            *node == ParseTreeNode::Statements(*children),
            parsed_statement(*node, old(func)@.symbol_table) is Some,
        ensures
            stmt_matches(r, final(func)@, old(func)@, parsed_statement(*node, old(func)@.symbol_table)),
        decreases node, 0nat,
    {
        proof {
            lemma_parsed_block(*node, *children, old(func)@.symbol_table);
        }
            let ghost f0 = func@;
        let ghost st0 = f0.symbol_table;
        let mut result = Statement::new(StatementType::CompoundStatement);
        let mut i: usize = 0;
        proof {
            assert(decreases_to!(*node => (*node)->Statements_0));
            assert(decreases_to!(*node => *children));
        }
        while i < children.len()
            invariant
                i <= children@.len(),
                f0 == old(func)@,
                st0 == f0.symbol_table,
                decreases_to!(*node => *children),
                statements_fold(children@, st0, children@.len()) is Some,
                *node == ParseTreeNode::Statements(*children),
                statements_fold(children@, st0, i as nat) == Some(
                    (Ok::<Seq<StmtV>, Seq<char>>(result@.children), func@.symbol_table),
                ),
                func@ == (FunctionV { symbol_table: func@.symbol_table, ..f0 }),
                result@ == (StmtV { children: result@.children, ..stmt_v(StatementType::CompoundStatement) }),
            decreases children@.len() - i,
        {
            proof {
                lemma_statements_fold_step(children@, st0, i as nat, children@.len());
                assert(decreases_to!(*children => children@));
                assert(decreases_to!(children@ => children@[i as int]));
            }
            let child = match Self::from_node(&children[i], func) {
                Ok(c) => c,
                Err(e) => {
                    proof {
                        lemma_parsed_block(*node, *children, st0);
                    }
                    return Err(e);
                },
            };
            result.add_child(child);
            i = i + 1;
        }
        Ok(result)
    }

    /// Reads an endless loop and its body.
    fn from_loop(node: &ParseTreeNode, children: &Vec<ParseTreeNode>, func: &mut Function) -> (r: Result<Self, Error>)
        requires
            *node == ParseTreeNode::Loop(*children),
            parsed_statement(*node, old(func)@.symbol_table) is Some,
        ensures
            stmt_matches(r, final(func)@, old(func)@, parsed_statement(*node, old(func)@.symbol_table)),
        decreases node, 0nat,
    {
        reveal(parsed_statement);
        proof {
            assert(decreases_to!(*node => *children));
            assert(decreases_to!(*children => children@));
            assert(decreases_to!(children@ => children@[0]));
        }
        let mut result = Statement::new(StatementType::LoopStatement);
        let child = Self::from_node(&children[0], func)?;
        result.add_child(child);
        Ok(result)
    }

    /// Reads a conditional: its condition, body and alternative.
    fn from_if(node: &ParseTreeNode, children: &Vec<ParseTreeNode>, func: &mut Function) -> (r: Result<Self, Error>)
        requires
            *node == ParseTreeNode::IfStatement(*children),
            parsed_statement(*node, old(func)@.symbol_table) is Some,
        ensures
            stmt_matches(r, final(func)@, old(func)@, parsed_statement(*node, old(func)@.symbol_table)),
        decreases node, 0nat,
    {
        proof {
            lemma_parsed_if(*node, *children, old(func)@.symbol_table);
        }
        proof {
            assert(decreases_to!(*node => (*node)->IfStatement_0));
            assert(decreases_to!(*node => *children));
            assert(decreases_to!(*children => children@));
        }
        let mut result = Statement::new(StatementType::IfStatement);
        let e = Expression::from_node(&children[0], func)?;
        result.set_expr(e);
        proof {
            assert(decreases_to!(children@ => children@[1]));
        }
        let body = Self::from_node(&children[1], func)?;
        result.add_child(body);
        proof {
            assert(decreases_to!(children@ => children@[2]));
        }
        let clause = Self::from_node(&children[2], func)?;
        result.add_child(clause);
        Ok(result)
    }

    /// Reads a `while` or `do ... while` loop: its condition and body.
    fn from_while(node: &ParseTreeNode, children: &Vec<ParseTreeNode>, func: &mut Function) -> (r: Result<Self, Error>)
        requires
            *node == ParseTreeNode::WhileLoop(*children) || *node == ParseTreeNode::DoWhileLoop(*children),
            parsed_statement(*node, old(func)@.symbol_table) is Some,
        ensures
            stmt_matches(r, final(func)@, old(func)@, parsed_statement(*node, old(func)@.symbol_table)),
        decreases node, 0nat,
    {
        reveal(parsed_statement);
        proof {
            assert(decreases_to!(*node => *children));
            assert(decreases_to!(*children => children@));
        }
        let mode = match node {
            ParseTreeNode::WhileLoop(_) => StatementType::WhileStatement,
            _ => StatementType::DoWhileStatement,
        };
        let mut result = Statement::new(mode);
        let e = Expression::from_node(&children[0], func)?;
        result.set_expr(e);
        proof {
            assert(decreases_to!(children@ => children@[1]));
        }
        let body = Self::from_node(&children[1], func)?;
        result.add_child(body);
        Ok(result)
    }

    pub(crate) fn from_node(node: &ParseTreeNode, func: &mut Function) -> (r: Result<Self, Error>)
        requires
            parsed_statement(*node, old(func)@.symbol_table) is Some,
        ensures
            stmt_matches(r, final(func)@, old(func)@, parsed_statement(*node, old(func)@.symbol_table)),
        decreases node, 1nat,
    {
        reveal(parsed_statement);
        let ghost f0 = func@;
        let ghost st0 = f0.symbol_table;
        match node {
            ParseTreeNode::Empty => Ok(Statement::new(StatementType::Empty)),
            ParseTreeNode::Statement(children) => {
                if children.len() == 0 {
                    return Ok(Statement::new(StatementType::Empty));
                }
                match &children[0] {
                    ParseTreeNode::RawToken(token) => {
                        if str_eq(token.data.as_str(), "continue") {
                            Ok(Statement::new_with_token(StatementType::ContinueStatement, token))
                        } else if str_eq(token.data.as_str(), "break") {
                            Ok(Statement::new_with_token(StatementType::BreakStatement, token))
                        } else {
                            let mut text = String::from_str("Expected 'continue' or 'break', got '");
                            text.append(token.data.as_str());
                            text.append("'");
                            compiler_error(text)
                        }
                    },
                    ParseTreeNode::Expression(_, _) => {
                        let mut result = Statement::new(StatementType::ExpressionStatement);
                        let e = Expression::from_node(&children[0], func)?;
                        result.set_expr(e);
                        Ok(result)
                    },
                    _ => expected_got_type_error("RawToken or Expression", &children[0]),
                }
            },
            ParseTreeNode::Statements(children) => Self::from_block(node, children, func),
            ParseTreeNode::ReturnStatement(children) => {
                let mut result = Statement::new(StatementType::ReturnStatement);
                let e = Expression::from_node(&children[0], func)?;
                result.set_expr(e);
                Ok(result)
            },
            ParseTreeNode::Loop(children) => Self::from_loop(node, children, func),
            ParseTreeNode::IfStatement(children) => Self::from_if(node, children, func),
            ParseTreeNode::WhileLoop(children) | ParseTreeNode::DoWhileLoop(children) => Self::from_while(
                node,
                children,
                func,
            ),
            ParseTreeNode::AssignmentStatement(children) => {
                let datatype = type_from_node(&children[0])?;
                match &children[1] {
                    ParseTreeNode::Assignments(acs) => Self::from_assignments(acs, datatype, func),
                    _ => expected_got_type_error("assignments", &children[1]),
                }
            },
            _ => expected_got_type_error("a statement", node),
        }
    }
}


/// The outcome of rendering a statement: `None` where rendering stops the
/// program, else the message of the error that stopped it (`None` on
/// success), with the function as it is left.
pub type RenderOutcome = Option<(Option<Seq<char>>, FunctionV)>;

/// Success with the function `o`, when there is one.
pub open spec fn succeeded(o: Option<FunctionV>) -> RenderOutcome {
    match o {
        Some(f) => Some((None, f)),
        None => None,
    }
}

/// The message of a compilation error with the position appended when it is known.
pub open spec fn loc_error_text(text: Seq<char>, pos: Option<LocationV>) -> Seq<char> {
    match pos {
        None => compiler_error_text(text),
        Some(l) => compiler_error_text(text + " at "@ + location_text(l)),
    }
}

/// `f` after entering a loop: two labels taken, the first the target of
/// `continue`, the second the target of `break`.
pub open spec fn entered_loop_v(f: FunctionV) -> FunctionV {
    FunctionV {
        next_label: (f.next_label + 2) as usize,
        continue_stack: f.continue_stack.push(label_name(f.next_label)),
        break_stack: f.break_stack.push(label_name((f.next_label + 1) as usize)),
        ..f
    }
}

/// `f` after leaving the innermost loop.
pub open spec fn exited_loop_v(f: FunctionV) -> FunctionV {
    FunctionV {
        continue_stack: if f.continue_stack.len() > 0 {
            f.continue_stack.drop_last()
        } else {
            f.continue_stack
        },
        break_stack: if f.break_stack.len() > 0 {
            f.break_stack.drop_last()
        } else {
            f.break_stack
        },
        ..f
    }
}

/// The value an optional expression renders to, with the function after it.
pub open spec fn rendered_value(e: Option<ExprV>, f: FunctionV) -> Option<(ValueV, FunctionV)> {
    match e {
        None => None,
        Some(x) => match rendered(x, f) {
            None => None,
            Some((x2, f2)) => match x2.value {
                None => None,
                Some(v) => Some((v, f2)),
            },
        },
    }
}

/// A branch to `yes` when `v` is not 0, else to `no`.
pub open spec fn branch_args(v: ValueV, yes: Seq<char>, no: Seq<char>) -> Seq<ValueV> {
    seq![v, unknown_literal(0), ValueV::Label(yes), ValueV::Label(no)]
}

/// What rendering the first `n` statements of a block gives: each in turn,
/// stopping at the first error.
pub open spec fn rendered_block(cs: Seq<StmtV>, f: FunctionV, n: nat) -> RenderOutcome
    decreases cs, n,
{
    if n == 0 {
        Some((None, f))
    } else {
        match rendered_block(cs, f, (n - 1) as nat) {
            Some((None, f1)) => if n - 1 < cs.len() {
                rendered_statement(cs[n - 1], f1)
            } else {
                None
            },
            other => other,
        }
    }
}

/// What rendering `s` into `f` gives.
#[verifier::opaque]
pub open spec fn rendered_statement(s: StmtV, f: FunctionV) -> RenderOutcome
    decreases s, 0nat,
{
    let cs = s.children;
    let jump_arg = |l: Seq<char>| seq![ValueV::Label(l)];
    match s.mode {
        StatementType::Empty => succeeded(emit(Some(f), OpCode::Nop, Seq::empty())),
        StatementType::CompoundStatement => rendered_block(cs, f, cs.len()),
        StatementType::ContinueStatement => if f.continue_stack.len() > 0 {
            succeeded(emit(Some(f), OpCode::Jmp, seq![ValueV::Label(f.continue_stack.last())]))
        } else {
            Some((Some(loc_error_text("Cannot use continue statement outside of loop"@, s.pos)), f))
        },
        StatementType::BreakStatement => if f.break_stack.len() > 0 {
            if 0 < f.continue_stack.len() <= f.break_stack.len() {
                succeeded(
                    emit(
                        Some(f),
                        OpCode::Jmp,
                        seq![ValueV::Label(f.break_stack[f.continue_stack.len() - 1])],
                    ),
                )
            } else {
                None
            }
        } else {
            Some((Some(loc_error_text("Cannot use break statement outside of loop"@, s.pos)), f))
        },
        StatementType::InitializationStatement => match s.init_data {
            None => None,
            Some((_, name)) => if s.expr is None || !f.symbol_table.contains_key(name) {
                None
            } else {
                let symbol = f.symbol_table[name];
                match rendered_value(s.expr, f) {
                    None => None,
                    Some((v, f2)) => succeeded(
                        emit(
                            Some(f2),
                            OpCode::Alloc,
                            seq![ValueV::Symbol(symbol), attempt_mutate_v(v, symbol.datatype)],
                        ),
                    ),
                }
            },
        },
        StatementType::IfStatement => {
            let body = label_name(f.next_label);
            let clause = label_name((f.next_label + 1) as usize);
            let exit = label_name((f.next_label + 2) as usize);
            match take_three_labels(f) {
                None => None,
                Some(f1) => match rendered_value(s.expr, f1) {
                    None => None,
                    Some((v, f2)) => match place_here(emit(Some(f2), OpCode::Bne, branch_args(v, body, clause)), body) {
                        None => None,
                        Some(f3) => if cs.len() < 1 {
                            None
                        } else {
                            match rendered_statement(cs[0], f3) {
                                Some((None, f4)) => match place_here(emit(Some(f4), OpCode::Jmp, jump_arg(exit)), clause) {
                                    None => None,
                                    Some(f5) => if cs.len() < 2 {
                                        None
                                    } else {
                                        match rendered_statement(cs[1], f5) {
                                        Some((None, f6)) => succeeded(place_here(Some(f6), exit)),
                                        other => other,
                                        }
                                    },
                                },
                                other => other,
                            }
                        },
                    },
                },
            }
        },
        StatementType::WhileStatement => {
            let start = label_name(f.next_label);
            let end = label_name((f.next_label + 1) as usize);
            let allow = label_name((f.next_label + 2) as usize);
            if f.next_label + 2 >= usize::MAX || s.expr is None {
                None
            } else {
                let f1 = FunctionV { next_label: (f.next_label + 3) as usize, ..entered_loop_v(f) };
                match rendered_value(s.expr, place_label_v_here(f1, start)) {
                    None => None,
                    Some((v, f2)) => match place_here(emit(Some(f2), OpCode::Bne, branch_args(v, allow, end)), allow) {
                        None => None,
                        Some(f3) => if cs.len() < 1 {
                            None
                        } else {
                            match rendered_statement(cs[0], f3) {
                                Some((None, f4)) => match place_here(emit(Some(f4), OpCode::Jmp, jump_arg(start)), end) {
                                    None => None,
                                    Some(f5) => Some((None, exited_loop_v(f5))),
                                },
                                other => other,
                            }
                        },
                    },
                }
            }
        },
        StatementType::DoWhileStatement => {
            let start = label_name(f.next_label);
            let end = label_name((f.next_label + 1) as usize);
            if f.next_label + 1 >= usize::MAX || s.expr is None || cs.len() < 1 {
                None
            } else {
                match rendered_statement(cs[0], place_label_v_here(entered_loop_v(f), start)) {
                    Some((None, f2)) => match rendered_value(s.expr, f2) {
                        None => None,
                        Some((v, f3)) => match place_here(emit(Some(f3), OpCode::Bne, branch_args(v, start, end)), end) {
                            None => None,
                            Some(f4) => Some((None, exited_loop_v(f4))),
                        },
                    },
                    other => other,
                }
            }
        },
        StatementType::LoopStatement => {
            let start = label_name(f.next_label);
            let end = label_name((f.next_label + 1) as usize);
            if f.next_label + 1 >= usize::MAX || cs.len() < 1 {
                None
            } else {
                match rendered_statement(cs[0], place_label_v_here(entered_loop_v(f), start)) {
                    Some((None, f2)) => match place_here(emit(Some(f2), OpCode::Jmp, jump_arg(start)), end) {
                        None => None,
                        Some(f3) => Some((None, exited_loop_v(f3))),
                    },
                    other => other,
                }
            }
        },
        StatementType::ReturnStatement => match rendered_value(s.expr, f) {
            None => None,
            Some((v, f2)) => succeeded(
                emit(
                    emit(Some(f2), OpCode::Mov, seq![f2.return_value, v]),
                    OpCode::Jmp,
                    seq![ValueV::Label("exit"@)],
                ),
            ),
        },
        StatementType::ExpressionStatement => match s.expr {
            None => None,
            Some(e) => match rendered(e, f) {
                None => None,
                Some((_, f2)) => Some((None, f2)),
            },
        },
    }
}

/// `f` with `label` placed at the position of its next instruction.
pub open spec fn place_label_v_here(f: FunctionV, label: Seq<char>) -> FunctionV {
    super::function::place_label_v(f, label, f.next_index)
}


/// `r` and the function `f` are what the outcome `o` describes.
pub open spec fn render_matches(r: Result<(), Error>, f: FunctionV, o: RenderOutcome) -> bool {
    match o {
        Some((res, f2)) => f == f2 && match res {
            None => r is Ok,
            Some(m) => is_error_with(r, m),
        },
        None => false,
    }
}

impl Statement {
    /// Renders the expression of the statement (a copy of it) and gives its value.
    fn render_expression_value(&self, func: &mut Function) -> (v: Value)
        requires
            ready(old(func)@),
            rendered_value(self@.expr, old(func)@) is Some,
        ensures
            ready(final(func)@),
            (v@, final(func)@) == rendered_value(self@.expr, old(func)@)->Some_0,
    {
        proof {
            lemma_stmt_fields(self);
        }
        let mut e = self.expr.as_ref().unwrap().clone();
        let _ = e.render(func);
        e.value(func).unwrap()
    }

    /// Renders the statement into `func`.
    pub fn render(&self, func: &mut Function) -> (r: Result<(), Error>)
        requires
            ready(old(func)@),
            rendered_statement(self@, old(func)@) is Some,
        ensures
            ready(final(func)@),
            render_matches(r, final(func)@, rendered_statement(self@, old(func)@)),
        decreases self@, 1nat,
    {
        reveal(rendered_statement);
        proof {
            lemma_stmt_fields(self);
        }
        match self.mode {
            StatementType::Empty => {
                emit0(func, OpCode::Nop);
                Ok(())
            },
            StatementType::CompoundStatement => self.render_block(func),
            StatementType::ContinueStatement => {
                match func.get_continue() {
                    Some(v) => {
                        emit1(func, OpCode::Jmp, Value::Label(v));
                        Ok(())
                    },
                    None => compiler_error_loc(
                        String::from_str("Cannot use continue statement outside of loop"),
                        &self.pos,
                    ),
                }
            },
            StatementType::BreakStatement => {
                match func.get_break() {
                    Some(v) => {
                        emit1(func, OpCode::Jmp, Value::Label(v));
                        Ok(())
                    },
                    None => compiler_error_loc(
                        String::from_str("Cannot use break statement outside of loop"),
                        &self.pos,
                    ),
                }
            },
            StatementType::InitializationStatement => {
                let name = &self.init_data.as_ref().unwrap().1;
                let symbol = func.symbol_table.get(name).unwrap().clone();
                let v = self.render_expression_value(func);
                let value = super::utils::attempt_mutate_type(v, symbol.datatype);
                emit2(func, OpCode::Alloc, Value::Symbol(symbol), value);
                Ok(())
            },
            StatementType::IfStatement => self.render_if(func),
            StatementType::WhileStatement => self.render_while(func),
            StatementType::DoWhileStatement => self.render_do_while(func),
            StatementType::LoopStatement => self.render_loop(func),
            StatementType::ReturnStatement => {
                let v = self.render_expression_value(func);
                let ret_val = func.return_value.clone();
                emit2(func, OpCode::Mov, ret_val, v);
                emit1(func, OpCode::Jmp, Value::Label(String::from_str("exit")));
                Ok(())
            },
            StatementType::ExpressionStatement => {
                let mut e = self.expr.as_ref().unwrap().clone();
                e.render(func)
            },
        }
    }

    /// Renders the statements of a block in turn.
    fn render_block(&self, func: &mut Function) -> (r: Result<(), Error>)
        requires
            self@.mode == StatementType::CompoundStatement,
            ready(old(func)@),
            rendered_statement(self@, old(func)@) is Some,
        ensures
            ready(final(func)@),
            render_matches(r, final(func)@, rendered_statement(self@, old(func)@)),
        decreases self@, 0nat,
    {
        proof {
            lemma_rendered_compound(self@, old(func)@);
        }
        proof {
            lemma_stmt_fields(self);
        }
        let ghost cs = self@.children;
        let ghost f0 = func@;
        let mut i: usize = 0;
        while i < self.children.len()
            invariant
                i <= cs.len(),
                cs == self@.children,
                cs == statements_view(self.children@),
                self@.mode == StatementType::CompoundStatement,
                rendered_statement(self@, f0) == rendered_block(cs, f0, cs.len()),
                f0 == old(func)@,
                self@.children == cs,
                rendered_block(cs, f0, cs.len()) is Some,
                rendered_block(cs, f0, i as nat) == Some((None::<Seq<char>>, func@)),
                ready(func@),
            decreases cs.len() - i,
        {
            proof {
                lemma_rendered_block_step(cs, f0, i as nat, cs.len());
                assert(cs[i as int] == self.children@[i as int]@);
                assert(decreases_to!(self@ => self@.children));
                assert(decreases_to!(self@.children => self@.children[i as int]));
            }
            let ghost before = func@;
            let r = self.children[i].render(func);
            proof {
                let o = rendered_statement(cs[i as int], before);
                assert(rendered_block(cs, f0, (i + 1) as nat) == o);
                assert(o is Some);
                assert(func@ == o->Some_0.1);
            }
            match r {
                Ok(()) => {
                    assert(rendered_block(cs, f0, (i + 1) as nat)->Some_0.0 is None);
                },
                Err(e) => {
                    assert(rendered_block(cs, f0, (i + 1) as nat)->Some_0.0 is Some);
                    assert(rendered_block(cs, f0, cs.len()) == rendered_block(cs, f0, (i + 1) as nat));
                    assert(render_matches(Err(e), func@, rendered_block(cs, f0, cs.len())));
                    return Err(e);
                },
            }
            i = i + 1;
        }
        Ok(())
    }
}

proof fn lemma_rendered_compound(s: StmtV, f: FunctionV)
    requires
        s.mode == StatementType::CompoundStatement,
    ensures
        rendered_statement(s, f) == rendered_block(s.children, f, s.children.len()),
{
    reveal(rendered_statement);
}

proof fn lemma_rendered_block_stops(cs: Seq<StmtV>, f: FunctionV, k: nat, n: nat)
    requires
        k <= n,
        !(rendered_block(cs, f, k) matches Some((None, _))),
    ensures
        rendered_block(cs, f, n) == rendered_block(cs, f, k),
    decreases n - k,
{
    reveal(rendered_statement);
    if k < n {
        lemma_rendered_block_stops(cs, f, k, (n - 1) as nat);
    }
}

proof fn lemma_rendered_block_some(cs: Seq<StmtV>, f: FunctionV, k: nat, n: nat)
    requires
        k <= n,
        rendered_block(cs, f, n) is Some,
    ensures
        rendered_block(cs, f, k) is Some,
    decreases n - k,
{
    reveal(rendered_statement);
    if k < n {
        lemma_rendered_block_some(cs, f, k, (n - 1) as nat);
        if !(rendered_block(cs, f, (n - 1) as nat) matches Some((None, _))) {
            lemma_rendered_block_stops(cs, f, (n - 1) as nat, n);
        }
    }
}

proof fn lemma_rendered_block_step(cs: Seq<StmtV>, f: FunctionV, k: nat, n: nat)
    requires
        k < n <= cs.len(),
        rendered_block(cs, f, n) is Some,
        rendered_block(cs, f, k) matches Some((None, _)),
    ensures
        rendered_statement(cs[k as int], rendered_block(cs, f, k)->Some_0.1) is Some,
        rendered_block(cs, f, k + 1) == rendered_statement(cs[k as int], rendered_block(cs, f, k)->Some_0.1),
        !(rendered_block(cs, f, k + 1) matches Some((None, _))) ==> rendered_block(cs, f, n) == rendered_block(
            cs,
            f,
            k + 1,
        ),
{
    reveal(rendered_statement);
    lemma_rendered_block_some(cs, f, k + 1, n);
    if !(rendered_block(cs, f, k + 1) matches Some((None, _))) {
        lemma_rendered_block_stops(cs, f, k + 1, n);
    }
}


impl Statement {
    /// Renders the body (the first child) of a control statement.
    fn render_body(&self, func: &mut Function) -> (r: Result<(), Error>)
        requires
            self@.children.len() >= 1,
            ready(old(func)@),
            rendered_statement(self@.children[0], old(func)@) is Some,
        ensures
            ready(final(func)@),
            render_matches(r, final(func)@, rendered_statement(self@.children[0], old(func)@)),
        decreases self@.children[0], 2nat,
    {
        reveal(rendered_statement);
        proof {
            lemma_stmt_fields(self);
            assert(self@.children[0] == self.children@[0]@);
        }
        self.children[0].render(func)
    }

    /// Renders the alternative (the second child) of a conditional.
    fn render_alternative(&self, func: &mut Function) -> (r: Result<(), Error>)
        requires
            self@.children.len() >= 2,
            ready(old(func)@),
            rendered_statement(self@.children[1], old(func)@) is Some,
        ensures
            ready(final(func)@),
            render_matches(r, final(func)@, rendered_statement(self@.children[1], old(func)@)),
        decreases self@.children[1], 2nat,
    {
        reveal(rendered_statement);
        proof {
            lemma_stmt_fields(self);
            assert(self@.children[1] == self.children@[1]@);
        }
        self.children[1].render(func)
    }

    /// Renders a conditional: a branch on the condition, the body, a jump
    /// past the alternative, then the alternative.
    fn render_if(&self, func: &mut Function) -> (r: Result<(), Error>)
        requires
            self@.mode == StatementType::IfStatement,
            ready(old(func)@),
            rendered_statement(self@, old(func)@) is Some,
        ensures
            ready(final(func)@),
            render_matches(r, final(func)@, rendered_statement(self@, old(func)@)),
        decreases self@, 0nat,
    {
        reveal(rendered_statement);
        proof {
            assert(decreases_to!(self@ => self@.children));
        }
        let body = func.get_label();
        let clause = func.get_label();
        let exit = func.get_label();
        let v = self.render_expression_value(func);
        emit4(
            func,
            OpCode::Bne,
            v,
            Value::Literal(Literal::new(0, DataType::new(NonPtrType::Unknown, 0, false))),
            Value::Label(body.clone()),
            Value::Label(clause.clone()),
        );
        place_label_at_end(func, body);
        proof {
            assert(decreases_to!(self@.children => self@.children[0]));
        }
        self.render_body(func)?;
        emit1(func, OpCode::Jmp, Value::Label(exit.clone()));
        place_label_at_end(func, clause);
        proof {
            assert(decreases_to!(self@.children => self@.children[1]));
        }
        self.render_alternative(func)?;
        place_label_at_end(func, exit);
        Ok(())
    }

    /// Renders a `while` loop: the condition at the top of the loop, a branch
    /// past the loop when it is 0, the body and a jump back to the top.
    fn render_while(&self, func: &mut Function) -> (r: Result<(), Error>)
        requires
            self@.mode == StatementType::WhileStatement,
            ready(old(func)@),
            rendered_statement(self@, old(func)@) is Some,
        ensures
            ready(final(func)@),
            render_matches(r, final(func)@, rendered_statement(self@, old(func)@)),
        decreases self@, 0nat,
    {
        reveal(rendered_statement);
        proof {
            assert(decreases_to!(self@ => self@.children));
        }
        let (start, end) = func.enter_loop();
        let allow = func.get_label();
        place_label_at_end(func, start.clone());
        let v = self.render_expression_value(func);
        emit4(
            func,
            OpCode::Bne,
            v,
            Value::Literal(Literal::new(0, DataType::new(NonPtrType::Unknown, 0, false))),
            Value::Label(allow.clone()),
            Value::Label(end.clone()),
        );
        place_label_at_end(func, allow);
        proof {
            assert(decreases_to!(self@.children => self@.children[0]));
        }
        self.render_body(func)?;
        emit1(func, OpCode::Jmp, Value::Label(start));
        place_label_at_end(func, end);
        func.exit_loop();
        Ok(())
    }

    /// Renders a `do ... while` loop: the body, then the condition and a branch
    /// back to the top when it is not 0.
    fn render_do_while(&self, func: &mut Function) -> (r: Result<(), Error>)
        requires
            self@.mode == StatementType::DoWhileStatement,
            ready(old(func)@),
            rendered_statement(self@, old(func)@) is Some,
        ensures
            ready(final(func)@),
            render_matches(r, final(func)@, rendered_statement(self@, old(func)@)),
        decreases self@, 0nat,
    {
        reveal(rendered_statement);
        proof {
            assert(decreases_to!(self@ => self@.children));
            assert(decreases_to!(self@.children => self@.children[0]));
        }
        let (start, end) = func.enter_loop();
        place_label_at_end(func, start.clone());
        self.render_body(func)?;
        let v = self.render_expression_value(func);
        emit4(
            func,
            OpCode::Bne,
            v,
            Value::Literal(Literal::new(0, DataType::new(NonPtrType::Unknown, 0, false))),
            Value::Label(start),
            Value::Label(end.clone()),
        );
        place_label_at_end(func, end);
        func.exit_loop();
        Ok(())
    }

    /// Renders an endless loop: the body and a jump back to the top.
    fn render_loop(&self, func: &mut Function) -> (r: Result<(), Error>)
        requires
            self@.mode == StatementType::LoopStatement,
            ready(old(func)@),
            rendered_statement(self@, old(func)@) is Some,
        ensures
            ready(final(func)@),
            render_matches(r, final(func)@, rendered_statement(self@, old(func)@)),
        decreases self@, 0nat,
    {
        reveal(rendered_statement);
        proof {
            assert(decreases_to!(self@ => self@.children));
            assert(decreases_to!(self@.children => self@.children[0]));
        }
        let (start, end) = func.enter_loop();
        place_label_at_end(func, start.clone());
        self.render_body(func)?;
        emit1(func, OpCode::Jmp, Value::Label(start));
        place_label_at_end(func, end);
        func.exit_loop();
        Ok(())
    }
}


/// What lowering a function node gives: the function with its signature
/// set, its body read and rendered, and the exit label and return added; or
/// the message of the first error; `None` where lowering stops the program.
/// The name is read first, then the return type, then the arguments.
pub open spec fn lowered_function(node: ParseTreeNode) -> Option<Result<FunctionV, Seq<char>>> {
    match node {
        ParseTreeNode::Function(children) => {
            let cs = children@;
            if cs.len() < 2 {
                None
            } else {
                match identifier_result(cs[1]) {
                    Err(m) => Some(Err(m)),
                    Ok(name) => if !type_node_ok(cs[0]) {
                        None
                    } else {
                        match type_result(cs[0]) {
                            Err(m) => Some(Err(m)),
                            Ok(rt) => if cs.len() < 3 || !arguments_node_ok(cs[2]) {
                                None
                            } else {
                                match arguments_result(cs[2]) {
                                    Err(m) => Some(Err(m)),
                                    Ok(args) => {
                                        let f0 = new_function_v();
                                        let f1 = FunctionV {
                                            return_type: rt,
                                            name,
                                            arguments: args,
                                            symbol_table: insert_arguments(f0.symbol_table, args),
                                            return_value: ValueV::Symbol(SymbolV { title: "R0"@, datatype: rt }),
                                            ..f0
                                        };
                                        if cs.len() < 4 {
                                            None
                                        } else {
                                            match parsed_statement(cs[3], f1.symbol_table) {
                                                None => None,
                                                Some((Err(m), _)) => Some(Err(m)),
                                                Some((Ok(body), st)) => match rendered_statement(
                                                    body,
                                                    FunctionV { symbol_table: st, ..f1 },
                                                ) {
                                                    None => None,
                                                    Some((Some(m), _)) => Some(Err(m)),
                                                    Some((None, f2)) => match emit(
                                                        place_here(Some(f2), "exit"@),
                                                        OpCode::Ret,
                                                        seq![f2.return_value],
                                                    ) {
                                                        None => None,
                                                        Some(f3) => Some(Ok(f3)),
                                                    },
                                                },
                                            }
                                        }
                                    },
                                }
                            },
                        }
                    },
                }
            }
        },
        other => Some(Err(expected_got_text("Function"@, other))),
    }
}

impl Function {
    /// Builds a function from its parse tree: its signature, then its body
    /// read against the arguments and rendered, then the exit label and the return.
    pub fn from_parse_tree_node(node: ParseTreeNode) -> (r: Result<Self, Error>)
        requires
            lowered_function(node) is Some,
        ensures
            match lowered_function(node) {
                Some(Ok(f)) => r is Ok && r->Ok_0@ == f,
                Some(Err(m)) => is_error_with(r, m),
                None => false,
            },
    {
        Self::from_node(&node)
    }

    /// Builds a function from its parse tree, the node seen by reference.
    pub(crate) fn from_node(node: &ParseTreeNode) -> (r: Result<Self, Error>)
        requires
            lowered_function(*node) is Some,
        ensures
            match lowered_function(*node) {
                Some(Ok(f)) => r is Ok && r->Ok_0@ == f,
                Some(Err(m)) => is_error_with(r, m),
                None => false,
            },
    {
        match node {
            ParseTreeNode::Function(children) => {
                let mut result = Function::new();
                let name = identifier_from_node(&children[1])?;
                let return_type = type_from_node(&children[0])?;
                let arguments = arguments_from_node(&children[2])?;
                result.set_function_signature(return_type, name, arguments);
                result.return_value = Value::Symbol(Symbol::new(String::from_str("R0"), return_type));
                let statement = Statement::from_node(&children[3], &mut result)?;
                statement.render(&mut result)?;
                place_label_at_end(&mut result, String::from_str("exit"));
                let ret_val = result.return_value.clone();
                emit1(&mut result, OpCode::Ret, ret_val);
                Ok(result)
            },
            _ => expected_got_type_error("Function", node),
        }
    }
}

} // verus!
