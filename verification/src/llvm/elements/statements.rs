//! Statements of the LLVM back end. Each statement carries its own copy of
//! the context it was read in (return type, label counter and loop labels);
//! writing a statement out draws labels from that copy.
use vstd::prelude::*;
use crate::cli::Error;
use crate::cli::errors::is_error_with;
use crate::irgen::errors::{compiler_error_text, expected_got_text};
use crate::irgen::utils::expected_got_type_error;
use crate::llvm::error::compiler_error;
use crate::llvm::types::{DataType, datatype_text};
use crate::text::{append_usize, nat_text};
use super::expression::{Expression, ExpressionV, expression_node_ok, expression_result, symbol_text};
use crate::parser::ParseTreeNode;

verus! {

#[derive(Debug)]
pub enum StatementTypes {
    Empty,
    CompoundStatement(Vec<Statement>),
    ContinueStatement,
    BreakStatement,
    InitializationStatement,
    IfStatement(Expression, Vec<Statement>),
    WhileStatement,
    DoWhileStatement,
    LoopStatement(Vec<Statement>),
    ReturnStatement(Expression),
    ExpressionStatement(Expression),
}

#[derive(Debug)]
pub struct StatementContext {
    return_type: DataType,
    next_label: usize,
    loop_entries: Vec<usize>,
    loop_exits: Vec<usize>,
}

/// The mathematical value of a [`StatementContext`].
pub struct ContextV {
    pub return_type: DataType,
    pub next_label: usize,
    pub loop_entries: Seq<usize>,
    pub loop_exits: Seq<usize>,
}

impl View for StatementContext {
    type V = ContextV;

    closed spec fn view(&self) -> ContextV {
        ContextV {
            return_type: self.return_type,
            next_label: self.next_label,
            loop_entries: self.loop_entries@,
            loop_exits: self.loop_exits@,
        }
    }
}

/// A copy of a sequence of labels.
fn copy_labels(v: &Vec<usize>) -> (r: Vec<usize>)
    ensures
        r@ == v@,
{
    let mut r: Vec<usize> = Vec::new();
    let mut i: usize = 0;
    while i < v.len()
        invariant
            i <= v.len(),
            r@ == v@.take(i as int),
        decreases v.len() - i,
    {
        r.push(v[i]);
        i = i + 1;
        assert(r@ =~= v@.take(i as int));
    }
    assert(v@.take(v.len() as int) =~= v@);
    r
}

impl Clone for StatementContext {
    fn clone(&self) -> (r: Self)
        ensures
            r@ == self@,
    {
        StatementContext {
            return_type: self.return_type,
            next_label: self.next_label,
            loop_entries: copy_labels(&self.loop_entries),
            loop_exits: copy_labels(&self.loop_exits),
        }
    }
}

/// The context after opening a loop: its start and exit are the next two labels.
pub open spec fn loop_pushed(c: ContextV) -> ContextV {
    ContextV {
        next_label: (c.next_label + 2) as usize,
        loop_entries: c.loop_entries.push(c.next_label),
        loop_exits: c.loop_exits.push((c.next_label + 1) as usize),
        ..c
    }
}

/// The context after closing the innermost loop (if one is open).
pub open spec fn loop_popped(c: ContextV) -> ContextV {
    ContextV {
        loop_entries: if c.loop_entries.len() > 0 {
            c.loop_entries.drop_last()
        } else {
            c.loop_entries
        },
        loop_exits: if c.loop_exits.len() > 0 {
            c.loop_exits.drop_last()
        } else {
            c.loop_exits
        },
        ..c
    }
}

/// Opening a loop and closing it again leaves the open loops as they were;
/// while it is open, `continue` goes to its start and `break` to its exit.
pub proof fn law_loop_push_pop(c: ContextV)
    requires
        c.next_label + 2 <= usize::MAX,
    ensures
        loop_popped(loop_pushed(c)) == (ContextV { next_label: (c.next_label + 2) as usize, ..c }),
        loop_pushed(c).loop_entries.last() == c.next_label,
        loop_pushed(c).loop_exits.last() == c.next_label + 1,
{
    assert(loop_pushed(c).loop_entries.drop_last() =~= c.loop_entries);
    assert(loop_pushed(c).loop_exits.drop_last() =~= c.loop_exits);
}

/// Writing a statement out never hands out a label of its context twice: the
/// label counter only moves on, and the loops open in its context, its return
/// type and its kind stay as they were.
pub proof fn law_render_moves_labels_on(s: StmtV)
    requires
        rendered(s) is Some,
    ensures
        rendered(s)->Some_0.1.context.next_label >= s.context.next_label,
        rendered(s)->Some_0.1.context.loop_entries == s.context.loop_entries,
        rendered(s)->Some_0.1.context.loop_exits == s.context.loop_exits,
        rendered(s)->Some_0.1.context.return_type == s.context.return_type,
        rendered(s)->Some_0.1.kind == s.kind,
        rendered(s)->Some_0.1.expr == s.expr,
{
}

impl StatementContext {
    /// A context for a function returning `return_type`: labels start at 1
    /// and no loop is open.
    pub fn new(return_type: DataType) -> (c: Self)
        ensures
            c@ == (ContextV {
                return_type,
                next_label: 1,
                loop_entries: Seq::empty(),
                loop_exits: Seq::empty(),
            }),
    {
        Self { return_type, next_label: 1, loop_entries: Vec::new(), loop_exits: Vec::new() }
    }

    /// A fresh label number.
    pub fn get_label(&mut self) -> (l: usize)
        requires
            old(self)@.next_label < usize::MAX,
        ensures
            l == old(self)@.next_label,
            final(self)@ == (ContextV { next_label: (l + 1) as usize, ..old(self)@ }),
    {
        self.next_label = self.next_label + 1;
        self.next_label - 1
    }

    /// Open a loop: two fresh labels, its start and its exit.
    pub fn push_loop(&mut self) -> (r: (usize, usize))
        requires
            old(self)@.next_label + 2 <= usize::MAX,
        ensures
            r == (old(self)@.next_label, (old(self)@.next_label + 1) as usize),
            final(self)@ == loop_pushed(old(self)@),
    {
        let start = self.get_label();
        let exit = self.get_label();
        self.loop_entries.push(start);
        self.loop_exits.push(exit);
        (start, exit)
    }

    /// Close the innermost loop.
    pub fn pop_loop(&mut self)
        ensures
            final(self)@ == loop_popped(old(self)@),
    {
        let _ = self.loop_entries.pop();
        let _ = self.loop_exits.pop();
    }

    /// The start label of the innermost loop.
    pub fn get_continue(&self) -> (l: usize)
        requires
            self@.loop_entries.len() > 0,
        ensures
            l == self@.loop_entries.last(),
    {
        self.loop_entries[self.loop_entries.len() - 1]
    }

    /// The exit label of the innermost loop.
    pub fn get_break(&self) -> (l: usize)
        requires
            self@.loop_exits.len() > 0,
        ensures
            l == self@.loop_exits.last(),
    {
        self.loop_exits[self.loop_exits.len() - 1]
    }
}

#[derive(Debug)]
pub struct Statement {
    statement: StatementTypes,
    context: StatementContext,
}

/// The kind of a statement.
#[derive(PartialEq, Eq, Structural)]
pub enum StatementKind {
    Empty,
    Compound,
    Continue,
    Break,
    Initialization,
    If,
    While,
    DoWhile,
    Loop,
    Return,
    Expression,
}

/// The mathematical value of a [`Statement`]: its kind, its expression and
/// nested statements where it has them, and its context.
pub struct StmtV {
    pub kind: StatementKind,
    pub expr: Option<ExpressionV>,
    pub children: Seq<StmtV>,
    pub context: ContextV,
}

/// A statement of kind `kind` with context `ctx` and nothing nested.
pub open spec fn simple(kind: StatementKind, ctx: ContextV) -> StmtV {
    StmtV { kind, expr: None, children: Seq::empty(), context: ctx }
}

/// The views of a vector of statements.
pub closed spec fn statements_view(v: &Vec<Statement>) -> Seq<StmtV>
    decreases v, 0nat,
{
    Seq::new(
        v@.len(),
        |i: int|
            if 0 <= i < v@.len() {
                statement_view(&v@[i])
            } else {
                simple(StatementKind::Empty, ContextV {
                    return_type: DataType { raw_type: crate::llvm::types::NonPtrType::Void, num_ptr: 0 },
                    next_label: 0,
                    loop_entries: Seq::empty(),
                    loop_exits: Seq::empty(),
                })
            },
    )
}

/// The view of a statement.
pub closed spec fn statement_view(s: &Statement) -> StmtV
    decreases s, 1nat,
{
    let ctx = s.context@;
    match &s.statement {
        StatementTypes::Empty => simple(StatementKind::Empty, ctx),
        StatementTypes::CompoundStatement(v) => StmtV {
            children: statements_view(v),
            ..simple(StatementKind::Compound, ctx)
        },
        StatementTypes::ContinueStatement => simple(StatementKind::Continue, ctx),
        StatementTypes::BreakStatement => simple(StatementKind::Break, ctx),
        StatementTypes::InitializationStatement => simple(StatementKind::Initialization, ctx),
        StatementTypes::IfStatement(e, v) => StmtV {
            expr: Some(e@),
            children: statements_view(v),
            ..simple(StatementKind::If, ctx)
        },
        StatementTypes::WhileStatement => simple(StatementKind::While, ctx),
        StatementTypes::DoWhileStatement => simple(StatementKind::DoWhile, ctx),
        StatementTypes::LoopStatement(v) => StmtV {
            children: statements_view(v),
            ..simple(StatementKind::Loop, ctx)
        },
        StatementTypes::ReturnStatement(e) => StmtV { expr: Some(e@), ..simple(StatementKind::Return, ctx) },
        StatementTypes::ExpressionStatement(e) => StmtV {
            expr: Some(e@),
            ..simple(StatementKind::Expression, ctx)
        },
    }
}

impl View for Statement {
    type V = StmtV;

    open spec fn view(&self) -> StmtV {
        statement_view(self)
    }
}

/// The kind of statement a payload makes.
pub open spec fn kind_of(t: &StatementTypes) -> StatementKind {
    match t {
        StatementTypes::Empty => StatementKind::Empty,
        StatementTypes::CompoundStatement(_) => StatementKind::Compound,
        StatementTypes::ContinueStatement => StatementKind::Continue,
        StatementTypes::BreakStatement => StatementKind::Break,
        StatementTypes::InitializationStatement => StatementKind::Initialization,
        StatementTypes::IfStatement(_, _) => StatementKind::If,
        StatementTypes::WhileStatement => StatementKind::While,
        StatementTypes::DoWhileStatement => StatementKind::DoWhile,
        StatementTypes::LoopStatement(_) => StatementKind::Loop,
        StatementTypes::ReturnStatement(_) => StatementKind::Return,
        StatementTypes::ExpressionStatement(_) => StatementKind::Expression,
    }
}

/// The expression a payload holds, if any.
pub open spec fn expr_of(t: &StatementTypes) -> Option<ExpressionV> {
    match t {
        StatementTypes::IfStatement(e, _) => Some(e@),
        StatementTypes::ReturnStatement(e) => Some(e@),
        StatementTypes::ExpressionStatement(e) => Some(e@),
        _ => None,
    }
}

/// The nested statements a payload holds, if any.
pub open spec fn children_of(t: &StatementTypes) -> Seq<StmtV> {
    match t {
        StatementTypes::CompoundStatement(v) => statements_view(v),
        StatementTypes::IfStatement(_, v) => statements_view(v),
        StatementTypes::LoopStatement(v) => statements_view(v),
        _ => Seq::empty(),
    }
}

/// The first `n` statements of a block, each read in context `ctx`, or the
/// first error (`None` where reading would fail outright).
pub open spec fn parsed_list(cs: Seq<ParseTreeNode>, ctx: ContextV, n: nat) -> Option<
    Result<Seq<StmtV>, Seq<char>>,
>
    decreases cs, n,
{
    if n == 0 {
        Some(Ok(Seq::empty()))
    } else if n > cs.len() {
        None
    } else {
        match parsed_list(cs, ctx, (n - 1) as nat) {
            Some(Ok(acc)) => match parsed(cs[n - 1], ctx) {
                Some(Ok(x)) => Some(Ok(acc.push(x))),
                Some(Err(m)) => Some(Err(m)),
                None => None,
            },
            other => other,
        }
    }
}

/// What reading `node` as a statement in context `ctx` gives: the statement,
/// or the message of the error; `None` where the node lacks a part that
/// reading it needs.
pub open spec fn parsed(node: ParseTreeNode, ctx: ContextV) -> Option<Result<StmtV, Seq<char>>>
    decreases node, 0nat,
{
    match node {
        ParseTreeNode::Statement(children) => {
            let cs = children@;
            if cs.len() == 0 {
                Some(Ok(simple(StatementKind::Empty, ctx)))
            } else {
                match cs[0] {
                    ParseTreeNode::RawToken(t) => if t.data@ == "continue"@ {
                        Some(Ok(simple(StatementKind::Continue, ctx)))
                    } else if t.data@ == "break"@ {
                        Some(Ok(simple(StatementKind::Break, ctx)))
                    } else {
                        Some(
                            Err(
                                compiler_error_text(
                                    "Expected 'continue' or 'break', got '"@ + t.data@ + "'"@,
                                ),
                            ),
                        )
                    },
                    ParseTreeNode::Expression(_, _) => match expression_result(cs[0]) {
                        Ok(e) => Some(
                            Ok(StmtV { expr: Some(e), ..simple(StatementKind::Expression, ctx) }),
                        ),
                        Err(m) => Some(Err(m)),
                    },
                    other => Some(Err(expected_got_text("RawToken or Expression"@, other))),
                }
            }
        },
        ParseTreeNode::Statements(children) => match parsed_list(children@, ctx, children@.len()) {
            Some(Ok(ss)) => Some(Ok(StmtV { children: ss, ..simple(StatementKind::Compound, ctx) })),
            Some(Err(m)) => Some(Err(m)),
            None => None,
        },
        ParseTreeNode::IfStatement(children) => {
            let cs = children@;
            if cs.len() < 3 || !expression_node_ok(cs[0]) {
                None
            } else {
                match expression_result(cs[0]) {
                    Err(m) => Some(Err(m)),
                    Ok(e) => match parsed(cs[1], ctx) {
                        Some(Ok(a)) => match parsed(cs[2], ctx) {
                            Some(Ok(b)) => Some(
                                Ok(
                                    StmtV {
                                        expr: Some(e),
                                        children: seq![a, b],
                                        ..simple(StatementKind::If, ctx)
                                    },
                                ),
                            ),
                            other => other,
                        },
                        other => other,
                    },
                }
            }
        },
        ParseTreeNode::Loop(children) => if children@.len() == 0 {
            None
        } else {
            match parsed(children@[0], ctx) {
                Some(Ok(a)) => Some(
                    Ok(StmtV { children: seq![a], ..simple(StatementKind::Loop, ctx) }),
                ),
                other => other,
            }
        },
        ParseTreeNode::ReturnStatement(children) => if children@.len() == 0 || !expression_node_ok(
            children@[0],
        ) {
            None
        } else {
            match expression_result(children@[0]) {
                Ok(e) => Some(Ok(StmtV { expr: Some(e), ..simple(StatementKind::Return, ctx) })),
                Err(m) => Some(Err(m)),
            }
        },
        other => Some(Err(expected_got_text("A Statement"@, other))),
    }
}

proof fn lemma_parsed_list_stops(cs: Seq<ParseTreeNode>, ctx: ContextV, k: nat, n: nat)
    requires
        k <= n <= cs.len(),
        parsed_list(cs, ctx, k) matches Some(Err(_)),
    ensures
        parsed_list(cs, ctx, n) == parsed_list(cs, ctx, k),
    decreases n - k,
{
    if k < n {
        lemma_parsed_list_stops(cs, ctx, k, (n - 1) as nat);
    }
}

proof fn lemma_parsed_list_some(cs: Seq<ParseTreeNode>, ctx: ContextV, k: nat, n: nat)
    requires
        k <= n,
        parsed_list(cs, ctx, n) is Some,
    ensures
        parsed_list(cs, ctx, k) is Some,
    decreases n - k,
{
    if k < n {
        lemma_parsed_list_some(cs, ctx, k + 1, n);
        if parsed_list(cs, ctx, k) is None {
            assert(parsed_list(cs, ctx, k + 1) is None);
        }
    }
}

impl Statement {
    pub fn new(statement: StatementTypes, context: StatementContext) -> (s: Self)
        ensures
            s@ == (StmtV {
                kind: kind_of(&statement),
                expr: expr_of(&statement),
                children: children_of(&statement),
                context: context@,
            }),
    {
        Self { statement, context }
    }

    /// The statement a parse tree node stands for, read in `context` (every
    /// statement read keeps a copy of it).
    pub fn from_parse_tree_node(node: ParseTreeNode, context: &StatementContext) -> (r: Result<Self, Error>)
        requires
            parsed(node, context@) is Some,
        ensures
            match parsed(node, context@) {
                Some(Ok(s)) => r is Ok && r->Ok_0@ == s,
                Some(Err(m)) => is_error_with(r, m),
                None => false,
            },
    {
        Self::from_node(&node, context)
    }

    pub(crate) fn from_node(node: &ParseTreeNode, context: &StatementContext) -> (r: Result<Self, Error>)
        requires
            parsed(*node, context@) is Some,
        ensures
            match parsed(*node, context@) {
                Some(Ok(s)) => r is Ok && r->Ok_0@ == s,
                Some(Err(m)) => is_error_with(r, m),
                None => false,
            },
        decreases node,
    {
        let ghost ctx = context@;
        match node {
            ParseTreeNode::Statement(children) => {
                if children.len() == 0 {
                    return Ok(Statement::new(StatementTypes::Empty, context.clone()));
                }
                match &children[0] {
                    ParseTreeNode::RawToken(token) => {
                        if crate::text::str_eq(token.data.as_str(), "continue") {
                            Ok(Statement::new(StatementTypes::ContinueStatement, context.clone()))
                        } else if crate::text::str_eq(token.data.as_str(), "break") {
                            Ok(Statement::new(StatementTypes::BreakStatement, context.clone()))
                        } else {
                            let mut text = String::from_str("Expected 'continue' or 'break', got '");
                            text.append(token.data.as_str());
                            text.append("'");
                            compiler_error(text)
                        }
                    },
                    ParseTreeNode::Expression(_, _) => {
                        let e = Expression::from_node(&children[0])?;
                        Ok(Statement::new(StatementTypes::ExpressionStatement(e), context.clone()))
                    },
                    _ => expected_got_type_error("RawToken or Expression", &children[0]),
                }
            },
            ParseTreeNode::Statements(children) => {
                let mut statements: Vec<Statement> = Vec::new();
                let mut i: usize = 0;
                proof {
                    assert(statements_view(&statements) =~= Seq::<StmtV>::empty());
                }
                while i < children.len()
                    invariant
                        i <= children@.len(),
                        *node == ParseTreeNode::Statements(*children),
                        ctx == context@,
                        parsed_list(children@, ctx, children@.len()) is Some,
                        parsed_list(children@, ctx, i as nat) == Some(
                            Ok::<Seq<StmtV>, Seq<char>>(statements_view(&statements)),
                        ),
                    decreases children.len() - i,
                {
                    proof {
                        lemma_parsed_list_some(children@, ctx, (i + 1) as nat, children@.len());
                        assert(decreases_to!(*node => children@[i as int]));
                    }
                    match Self::from_node(&children[i], context) {
                        Ok(st) => {
                            let ghost before_view = statements_view(&statements);
                            let ghost sv = st@;
                            statements.push(st);
                            assert(statements_view(&statements) =~= before_view.push(sv));
                        },
                        Err(e) => {
                            proof {
                                lemma_parsed_list_stops(children@, ctx, (i + 1) as nat, children@.len());
                            }
                            return Err(e);
                        },
                    }
                    i = i + 1;
                }
                Ok(Statement::new(StatementTypes::CompoundStatement(statements), context.clone()))
            },
            ParseTreeNode::IfStatement(children) => {
                let e = Expression::from_node(&children[0])?;
                proof {
                    assert(decreases_to!(*node => children@[1]));
                    assert(decreases_to!(*node => children@[2]));
                }
                let a = Self::from_node(&children[1], context)?;
                let b = Self::from_node(&children[2], context)?;
                let ghost (av, bv) = (a@, b@);
                let v = vec![a, b];
                proof {
                    assert(statements_view(&v) =~= seq![av, bv]);
                }
                Ok(Statement::new(StatementTypes::IfStatement(e, v), context.clone()))
            },
            ParseTreeNode::Loop(children) => {
                proof {
                    assert(decreases_to!(*node => children@[0]));
                }
                let a = Self::from_node(&children[0], context)?;
                let ghost av = a@;
                let v = vec![a];
                proof {
                    assert(statements_view(&v) =~= seq![av]);
                }
                Ok(Statement::new(StatementTypes::LoopStatement(v), context.clone()))
            },
            ParseTreeNode::ReturnStatement(children) => {
                let e = Expression::from_node(&children[0])?;
                Ok(Statement::new(StatementTypes::ReturnStatement(e), context.clone()))
            },
            _ => expected_got_type_error("A Statement", node),
        }
    }
}

/// The line that places label `l`.
pub open spec fn label_line(l: nat) -> Seq<char> {
    "a"@ + nat_text(l) + ":\n"@
}

/// The line that jumps to label `l`.
pub open spec fn jump_line(l: nat) -> Seq<char> {
    "br label %a"@ + nat_text(l) + "\n"@
}

/// The text of the first `n` statements of a block, each followed by a line
/// break, and the statements as writing them leaves them; `None` where one of
/// them cannot be written.
pub open spec fn rendered_list(cs: Seq<StmtV>, n: nat) -> Option<(Seq<char>, Seq<StmtV>)>
    decreases cs, n,
{
    if n == 0 {
        Some((Seq::empty(), Seq::empty()))
    } else if n > cs.len() {
        None
    } else {
        match rendered_list(cs, (n - 1) as nat) {
            Some((t, done)) => match rendered(cs[n - 1]) {
                Some((t1, c1)) => Some((t + t1 + "\n"@, done.push(c1))),
                None => None,
            },
            None => None,
        }
    }
}

/// The LLVM text of a statement, and the statement as writing it leaves it
/// (its context has handed out the labels used). `None` where the statement
/// cannot be written: a kind that has no text, a `continue` or `break` with
/// no loop open in its context, a missing part, or a label counter that would
/// overflow.
pub open spec fn rendered(s: StmtV) -> Option<(Seq<char>, StmtV)>
    decreases s, 0nat,
{
    let ctx = s.context;
    match s.kind {
        StatementKind::Empty => Some((Seq::empty(), s)),
        StatementKind::Compound => match rendered_list(s.children, s.children.len()) {
            Some((t, cs)) => Some((t, StmtV { children: cs, ..s })),
            None => None,
        },
        StatementKind::Continue => if ctx.loop_entries.len() > 0 {
            Some((jump_line(ctx.loop_entries.last() as nat), s))
        } else {
            None
        },
        StatementKind::Break => if ctx.loop_exits.len() > 0 {
            Some((jump_line(ctx.loop_exits.last() as nat), s))
        } else {
            None
        },
        StatementKind::If => if s.children.len() < 2 || s.expr is None || ctx.next_label + 3
            > usize::MAX {
            None
        } else {
            let t = ctx.next_label as nat;
            match rendered(s.children[0]) {
                None => None,
                Some((ta, a)) => match rendered(s.children[1]) {
                    None => None,
                    Some((tb, b)) => Some(
                        (
                            "%a"@ + nat_text(t) + " = icmp ne i32 "@ + symbol_text(s.expr->Some_0)
                                + ", 0\n"@ + "br i1 %a"@ + nat_text(t) + ", label %a"@ + nat_text(t + 1)
                                + ", label %a"@ + nat_text(t + 2) + "\n"@ + label_line(t + 1) + ta
                                + label_line(t + 2) + tb,
                            StmtV {
                                children: s.children.update(0, a).update(1, b),
                                context: ContextV { next_label: (t + 3) as usize, ..ctx },
                                ..s
                            },
                        ),
                    ),
                },
            }
        },
        StatementKind::Loop => if s.children.len() < 1 || ctx.next_label + 2 > usize::MAX {
            None
        } else {
            let c = ctx.next_label as nat;
            match rendered(s.children[0]) {
                None => None,
                Some((ta, a)) => Some(
                    (
                        label_line(c) + ta + jump_line(c) + label_line(c + 1),
                        StmtV {
                            children: s.children.update(0, a),
                            context: ContextV { next_label: (c + 2) as usize, ..ctx },
                            ..s
                        },
                    ),
                ),
            }
        },
        StatementKind::Return => match s.expr {
            Some(e) => Some(
                ("ret "@ + datatype_text(ctx.return_type) + " "@ + symbol_text(e) + "\n"@, s),
            ),
            None => None,
        },
        StatementKind::Expression => Some((Seq::empty(), s)),
        _ => None,
    }
}

/// Appends the line that places label `l`.
fn append_label_line(s: &mut String, l: usize)
    ensures
        final(s)@ == old(s)@ + label_line(l as nat),
{
    s.append("a");
    append_usize(s, l);
    s.append(":\n");
}

/// Appends the line that jumps to label `l`.
fn append_jump_line(s: &mut String, l: usize)
    ensures
        final(s)@ == old(s)@ + jump_line(l as nat),
{
    s.append("br label %a");
    append_usize(s, l);
    s.append("\n");
}

impl Statement {
    /// A copy of the statement, nested statements included.
    fn copy(&self) -> (r: Statement)
        ensures
            r@ == self@,
        decreases self, 1nat,
    {
        let statement = match &self.statement {
            StatementTypes::Empty => StatementTypes::Empty,
            StatementTypes::CompoundStatement(v) => {
                proof {
                    assert(decreases_to!(self => *v));
                }
                StatementTypes::CompoundStatement(copy_statements(v))
            },
            StatementTypes::ContinueStatement => StatementTypes::ContinueStatement,
            StatementTypes::BreakStatement => StatementTypes::BreakStatement,
            StatementTypes::InitializationStatement => StatementTypes::InitializationStatement,
            StatementTypes::IfStatement(e, v) => {
                proof {
                    assert(decreases_to!(self => *v));
                }
                StatementTypes::IfStatement(e.clone(), copy_statements(v))
            },
            StatementTypes::WhileStatement => StatementTypes::WhileStatement,
            StatementTypes::DoWhileStatement => StatementTypes::DoWhileStatement,
            StatementTypes::LoopStatement(v) => {
                proof {
                    assert(decreases_to!(self => *v));
                }
                StatementTypes::LoopStatement(copy_statements(v))
            },
            StatementTypes::ReturnStatement(e) => StatementTypes::ReturnStatement(e.clone()),
            StatementTypes::ExpressionStatement(e) => StatementTypes::ExpressionStatement(e.clone()),
        };
        Statement { statement, context: self.context.clone() }
    }
}

/// A copy of each statement.
fn copy_statements(v: &Vec<Statement>) -> (r: Vec<Statement>)
    ensures
        statements_view(&r) == statements_view(v),
    decreases v, 0nat,
{
    let mut r: Vec<Statement> = Vec::new();
    let mut i: usize = 0;
    while i < v.len()
        invariant
            i <= v@.len(),
            statements_view(&r) == statements_view(v).take(i as int),
        decreases v@.len() - i,
    {
        proof {
            assert(decreases_to!(v => v@[i as int]));
        }
        let ghost before = statements_view(&r);
        let c = v[i].copy();
        r.push(c);
        assert(statements_view(&r) =~= before.push(v@[i as int]@));
        assert(statements_view(&r) =~= statements_view(v).take(i + 1));
        i = i + 1;
    }
    assert(statements_view(v).take(v@.len() as int) =~= statements_view(v));
    r
}

impl Statement {
    /// The text of the statement and the statement as writing it leaves it.
    fn rendered_copy(&self) -> (r: (String, Statement))
        requires
            rendered(self@) is Some,
        ensures
            r.0@ == rendered(self@)->Some_0.0,
            r.1@ == rendered(self@)->Some_0.1,
        decreases self, 1nat,
    {
        let ghost sv = self@;
        match &self.statement {
            StatementTypes::CompoundStatement(v) => {
                proof {
                    assert(decreases_to!(self => *v));
                }
                let (t, cs) = render_statements(v);
                let r = Statement { statement: StatementTypes::CompoundStatement(cs), context: self.context.clone() };
                (t, r)
            },
            StatementTypes::ContinueStatement => {
                let mut t = String::new();
                append_jump_line(&mut t, self.context.get_continue());
                (t, self.copy())
            },
            StatementTypes::BreakStatement => {
                let mut t = String::new();
                append_jump_line(&mut t, self.context.get_break());
                (t, self.copy())
            },
            StatementTypes::IfStatement(e, v) => {
                proof {
                    assert(decreases_to!(self => *v));
                    assert(decreases_to!(v => v@[0]));
                    assert(decreases_to!(v => v@[1]));
                    assert(statements_view(v)[0] == v@[0]@);
                    assert(statements_view(v)[1] == v@[1]@);
                }
                let mut ctx = self.context.clone();
                let temp = ctx.get_label();
                let body = ctx.get_label();
                let other = ctx.get_label();
                let mut t = String::from_str("%a");
                append_usize(&mut t, temp);
                t.append(" = icmp ne i32 ");
                let sym = e.get_symbol();
                t.append(sym.as_str());
                t.append(", 0\n");
                t.append("br i1 %a");
                append_usize(&mut t, temp);
                t.append(", label %a");
                append_usize(&mut t, body);
                t.append(", label %a");
                append_usize(&mut t, other);
                t.append("\n");
                append_label_line(&mut t, body);
                let (ta, a) = v[0].rendered_copy();
                t.append(ta.as_str());
                append_label_line(&mut t, other);
                let (tb, b) = v[1].rendered_copy();
                t.append(tb.as_str());
                let mut nv = copy_statements(v);
                let ghost (av, bv) = (a@, b@);
                let ghost before = statements_view(&nv);
                nv.set(0, a);
                nv.set(1, b);
                assert(statements_view(&nv) =~= before.update(0, av).update(1, bv));
                let r = Statement { statement: StatementTypes::IfStatement(e.clone(), nv), context: ctx };
                (t, r)
            },
            StatementTypes::LoopStatement(v) => {
                proof {
                    assert(decreases_to!(self => *v));
                    assert(decreases_to!(v => v@[0]));
                    assert(statements_view(v)[0] == v@[0]@);
                }
                let mut ctx = self.context.clone();
                let (start, exit) = ctx.push_loop();
                let mut t = String::new();
                append_label_line(&mut t, start);
                let (ta, a) = v[0].rendered_copy();
                t.append(ta.as_str());
                append_jump_line(&mut t, start);
                append_label_line(&mut t, exit);
                ctx.pop_loop();
                proof {
                    law_loop_push_pop(self.context@);
                }
                let mut nv = copy_statements(v);
                let ghost av = a@;
                let ghost before = statements_view(&nv);
                nv.set(0, a);
                assert(statements_view(&nv) =~= before.update(0, av));
                let r = Statement { statement: StatementTypes::LoopStatement(nv), context: ctx };
                (t, r)
            },
            StatementTypes::ReturnStatement(e) => {
                let mut t = String::from_str("ret ");
                self.context.return_type.append_to(&mut t);
                t.append(" ");
                let sym = e.get_symbol();
                t.append(sym.as_str());
                t.append("\n");
                (t, self.copy())
            },
            StatementTypes::Empty | StatementTypes::ExpressionStatement(_) => (String::new(), self.copy()),
            _ => {
                proof {
                    assert(false);
                }
                (String::new(), self.copy())
            },
        }
    }

    /// Write the statement out as LLVM text. Its context (and the context of
    /// each statement in it) hands out the labels used, so writing it again
    /// uses fresh ones.
    pub fn render(&mut self) -> (s: String)
        requires
            rendered(old(self)@) is Some,
        ensures
            s@ == rendered(old(self)@)->Some_0.0,
            final(self)@ == rendered(old(self)@)->Some_0.1,
    {
        let (t, next) = self.rendered_copy();
        *self = next;
        t
    }
}

/// The text of each statement followed by a line break, and the statements
/// as writing them leaves them.
fn render_statements(v: &Vec<Statement>) -> (r: (String, Vec<Statement>))
    requires
        rendered_list(statements_view(v), v@.len() as nat) is Some,
    ensures
        r.0@ == rendered_list(statements_view(v), v@.len() as nat)->Some_0.0,
        statements_view(&r.1) == rendered_list(statements_view(v), v@.len() as nat)->Some_0.1,
    decreases v, 0nat,
{
    let ghost cs = statements_view(v);
    let mut t = String::new();
    let mut done: Vec<Statement> = Vec::new();
    let mut i: usize = 0;
    proof {
        assert(statements_view(&done) =~= Seq::<StmtV>::empty());
    }
    while i < v.len()
        invariant
            i <= v@.len(),
            cs == statements_view(v),
            rendered_list(cs, v@.len() as nat) is Some,
            rendered_list(cs, i as nat) == Some((t@, statements_view(&done))),
        decreases v@.len() - i,
    {
        proof {
            lemma_rendered_list_some(cs, (i + 1) as nat, v@.len() as nat);
            assert(decreases_to!(v => v@[i as int]));
            assert(cs[i as int] == v@[i as int]@);
        }
        let (ti, c) = v[i].rendered_copy();
        t.append(ti.as_str());
        t.append("\n");
        let ghost before = statements_view(&done);
        let ghost cv = c@;
        done.push(c);
        assert(statements_view(&done) =~= before.push(cv));
        i = i + 1;
    }
    (t, done)
}

proof fn lemma_rendered_list_some(cs: Seq<StmtV>, k: nat, n: nat)
    requires
        k <= n,
        rendered_list(cs, n) is Some,
    ensures
        rendered_list(cs, k) is Some,
    decreases n - k,
{
    if k < n {
        lemma_rendered_list_some(cs, k + 1, n);
    }
}

} // verus!
