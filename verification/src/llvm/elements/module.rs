//! A module of the LLVM back end: its data layout, target and functions.
use vstd::prelude::*;
use crate::cli::Error;
use crate::cli::errors::is_error_with;
use crate::irgen::errors::expected_got_text;
use crate::llvm::error::expected_got_error;
use crate::llvm::target::TargetTriple;
use super::function::{Function, FunctionV, function_node_ok, function_result, function_text};
use crate::parser::ParseTreeNode;

verus! {

#[derive(Debug)]
pub struct Module {
    data_layout: String,
    target_triple: TargetTriple,
    functions: Vec<Function>,
}

/// The data layout a new module starts with.
pub open spec fn default_data_layout() -> Seq<char> {
    "e-p:64:64:64-i1:8:8-i8:8:8-i16:16:16-i32:32:32-i64:64:64-f32:32:32-f64:64:64-v64:64:64-v128:128:128-a0:0:64-s0:64:64-f80:128:128-n8:16:32:64-S128"@
}

/// The functions read from the first `n` children of a library, or, at the
/// first child that is not a well-formed function, those read before it and
/// the message of its error.
pub open spec fn loaded_functions(children: Seq<ParseTreeNode>, n: int) -> Result<
    Seq<FunctionV>,
    (Seq<FunctionV>, Seq<char>),
>
    decreases n,
{
    if n <= 0 {
        Ok(Seq::empty())
    } else {
        match loaded_functions(children, n - 1) {
            Err(e) => Err(e),
            Ok(fs) => match function_result(children[n - 1]) {
                Ok(f) => Ok(fs.push(f)),
                Err(m) => Err((fs, m)),
            },
        }
    }
}

proof fn lemma_loaded_stops(children: Seq<ParseTreeNode>, k: int, n: int)
    requires
        0 <= k <= n,
        loaded_functions(children, k) is Err,
    ensures
        loaded_functions(children, n) == loaded_functions(children, k),
    decreases n - k,
{
    if n > k {
        lemma_loaded_stops(children, k, n - 1);
    }
}

/// The text of the functions, each followed by a line break.
pub open spec fn functions_text(fs: Seq<FunctionV>) -> Seq<char>
    decreases fs.len(),
{
    if fs.len() == 0 {
        Seq::empty()
    } else {
        functions_text(fs.drop_last()) + function_text(fs.last()) + "\n"@
    }
}

impl Module {
    /// The data layout.
    pub closed spec fn layout_v(&self) -> Seq<char> {
        self.data_layout@
    }

    /// The target triple.
    pub closed spec fn target_v(&self) -> TargetTriple {
        self.target_triple
    }

    /// The functions, in the order they were added.
    pub closed spec fn functions_v(&self) -> Seq<FunctionV> {
        self.functions@.map_values(|f: Function| f@)
    }

    /// The text of the module: its data layout and target, then each function.
    pub open spec fn text(&self) -> Seq<char> {
        "target datalayout = \""@ + self.layout_v() + "\"\ntarget triple = \""@
            + self.target_v().text() + "\"\n"@ + functions_text(self.functions_v())
    }

    /// A module for `target_triple`, with the default data layout and no functions.
    pub fn new(target_triple: TargetTriple) -> (m: Self)
        ensures
            m.layout_v() == default_data_layout(),
            m.target_v() == target_triple,
            m.functions_v() == Seq::<FunctionV>::empty(),
    {
        let m = Self {
            data_layout: String::from_str(
                "e-p:64:64:64-i1:8:8-i8:8:8-i16:16:16-i32:32:32-i64:64:64-f32:32:32-f64:64:64-v64:64:64-v128:128:128-a0:0:64-s0:64:64-f80:128:128-n8:16:32:64-S128",
            ),
            target_triple,
            functions: Vec::new(),
        };
        assert(m.functions_v() =~= Seq::<FunctionV>::empty());
        m
    }

    /// Add a function at the end.
    pub fn add_function(&mut self, func: Function)
        ensures
            final(self).functions_v() == old(self).functions_v().push(func@),
            final(self).layout_v() == old(self).layout_v(),
            final(self).target_v() == old(self).target_v(),
    {
        let ghost fv = func@;
        self.functions.push(func);
        assert(self.functions_v() =~= old(self).functions_v().push(fv));
    }

    /// Add the functions of a library node, in order; at the first child that
    /// is not a well-formed function, stop with its error (the functions read
    /// before it stay added).
    pub fn load_from_parse_tree(&mut self, node: ParseTreeNode) -> (r: Result<(), Error>)
        requires
            node is Library ==> forall|i: int|
                0 <= i < node->Library_0@.len() ==> function_node_ok(#[trigger] node->Library_0@[i]),
        ensures
            final(self).layout_v() == old(self).layout_v(),
            final(self).target_v() == old(self).target_v(),
            match node {
                ParseTreeNode::Library(children) => match loaded_functions(
                    children@,
                    children@.len() as int,
                ) {
                    Ok(fs) => r is Ok && final(self).functions_v() == old(self).functions_v() + fs,
                    Err((fs, m)) => is_error_with(r, m) && final(self).functions_v() == old(self).functions_v() + fs,
                },
                _ => is_error_with(r, expected_got_text("Library"@, node)) && final(self).functions_v() == old(self).functions_v(),
            },
    {
        match &node {
            ParseTreeNode::Library(children) => {
                let ghost start = self.functions_v();
                let mut i: usize = 0;
                assert(start + Seq::<FunctionV>::empty() =~= start);
                while i < children.len()
                    invariant
                        i <= children.len(),
                        node == ParseTreeNode::Library(*children),
                        forall|j: int|
                            0 <= j < children@.len() ==> function_node_ok(#[trigger] children@[j]),
                        loaded_functions(children@, i as int) matches Ok(fs) && self.functions_v()
                            == start + fs,
                        self.layout_v() == old(self).layout_v(),
                        self.target_v() == old(self).target_v(),
                        start == old(self).functions_v(),
                    decreases children.len() - i,
                {
                    let ghost fs = loaded_functions(children@, i as int)->Ok_0;
                    assert(function_node_ok(children@[i as int]));
                    match Function::from_node(&children[i]) {
                        Ok(f) => {
                            self.add_function(f);
                            assert(start + fs.push(function_result(children@[i as int])->Ok_0)
                                =~= (start + fs).push(function_result(children@[i as int])->Ok_0));
                        },
                        Err(e) => {
                            proof {
                                lemma_loaded_stops(children@, i + 1, children@.len() as int);
                            }
                            return Err(e);
                        },
                    }
                    i = i + 1;
                }
                Ok(())
            },
            _ => expected_got_error("Library", node),
        }
    }

    /// The text of the module: `target datalayout = "<layout>"`, `target
    /// triple = "<triple>"`, then each function followed by a line break.
    pub fn render(&self) -> (s: String)
        ensures
            s@ == self.text(),
    {
        let mut s = String::from_str("target datalayout = \"");
        s.append(self.data_layout.as_str());
        s.append("\"\ntarget triple = \"");
        let t = self.target_triple.render();
        s.append(t.as_str());
        s.append("\"\n");
        let ghost head = s@;
        let ghost fs = self.functions_v();
        let mut i: usize = 0;
        while i < self.functions.len()
            invariant
                i <= self.functions.len(),
                fs == self.functions_v(),
                s@ == head + functions_text(fs.take(i as int)),
            decreases self.functions.len() - i,
        {
            proof {
                assert(fs.take(i + 1).drop_last() =~= fs.take(i as int));
                assert(fs[i as int] == self.functions@[i as int]@);
            }
            let ft = self.functions[i].render();
            s.append(ft.as_str());
            s.append("\n");
            assert(s@ =~= head + functions_text(fs.take(i + 1)));
            i = i + 1;
        }
        assert(fs.take(self.functions.len() as int) =~= fs);
        assert(s@ =~= self.text());
        s
    }
}

} // verus!
