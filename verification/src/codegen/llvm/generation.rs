//! Generation of LLVM IR for a list of functions.
use vstd::prelude::*;
use super::functions::{FunctionGenerationContext, LlvmContextV, function_v};
use crate::cli::Error;
use crate::codegen::avrasm::generation::functions_view;
use crate::irgen::function::{Function, FunctionV};

verus! {

/// Wrapper for the LLVM IR Code Generator
pub struct LLVMGenerator {
    functions: Vec<Function>,
}

/// A fresh generation context for `f`.
pub open spec fn fresh_context(f: FunctionV) -> LlvmContextV {
    LlvmContextV { func: f, values: Map::empty(), next_temp: 0, result: Seq::empty() }
}

/// The definitions of the first `n` functions, each generated in a fresh
/// context; `None` where generation stops the program.
pub open spec fn definitions_v(fs: Seq<FunctionV>, n: nat) -> Option<Seq<char>>
    decreases n,
{
    if n == 0 {
        Some(Seq::empty())
    } else {
        match definitions_v(fs, (n - 1) as nat) {
            None => None,
            Some(t) => if n - 1 < fs.len() {
                match function_v(fresh_context(fs[n - 1])) {
                    None => None,
                    Some(c) => Some(t + c.result),
                }
            } else {
                None
            },
        }
    }
}

/// The module text: the data layout and target lines when given, then the definitions.
pub open spec fn module_text(
    layout: Option<Seq<char>>,
    target: Option<Seq<char>>,
    definitions: Seq<char>,
) -> Seq<char> {
    (match layout {
        Some(d) => "target datalayout = \""@ + d + "\"\n"@,
        None => Seq::empty(),
    }) + (match target {
        Some(t) => "target triple = \""@ + t + "\"\n"@,
        None => Seq::empty(),
    }) + definitions
}

/// The view of an optional string slice.
pub open spec fn option_str_view(s: Option<&str>) -> Option<Seq<char>> {
    match s {
        Some(x) => Some(x@),
        None => None,
    }
}

proof fn lemma_definitions_prefix(fs: Seq<FunctionV>, k: nat, n: nat)
    requires
        k <= n,
        definitions_v(fs, n) is Some,
    ensures
        definitions_v(fs, k) is Some,
    decreases n - k,
{
    if k < n {
        lemma_definitions_prefix(fs, k, (n - 1) as nat);
    }
}

impl LLVMGenerator {
    /// The functions to generate, in order.
    pub closed spec fn functions_v(&self) -> Seq<FunctionV> {
        functions_view(self.functions@)
    }

    /// Generate a new AvrAsmGenerator from a vector of IR functions
    pub fn new(functions: Vec<Function>) -> (g: Self)
        ensures
            g.functions_v() == functions_view(functions@),
    {
        Self { functions }
    }

    /// Render each function in turn
    pub fn render(self, target: Option<&str>, datalayout: Option<&str>) -> (r: Result<String, Error>)
        requires
            definitions_v(self.functions_v(), self.functions_v().len()) is Some,
        ensures
            r is Ok,
            r->Ok_0@ == module_text(
                option_str_view(datalayout),
                option_str_view(target),
                definitions_v(self.functions_v(), self.functions_v().len())->Some_0,
            ),
    {
        let ghost fs = self.functions_v();
        let mut result = String::new();
        if let Some(datalayout_str) = datalayout {
            result.append("target datalayout = \"");
            result.append(datalayout_str);
            result.append("\"\n");
        }
        if let Some(target_str) = target {
            result.append("target triple = \"");
            result.append(target_str);
            result.append("\"\n");
        }
        let ghost head = result@;
        assert(head =~= module_text(option_str_view(datalayout), option_str_view(target), Seq::empty()));
        let mut rest = self.functions;
        let n = rest.len();
        let mut i: usize = 0;
        while rest.len() > 0
            invariant
                fs == self.functions_v(),
                fs.len() == n,
                i + rest@.len() == n,
                functions_view(rest@) == fs.skip(i as int),
                definitions_v(fs, n as nat) is Some,
                definitions_v(fs, i as nat) matches Some(t) && result@ == head + t,
            decreases rest@.len(),
        {
            proof {
                lemma_definitions_prefix(fs, (i + 1) as nat, n as nat);
                assert(functions_view(rest@)[0] == fs[i as int]);
            }
            let ghost old_rest = rest@;
            let ghost t = definitions_v(fs, i as nat)->Some_0;
            let function = rest.remove(0);
            let mut context = FunctionGenerationContext::new(function);
            let text = context.render_function().unwrap();
            result.append(text.as_str());
            proof {
                assert(result@ =~= head + (t + text@));
                assert forall|k: int| 0 <= k < rest@.len() implies functions_view(rest@)[k] == fs.skip(i + 1)[k] by {
                    assert(rest@[k] == old_rest[k + 1]);
                    assert(functions_view(old_rest)[k + 1] == fs.skip(i as int)[k + 1]);
                }
                assert(functions_view(rest@) =~= fs.skip(i + 1));
            }
            i = i + 1;
        }
        assert(head + definitions_v(fs, n as nat)->Some_0 =~= module_text(
            option_str_view(datalayout),
            option_str_view(target),
            definitions_v(fs, n as nat)->Some_0,
        ));
        Ok(result)
    }
}

} // verus!
