//! Generation of AVR assembly for a list of functions.
use vstd::prelude::*;
use super::functions::{ErrV, FunctionGenerationContext, function_v, new_context_v, text_matches};
use crate::cli::Error;
use crate::cli::errors::fails_with;
use crate::irgen::function::{Function, FunctionV, instructions_view};

verus! {

/// Wrapper for the AVR Assembly Code Generator
pub struct AvrAsmGenerator {
    functions: Vec<Function>,
}

/// The views of a sequence of functions.
pub open spec fn functions_view(fs: Seq<Function>) -> Seq<FunctionV> {
    fs.map_values(|f: Function| f@)
}

/// The assembly of the first `n` functions, each generated in a fresh
/// context, stopping at the first error; `None` where generation stops the program.
pub open spec fn generated_v(fs: Seq<FunctionV>, n: nat) -> Option<Result<Seq<char>, ErrV>>
    decreases n,
{
    if n == 0 {
        Some(Ok(Seq::empty()))
    } else {
        match generated_v(fs, (n - 1) as nat) {
            Some(Ok(t)) => if n - 1 < fs.len() {
                match function_v(new_context_v(fs[n - 1])) {
                    None => None,
                    Some((Err(e), _)) => Some(Err(e)),
                    Some((Ok(t2), _)) => Some(Ok(t + t2)),
                }
            } else {
                None
            },
            other => other,
        }
    }
}

proof fn lemma_generated_stops(fs: Seq<FunctionV>, k: nat, n: nat)
    requires
        k <= n,
        !(generated_v(fs, k) matches Some(Ok(_))),
    ensures
        generated_v(fs, n) == generated_v(fs, k),
    decreases n - k,
{
    if k < n {
        lemma_generated_stops(fs, k, (n - 1) as nat);
    }
}

proof fn lemma_generated_some(fs: Seq<FunctionV>, k: nat, n: nat)
    requires
        k <= n,
        generated_v(fs, n) is Some,
    ensures
        generated_v(fs, k) is Some,
    decreases n - k,
{
    if k < n {
        lemma_generated_some(fs, k, (n - 1) as nat);
        if !(generated_v(fs, (n - 1) as nat) matches Some(Ok(_))) {
            lemma_generated_stops(fs, (n - 1) as nat, n);
        }
    }
}

impl AvrAsmGenerator {
    /// The functions to generate, in order.
    pub closed spec fn functions_v(&self) -> Seq<FunctionV> {
        functions_view(self.functions@)
    }

    /// Generate a new AvrAsmGenerator from a vector of IR functions
    pub fn new(functions: Vec<Function>) -> (g: Self)
        ensures
            g.functions_v() == functions_view(functions@),
    {
        Self { functions }
    }

    /// Render each function in turn
    pub fn render(self) -> (r: Result<String, Error>)
        requires
            generated_v(self.functions_v(), self.functions_v().len()) is Some,
        ensures
            match generated_v(self.functions_v(), self.functions_v().len()) {
                Some(Ok(t)) => r is Ok && r->Ok_0@ == t,
                Some(Err(e)) => fails_with(r, e.0, e.1),
                None => false,
            },
    {
        let ghost fs = self.functions_v();
        let mut rest = self.functions;
        let mut result = String::new();
        let mut i: usize = 0;
        let n = rest.len();
        while rest.len() > 0
            invariant
                fs == self.functions_v(),
                fs.len() == n,
                i + rest@.len() == n,
                functions_view(rest@) == fs.skip(i as int),
                generated_v(fs, n as nat) is Some,
                generated_v(fs, i as nat) == Some(Ok::<Seq<char>, ErrV>(result@)),
            decreases rest@.len(),
        {
            proof {
                lemma_generated_some(fs, (i + 1) as nat, n as nat);
                assert(functions_view(rest@)[0] == fs[i as int]);
            }
            let ghost old_rest = rest@;
            let function = rest.remove(0);
            let mut context = FunctionGenerationContext::new(function);
            match context.render_function() {
                Ok(t) => {
                    result.append(t.as_str());
                },
                Err(e) => {
                    proof {
                        lemma_generated_stops(fs, (i + 1) as nat, n as nat);
                    }
                    return Err(e);
                },
            }
            proof {
                assert forall|k: int| 0 <= k < rest@.len() implies functions_view(rest@)[k] == fs.skip(i + 1)[k] by {
                    assert(rest@[k] == old_rest[k + 1]);
                    assert(functions_view(old_rest)[k + 1] == fs.skip(i as int)[k + 1]);
                }
                assert(functions_view(rest@) =~= fs.skip(i + 1));
            }
            i = i + 1;
        }
        Ok(result)
    }
}

} // verus!
