//! Turning the parse tree of a source file into the compiler's output.
use vstd::prelude::*;
use crate::cli::{Error, Options, Severity};
use crate::cli::errors::fails_with;
use crate::codegen::{CodeGenerator, CodegenMode, generated_output, mode_named};
use crate::irgen::function::{Function, FunctionV, clone_strings};
use crate::irgen::optimize::optimize_function;
use crate::irgen::optimize::pipeline::optimized_v;
use crate::text::{i128_from_decimal, parse_decimal_i128};
use crate::irgen::statement::lowered_function;
use crate::parser::ParseTreeNode;

verus! {

/// The functions built from the first `n` children of a library, or the
/// message of the first error (`None` where building one would fail outright).
pub open spec fn lowered_functions(cs: Seq<ParseTreeNode>, n: nat) -> Option<
    Result<Seq<FunctionV>, Seq<char>>,
>
    decreases n,
{
    if n == 0 {
        Some(Ok(Seq::empty()))
    } else if n > cs.len() {
        None
    } else {
        match lowered_functions(cs, (n - 1) as nat) {
            Some(Ok(fs)) => match lowered_function(cs[n - 1]) {
                Some(Ok(f)) => Some(Ok(fs.push(f))),
                Some(Err(m)) => Some(Err(m)),
                None => None,
            },
            other => other,
        }
    }
}

/// The code generation mode the options select with `-g` (the intermediate
/// representation when it is not given; `None` when it is given no argument).
pub open spec fn selected_mode(flags: Map<Seq<char>, Seq<Seq<char>>>) -> Option<CodegenMode> {
    if !flags.contains_key("-g"@) {
        Some(CodegenMode::IntermediateRepresentation)
    } else if flags["-g"@].len() == 0 {
        None
    } else {
        Some(mode_named(flags["-g"@][0]))
    }
}

/// The optimization level that `-O` selects: 2 when it is not given, else
/// the number its argument writes in decimal. `None` when it is given no
/// argument; `Some(None)` when its argument writes no level.
pub open spec fn selected_level(flags: Map<Seq<char>, Seq<Seq<char>>>) -> Option<Option<usize>> {
    if !flags.contains_key("-O"@) {
        Some(Some(2))
    } else if flags["-O"@].len() == 0 {
        None
    } else {
        match i128_from_decimal(flags["-O"@][0]) {
            Some(v) => if 0 <= v <= usize::MAX {
                Some(Some(v as usize))
            } else {
                Some(None)
            },
            None => Some(None),
        }
    }
}

/// The first `n` functions of `fs`, each optimized (`None` where optimizing
/// one would fail).
pub open spec fn optimized_functions(fs: Seq<FunctionV>, level: usize, combine: bool, n: nat) -> Option<
    Seq<FunctionV>,
>
    decreases n,
{
    if n == 0 {
        Some(Seq::empty())
    } else {
        match optimized_functions(fs, level, combine, (n - 1) as nat) {
            Some(os) => match optimized_v(fs[n - 1], level, combine) {
                Some(o) => Some(os.push(o)),
                None => None,
            },
            None => None,
        }
    }
}

/// The message for an `-O` argument that writes no level.
pub open spec fn bad_level_message() -> Seq<char> {
    "Invalid optimization level"@
}

/// The output for a parse tree: each function of a library is built (any
/// other tree gives no function) and optimized at the level `-O` selects,
/// its registers combined unless `--nocomp` is given; then code is generated
/// in the selected mode. An error while building a function stops it, as
/// does an `-O` argument that writes no level. `None` where the compiler
/// would fail outright.
pub open spec fn generated_code(
    node: ParseTreeNode,
    flags: Map<Seq<char>, Seq<Seq<char>>>,
    long_flags: Seq<Seq<char>>,
) -> Option<Result<Seq<char>, (Severity, Seq<char>)>> {
    let fs = match node {
        ParseTreeNode::Library(children) => lowered_functions(children@, children@.len()),
        _ => Some(Ok(Seq::empty())),
    };
    match fs {
        None => None,
        Some(Err(m)) => Some(Err((Severity::Error, m))),
        Some(Ok(fs)) => match selected_level(flags) {
            None => None,
            Some(None) => Some(Err((Severity::FatalError, bad_level_message()))),
            Some(Some(level)) => match optimized_functions(fs, level, !long_flags.contains("nocomp"@), fs.len()) {
                None => None,
                Some(os) => match selected_mode(flags) {
                    None => None,
                    Some(mode) => generated_output(mode, os, flags),
                },
            },
        },
    }
}

proof fn lemma_optimized_some(fs: Seq<FunctionV>, level: usize, combine: bool, k: nat, n: nat)
    requires
        k <= n,
        optimized_functions(fs, level, combine, n) is Some,
    ensures
        optimized_functions(fs, level, combine, k) is Some,
    decreases n - k,
{
    if k < n {
        lemma_optimized_some(fs, level, combine, k + 1, n);
    }
}

proof fn lemma_lowered_stops(cs: Seq<ParseTreeNode>, k: nat, n: nat)
    requires
        k <= n <= cs.len(),
        lowered_functions(cs, k) matches Some(Err(_)),
    ensures
        lowered_functions(cs, n) == lowered_functions(cs, k),
    decreases n - k,
{
    if k < n {
        lemma_lowered_stops(cs, k, (n - 1) as nat);
    }
}

proof fn lemma_lowered_some(cs: Seq<ParseTreeNode>, k: nat, n: nat)
    requires
        k <= n,
        lowered_functions(cs, n) is Some,
    ensures
        lowered_functions(cs, k) is Some,
    decreases n - k,
{
    if k < n {
        lemma_lowered_some(cs, k + 1, n);
    }
}

/// A copy of the options.
fn copy_options(o: &Options) -> (r: Options)
    ensures
        r.map.map() == o.map.map(),
{
    Options {
        short_flags: clone_strings(&o.short_flags),
        long_flags: clone_strings(&o.long_flags),
        raw_vals: clone_strings(&o.raw_vals),
        map: o.map.duplicate(),
    }
}

/// Each function optimized, in order.
fn optimize_all(functions: Vec<Function>, level: usize, combine: bool) -> (r: Vec<Function>)
    requires
        optimized_functions(
            functions@.map_values(|f: Function| f@),
            level,
            combine,
            functions@.len(),
        ) is Some,
    ensures
        Some(r@.map_values(|f: Function| f@)) == optimized_functions(
            functions@.map_values(|f: Function| f@),
            level,
            combine,
            functions@.len(),
        ),
{
    let ghost fs = functions@.map_values(|f: Function| f@);
    let mut rest = functions;
    let total = rest.len();
    let mut optimized: Vec<Function> = Vec::new();
    let mut k: usize = 0;
    assert(optimized@.map_values(|f: Function| f@) =~= Seq::<FunctionV>::empty());
    assert(rest@.map_values(|f: Function| f@) =~= fs.skip(0));
    while rest.len() > 0
        invariant
            k + rest@.len() == fs.len(),
            fs.len() == total,
            rest@.map_values(|f: Function| f@) == fs.skip(k as int),
            optimized_functions(fs, level, combine, fs.len()) is Some,
            optimized_functions(fs, level, combine, k as nat) == Some(optimized@.map_values(|f: Function| f@)),
        decreases rest@.len(),
    {
        proof {
            lemma_optimized_some(fs, level, combine, (k + 1) as nat, fs.len());
            assert(rest@.map_values(|f: Function| f@)[0] == rest@[0]@);
            assert(fs.skip(k as int)[0] == fs[k as int]);
        }
        let ghost rv = rest@.map_values(|f: Function| f@);
        let f = rest.remove(0);
        proof {
            assert(rest@.map_values(|f: Function| f@) =~= rv.drop_first());
            assert(rv.drop_first() =~= fs.skip(k + 1));
        }
        let o = optimize_function(f, level, combine);
        let ghost before = optimized@.map_values(|f: Function| f@);
        let ghost ov = o@;
        optimized.push(o);
        assert(optimized@.map_values(|f: Function| f@) =~= before.push(ov));
        k = k + 1;
    }
    optimized
}

/// The compiler's output for the parse tree of a source file: the functions
/// of the library are built in order, then code is generated for them in the
/// mode that `-g` selects.
pub fn generate_code(node: &ParseTreeNode, options: &Options) -> (r: Result<String, Error>)
    requires
        generated_code(*node, options.map.map(), options.long_flags_v()) is Some,
    ensures
        match generated_code(*node, options.map.map(), options.long_flags_v()) {
            Some(Ok(t)) => r is Ok && r->Ok_0@ == t,
            Some(Err(e)) => fails_with(r, e.0, e.1),
            None => false,
        },
{
    let mut functions: Vec<Function> = Vec::new();
    if let ParseTreeNode::Library(children) = node {
        let mut i: usize = 0;
        assert(functions@.map_values(|f: Function| f@) =~= Seq::<FunctionV>::empty());
        while i < children.len()
            invariant
                i <= children@.len(),
                *node == ParseTreeNode::Library(*children),
                lowered_functions(children@, children@.len()) is Some,
                lowered_functions(children@, i as nat) == Some(
                    Ok::<Seq<FunctionV>, Seq<char>>(functions@.map_values(|f: Function| f@)),
                ),
            decreases children@.len() - i,
        {
            proof {
                lemma_lowered_some(children@, (i + 1) as nat, children@.len());
            }
            match Function::from_node(&children[i]) {
                Ok(f) => {
                    let ghost before = functions@.map_values(|f: Function| f@);
                    let ghost v = f@;
                    functions.push(f);
                    assert(functions@.map_values(|f: Function| f@) =~= before.push(v));
                },
                Err(e) => {
                    proof {
                        lemma_lowered_stops(children@, (i + 1) as nat, children@.len());
                    }
                    return Err(e);
                },
            }
            i = i + 1;
        }
    } else {
        assert(functions@.map_values(|f: Function| f@) =~= Seq::<FunctionV>::empty());
    }
    let ghost fs = functions@.map_values(|f: Function| f@);
    let level: usize = match options.map.get(&String::from_str("-O")) {
        Some(args) => match parse_decimal_i128(args[0].as_str()) {
            Some(v) => if 0 <= v && v <= usize::MAX as i128 {
                v as usize
            } else {
                return Err(Error::fatal_error("Invalid optimization level"));
            },
            None => {
                return Err(Error::fatal_error("Invalid optimization level"));
            },
        },
        None => 2,
    };
    let combine = !options.has_long_flag("nocomp");
    let optimized = optimize_all(functions, level, combine);
    let mode = match options.map.get(&String::from_str("-g")) {
        Some(name) => CodegenMode::from_mode(name[0].as_str()),
        None => CodegenMode::IntermediateRepresentation,
    };
    let generator = CodeGenerator::new(mode, optimized, copy_options(options));
    generator.render()
}

} // verus!
