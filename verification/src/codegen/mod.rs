//! Code generation: the output of the compiler in the chosen language.
pub mod avrasm;
pub mod llvm;

use vstd::prelude::*;
use crate::cli::{Error, Options, Severity};
use crate::cli::errors::fails_with;
use crate::irgen::function::{Function, FunctionV, function_text};
use crate::text::str_eq;
use avrasm::generation::{functions_view, generated_v};
use llvm::generation::{definitions_v, module_text, option_str_view};

verus! {

/// Code Generation Mode
/// What language the output will be in
#[derive(Debug, Clone, Copy, PartialEq, Eq, Structural)]
pub enum CodegenMode {
    IntermediateRepresentation,
    AvrAssembly,
    LLVM,
    Unknown,
}

/// The mode a name selects: `ir`, `avrasm` or `llvm`; any other name is unknown.
pub open spec fn mode_named(s: Seq<char>) -> CodegenMode {
    if s == "ir"@ {
        CodegenMode::IntermediateRepresentation
    } else if s == "avrasm"@ {
        CodegenMode::AvrAssembly
    } else if s == "llvm"@ {
        CodegenMode::LLVM
    } else {
        CodegenMode::Unknown
    }
}

impl CodegenMode {
    /// Generate a new CodegenMode object from a mode passed as an argument
    pub fn from_mode(mode: &str) -> (m: CodegenMode)
        ensures
            m == mode_named(mode@),
    {
        if str_eq(mode, "ir") {
            CodegenMode::IntermediateRepresentation
        } else if str_eq(mode, "avrasm") {
            CodegenMode::AvrAssembly
        } else if str_eq(mode, "llvm") {
            CodegenMode::LLVM
        } else {
            CodegenMode::Unknown
        }
    }
}

/// Wrapper which compiles the individually translated functions
pub struct CodeGenerator {
    mode: CodegenMode,
    functions: Vec<Function>,
    options: Options,
}

/// The first argument given to `flag`: `Some(None)` when the flag was not
/// given; `None` when it was given without arguments (reading it stops the program).
pub open spec fn first_argument(m: Map<Seq<char>, Seq<Seq<char>>>, flag: Seq<char>) -> Option<Option<Seq<char>>> {
    if !m.contains_key(flag) {
        Some(None)
    } else if m[flag].len() == 0 {
        None
    } else {
        Some(Some(m[flag][0]))
    }
}

/// The listings of the first `n` functions, each followed by an empty line.
pub open spec fn ir_listings(fs: Seq<FunctionV>, n: nat) -> Seq<char>
    decreases n,
{
    if n == 0 {
        Seq::empty()
    } else {
        ir_listings(fs, (n - 1) as nat) + function_text(fs[n - 1]) + "\n"@
    }
}

/// What generating code for `fs` in `mode` gives, with the flags in `flags`:
/// the output or an error (severity and message); `None` where generation
/// stops the program.
pub open spec fn generated_output(
    mode: CodegenMode,
    fs: Seq<FunctionV>,
    flags: Map<Seq<char>, Seq<Seq<char>>>,
) -> Option<Result<Seq<char>, (Severity, Seq<char>)>> {
    match mode {
        CodegenMode::Unknown => Some(Err((Severity::FatalError, "Unknown Codegen Mode"@))),
        CodegenMode::IntermediateRepresentation => Some(Ok(ir_listings(fs, fs.len()))),
        CodegenMode::AvrAssembly => generated_v(fs, fs.len()),
        CodegenMode::LLVM => match first_argument(flags, "--llvm-target"@) {
            None => None,
            Some(target) => match first_argument(flags, "--llvm-layout"@) {
                None => None,
                Some(layout) => match definitions_v(fs, fs.len()) {
                    None => None,
                    Some(d) => Some(Ok(module_text(layout, target, d))),
                },
            },
        },
    }
}

/// The first argument of `flag` in the options, when the flag was given.
fn flag_argument<'a>(options: &'a Options, flag: &str) -> (r: Option<&'a str>)
    requires
        first_argument(options.map.map(), flag@) is Some,
    ensures
        option_str_view(r) == first_argument(options.map.map(), flag@)->Some_0,
{
    match options.map.get(&String::from_str(flag)) {
        Some(args) => Some(args[0].as_str()),
        None => None,
    }
}

/// Copies a list of functions.
fn clone_functions(fs: &Vec<Function>) -> (r: Vec<Function>)
    ensures
        functions_view(r@) == functions_view(fs@),
{
    let mut r: Vec<Function> = Vec::new();
    let mut i: usize = 0;
    while i < fs.len()
        invariant
            i <= fs@.len(),
            r@.len() == i,
            forall|j: int| 0 <= j < i ==> #[trigger] r@[j]@ == fs@[j]@,
        decreases fs@.len() - i,
    {
        r.push(fs[i].clone());
        i = i + 1;
    }
    assert(functions_view(r@) =~= functions_view(fs@));
    r
}

impl CodeGenerator {
    /// The output language.
    pub closed spec fn mode_v(&self) -> CodegenMode {
        self.mode
    }

    /// The functions to generate, in order.
    pub closed spec fn functions_v(&self) -> Seq<FunctionV> {
        functions_view(self.functions@)
    }

    /// The flags of the command line with their arguments.
    pub closed spec fn flags_v(&self) -> Map<Seq<char>, Seq<Seq<char>>> {
        self.options.map.map()
    }

    /// Generate a new CodeGenerator object
    pub fn new(mode: CodegenMode, functions: Vec<Function>, options: Options) -> (g: Self)
        ensures
            g.mode_v() == mode,
            g.functions_v() == functions_view(functions@),
            g.flags_v() == options.map.map(),
    {
        Self { mode, functions, options }
    }

    /// Generate code for the given functions
    pub fn render(&self) -> (r: Result<String, Error>)
        requires
            generated_output(self.mode_v(), self.functions_v(), self.flags_v()) is Some,
        ensures
            match generated_output(self.mode_v(), self.functions_v(), self.flags_v()) {
                Some(Ok(t)) => r is Ok && r->Ok_0@ == t,
                Some(Err(e)) => fails_with(r, e.0, e.1),
                None => false,
            },
    {
        let ghost fs = self.functions_v();
        match self.mode {
            CodegenMode::Unknown => Err(Error::fatal_error("Unknown Codegen Mode")),
            CodegenMode::IntermediateRepresentation => {
                let mut result = String::new();
                let mut i: usize = 0;
                while i < self.functions.len()
                    invariant
                        i <= self.functions@.len(),
                        fs == functions_view(self.functions@),
                        result@ == ir_listings(fs, i as nat),
                    decreases self.functions@.len() - i,
                {
                    let text = self.functions[i].render();
                    result.append(text.as_str());
                    result.append("\n");
                    i = i + 1;
                }
                Ok(result)
            },
            CodegenMode::AvrAssembly => {
                avrasm::AvrAsmGenerator::new(clone_functions(&self.functions)).render()
            },
            CodegenMode::LLVM => {
                let target = flag_argument(&self.options, "--llvm-target");
                let layout = flag_argument(&self.options, "--llvm-layout");
                llvm::LLVMGenerator::new(clone_functions(&self.functions)).render(target, layout)
            },
        }
    }
}

} // verus!
