//! The help and version pages.
use vstd::prelude::*;

verus! {

/// The help page, one line per option.
pub open spec fn help_text() -> Seq<char> {
    "Usage: compiler [options] file...\n"@ + "Options:\n"@
        + "     --help                    Display this page\n"@
        + " -g                [MODE]      Set the code gen mode to use\n"@
        + "     --llvm-layout [LAYOUT]    Sets the target data layout for LLVM\n"@
        + "     --llvm-target [TARGET]    Sets the target triple for LLVM\n"@
        + "     --nocomp                  Do not collapse register usage\n"@
        + " -o                [FILE]      Redirect the output to the given file\n"@
        + " -O                [VAL]       Set the optimization level (defaults to 2)\n"@
        + "     --stdout                  Display the output on stdout\n"@
        + " -T  --tree                    Display the parse tree\n"@
        + "\nAllowable Codegen Modes:\n"@ + "   ir\n"@ + "   llvm\n"@
}

/// The version page.
pub open spec fn version_text() -> Seq<char> {
    "compiler v0.0.0\n"@ + "    (c) 2020 Carter Plasek\n"@
}

/// The help page
pub fn display_help() -> (s: String)
    ensures
        s@ == help_text(),
{
    let mut s = String::from_str("Usage: compiler [options] file...\n");
    s.append("Options:\n");
    s.append("     --help                    Display this page\n");
    s.append(" -g                [MODE]      Set the code gen mode to use\n");
    s.append("     --llvm-layout [LAYOUT]    Sets the target data layout for LLVM\n");
    s.append("     --llvm-target [TARGET]    Sets the target triple for LLVM\n");
    s.append("     --nocomp                  Do not collapse register usage\n");
    s.append(" -o                [FILE]      Redirect the output to the given file\n");
    s.append(" -O                [VAL]       Set the optimization level (defaults to 2)\n");
    s.append("     --stdout                  Display the output on stdout\n");
    s.append(" -T  --tree                    Display the parse tree\n");
    s.append("\nAllowable Codegen Modes:\n");
    s.append("   ir\n");
    s.append("   llvm\n");
    s
}

/// The version page
pub fn display_version() -> (s: String)
    ensures
        s@ == version_text(),
{
    let mut s = String::from_str("compiler v0.0.0\n");
    s.append("    (c) 2020 Carter Plasek\n");
    s
}

} // verus!
