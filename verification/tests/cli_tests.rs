use llvm_compiler::cli::{display_help, display_version, execute, run, Action, Error, ErrorRecorder, Options, Severity};
use llvm_compiler::io::{read_from_file, InputFile};

fn args(words: &[&str]) -> Vec<String> {
    words.iter().map(|w| w.to_string()).collect()
}

#[test]
fn options_split_flags_values_and_arguments() {
    let o = Options::new(args(&["compiler", "a.pc", "-o", "out.ll", "--stdout", "-T", "b.pc"]));
    assert_eq!(o.get_raw_values(), vec!["a.pc".to_string(), "b.pc".to_string()]);
    assert!(o.has_long_flag("stdout"));
    assert!(o.has_short_flag("T"));
    assert!(o.has_short_flag("o"));
    assert!(!o.has_long_flag("help"));
    let out = o.map.get(&"-o".to_string()).unwrap();
    assert_eq!(out, &vec!["out.ll".to_string()]);
}

#[test]
fn options_value_flag_closed_by_next_flag() {
    let o = Options::new(args(&["compiler", "-g", "llvm", "--nocomp", "main.pc"]));
    assert_eq!(o.map.get(&"-g".to_string()).unwrap(), &vec!["llvm".to_string()]);
    assert_eq!(o.get_raw_values(), vec!["main.pc".to_string()]);
    assert!(o.has_long_flag("nocomp"));
}

#[test]
fn options_long_flag_counts_anywhere() {
    // A long flag is seen even where a flag is collecting arguments.
    let o = Options::new(args(&["compiler", "-o", "--help"]));
    assert!(o.has_long_flag("help"));
    assert_eq!(run(&o), Action::Help);
}

#[test]
fn options_program_name_only() {
    let o = Options::new(args(&["compiler"]));
    assert!(o.get_raw_values().is_empty());
    assert_eq!(run(&o), Action::Compile);
}

#[test]
fn run_picks_help_before_version() {
    let o = Options::new(args(&["compiler", "--version", "--help"]));
    assert_eq!(run(&o), Action::Help);
    let o = Options::new(args(&["compiler", "--version", "x.pc"]));
    assert_eq!(run(&o), Action::Version);
    let o = Options::new(args(&["compiler", "x.pc"]));
    assert_eq!(run(&o), Action::Compile);
}

#[test]
fn help_page_matches_readme() {
    let expected = "Usage: compiler [options] file...\n\
Options:\n\
\x20    --help                    Display this page\n\
\x20-g                [MODE]      Set the code gen mode to use\n\
\x20    --llvm-layout [LAYOUT]    Sets the target data layout for LLVM\n\
\x20    --llvm-target [TARGET]    Sets the target triple for LLVM\n\
\x20    --nocomp                  Do not collapse register usage\n\
\x20-o                [FILE]      Redirect the output to the given file\n\
\x20-O                [VAL]       Set the optimization level (defaults to 2)\n\
\x20    --stdout                  Display the output on stdout\n\
\x20-T  --tree                    Display the parse tree\n\
\nAllowable Codegen Modes:\n\
\x20  ir\n\
\x20  llvm\n";
    assert_eq!(display_help(), expected);
}

#[test]
fn version_page() {
    assert_eq!(display_version(), "compiler v0.0.0\n    (c) 2020 Carter Plasek\n");
}

#[test]
fn error_texts_by_severity() {
    assert_eq!(Error::warning("w").render(), "compiler: \x1b[1m\x1b[33mwarning\x1b[0m: w");
    assert_eq!(Error::error("e").render(), "compiler: \x1b[1m\x1b[31merror\x1b[0m: e");
    assert_eq!(Error::fatal_error("f").render(), "compiler: \x1b[1m\x1b[31mfatal error\x1b[0m: f");
    assert_eq!(Error::error("e").severity(), Severity::Error);
    assert_eq!(Error::fatal_error("bad").message().as_str(), "bad");
}

#[test]
fn recorder_keeps_non_fatal_and_hands_back_fatal() {
    let mut r = ErrorRecorder::new();
    assert!(r.report_error(Error::warning("first")).is_ok());
    assert!(r.report_error(Error::error("second")).is_ok());
    let fatal = r.report_error(Error::fatal_error("stop"));
    let e = fatal.unwrap_err();
    assert_eq!(e.severity(), Severity::FatalError);
    assert_eq!(e.message().as_str(), "stop");
    assert_eq!(r.recorded().len(), 2);
    assert_eq!(r.recorded()[0].message().as_str(), "first");
    assert_eq!(r.recorded()[1].message().as_str(), "second");
    assert_eq!(
        r.dump(),
        "compiler: \x1b[1m\x1b[33mwarning\x1b[0m: first\ncompiler: \x1b[1m\x1b[31merror\x1b[0m: second\n"
    );
}

#[test]
fn recorder_wrap_return() {
    let mut r = ErrorRecorder::new();
    let ok: Result<u32, Error> = Ok(7);
    assert_eq!(r.wrap_return(ok).unwrap(), Some(7));
    let soft: Result<u32, Error> = Err(Error::error("soft"));
    assert_eq!(r.wrap_return(soft).unwrap(), None);
    let hard: Result<u32, Error> = Err(Error::fatal_error("hard"));
    assert_eq!(r.wrap_return(hard).unwrap_err().message().as_str(), "hard");
    assert_eq!(r.recorded().len(), 1);
    assert_eq!(r.dump(), "compiler: \x1b[1m\x1b[31merror\x1b[0m: soft\n");
}

#[test]
fn empty_recorder_dumps_nothing() {
    assert_eq!(ErrorRecorder::new().dump(), "");
}

#[test]
fn input_file_read_and_missing() {
    let f = InputFile::new("a.pc".to_string(), Some("i32 main() {}".to_string())).unwrap();
    assert_eq!(f.filename, "a.pc");
    assert_eq!(f.data, "i32 main() {}");
    let e = InputFile::new("missing.pc".to_string(), None).err().unwrap();
    assert_eq!(e.message().as_str(), "missing.pc: No such file or directory");
    assert_eq!(e.severity(), Severity::Error);
    assert_eq!(read_from_file("x".to_string(), Some("data".to_string())).unwrap(), "data");
}

#[test]
fn execute_keeps_readable_files_in_order() {
    let reads = vec![
        InputFile::new("a.pc".to_string(), Some("A".to_string())),
        InputFile::new("b.pc".to_string(), None),
        InputFile::new("c.pc".to_string(), Some("C".to_string())),
    ];
    let mut r = ErrorRecorder::new();
    let files = execute(reads, &mut r).unwrap();
    assert_eq!(files.len(), 2);
    assert_eq!(files[0].filename, "a.pc");
    assert_eq!(files[1].data, "C");
    assert_eq!(r.recorded().len(), 1);
    assert_eq!(r.recorded()[0].message().as_str(), "b.pc: No such file or directory");
}

#[test]
fn execute_without_files_is_fatal() {
    let mut r = ErrorRecorder::new();
    let e = execute(Vec::new(), &mut r).err().unwrap();
    assert_eq!(e.severity(), Severity::FatalError);
    assert_eq!(e.message().as_str(), "No input files");

    let mut r = ErrorRecorder::new();
    let reads = vec![InputFile::new("gone.pc".to_string(), None)];
    let e = execute(reads, &mut r).err().unwrap();
    assert_eq!(e.message().as_str(), "No input files");
    assert_eq!(r.recorded().len(), 1);
}

#[test]
fn execute_stops_at_fatal_error() {
    let mut r = ErrorRecorder::new();
    let reads = vec![
        InputFile::new("lost.pc".to_string(), None),
        Err(Error::fatal_error("disk gone")),
        InputFile::new("c.pc".to_string(), Some("C".to_string())),
    ];
    let e = execute(reads, &mut r).err().unwrap();
    assert_eq!(e.message().as_str(), "disk gone");
    assert_eq!(r.recorded().len(), 1);
}

#[test]
fn target_and_layout_options_take_their_value() {
    let o = Options::new(args(&["compiler", "--llvm-target", "T", "-g", "llvm", "file.pc"]));
    assert_eq!(o.map.get(&"--llvm-target".to_string()).unwrap(), &vec!["T".to_string()]);
    assert_eq!(o.map.get(&"-g".to_string()).unwrap(), &vec!["llvm".to_string()]);
    assert_eq!(o.get_raw_values(), vec!["file.pc".to_string()]);
    assert!(o.has_long_flag("llvm-target"));
    let o = Options::new(args(&["compiler", "--llvm-layout", "e-m:e", "a.pc"]));
    assert_eq!(o.map.get(&"--llvm-layout".to_string()).unwrap(), &vec!["e-m:e".to_string()]);
    assert_eq!(o.get_raw_values(), vec!["a.pc".to_string()]);
}
