//! What the compiler does for a command line.
use vstd::prelude::*;
use super::errors::{Error, ErrorRecorder, Severity};
use super::options::Options;
use crate::io::InputFile;

verus! {

/// What a command line asks for: the help page, the version, or compiling its files.
#[derive(Debug, Clone, Copy, PartialEq, Eq, Structural)]
pub enum Action {
    Help,
    Version,
    Compile,
}

/// Run the application with the given options: `--help` asks for the help
/// page, else `--version` for the version, else the files are compiled.
pub fn run(opts: &Options) -> (a: Action)
    ensures
        a == (if opts.long_flags_v().contains("help"@) {
            Action::Help
        } else if opts.long_flags_v().contains("version"@) {
            Action::Version
        } else {
            Action::Compile
        }),
{
    if opts.has_long_flag("help") {
        Action::Help
    } else if opts.has_long_flag("version") {
        Action::Version
    } else {
        Action::Compile
    }
}

/// The severity and message of an error.
pub open spec fn error_view(e: Error) -> (Severity, Seq<char>) {
    (e.severity_view(), e.message_view())
}

/// What reading the first `n` files gave: the positions of the files that
/// could be read, the errors recorded for those that could not, and the fatal
/// error that stopped it, if one did (nothing after it is looked at).
pub open spec fn gathered(reads: Seq<Result<InputFile, Error>>, n: nat) -> (
    Seq<nat>,
    Seq<(Severity, Seq<char>)>,
    Option<(Severity, Seq<char>)>,
)
    decreases n,
{
    if n == 0 {
        (Seq::empty(), Seq::empty(), None)
    } else {
        let (kept, recorded, stop) = gathered(reads, (n - 1) as nat);
        if stop is Some {
            (kept, recorded, stop)
        } else {
            match reads[n - 1] {
                Ok(_) => (kept.push((n - 1) as nat), recorded, None),
                Err(e) => if e.severity_view() == Severity::FatalError {
                    (kept, recorded, Some(error_view(e)))
                } else {
                    (kept, recorded.push(error_view(e)), None)
                },
            }
        }
    }
}

/// `files` are the files read at positions `kept`, in that order.
pub open spec fn files_kept(
    files: Seq<InputFile>,
    reads: Seq<Result<InputFile, Error>>,
    kept: Seq<nat>,
) -> bool {
    &&& files.len() == kept.len()
    &&& forall|i: int|
        0 <= i < kept.len() ==> #[trigger] files[i].data@ == reads[kept[i] as int]->Ok_0.data@
            && files[i].filename@ == reads[kept[i] as int]->Ok_0.filename@
}

/// Execute the compiler, given the outcome of reading each named file: a
/// file that could not be read is recorded and left out; a fatal error stops
/// at once; with no file left, the fatal error "No input files" is given.
/// The files to compile are handed back, in order.
pub fn execute(reads: Vec<Result<InputFile, Error>>, recorder: &mut ErrorRecorder) -> (r: Result<
    Vec<InputFile>,
    Error,
>)
    ensures
        final(recorder).recorded_view() == old(recorder).recorded_view() + gathered(
            reads@,
            reads@.len(),
        ).1,
        gathered(reads@, reads@.len()).2 matches Some(fatal) ==> r is Err && error_view(r->Err_0)
            == fatal,
        gathered(reads@, reads@.len()).2 is None && gathered(reads@, reads@.len()).0.len() == 0
            ==> r is Err && error_view(r->Err_0) == (Severity::FatalError, "No input files"@),
        gathered(reads@, reads@.len()).2 is None && gathered(reads@, reads@.len()).0.len() > 0
            ==> r is Ok && files_kept(r->Ok_0@, reads@, gathered(reads@, reads@.len()).0),
{
    let ghost all = reads@;
    let ghost start = recorder.recorded_view();
    let mut input_files: Vec<InputFile> = Vec::new();
    let mut rest = reads;
    let n = rest.len();
    let mut i: usize = 0;
    assert(start + Seq::<(Severity, Seq<char>)>::empty() =~= start);
    while rest.len() > 0
        invariant
            i + rest@.len() == n,
            n == all.len(),
            start == old(recorder).recorded_view(),
            all == reads@,
            rest@ == all.skip(i as int),
            ({
                let (kept, errs, stop) = gathered(all, i as nat);
                &&& stop is None
                &&& recorder.recorded_view() == start + errs
                &&& input_files@.len() == kept.len()
                &&& forall|j: int|
                    0 <= j < kept.len() ==> #[trigger] input_files@[j].data@ == all[kept[j] as int]->Ok_0.data@
                        && input_files@[j].filename@ == all[kept[j] as int]->Ok_0.filename@
                &&& forall|j: int| 0 <= j < kept.len() ==> kept[j] < i && all[kept[j] as int] is Ok
            }),
        decreases rest@.len(),
    {
        let read = rest.remove(0);
        assert(read == all[i as int]);
        let ghost prev = gathered(all, i as nat);
        match recorder.wrap_return(read) {
            Ok(Some(file)) => {
                input_files.push(file);
            },
            Ok(None) => {
                assert(start + prev.1.push(error_view(all[i as int]->Err_0)) =~= (start + prev.1).push(
                    error_view(all[i as int]->Err_0),
                ));
            },
            Err(e) => {
                proof {
                    let next = gathered(all, (i + 1) as nat);
                    assert(next == (prev.0, prev.1, Some(error_view(all[i as int]->Err_0))));
                    lemma_gathered_stops(all, (i + 1) as nat, n as nat);
                    assert(error_view(e) == error_view(all[i as int]->Err_0));
                }
                return Err(e);
            },
        }
        proof {
            assert(rest@ =~= all.skip(i + 1));
        }
        i = i + 1;
    }
    assert(all.skip(i as int).len() == 0);
    assert(i == n);
    if input_files.len() == 0 {
        let r = recorder.report_error(Error::fatal_error("No input files"));
        match r {
            Err(e) => return Err(e),
            Ok(()) => return Err(Error::fatal_error("No input files")),
        }
    }
    assert(files_kept(input_files@, reads@, gathered(reads@, reads@.len()).0));
    Ok(input_files)
}

proof fn lemma_gathered_stops(reads: Seq<Result<InputFile, Error>>, k: nat, n: nat)
    requires
        k <= n,
        gathered(reads, k).2 is Some,
    ensures
        gathered(reads, n) == gathered(reads, k),
    decreases n - k,
{
    if k < n {
        lemma_gathered_stops(reads, k, (n - 1) as nat);
    }
}

} // verus!
