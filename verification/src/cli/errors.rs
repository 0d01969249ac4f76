//! Compiler diagnostics: errors with a severity, and a recorder that keeps
//! the non-fatal ones.
use vstd::prelude::*;

verus! {

/// Error severity
#[derive(Debug, Clone, Copy, PartialEq, Eq, Structural)]
pub enum Severity {
    Warning,
    Error,
    FatalError,
}

/// Cli Error Structure
#[derive(Debug)]
pub struct Error {
    message: String,
    severity: Severity,
}

/// The label printed for a severity, with its terminal colouring.
pub open spec fn severity_text(s: Severity) -> Seq<char> {
    match s {
        Severity::Warning => "\x1b[1m\x1b[33mwarning\x1b[0m"@,
        Severity::Error => "\x1b[1m\x1b[31merror\x1b[0m"@,
        Severity::FatalError => "\x1b[1m\x1b[31mfatal error\x1b[0m"@,
    }
}

impl Error {
    /// The message carried by the error.
    pub closed spec fn message_view(&self) -> Seq<char> {
        self.message@
    }

    /// The severity of the error.
    pub closed spec fn severity_view(&self) -> Severity {
        self.severity
    }

    /// The text shown to the user for this error.
    pub open spec fn text(&self) -> Seq<char> {
        "compiler: "@ + severity_text(self.severity_view()) + ": "@ + self.message_view()
    }

    /// Generate a new warning
    pub fn warning(msg: &str) -> (e: Self)
        ensures
            e.message_view() == msg@,
            e.severity_view() == Severity::Warning,
    {
        Self { message: msg.to_owned(), severity: Severity::Warning }
    }

    /// Generate a new error
    pub fn error(msg: &str) -> (e: Self)
        ensures
            e.message_view() == msg@,
            e.severity_view() == Severity::Error,
    {
        Self { message: msg.to_owned(), severity: Severity::Error }
    }

    /// Generate a new fatal error
    pub fn fatal_error(msg: &str) -> (e: Self)
        ensures
            e.message_view() == msg@,
            e.severity_view() == Severity::FatalError,
    {
        Self { message: msg.to_owned(), severity: Severity::FatalError }
    }

    /// The severity of the error.
    pub fn severity(&self) -> (s: Severity)
        ensures
            s == self.severity_view(),
    {
        self.severity
    }

    /// The message carried by the error.
    pub fn message(&self) -> (m: &String)
        ensures
            m@ == self.message_view(),
    {
        &self.message
    }

    /// The text shown to the user: `compiler: <severity>: <message>`.
    pub fn render(&self) -> (s: String)
        ensures
            s@ == self.text(),
    {
        let mut s = String::from_str("compiler: ");
        match self.severity {
            Severity::Warning => s.append("\x1b[1m\x1b[33mwarning\x1b[0m"),
            Severity::Error => s.append("\x1b[1m\x1b[31merror\x1b[0m"),
            Severity::FatalError => s.append("\x1b[1m\x1b[31mfatal error\x1b[0m"),
        }
        s.append(": ");
        s.append(self.message.as_str());
        s
    }
}

impl Clone for Error {
    fn clone(&self) -> (r: Self)
        ensures
            r.message_view() == self.message_view(),
            r.severity_view() == self.severity_view(),
    {
        Error { message: self.message.clone(), severity: self.severity }
    }
}

/// `r` is an error of severity `Error` carrying message `msg`.
pub open spec fn is_error_with<T>(r: Result<T, Error>, msg: Seq<char>) -> bool {
    &&& r is Err
    &&& r->Err_0.message_view() == msg
    &&& r->Err_0.severity_view() == Severity::Error
}

/// `r` is an error of severity `sev` carrying message `msg`.
pub open spec fn fails_with<T>(r: Result<T, Error>, sev: Severity, msg: Seq<char>) -> bool {
    &&& r is Err
    &&& r->Err_0.message_view() == msg
    &&& r->Err_0.severity_view() == sev
}

/// The recorded errors after reporting `e`: a fatal error is not recorded
/// (it is handed back), any other is added at the end.
pub open spec fn reported(es: Seq<(Severity, Seq<char>)>, e: (Severity, Seq<char>)) -> Seq<
    (Severity, Seq<char>),
> {
    if e.0 == Severity::FatalError {
        es
    } else {
        es.push(e)
    }
}

/// None of the recorded errors is fatal.
pub open spec fn none_fatal(es: Seq<(Severity, Seq<char>)>) -> bool {
    forall|i: int| 0 <= i < es.len() ==> (#[trigger] es[i]).0 != Severity::FatalError
}

/// A recorder never holds a fatal error, whatever is reported to it, and it
/// keeps the errors it holds, in the order they were reported.
pub proof fn law_fatal_never_recorded(es: Seq<(Severity, Seq<char>)>, e: (Severity, Seq<char>))
    requires
        none_fatal(es),
    ensures
        none_fatal(reported(es, e)),
        reported(es, e).take(es.len() as int) == es,
{
    assert(reported(es, e).take(es.len() as int) =~= es);
}

/// The text of a recorded error: `compiler: <severity>: <message>`.
pub open spec fn entry_text(e: (Severity, Seq<char>)) -> Seq<char> {
    "compiler: "@ + severity_text(e.0) + ": "@ + e.1
}

/// The text of the recorded errors, one per line.
pub open spec fn dump_text(es: Seq<(Severity, Seq<char>)>) -> Seq<char>
    decreases es.len(),
{
    if es.len() == 0 {
        Seq::empty()
    } else {
        dump_text(es.drop_last()) + entry_text(es.last()) + "\n"@
    }
}

/// Wrapper for an error recorder
pub struct ErrorRecorder {
    recorded_errors: Vec<Error>,
}

impl ErrorRecorder {
    /// The severities and messages of the recorded errors, oldest first.
    pub closed spec fn recorded_view(&self) -> Seq<(Severity, Seq<char>)> {
        self.recorded_errors@.map_values(|e: Error| (e.severity_view(), e.message_view()))
    }

    /// Generate a new error recorder
    pub fn new() -> (r: Self)
        ensures
            r.recorded_view() == Seq::<(Severity, Seq<char>)>::empty(),
    {
        let r = Self { recorded_errors: Vec::new() };
        assert(r.recorded_view() =~= Seq::<(Severity, Seq<char>)>::empty());
        r
    }

    /// Report a new error: a fatal error is handed back, any other is recorded.
    pub fn report_error(&mut self, error: Error) -> (r: Result<(), Error>)
        ensures
            final(self).recorded_view() == reported(
                old(self).recorded_view(),
                (error.severity_view(), error.message_view()),
            ),
            error.severity_view() == Severity::FatalError ==> {
                &&& r is Err
                &&& r->Err_0.message_view() == error.message_view()
                &&& r->Err_0.severity_view() == Severity::FatalError
                &&& final(self).recorded_view() == old(self).recorded_view()
            },
            error.severity_view() != Severity::FatalError ==> {
                &&& r is Ok
                &&& final(self).recorded_view() == old(self).recorded_view().push(
                    (error.severity_view(), error.message_view()),
                )
            },
    {
        if error.severity == Severity::FatalError {
            Err(error)
        } else {
            let ghost entry = (error.severity_view(), error.message_view());
            self.recorded_errors.push(error);
            assert(self.recorded_view() =~= old(self).recorded_view().push(entry));
            Ok(())
        }
    }

    /// Unwrap a return value while reporting an error
    pub fn wrap_return<T>(&mut self, result: Result<T, Error>) -> (r: Result<Option<T>, Error>)
        ensures
            match result {
                Ok(v) => r == Ok::<Option<T>, Error>(Some(v)) && final(self).recorded_view()
                    == old(self).recorded_view(),
                Err(e) => if e.severity_view() == Severity::FatalError {
                    &&& r is Err
                    &&& r->Err_0.message_view() == e.message_view()
                    &&& r->Err_0.severity_view() == Severity::FatalError
                    &&& final(self).recorded_view() == old(self).recorded_view()
                } else {
                    &&& r == Ok::<Option<T>, Error>(None)
                    &&& final(self).recorded_view() == old(self).recorded_view().push(
                        (e.severity_view(), e.message_view()),
                    )
                },
            },
    {
        match result {
            Ok(v) => Ok(Some(v)),
            Err(error) => match self.report_error(error) {
                Ok(()) => Ok(None),
                Err(fatal) => Err(fatal),
            },
        }
    }

    /// The recorded errors, oldest first.
    pub fn recorded(&self) -> (r: &Vec<Error>)
        ensures
            r@.map_values(|e: Error| (e.severity_view(), e.message_view())) == self.recorded_view(),
    {
        &self.recorded_errors
    }

    /// The recorded errors, one per line, oldest first.
    pub fn dump(&self) -> (s: String)
        ensures
            s@ == dump_text(self.recorded_view()),
    {
        let ghost es = self.recorded_view();
        let mut s = String::new();
        let mut i: usize = 0;
        while i < self.recorded_errors.len()
            invariant
                i <= self.recorded_errors@.len(),
                es == self.recorded_view(),
                s@ == dump_text(es.take(i as int)),
            decreases self.recorded_errors@.len() - i,
        {
            proof {
                assert(es.take(i + 1).drop_last() =~= es.take(i as int));
            }
            let t = self.recorded_errors[i].render();
            s.append(t.as_str());
            s.append("\n");
            i = i + 1;
        }
        assert(es.take(self.recorded_errors@.len() as int) =~= es);
        s
    }
}

} // verus!
