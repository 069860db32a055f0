//! Errors that end a server or worker process.
use vstd::prelude::*;
use vstd::string::*;

verus! {

/// Relies on `Display` of std::io::Error through `to_string`; the text comes
/// from the operating system, so nothing is promised of it.
#[verifier::external_body]
fn io_error_text(e: &std::io::Error) -> (r: String) {
    e.to_string()
}

pub enum RuntimeError {
    Io((&'static str, std::io::Error)),
    PythonThreadsDied,
    ForkFailed,
    UnknownToken,
}

impl RuntimeError {
    /// A one-line description.
    pub fn reason(self) -> (r: String)
        ensures
            match self {
                RuntimeError::Io((reason, _)) => exists|t: Seq<char>| r@ == reason@ + " - "@ + t,
                RuntimeError::PythonThreadsDied => r@ == "python worker threads stopped"@,
                RuntimeError::ForkFailed => r@ == "fork failed"@,
                RuntimeError::UnknownToken => r@ == "unknown token"@,
            },
    {
        match self {
            RuntimeError::Io((reason, err)) => {
                let mut s = String::from_str(reason);
                s.append(" - ");
                let t = io_error_text(&err);
                s.append(t.as_str());
                s
            },
            RuntimeError::PythonThreadsDied => String::from_str("python worker threads stopped"),
            RuntimeError::ForkFailed => String::from_str("fork failed"),
            RuntimeError::UnknownToken => String::from_str("unknown token"),
        }
    }
}

pub fn fatal_io_error(reason: &'static str, err: std::io::Error) -> (r: RuntimeError)
    ensures
        r matches RuntimeError::Io((m, _)) && m == reason,
{
    RuntimeError::Io((reason, err))
}

} // verus!
