//! Errors reported by pipeline stages and by the terminal service.

use vstd::prelude::*;
use std::io::Write;

verus! {

/// The result type that stage and service operations report.
pub type RhodResult<T> = Result<T, RhodError>;

/// Severity of a reported failure. It only classifies how the error is
/// logged; every severity aborts its pass in the same way.
#[derive(Debug, Clone, Copy, PartialEq, Eq, Structural)]
pub enum RhodErrorLevel {
    Debug,
    Warning,
    Error,
    Critical,
}

impl RhodErrorLevel {
    /// The tag a log line carries for this severity.
    pub fn label(&self) -> (r: &str)
        ensures
            self is Debug ==> r@ == "DEBUG"@,
            self is Warning ==> r@ == "WARNING"@,
            self is Error ==> r@ == "ERROR"@,
            self is Critical ==> r@ == "CRITICAL"@,
    {
        match self {
            RhodErrorLevel::Debug => "DEBUG",
            RhodErrorLevel::Warning => "WARNING",
            RhodErrorLevel::Error => "ERROR",
            RhodErrorLevel::Critical => "CRITICAL",
        }
    }
}

/// A failure reported while a request or a response was being processed.
/// Stages and the terminal service build these values; the pipeline records
/// the first one per pass and hands it to the recovery operations of the
/// remaining stages of that pass.
#[derive(Debug)]
pub struct RhodError {
    msg: String,
    level: RhodErrorLevel,
}

impl RhodError {
    /// The message, as a sequence of characters.
    pub closed spec fn spec_msg(&self) -> Seq<char> {
        self.msg@
    }

    /// The severity the error was reported with.
    pub closed spec fn spec_level(&self) -> RhodErrorLevel {
        self.level
    }

    pub fn from_string(msg: String, level: RhodErrorLevel) -> (e: RhodError)
        ensures
            e.spec_msg() == msg@,
            e.spec_level() == level,
    {
        RhodError { msg, level }
    }

    pub fn from_str(msg: &str, level: RhodErrorLevel) -> (e: RhodError)
        ensures
            e.spec_msg() == msg@,
            e.spec_level() == level,
    {
        RhodError { msg: msg.to_owned(), level }
    }

    pub fn msg(&self) -> (m: &String)
        ensures
            m@ == self.spec_msg(),
    {
        &self.msg
    }

    pub fn level(&self) -> (l: RhodErrorLevel)
        ensures
            l == self.spec_level(),
    {
        self.level
    }

    /// Writes the message, prefixed with its severity's label, to the
    /// standard error stream. Relies on std::io::Stderr's Write::write_fmt,
    /// reached through the writeln macro; the write outcome is deliberately
    /// ignored.
    #[verifier::external_body]
    pub fn log(&self) {
        let tag = self.level.label();
        let _ = writeln!(std::io::stderr(), "{}: {}", tag, self.msg);
    }
}

} // verus!
