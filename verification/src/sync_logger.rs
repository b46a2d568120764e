//! The logger that delivers each record on the thread that emits it.

use crate::level::{setup_python_logger, spec_setup, HostLevels, Level, LoggerSetup, SetupError};
use crate::record::{call_view, HostCall, LogRecord};
use vstd::prelude::*;

verus! {

/// The call that a logger set up as `setup` owes for a record: none if the
/// filter does not admit the record's level, else one call with the host's
/// code for the level and the record's message.
pub open spec fn delivery(setup: LoggerSetup, record: (Level, Seq<char>)) -> Option<(u8, Seq<char>)> {
    if setup.filter.admits(record.0) {
        Some((setup.codes.spec_translate(record.0), record.1))
    } else {
        None
    }
}

/// A logger that hands each enabled record to the host at once. It decides
/// and translates; the caller makes the call while it holds the host's gate,
/// and drops whatever failure the host raises.
pub struct SyncPythonLogger {
    setup: LoggerSetup,
}

impl View for SyncPythonLogger {
    type V = LoggerSetup;

    /// The codes and the filter that the logger was set up with.
    closed spec fn view(&self) -> LoggerSetup {
        self.setup
    }
}

impl SyncPythonLogger {
    /// Sets the logger up from the host's answers. It fails exactly when the
    /// setup does.
    pub fn new(host: &HostLevels) -> (logger: Result<SyncPythonLogger, SetupError>)
        ensures
            match spec_setup(*host) {
                Ok(setup) => logger matches Ok(logger) && logger@ == setup,
                Err(e) => logger matches Err(failure) && failure == e,
            },
    {
        match setup_python_logger(host) {
            Ok(setup) => Ok(SyncPythonLogger { setup }),
            Err(e) => Err(e),
        }
    }

    /// The codes and the filter that the logger was set up with.
    pub fn setup(&self) -> (setup: LoggerSetup)
        ensures
            setup == self@,
    {
        self.setup
    }

    /// The host code under which a record of severity `level` is forwarded.
    pub fn python_level(&self, level: Level) -> (code: u8)
        ensures
            code == self@.codes.spec_translate(level),
    {
        self.setup.codes.translate(level)
    }

    /// Whether a record of severity `level` is delivered: exactly when it is
    /// at least as severe as the filter's threshold.
    pub fn enabled(&self, level: Level) -> (passes: bool)
        ensures
            passes == self@.filter.admits(level),
    {
        self.setup.filter.enabled(level)
    }

    /// Decides the delivery of one record: the one call that the caller is to
    /// make on the host, or none where the record is filtered out.
    pub fn log(&self, record: &LogRecord) -> (call: Option<HostCall>)
        ensures
            call_view(call) == delivery(self@, record@),
    {
        if self.enabled(record.level) {
            Some(HostCall { code: self.python_level(record.level), message: record.message.clone() })
        } else {
            None
        }
    }

    /// Does nothing: every delivery is over when `log` returns.
    pub fn flush(&self) {
    }
}

} // verus!
