//! Log records as the bridge takes them, and the calls that it makes on the
//! host's logger.

use crate::level::Level;
use vstd::prelude::*;

verus! {

/// One log record: a severity and the message, formatted in full.
#[derive(Debug, PartialEq, Eq)]
pub struct LogRecord {
    pub level: Level,
    pub message: String,
}

impl View for LogRecord {
    type V = (Level, Seq<char>);

    open spec fn view(&self) -> (Level, Seq<char>) {
        (self.level, self.message@)
    }
}

/// One call of the host logger's `log(code, message)`.
#[derive(Debug, PartialEq, Eq)]
pub struct HostCall {
    pub code: u8,
    pub message: String,
}

impl View for HostCall {
    type V = (u8, Seq<char>);

    open spec fn view(&self) -> (u8, Seq<char>) {
        (self.code, self.message@)
    }
}

/// The view of a call that may be absent.
pub open spec fn call_view(call: Option<HostCall>) -> Option<(u8, Seq<char>)> {
    match call {
        Some(call) => Some(call@),
        None => None,
    }
}

} // verus!
