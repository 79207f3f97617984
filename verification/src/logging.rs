//! Log verbosity levels, as the preferences file and the command line name
//! them.

use vstd::prelude::*;

use crate::strings::ascii_lower_seq;

verus! {

/// How much is logged: nothing, or everything at or above a level.
#[derive(Clone, Copy, Debug, PartialEq, Eq, Structural)]
pub enum LogLevel {
    Off,
    Error,
    Warn,
    Info,
    Debug,
    Trace,
}

/// The level a config/CLI string names (ASCII case-insensitive); `info` for
/// anything else.
pub open spec fn level_named(s: Seq<char>) -> LogLevel {
    let t = ascii_lower_seq(s);
    if t == "off"@ {
        LogLevel::Off
    } else if t == "error"@ {
        LogLevel::Error
    } else if t == "warn"@ {
        LogLevel::Warn
    } else if t == "debug"@ {
        LogLevel::Debug
    } else if t == "trace"@ {
        LogLevel::Trace
    } else {
        LogLevel::Info
    }
}

/// Map a config/CLI level string to a level (`info` for anything else).
pub fn level_from_str(s: &str) -> (l: LogLevel)
    ensures
        l == level_named(s@),
{
    let t = crate::strings::ascii_lowercase(s);
    let is = |lit: &str| -> (r: bool)
        ensures
            r == (t@ == lit@),
        {
            let w = crate::strings::chars_of(lit);
            crate::strings::chars_eq(t.as_slice(), w.as_slice())
        };
    if is("off") {
        LogLevel::Off
    } else if is("error") {
        LogLevel::Error
    } else if is("warn") {
        LogLevel::Warn
    } else if is("debug") {
        LogLevel::Debug
    } else if is("trace") {
        LogLevel::Trace
    } else {
        LogLevel::Info
    }
}

} // verus!
