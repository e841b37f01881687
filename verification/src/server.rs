//! Process-level configuration for the two daemons: the HTTP server and
//! the indexer.

use vstd::prelude::*;
use crate::strings::str_eq;

verus! {

/// Logging verbosity, most verbose first.
#[derive(Clone, Copy, Debug, PartialEq, Eq, Structural)]
pub enum Level {
    Trace,
    Debug,
    Info,
    Warn,
    Error,
}

impl Level {
    /// The level's lower-case name, as the command line takes it.
    pub fn to_str(&self) -> (r: &'static str)
        ensures
            *self is Trace ==> r@ == "trace"@,
            *self is Debug ==> r@ == "debug"@,
            *self is Info ==> r@ == "info"@,
            *self is Warn ==> r@ == "warn"@,
            *self is Error ==> r@ == "error"@,
    {
        match self {
            Level::Trace => "trace",
            Level::Debug => "debug",
            Level::Info => "info",
            Level::Warn => "warn",
            Level::Error => "error",
        }
    }

    /// The level a lower-case name denotes, if any.
    pub fn from_name(name: &str) -> (r: Option<Level>)
        ensures
            r == spec_level_from_name(name@),
    {
        if str_eq(name, "trace") {
            Some(Level::Trace)
        } else if str_eq(name, "debug") {
            Some(Level::Debug)
        } else if str_eq(name, "info") {
            Some(Level::Info)
        } else if str_eq(name, "warn") {
            Some(Level::Warn)
        } else if str_eq(name, "error") {
            Some(Level::Error)
        } else {
            None
        }
    }
}

/// The level a lower-case name denotes: the names the command line takes,
/// in order of verbosity.
pub open spec fn spec_level_from_name(s: Seq<char>) -> Option<Level> {
    if s == "trace"@ {
        Some(Level::Trace)
    } else if s == "debug"@ {
        Some(Level::Debug)
    } else if s == "info"@ {
        Some(Level::Info)
    } else if s == "warn"@ {
        Some(Level::Warn)
    } else if s == "error"@ {
        Some(Level::Error)
    } else {
        None
    }
}

/// What the HTTP server boots with.
pub struct ServerConfig {
    /// The logging level.
    pub log: Level,
    /// Host the server will bind to.
    pub host: String,
    /// Port the server will bind to.
    pub port: u16,
}

/// Shared state handed to the HTTP layer; the stores and the manager are
/// passed alongside.
pub struct ServerState {}

/// What the indexer daemon boots with.
pub struct IndexerConfig {
    /// The logging level.
    pub log: Level,
}

} // verus!
