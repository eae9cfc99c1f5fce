//! Logging configuration decisions. Writing the log is a collaborator's
//! concern; this module only decides the level and names the capability.

use vstd::prelude::*;
use vstd::string::*;

use crate::errors::GrimoireError;
use crate::project_root::ProjectRoot;

verus! {

/// A logging verbosity level.
#[derive(Clone, Copy, Debug, PartialEq, Eq, Structural)]
pub enum LogLevel {
    Off,
    Error,
    Warn,
    Info,
    Debug,
    Trace,
}

/// The level used when the environment names none, or an unrecognized one.
pub const DEFAULT_LOG_LEVEL: LogLevel = LogLevel::Warn;

/// The level a recognized name stands for.
pub open spec fn spec_log_level(env_var_log_level: Result<String, GrimoireError>) -> LogLevel {
    match env_var_log_level {
        Ok(lvl) => if lvl@ == "off"@ {
            LogLevel::Off
        } else if lvl@ == "error"@ {
            LogLevel::Error
        } else if lvl@ == "warn"@ {
            LogLevel::Warn
        } else if lvl@ == "info"@ {
            LogLevel::Info
        } else if lvl@ == "debug"@ {
            LogLevel::Debug
        } else if lvl@ == "trace"@ {
            LogLevel::Trace
        } else {
            LogLevel::Warn
        },
        Err(_) => LogLevel::Warn,
    }
}

/// Map the environment's level name to a level: six recognized names, and
/// the default for everything else.
pub fn log_level(env_var_log_level: Result<String, GrimoireError>) -> (r: LogLevel)
    ensures
        r == spec_log_level(env_var_log_level),
{
    match env_var_log_level {
        Ok(lvl) => {
            if lvl == String::from_str("off") {
                LogLevel::Off
            } else if lvl == String::from_str("error") {
                LogLevel::Error
            } else if lvl == String::from_str("warn") {
                LogLevel::Warn
            } else if lvl == String::from_str("info") {
                LogLevel::Info
            } else if lvl == String::from_str("debug") {
                LogLevel::Debug
            } else if lvl == String::from_str("trace") {
                LogLevel::Trace
            } else {
                DEFAULT_LOG_LEVEL
            }
        },
        Err(_) => DEFAULT_LOG_LEVEL,
    }
}

/// The one capability a logging collaborator provides: set logging up for a
/// project. A no-op stand-in is as valid an implementation as a real one.
pub trait Logger {
    /// Prepare logging for the given project.
    fn initialize(&self, project_root: &ProjectRoot) -> Result<(), GrimoireError>;
}

/// The marker for the process-wide logging setup; the setup itself is the
/// calling collaborator's work.
pub struct StandardLogger {}

impl StandardLogger {
    /// A fresh marker.
    pub fn new() -> Self {
        Self {}
    }
}

impl Default for StandardLogger {
    /// The same marker as [`StandardLogger::new`].
    fn default() -> Self {
        Self::new()
    }
}

} // verus!
