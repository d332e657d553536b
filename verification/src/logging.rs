//! How much of a run is told in the log.

use vstd::prelude::*;

verus! {

/// The least severe kind of message that is logged.
#[derive(Clone, Copy, Debug, PartialEq, Eq, Structural)]
pub enum LogLevel {
    /// Warnings and errors only.
    Warn,
    /// The qualifying pairs as well.
    Info,
    /// The rejected pairs and the scores as well.
    Debug,
}

/// The level that the number of requests for more detail selects: warnings
/// without any, the qualifying pairs with one, everything with more.
pub fn log_level(verbose: u8) -> (level: LogLevel)
    ensures
        level == (if verbose == 0 {
            LogLevel::Warn
        } else if verbose == 1 {
            LogLevel::Info
        } else {
            LogLevel::Debug
        }),
{
    match verbose {
        0 => LogLevel::Warn,
        1 => LogLevel::Info,
        _ => LogLevel::Debug,
    }
}

} // verus!
