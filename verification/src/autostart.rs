//! Start-with-Windows through the per-user Run key: which value the key
//! holds and what to change so that it matches the setting. The shell reads
//! and writes the registry.

use vstd::prelude::*;
use crate::text::concat;

verus! {

/// The Run key, under the current user's hive.
pub const RUN_KEY: &'static str = "Software\\Microsoft\\Windows\\CurrentVersion\\Run";
/// The value naming this app under the Run key.
pub const VALUE_NAME: &'static str = "WhisperOSS";

/// Whether start-with-Windows is on: the Run key holds a value for the app.
pub fn is_enabled(run_value: &Option<String>) -> (b: bool)
    ensures
        b == run_value is Some,
{
    run_value.is_some()
}

/// What to do to the Run key.
pub enum AutostartStep {
    /// Write this command as the app's value.
    Register(String),
    /// Delete the app's value.
    Remove,
    /// Leave the key as it is.
    Keep,
}

/// The command the Run key starts: the executable's path in double quotes.
pub fn run_command(exe_path: &str) -> (c: String)
    ensures
        c@ == "\""@ + exe_path@ + "\""@,
{
    let head = concat("\"", exe_path);
    concat(head.as_str(), "\"")
}

/// Makes the registry match the setting: when it is on the value is
/// (re)written with the current executable, when it is off an existing value
/// is deleted. `exe_path` is `None` when the executable's path is unknown,
/// and then nothing is written.
pub fn reconcile_step(enabled: bool, run_value: &Option<String>, exe_path: Option<&str>) -> (step: AutostartStep)
    ensures
        enabled ==> match exe_path {
            Some(p) => step matches AutostartStep::Register(c) && c@ == "\""@ + p@ + "\""@,
            None => step is Keep,
        },
        !enabled ==> (if run_value is Some {
            step is Remove
        } else {
            step is Keep
        }),
{
    if enabled {
        match exe_path {
            Some(p) => AutostartStep::Register(run_command(p)),
            None => AutostartStep::Keep,
        }
    } else if is_enabled(run_value) {
        AutostartStep::Remove
    } else {
        AutostartStep::Keep
    }
}

} // verus!
