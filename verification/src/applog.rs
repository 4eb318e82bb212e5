//! The diagnostic log's line format and size cap. Lines carry event names
//! only, never transcript text, audio or key contents; the shell appends
//! them to a file and empties the file once it grows past the cap.

use vstd::prelude::*;
use crate::text::{concat, decimal, decimal_string};

verus! {

/// Size past which the log file is emptied before the next line (1 MB).
pub const CAP_BYTES: u64 = 1_000_000;

/// One log line: the Unix time in milliseconds, a space, the event name and
/// a newline.
pub fn format_line(unix_ms: u64, event: &str) -> (line: String)
    ensures
        line@ == decimal(unix_ms as nat) + " "@ + event@ + "\n"@,
{
    let stamp = decimal_string(unix_ms);
    let head = concat(stamp.as_str(), " ");
    let body = concat(head.as_str(), event);
    concat(body.as_str(), "\n")
}

/// Whether a log file of `len_bytes` bytes is over the cap.
pub fn over_cap(len_bytes: u64) -> (b: bool)
    ensures
        b == (len_bytes > CAP_BYTES),
{
    len_bytes > CAP_BYTES
}

} // verus!
