//! Writing the server's process id to a file on launch.
use vstd::prelude::*;

verus! {

/// Writes the process id to the configured file once the server is up.
pub struct PidFileFairing;

/// Whether a PID file is written: only when a path is configured.
pub fn writes_pid_file(pid_file: &str) -> (r: bool)
    ensures
        r == (pid_file@.len() > 0),
{
    pid_file.unicode_len() > 0
}

} // verus!
