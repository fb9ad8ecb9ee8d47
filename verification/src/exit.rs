//! The exit-code convention of a wrapped child process: the child's own code
//! when it exited normally, and `128 + signal` (the shells' convention) when
//! a signal terminated it. Reading the platform's process status belongs to
//! the caller; this is the decision on the plain values read from it.

use vstd::prelude::*;

verus! {

/// Derives the program exit code from a finished child's status, given as
/// its exit code (when it exited normally) or the terminating signal.
pub fn derive_exit_code(code: Option<i32>, signal: Option<i32>) -> (r: i32)
    requires
        code is None ==> (signal matches Some(s) && s <= i32::MAX - 128),
    ensures
        code matches Some(c) ==> r == c,
        code is None ==> (signal matches Some(s) && r == 128 + s),
{
    match code {
        Some(c) => c,
        None => 128 + signal.unwrap(),
    }
}

} // verus!
