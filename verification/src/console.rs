//! Console device candidates for switching the keyboard display mode.

use vstd::prelude::*;

verus! {

/// Ordered list of console device paths to try when switching the keyboard
/// display mode; the first one that accepts the switch wins, and a caller
/// that exhausts the list falls back to the framebuffer's own handle.
pub fn console_candidates() -> (r: Vec<&'static str>)
    ensures
        r@.len() == 3,
        r@[0]@ == "/dev/tty0"@,
        r@[1]@ == "/dev/tty"@,
        r@[2]@ == "/dev/console"@,
{
    let mut v: Vec<&'static str> = Vec::new();
    v.push("/dev/tty0");
    v.push("/dev/tty");
    v.push("/dev/console");
    v
}

} // verus!
