//! Names and arguments for the virtual X display and `xdotool`.

use vstd::prelude::*;
use crate::text::{decimal, push_decimal, push_str, string_from_chars};

verus! {

/// The X display name for display number `display`, as `:N`.
pub fn display_name(display: u8) -> (s: String)
    ensures
        s@ == seq![':'] + decimal(display as nat),
{
    let mut v: Vec<char> = Vec::new();
    v.push(':');
    push_decimal(&mut v, display as u64);
    string_from_chars(&v)
}

/// The Xvfb screen geometry `WxHx24` (24-bit colour).
pub fn screen_spec(width: u32, height: u32) -> (s: String)
    ensures
        s@ == decimal(width as nat) + seq!['x'] + decimal(height as nat) + "x24"@,
{
    let mut v: Vec<char> = Vec::new();
    push_decimal(&mut v, width as u64);
    v.push('x');
    push_decimal(&mut v, height as u64);
    push_str(&mut v, "x24");
    assert(v@ =~= decimal(width as nat) + seq!['x'] + decimal(height as nat) + "x24"@);
    string_from_chars(&v)
}

/// The lock file an X server holds for display `n`.
pub fn display_lock_path(n: u8) -> (s: String)
    ensures
        s@ == "/tmp/.X"@ + decimal(n as nat) + "-lock"@,
{
    let mut v: Vec<char> = Vec::new();
    push_str(&mut v, "/tmp/.X");
    push_decimal(&mut v, n as u64);
    push_str(&mut v, "-lock");
    string_from_chars(&v)
}

/// The unix socket of display `n`.
pub fn display_socket_path(n: u8) -> (s: String)
    ensures
        s@ == "/tmp/.X11-unix/X"@ + decimal(n as nat),
{
    let mut v: Vec<char> = Vec::new();
    push_str(&mut v, "/tmp/.X11-unix/X");
    push_decimal(&mut v, n as u64);
    string_from_chars(&v)
}

/// The X button for a vertical scroll: 4 up (direction > 0), 5 down.
pub fn scroll_button(direction: i8) -> (b: &'static str)
    ensures
        b@ == if direction > 0 {
            "4"@
        } else {
            "5"@
        },
{
    if direction > 0 { "4" } else { "5" }
}

/// The X button for a horizontal scroll: 6 left (direction > 0), 7 right.
pub fn horizontal_scroll_button(direction: i8) -> (b: &'static str)
    ensures
        b@ == if direction > 0 {
            "6"@
        } else {
            "7"@
        },
{
    if direction > 0 { "6" } else { "7" }
}

/// The display numbers probed for a free display, in order: from the
/// preferred one up to (not including) 200.
pub fn display_candidates(preferred: u8) -> (v: Vec<u8>)
    ensures
        v@.len() == if preferred < 200 { 200 - preferred } else { 0 },
        forall|i: int| 0 <= i < v@.len() ==> #[trigger] v@[i] == preferred + i,
{
    let mut v: Vec<u8> = Vec::new();
    let mut n: u8 = preferred;
    while n < 200
        invariant
            preferred <= n <= 200 || (preferred >= 200 && n == preferred),
            v@.len() == if n >= preferred && preferred < 200 { n - preferred } else { 0 },
            forall|i: int| 0 <= i < v@.len() ==> #[trigger] v@[i] == preferred + i,
        decreases 200 - n,
    {
        v.push(n);
        n = n + 1;
    }
    v
}

} // verus!
