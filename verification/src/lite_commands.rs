//! Decisions of the commands of the lighter Tauri shell.

use vstd::prelude::*;
use vstd::string::StringExecFns;
use crate::text::{push_signed_decimal, spec_signed_decimal, str_is};

verus! {

/// Platform name for a Rust target OS name, as this shell reports it.
pub open spec fn spec_platform_name(os: Seq<char>) -> Seq<char> {
    if os == "windows"@ {
        "windows"@
    } else if os == "macos"@ {
        "macos"@
    } else if os == "linux"@ {
        "linux"@
    } else {
        "unknown"@
    }
}

/// This shell reports the three known systems by their own names and every
/// other system as `unknown`.
pub proof fn platform_is_reported_by_name(os: Seq<char>)
    ensures
        (os == "windows"@ || os == "macos"@ || os == "linux"@) ==> spec_platform_name(os) == os,
        !(os == "windows"@ || os == "macos"@ || os == "linux"@) ==> spec_platform_name(os)
            == "unknown"@,
{
}

/// Executable `spec_platform_name`.
pub fn platform_name(os: &str) -> (r: String)
    ensures
        r@ == spec_platform_name(os@),
{
    if str_is(os, "windows") {
        String::from_str("windows")
    } else if str_is(os, "macos") {
        String::from_str("macos")
    } else if str_is(os, "linux") {
        String::from_str("linux")
    } else {
        String::from_str("unknown")
    }
}

/// The AppleScript that sets the dock badge of "Mezon": the count when it is
/// positive; the empty label, which clears the badge, for a count of 0 or less.
pub fn badge_script(count: i32) -> (r: String)
    ensures
        count > 0 ==> r@
            == "tell application \"System Events\" to set badge of application \"Mezon\" to "@
            + spec_signed_decimal(count as int),
        count <= 0 ==> r@
            == "tell application \"System Events\" to set badge of application \"Mezon\" to \"\""@,
{
    if count > 0 {
        let mut s = String::from_str(
            "tell application \"System Events\" to set badge of application \"Mezon\" to ",
        );
        push_signed_decimal(&mut s, count as i64);
        s
    } else {
        String::from_str(
            "tell application \"System Events\" to set badge of application \"Mezon\" to \"\"",
        )
    }
}

} // verus!
