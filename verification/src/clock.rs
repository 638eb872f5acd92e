//! The local wall clock, read through `chrono`.
use vstd::prelude::*;

verus! {

/// The local time written with one of the two stamp layouts the library
/// uses: `%Y%m%d%H%M%S` (job ids) or `%Y%m%d_%H%M%S_%f` (backup names).
///
/// Calls `chrono::Local::now().format(..)`. Nothing is stated of the text:
/// it depends on the clock. The layouts are restricted to these two valid
/// ones because an invalid layout makes the formatting panic.
#[verifier::external_body]
pub fn local_stamp(layout: &str) -> (r: String)
    requires
        layout@ == "%Y%m%d%H%M%S"@ || layout@ == "%Y%m%d_%H%M%S_%f"@,
{
    chrono::Local::now().format(layout).to_string()
}

/// The local time as RFC 3339 text.
///
/// Calls `chrono::Local::now().to_rfc3339()`. Nothing is stated of the text:
/// it depends on the clock.
#[verifier::external_body]
pub fn now_rfc3339() -> (r: String) {
    chrono::Local::now().to_rfc3339()
}

} // verus!
