//! The wall clock. What time it is cannot be promised, so these carry no
//! contract: every function that depends on the time takes it as an argument
//! and is verified for all its values; these only produce that argument.

use vstd::prelude::*;

verus! {

/// Relies on `chrono::Utc::now`: the current Unix time in seconds, truncated
/// to the 32-bit counter that heartbeats live on.
#[verifier::external_body]
pub(crate) fn now_seconds() -> u32 {
    chrono::Utc::now().timestamp() as u32
}

/// Relies on `chrono::Utc::now`: the current Unix time in milliseconds,
/// taken as an unsigned 64-bit count.
#[verifier::external_body]
pub(crate) fn now_millis() -> u64 {
    chrono::Utc::now().timestamp_millis() as u64
}

} // verus!
