//! The CRC-32 summaries that detect backend-set changes and signal route-table
//! freshness. The digest itself comes from an outside crate and is only named
//! here: every contract speaks of `crc32_of` and never of its value.

use vstd::prelude::*;

verus! {

/// The CRC-32 (IEEE) of the UTF-8 bytes of a character sequence. A digest of
/// the characters alone: the same text gives the same value everywhere.
pub uninterp spec fn crc32_of(s: Seq<char>) -> u32;

/// Relies on `crc32fast::hash`: the CRC-32 (IEEE) of the given bytes, a pure
/// function of them.
#[verifier::external_body]
pub(crate) fn crc32_str(s: &str) -> (r: u32)
    ensures
        r == crc32_of(s@),
{
    crc32fast::hash(s.as_bytes())
}

} // verus!
