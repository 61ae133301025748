//! The stable 64-bit string hash that places topics on backends. Which
//! algorithm is used does not matter to the protocol; that the same topic
//! always hashes to the same value across restarts does. This one is the
//! 64-bit Fowler-Noll-Vo hash of the topic's characters, fixed here for good.

use vstd::prelude::*;

verus! {

/// The FNV-1a offset basis.
pub const FNV_OFFSET: u64 = 0xcbf29ce484222325;

/// The FNV-1a prime.
pub const FNV_PRIME: u64 = 0x100000001b3;

/// One hashing step: fold one character into the running hash.
pub open spec fn hash_step(h: u64, c: char) -> u64 {
    vstd::wrapping::u64_specs::wrapping_mul(h ^ (c as u64), FNV_PRIME)
}

/// The hash of a character sequence: the FNV-1a fold over its characters.
pub open spec fn topic_hash(s: Seq<char>) -> u64
    decreases s.len(),
{
    if s.len() == 0 {
        FNV_OFFSET
    } else {
        hash_step(topic_hash(s.drop_last()), s.last())
    }
}

/// Computes the topic hash of a string.
pub fn topic_hash_of(s: &str) -> (r: u64)
    ensures
        r == topic_hash(s@),
{
    let n = s.unicode_len();
    let mut h: u64 = FNV_OFFSET;
    let mut i: usize = 0;
    proof {
        assert(s@.take(0) =~= Seq::<char>::empty());
    }
    while i < n
        invariant
            n == s@.len(),
            i <= n,
            h == topic_hash(s@.take(i as int)),
        decreases n - i,
    {
        let c = s.get_char(i);
        let cu: u64 = c as u64;
        h = (h ^ cu).wrapping_mul(FNV_PRIME);
        proof {
            assert(s@.take(i as int + 1).drop_last() =~= s@.take(i as int));
            assert(s@.take(i as int + 1).last() == s@[i as int]);
        }
        i = i + 1;
    }
    proof {
        assert(s@.take(n as int) =~= s@);
    }
    h
}

} // verus!
