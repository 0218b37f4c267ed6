//! Tracking of outbound Lightning payments: per-payment state machines,
//! session-level HTLC bookkeeping, retry policy, and event emission.
//!
//! Persistence is out of scope here: this crate neither reads nor writes the
//! on-disk payment records. `Legacy` payments exist only in state persisted
//! before retry support; an embedding that loads such state constructs them
//! directly, and every operation honours them (plain session accounting, no
//! retries).

pub mod collaborators;
pub mod errors;
pub mod hashing;
pub mod laws;
pub mod payment_state;
pub mod registry;
pub mod sending;
pub mod session_set;
pub mod types;

use vstd::prelude::*;

verus! {

/// Compares two fixed-size byte arrays for equality.
pub fn bytes_eq<const N: usize>(a: &[u8; N], b: &[u8; N]) -> (r: bool)
    ensures
        r == (a@ == b@),
{
    let mut i: usize = 0;
    while i < N
        invariant
            0 <= i <= N,
            forall|j: int| 0 <= j < i ==> a@[j] == b@[j],
        decreases N - i,
    {
        if a[i] != b[i] {
            return false;
        }
        i += 1;
    }
    proof {
        assert(a@ =~= b@);
    }
    true
}

} // verus!
