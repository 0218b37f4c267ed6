//! Registry-wide guarantees, stated on their own so that a reader need not
//! collect them from the operations' contracts.

use vstd::prelude::*;

use crate::payment_state::PendingOutboundPayment;
use crate::registry::{stale_cleanup_post, OutboundPayments};
use crate::types::{any_event_references, Event};

verus! {

/// In every well-formed registry, a `Retryable` payment's pending amount
/// never exceeds its total plus the 10% retry-overflow allowance.
pub proof fn lemma_pending_within_cap(registry: &OutboundPayments, k: Seq<u8>)
    requires
        registry.wf(),
        registry@.contains_key(k),
        registry@[k] is Retryable,
    ensures
        registry@[k].spec_pending_amt() <= registry@[k].spec_total() * 110 / 100,
{
    registry.lemma_wf_payments();
}

/// Every payment in a well-formed registry keeps its sessions distinct, so
/// the session count equals the number of outstanding HTLCs it stands for.
pub proof fn lemma_sessions_well_formed(registry: &OutboundPayments, k: Seq<u8>)
    requires
        registry.wf(),
        registry@.contains_key(k),
    ensures
        registry@[k].sessions_wf(),
{
    registry.lemma_wf_payments();
}

/// A `Fulfilled` payment that a queued event still references is never
/// removed by a stale-cleanup pass: it stays, with its idempotency clock
/// reset to zero.
pub proof fn lemma_referenced_fulfilled_survives_cleanup(
    p: PendingOutboundPayment,
    evs: Seq<Event>,
    k: Seq<u8>,
    m: Map<Seq<u8>, PendingOutboundPayment>,
)
    requires
        stale_cleanup_post(p, evs, k, m),
        p is Fulfilled,
        any_event_references(evs, k),
    ensures
        m.contains_key(k),
        m[k].spec_timer_ticks() == 0,
{
}

} // verus!
