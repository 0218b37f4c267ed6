//! The per-payment state machine: `Legacy`, `Retryable`, `Fulfilled` or
//! `Abandoned`, with session-set and amount bookkeeping.

use vstd::prelude::*;

use crate::session_set::SessionSet;
use crate::types::{
    path_amt, path_fees, retry_allows, PaymentAttempts, PaymentHash, PaymentParameters,
    PaymentPreimage, PaymentSecret, Retry, RouteHop,
};

verus! {

/// Stores the session secret for each part of a payment that is still
/// pending, plus, for `Retryable`, what is needed to retry it.
pub enum PendingOutboundPayment {
    /// Persisted state from before retry support; retries impossible.
    Legacy { session_privs: SessionSet },
    /// A live payment that may still be (re)tried.
    Retryable {
        retry_strategy: Option<Retry>,
        attempts: PaymentAttempts,
        payment_params: Option<PaymentParameters>,
        session_privs: SessionSet,
        payment_hash: PaymentHash,
        payment_secret: Option<PaymentSecret>,
        keysend_preimage: Option<PaymentPreimage>,
        pending_amt_msat: u64,
        /// Fee paid so far; absent when unknown.
        pending_fee_msat: Option<u64>,
        /// The total amount across all paths; a retry must not overpay it.
        total_msat: u64,
        starting_block_height: u32,
    },
    /// The preimage arrived; kept until every outstanding HTLC resolves, and
    /// then for an idempotency grace period.
    Fulfilled {
        session_privs: SessionSet,
        payment_hash: Option<PaymentHash>,
        timer_ticks_without_htlcs: u8,
    },
    /// The payer gave up; kept until the last pending HTLC fails.
    Abandoned { session_privs: SessionSet, payment_hash: PaymentHash },
}

impl PendingOutboundPayment {
    /// The session secrets of the HTLCs still outstanding.
    pub open spec fn sessions(&self) -> Set<Seq<u8>> {
        match self {
            PendingOutboundPayment::Legacy { session_privs } => session_privs@,
            PendingOutboundPayment::Retryable { session_privs, .. } => session_privs@,
            PendingOutboundPayment::Fulfilled { session_privs, .. } => session_privs@,
            PendingOutboundPayment::Abandoned { session_privs, .. } => session_privs@,
        }
    }

    pub open spec fn sessions_wf(&self) -> bool {
        match self {
            PendingOutboundPayment::Legacy { session_privs } => session_privs.wf(),
            PendingOutboundPayment::Retryable { session_privs, .. } => session_privs.wf(),
            PendingOutboundPayment::Fulfilled { session_privs, .. } => session_privs.wf(),
            PendingOutboundPayment::Abandoned { session_privs, .. } => session_privs.wf(),
        }
    }

    pub open spec fn spec_pending_amt(&self) -> int {
        match self {
            PendingOutboundPayment::Retryable { pending_amt_msat, .. } => *pending_amt_msat as int,
            _ => 0,
        }
    }

    pub open spec fn spec_pending_fee(&self) -> Option<u64> {
        match self {
            PendingOutboundPayment::Retryable { pending_fee_msat, .. } => *pending_fee_msat,
            _ => None,
        }
    }

    pub open spec fn spec_total(&self) -> int {
        match self {
            PendingOutboundPayment::Retryable { total_msat, .. } => *total_msat as int,
            _ => 0,
        }
    }

    pub open spec fn spec_retry_strategy(&self) -> Option<Retry> {
        match self {
            PendingOutboundPayment::Retryable { retry_strategy, .. } => *retry_strategy,
            _ => None,
        }
    }

    pub open spec fn spec_attempts(&self) -> PaymentAttempts {
        match self {
            PendingOutboundPayment::Retryable { attempts, .. } => *attempts,
            _ => PaymentAttempts { count: 0, first_attempted_at: 0 },
        }
    }

    pub open spec fn spec_params(&self) -> Option<PaymentParameters> {
        match self {
            PendingOutboundPayment::Retryable { payment_params, .. } => *payment_params,
            _ => None,
        }
    }

    pub open spec fn spec_payment_hash(&self) -> Option<PaymentHash> {
        match self {
            PendingOutboundPayment::Legacy { .. } => None,
            PendingOutboundPayment::Retryable { payment_hash, .. } => Some(*payment_hash),
            PendingOutboundPayment::Fulfilled { payment_hash, .. } => *payment_hash,
            PendingOutboundPayment::Abandoned { payment_hash, .. } => Some(*payment_hash),
        }
    }

    pub open spec fn spec_payment_secret(&self) -> Option<PaymentSecret> {
        match self {
            PendingOutboundPayment::Retryable { payment_secret, .. } => *payment_secret,
            _ => None,
        }
    }

    pub open spec fn spec_keysend_preimage(&self) -> Option<PaymentPreimage> {
        match self {
            PendingOutboundPayment::Retryable { keysend_preimage, .. } => *keysend_preimage,
            _ => None,
        }
    }

    pub open spec fn spec_starting_block_height(&self) -> u32 {
        match self {
            PendingOutboundPayment::Retryable { starting_block_height, .. } => (
            *starting_block_height),
            _ => 0,
        }
    }

    pub open spec fn spec_timer_ticks(&self) -> u8 {
        match self {
            PendingOutboundPayment::Fulfilled { timer_ticks_without_htlcs, .. } => (
            *timer_ticks_without_htlcs),
            _ => 0,
        }
    }

    pub open spec fn is_retryable_variant(&self) -> bool {
        self is Retryable
    }

    pub open spec fn is_fulfilled_variant(&self) -> bool {
        self is Fulfilled
    }

    pub open spec fn is_abandoned_variant(&self) -> bool {
        self is Abandoned
    }

    /// Everything but the session set and the amount bookkeeping is equal.
    pub open spec fn same_non_session_fields(&self, other: &Self) -> bool {
        &&& (self is Legacy <==> other is Legacy)
        &&& (self is Retryable <==> other is Retryable)
        &&& (self is Fulfilled <==> other is Fulfilled)
        &&& (self is Abandoned <==> other is Abandoned)
        &&& self.spec_retry_strategy() == other.spec_retry_strategy()
        &&& self.spec_attempts() == other.spec_attempts()
        &&& self.spec_params() == other.spec_params()
        &&& self.spec_payment_hash() == other.spec_payment_hash()
        &&& self.spec_payment_secret() == other.spec_payment_secret()
        &&& self.spec_keysend_preimage() == other.spec_keysend_preimage()
        &&& self.spec_total() == other.spec_total()
        &&& self.spec_starting_block_height() == other.spec_starting_block_height()
        &&& self.spec_timer_ticks() == other.spec_timer_ticks()
    }

    /// In `Retryable` the pending amount never exceeds the total plus the 10%
    /// retry-overflow allowance, and that cap itself fits a `u64`.
    pub open spec fn amounts_ok(&self) -> bool {
        self is Retryable ==> {
            &&& self.spec_pending_amt() <= self.spec_total() * 110 / 100
            &&& self.spec_total() * 110 / 100 <= u64::MAX as int
        }
    }

    pub open spec fn wf(&self) -> bool {
        self.sessions_wf() && self.amounts_ok()
    }

    /// How many HTLCs are still outstanding for this payment.
    pub fn remaining_parts(&self) -> (r: usize)
        requires
            self.sessions_wf(),
        ensures
            r == self.sessions().len(),
    {
        match self {
            PendingOutboundPayment::Legacy { session_privs } => session_privs.len(),
            PendingOutboundPayment::Retryable { session_privs, .. } => session_privs.len(),
            PendingOutboundPayment::Fulfilled { session_privs, .. } => session_privs.len(),
            PendingOutboundPayment::Abandoned { session_privs, .. } => session_privs.len(),
        }
    }

    /// Bumps the attempt counter of a `Retryable` payment; the counter stops
    /// at the largest representable count.
    pub fn increment_attempts(&mut self)
        ensures
            final(self).sessions() == old(self).sessions(),
            final(self).sessions_wf() == old(self).sessions_wf(),
            (*old(self)) is Retryable ==> {
                &&& (*final(self)) is Retryable
                &&& final(self).spec_attempts().count == if old(self).spec_attempts().count
                    < usize::MAX {
                    old(self).spec_attempts().count + 1
                } else {
                    usize::MAX as int
                }
                &&& final(self).spec_attempts().first_attempted_at == old(
                    self,
                ).spec_attempts().first_attempted_at
                &&& final(self).spec_pending_amt() == old(self).spec_pending_amt()
                &&& final(self).spec_pending_fee() == old(self).spec_pending_fee()
                &&& final(self).spec_retry_strategy() == old(self).spec_retry_strategy()
                &&& final(self).spec_params() == old(self).spec_params()
                &&& final(self).spec_payment_hash() == old(self).spec_payment_hash()
                &&& final(self).spec_payment_secret() == old(self).spec_payment_secret()
                &&& final(self).spec_keysend_preimage() == old(self).spec_keysend_preimage()
                &&& final(self).spec_total() == old(self).spec_total()
                &&& final(self).spec_starting_block_height() == old(
                    self,
                ).spec_starting_block_height()
            },
            !((*old(self)) is Retryable) ==> *final(self) == *old(self),
    {
        if let PendingOutboundPayment::Retryable { attempts, .. } = self {
            attempts.count = attempts.count.saturating_add(1);
        }
    }

    /// Whether an automatic retry is permitted now: a strategy must be
    /// present and allow it.
    pub open spec fn auto_retryable(&self, now_ticks: u64) -> bool {
        match self.spec_retry_strategy() {
            Some(strategy) => self is Retryable && retry_allows(
                strategy,
                self.spec_attempts(),
                now_ticks,
            ),
            None => false,
        }
    }

    pub fn is_auto_retryable_now(&self, now_ticks: u64) -> (r: bool)
        ensures
            r == self.auto_retryable(now_ticks),
    {
        match self {
            PendingOutboundPayment::Retryable { retry_strategy: Some(strategy), attempts, .. } => {
                strategy.is_retryable_now(attempts, now_ticks)
            },
            _ => false,
        }
    }

    /// Whether a manual retry is permitted now: always, when no strategy is
    /// set; otherwise when the strategy allows it.
    pub open spec fn manually_retryable(&self, now_ticks: u64) -> bool {
        match self {
            PendingOutboundPayment::Retryable { retry_strategy, attempts, .. } => {
                match retry_strategy {
                    None => true,
                    Some(strategy) => retry_allows(*strategy, *attempts, now_ticks),
                }
            },
            _ => false,
        }
    }

    pub fn is_retryable_now(&self, now_ticks: u64) -> (r: bool)
        ensures
            r == self.manually_retryable(now_ticks),
    {
        match self {
            PendingOutboundPayment::Retryable { retry_strategy: None, .. } => true,
            PendingOutboundPayment::Retryable { retry_strategy: Some(strategy), attempts, .. } => {
                strategy.is_retryable_now(attempts, now_ticks)
            },
            _ => false,
        }
    }

    /// Records a failed channel so that rerouting avoids it.
    pub fn insert_previously_failed_scid(&mut self, scid: u64)
        ensures
            final(self).sessions() == old(self).sessions(),
            final(self).sessions_wf() == old(self).sessions_wf(),
            final(self).same_non_session_fields_except_params(old(self)),
            final(self).spec_pending_amt() == old(self).spec_pending_amt(),
            final(self).spec_pending_fee() == old(self).spec_pending_fee(),
            match old(self).spec_params() {
                Some(params) => final(self).spec_params() matches Some(p)
                    && p.expiry_time == params.expiry_time && p.final_cltv_expiry_delta
                    == params.final_cltv_expiry_delta && p.previously_failed_channels@
                    == params.previously_failed_channels@.push(scid),
                None => *final(self) == *old(self),
            },
    {
        if let PendingOutboundPayment::Retryable {
            payment_params: Some(params),
            ..
        } = self {
            params.previously_failed_channels.push(scid);
        }
    }

    /// As `same_non_session_fields`, leaving out the payment parameters.
    pub open spec fn same_non_session_fields_except_params(&self, other: &Self) -> bool {
        &&& (self is Legacy <==> other is Legacy)
        &&& (self is Retryable <==> other is Retryable)
        &&& (self is Fulfilled <==> other is Fulfilled)
        &&& (self is Abandoned <==> other is Abandoned)
        &&& self.spec_retry_strategy() == other.spec_retry_strategy()
        &&& self.spec_attempts() == other.spec_attempts()
        &&& self.spec_payment_hash() == other.spec_payment_hash()
        &&& self.spec_payment_secret() == other.spec_payment_secret()
        &&& self.spec_keysend_preimage() == other.spec_keysend_preimage()
        &&& self.spec_total() == other.spec_total()
        &&& self.spec_starting_block_height() == other.spec_starting_block_height()
        &&& self.spec_timer_ticks() == other.spec_timer_ticks()
    }

    /// Fills in the final CLTV delta when the stored parameters lack one.
    pub fn backfill_final_cltv_expiry_delta(&mut self, delta: u32)
        ensures
            final(self).sessions() == old(self).sessions(),
            final(self).sessions_wf() == old(self).sessions_wf(),
            final(self).same_non_session_fields_except_params(old(self)),
            final(self).spec_pending_amt() == old(self).spec_pending_amt(),
            final(self).spec_pending_fee() == old(self).spec_pending_fee(),
            match old(self).spec_params() {
                Some(params) => final(self).spec_params() matches Some(p)
                    && p.expiry_time == params.expiry_time && p.previously_failed_channels@
                    == params.previously_failed_channels@ && p.final_cltv_expiry_delta == (
                if params.final_cltv_expiry_delta is Some {
                    params.final_cltv_expiry_delta
                } else {
                    Some(delta)
                }),
                None => *final(self) == *old(self),
            },
    {
        if let PendingOutboundPayment::Retryable {
            payment_params: Some(params),
            ..
        } = self {
            if params.final_cltv_expiry_delta.is_none() {
                params.final_cltv_expiry_delta = Some(delta);
            }
        }
    }

    pub fn is_fulfilled(&self) -> (r: bool)
        ensures
            r == self.is_fulfilled_variant(),
    {
        match self {
            PendingOutboundPayment::Fulfilled { .. } => true,
            _ => false,
        }
    }

    pub fn abandoned(&self) -> (r: bool)
        ensures
            r == self.is_abandoned_variant(),
    {
        match self {
            PendingOutboundPayment::Abandoned { .. } => true,
            _ => false,
        }
    }

    pub fn get_pending_fee_msat(&self) -> (r: Option<u64>)
        ensures
            r == self.spec_pending_fee(),
    {
        match self {
            PendingOutboundPayment::Retryable { pending_fee_msat, .. } => *pending_fee_msat,
            _ => None,
        }
    }

    pub fn payment_hash(&self) -> (r: Option<PaymentHash>)
        ensures
            r == self.spec_payment_hash(),
    {
        match self {
            PendingOutboundPayment::Legacy { .. } => None,
            PendingOutboundPayment::Retryable { payment_hash, .. } => Some(*payment_hash),
            PendingOutboundPayment::Fulfilled { payment_hash, .. } => *payment_hash,
            PendingOutboundPayment::Abandoned { payment_hash, .. } => Some(*payment_hash),
        }
    }

    /// A copy of the stored payment parameters, if any.
    pub fn payment_parameters(&self) -> (r: Option<PaymentParameters>)
        ensures
            match self.spec_params() {
                Some(params) => r matches Some(p) && p.expiry_time == params.expiry_time
                    && p.final_cltv_expiry_delta == params.final_cltv_expiry_delta
                    && p.previously_failed_channels@ == params.previously_failed_channels@,
                None => r is None,
            },
    {
        match self {
            PendingOutboundPayment::Retryable { payment_params: Some(params), .. } => Some(
                params.duplicate(),
            ),
            _ => None,
        }
    }

    /// Moves to `Fulfilled`, preserving the session set.
    pub fn mark_fulfilled(&mut self)
        ensures
            (*final(self)) is Fulfilled,
            final(self).sessions() == old(self).sessions(),
            final(self).sessions_wf() == old(self).sessions_wf(),
            final(self).spec_payment_hash() == old(self).spec_payment_hash(),
            final(self).spec_timer_ticks() == 0,
            final(self).amounts_ok(),
    {
        let payment_hash = self.payment_hash();
        let mut session_privs = SessionSet::new();
        match self {
            PendingOutboundPayment::Legacy { session_privs: s } => {
                core::mem::swap(&mut session_privs, s)
            },
            PendingOutboundPayment::Retryable { session_privs: s, .. } => {
                core::mem::swap(&mut session_privs, s)
            },
            PendingOutboundPayment::Fulfilled { session_privs: s, .. } => {
                core::mem::swap(&mut session_privs, s)
            },
            PendingOutboundPayment::Abandoned { session_privs: s, .. } => {
                core::mem::swap(&mut session_privs, s)
            },
        }
        *self = PendingOutboundPayment::Fulfilled {
            session_privs,
            payment_hash,
            timer_ticks_without_htlcs: 0,
        };
    }

    /// Moves to `Abandoned`, preserving the session set. `Legacy` and
    /// `Fulfilled` payments cannot be abandoned and are left unchanged.
    pub fn mark_abandoned(&mut self) -> (r: Result<(), ()>)
        ensures
            match r {
                Ok(()) => {
                    &&& (*old(self)) is Retryable || (*old(self)) is Abandoned
                    &&& (*final(self)) is Abandoned
                    &&& final(self).sessions() == old(self).sessions()
                    &&& final(self).sessions_wf() == old(self).sessions_wf()
                    &&& final(self).spec_payment_hash() == old(self).spec_payment_hash()
                    &&& final(self).amounts_ok()
                },
                Err(()) => {
                    &&& (*old(self)) is Legacy || (*old(self)) is Fulfilled
                    &&& *final(self) == *old(self)
                },
            },
    {
        let mut session_privs = SessionSet::new();
        let our_payment_hash;
        match self {
            PendingOutboundPayment::Legacy { .. } | PendingOutboundPayment::Fulfilled { .. } => {
                return Err(());
            },
            PendingOutboundPayment::Retryable { session_privs: s, payment_hash, .. } => {
                our_payment_hash = *payment_hash;
                core::mem::swap(&mut session_privs, s);
            },
            PendingOutboundPayment::Abandoned { session_privs: s, payment_hash } => {
                our_payment_hash = *payment_hash;
                core::mem::swap(&mut session_privs, s);
            },
        }
        *self = PendingOutboundPayment::Abandoned {
            session_privs,
            payment_hash: our_payment_hash,
        };
        Ok(())
    }

    /// Whether a session secret is among this payment's outstanding ones.
    pub fn has_session(&self, session_priv: &[u8; 32]) -> (r: bool)
        ensures
            r == self.sessions().contains(session_priv@),
    {
        match self {
            PendingOutboundPayment::Legacy { session_privs } => session_privs.contains(
                session_priv,
            ),
            PendingOutboundPayment::Retryable { session_privs, .. } => session_privs.contains(
                session_priv,
            ),
            PendingOutboundPayment::Fulfilled { session_privs, .. } => session_privs.contains(
                session_priv,
            ),
            PendingOutboundPayment::Abandoned { session_privs, .. } => session_privs.contains(
                session_priv,
            ),
        }
    }

    /// Advances the idempotency clock of a `Fulfilled` payment. Any
    /// outstanding HTLC or referencing event resets the clock; otherwise it
    /// ticks up (stopping at its largest value), and the payment should stay
    /// only while the clock is within the idempotency grace period.
    pub fn stale_tick(&mut self, referenced: bool) -> (keep: bool)
        requires
            (*old(self)) is Fulfilled,
            old(self).sessions_wf(),
        ensures
            (*final(self)) is Fulfilled,
            final(self).sessions_wf(),
            final(self).sessions() == old(self).sessions(),
            final(self).spec_payment_hash() == old(self).spec_payment_hash(),
            final(self).amounts_ok(),
            ({
                let stale = old(self).sessions().len() == 0 && !referenced;
                if stale {
                    &&& final(self).spec_timer_ticks() == if old(self).spec_timer_ticks() < 255 {
                        old(self).spec_timer_ticks() + 1
                    } else {
                        255int
                    }
                    &&& keep == (final(self).spec_timer_ticks()
                        <= crate::types::IDEMPOTENCY_TIMEOUT_TICKS)
                } else {
                    &&& final(self).spec_timer_ticks() == 0
                    &&& keep
                }
            }),
    {
        let no_remaining = match self {
            PendingOutboundPayment::Fulfilled { session_privs, .. } => session_privs.is_empty(),
            _ => false,
        };
        if no_remaining && !referenced {
            match self {
                PendingOutboundPayment::Fulfilled { timer_ticks_without_htlcs, .. } => {
                    *timer_ticks_without_htlcs = timer_ticks_without_htlcs.saturating_add(1);
                    *timer_ticks_without_htlcs <= crate::types::IDEMPOTENCY_TIMEOUT_TICKS
                },
                _ => true,
            }
        } else {
            match self {
                PendingOutboundPayment::Fulfilled { timer_ticks_without_htlcs, .. } => {
                    *timer_ticks_without_htlcs = 0;
                },
                _ => {},
            }
            true
        }
    }

    /// Removes one session. When the payment is `Retryable`, the delivered
    /// amount of `path` leaves the pending bookkeeping (never below zero) and
    /// its fees leave the fee bookkeeping (which becomes unknown when the
    /// subtraction cannot be represented). Removing an absent session returns
    /// false and changes nothing.
    pub fn remove(&mut self, session_priv: &[u8; 32], path: Option<&Vec<RouteHop>>) -> (r: bool)
        requires
            old(self).sessions_wf(),
            (*old(self)) is Retryable ==> (path matches Some(p) && p@.len() > 0),
        ensures
            final(self).sessions_wf(),
            r == old(self).sessions().contains(session_priv@),
            !r ==> *final(self) == *old(self),
            r ==> {
                &&& final(self).sessions() =~= old(self).sessions().remove(session_priv@)
                &&& final(self).sessions().len() == old(self).sessions().len() - 1
                &&& final(self).same_non_session_fields(old(self))
                &&& ((*old(self)) is Retryable ==> {
                    &&& final(self).spec_pending_amt() == if old(self).spec_pending_amt()
                        >= path_amt(path.unwrap()@) {
                        old(self).spec_pending_amt() - path_amt(path.unwrap()@)
                    } else {
                        0
                    }
                    &&& final(self).spec_pending_fee() == match old(self).spec_pending_fee() {
                        Some(fee) => if fee >= path_fees(path.unwrap()@) && path_fees(
                            path.unwrap()@,
                        ) >= 0 {
                            Some((fee - path_fees(path.unwrap()@)) as u64)
                        } else {
                            None
                        },
                        None => None,
                    }
                })
                &&& (!((*old(self)) is Retryable) ==> final(self).spec_pending_amt() == old(
                    self,
                ).spec_pending_amt() && final(self).spec_pending_fee() == old(
                    self,
                ).spec_pending_fee())
            },
            old(self).amounts_ok() ==> final(self).amounts_ok(),
    {
        let remove_res = match self {
            PendingOutboundPayment::Legacy { session_privs } => session_privs.remove(session_priv),
            PendingOutboundPayment::Retryable { session_privs, .. } => session_privs.remove(
                session_priv,
            ),
            PendingOutboundPayment::Fulfilled { session_privs, .. } => session_privs.remove(
                session_priv,
            ),
            PendingOutboundPayment::Abandoned { session_privs, .. } => session_privs.remove(
                session_priv,
            ),
        };
        if remove_res {
            if let PendingOutboundPayment::Retryable {
                pending_amt_msat,
                pending_fee_msat,
                ..
            } = self {
                let path = path.unwrap();
                let removed_amt = path_final_value(path);
                *pending_amt_msat = pending_amt_msat.saturating_sub(removed_amt);
                let removed_fees = path_fee_total(path);
                match (pending_fee_msat.as_ref(), removed_fees) {
                    (Some(fee), Some(removed)) => {
                        *pending_fee_msat = fee.checked_sub(removed);
                    },
                    _ => {
                        *pending_fee_msat = None;
                    },
                }
            }
        }
        remove_res
    }

    /// Adds one session. When the payment is `Retryable`, the delivered
    /// amount of `path` enters the pending bookkeeping and its fees enter the
    /// fee bookkeeping (which becomes unknown when the sum cannot be
    /// represented). Fails on `Fulfilled` and `Abandoned` payments and on a
    /// session already present, changing nothing.
    pub fn insert(&mut self, session_priv: [u8; 32], path: &Vec<RouteHop>) -> (r: bool)
        requires
            old(self).sessions_wf(),
            path@.len() > 0,
            ((*old(self)) is Retryable && !old(self).sessions().contains(session_priv@)) ==> old(
                self,
            ).spec_pending_amt() + path_amt(path@) <= u64::MAX as int,
        ensures
            final(self).sessions_wf(),
            r == (((*old(self)) is Legacy || (*old(self)) is Retryable) && !old(
                self,
            ).sessions().contains(session_priv@)),
            !r ==> *final(self) == *old(self),
            r ==> {
                &&& final(self).sessions() =~= old(self).sessions().insert(session_priv@)
                &&& final(self).sessions().len() == old(self).sessions().len() + 1
                &&& final(self).same_non_session_fields(old(self))
                &&& ((*old(self)) is Retryable ==> {
                    &&& final(self).spec_pending_amt() == old(self).spec_pending_amt() + path_amt(
                        path@,
                    )
                    &&& final(self).spec_pending_fee() == match old(self).spec_pending_fee() {
                        Some(fee) => if 0 <= fee + path_fees(path@) <= u64::MAX as int {
                            Some((fee + path_fees(path@)) as u64)
                        } else {
                            None
                        },
                        None => None,
                    }
                })
                &&& ((*old(self)) is Legacy ==> final(self).spec_pending_amt() == old(
                    self,
                ).spec_pending_amt() && final(self).spec_pending_fee() == old(
                    self,
                ).spec_pending_fee())
            },
    {
        let insert_res = match self {
            PendingOutboundPayment::Legacy { session_privs } => session_privs.insert(session_priv),
            PendingOutboundPayment::Retryable { session_privs, .. } => session_privs.insert(
                session_priv,
            ),
            PendingOutboundPayment::Fulfilled { .. } => false,
            PendingOutboundPayment::Abandoned { .. } => false,
        };
        if insert_res {
            if let PendingOutboundPayment::Retryable {
                pending_amt_msat,
                pending_fee_msat,
                ..
            } = self {
                let added_amt = path_final_value(path);
                *pending_amt_msat = *pending_amt_msat + added_amt;
                let added_fees = path_fee_total(path);
                match (pending_fee_msat.as_ref(), added_fees) {
                    (Some(fee), Some(added)) => {
                        *pending_fee_msat = fee.checked_add(added);
                    },
                    _ => {
                        *pending_fee_msat = None;
                    },
                }
            }
        }
        insert_res
    }
}

/// The amount a path delivers to the recipient: its last hop's `fee_msat`.
pub fn path_final_value(path: &Vec<RouteHop>) -> (r: u64)
    requires
        path@.len() > 0,
    ensures
        r == path_amt(path@),
{
    path[path.len() - 1].fee_msat
}

/// The intermediate fees of a path: the sum of `fee_msat` over all hops but
/// the last, or `None` when that sum does not fit a `u64`.
pub fn path_fee_total(path: &Vec<RouteHop>) -> (r: Option<u64>)
    requires
        path@.len() > 0,
    ensures
        match r {
            Some(v) => v == path_fees(path@),
            None => path_fees(path@) > u64::MAX as int,
        },
{
    let mut sum: u64 = 0;
    let mut i: usize = 0;
    let n = path.len() - 1;
    proof {
        assert(crate::types::sum_hop_fees(path@.subrange(0, 0)) == 0);
    }
    while i < n
        invariant
            0 <= i <= n,
            n == path@.len() - 1,
            path@.len() > 0,
            sum == crate::types::sum_hop_fees(path@.subrange(0, i as int)),
        decreases n - i,
    {
        proof {
            assert(path@.subrange(0, i + 1).drop_last() =~= path@.subrange(0, i as int));
            assert(path@.subrange(0, i + 1).last() == path@[i as int]);
        }
        match sum.checked_add(path[i].fee_msat) {
            Some(s) => {
                sum = s;
            },
            None => {
                proof {
                    lemma_sum_hop_fees_monotonic(path@, i + 1, path@.len() as int - 1);
                    assert(path@.subrange(0, path@.len() - 1)
                        =~= path@.drop_last());
                    assert(path_fees(path@) == crate::types::sum_hop_fees(path@.drop_last()));
                }
                return None;
            },
        }
        i += 1;
    }
    proof {
        assert(path@.subrange(0, path@.len() - 1) =~= path@.drop_last());
        assert(path_fees(path@) == crate::types::sum_hop_fees(path@.drop_last()));
    }
    Some(sum)
}

/// Prefix sums of hop fees only grow.
proof fn lemma_sum_hop_fees_monotonic(hops: Seq<RouteHop>, i: int, j: int)
    requires
        0 <= i <= j <= hops.len(),
    ensures
        crate::types::sum_hop_fees(hops.subrange(0, i)) <= crate::types::sum_hop_fees(
            hops.subrange(0, j),
        ),
    decreases j - i,
{
    if i < j {
        lemma_sum_hop_fees_monotonic(hops, i, j - 1);
        assert(hops.subrange(0, j).drop_last() =~= hops.subrange(0, j - 1));
        assert(crate::types::sum_hop_fees(hops.subrange(0, j)) == crate::types::sum_hop_fees(
            hops.subrange(0, j - 1),
        ) + hops.subrange(0, j).last().fee_msat as int);
    }
}

} // verus!
