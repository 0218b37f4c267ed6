//! The registry of live outbound payments: one entry per `PaymentId`,
//! viewed as a map from id bytes to the payment's state machine.

use vstd::prelude::*;
use vstd::seq_lib::*;

use crate::collaborators::EntropySource;
use crate::payment_state::PendingOutboundPayment;
use crate::session_set::{byte_views, lemma_byte_views_push, SessionSet};
use crate::types::{
    lemma_route_fees_nonneg, lemma_route_total_nonneg, lemma_route_total_prefix,
    lemma_within_own_cap, path_amt, route_fees, route_total, route_total_amount_checked,
    route_usable, Event, HtlcSource, NetworkUpdate, PaymentAttempts, PaymentHash, PaymentId,
    PaymentParameters, PaymentPreimage, PaymentSecret, PaymentSendFailure, Retry, Route, RouteHop,
    RouteParameters,
};

verus! {

/// The key bytes of each registry entry, in storage order.
pub open spec fn keys_of(s: Seq<(PaymentId, PendingOutboundPayment)>) -> Seq<Seq<u8>> {
    s.map_values(|e: (PaymentId, PendingOutboundPayment)| e.0@)
}

/// The map a sequence of entries denotes; later entries win, which does not
/// matter here because the registry keeps keys distinct.
pub open spec fn assoc_map(s: Seq<(PaymentId, PendingOutboundPayment)>) -> Map<
    Seq<u8>,
    PendingOutboundPayment,
>
    decreases s.len(),
{
    if s.len() == 0 {
        Map::empty()
    } else {
        assoc_map(s.drop_last()).insert(s.last().0@, s.last().1)
    }
}

/// A key is in the denoted map exactly when some entry carries it.
pub proof fn lemma_assoc_map_dom(s: Seq<(PaymentId, PendingOutboundPayment)>, k: Seq<u8>)
    ensures
        assoc_map(s).contains_key(k) <==> keys_of(s).contains(k),
    decreases s.len(),
{
    if s.len() > 0 {
        lemma_assoc_map_dom(s.drop_last(), k);
        assert(keys_of(s.drop_last()) =~= keys_of(s).drop_last());
        if assoc_map(s).contains_key(k) {
            if k == s.last().0@ {
                assert(keys_of(s)[s.len() - 1] == k);
            } else {
                let i = choose|i: int|
                    0 <= i < keys_of(s.drop_last()).len() && keys_of(s.drop_last())[i] == k;
                assert(keys_of(s)[i] == k);
            }
        }
        if keys_of(s).contains(k) {
            let i = choose|i: int| 0 <= i < keys_of(s).len() && keys_of(s)[i] == k;
            if i < s.len() - 1 {
                assert(keys_of(s.drop_last())[i] == k);
            }
        }
    }
}

/// With distinct keys, the entry at any index gives the map's value there.
pub proof fn lemma_assoc_map_index(s: Seq<(PaymentId, PendingOutboundPayment)>, i: int)
    requires
        keys_of(s).no_duplicates(),
        0 <= i < s.len(),
    ensures
        assoc_map(s).contains_key(s[i].0@),
        assoc_map(s)[s[i].0@] == s[i].1,
    decreases s.len(),
{
    assert(keys_of(s)[i] == s[i].0@);
    if i == s.len() - 1 {
    } else {
        assert(keys_of(s.drop_last()) =~= keys_of(s).drop_last());
        lemma_assoc_map_index(s.drop_last(), i);
        assert(keys_of(s)[s.len() - 1] == s.last().0@);
        assert(s[i].0@ != s.last().0@);
    }
}

/// Replacing the payment at index `i` updates exactly that key.
pub proof fn lemma_assoc_map_update(
    s: Seq<(PaymentId, PendingOutboundPayment)>,
    i: int,
    v: PendingOutboundPayment,
)
    requires
        keys_of(s).no_duplicates(),
        0 <= i < s.len(),
    ensures
        assoc_map(s.update(i, (s[i].0, v))) =~= assoc_map(s).insert(s[i].0@, v),
{
    let s2 = s.update(i, (s[i].0, v));
    assert(keys_of(s2) =~= keys_of(s));
    let k = s[i].0@;
    assert forall|x: Seq<u8>|
        assoc_map(s2).contains_key(x) == assoc_map(s).insert(k, v).contains_key(x) by {
        lemma_assoc_map_dom(s, x);
        lemma_assoc_map_dom(s2, x);
        if x == k {
            assert(keys_of(s)[i] == k);
        }
    }
    assert forall|x: Seq<u8>| assoc_map(s2).contains_key(x) implies assoc_map(s2)[x] == assoc_map(
        s,
    ).insert(k, v)[x] by {
        lemma_assoc_map_dom(s2, x);
        let j = choose|j: int| 0 <= j < keys_of(s2).len() && keys_of(s2)[j] == x;
        assert(s2[j].0@ == x);
        lemma_assoc_map_index(s2, j);
        if x == k {
            assert(keys_of(s2)[j] == keys_of(s2)[i]);
            assert(j == i);
        } else {
            assert(j != i);
            assert(s2[j] == s[j]);
            lemma_assoc_map_index(s, j);
        }
    }
}

/// Appending an entry with a fresh key inserts exactly that key.
pub proof fn lemma_assoc_map_push(
    s: Seq<(PaymentId, PendingOutboundPayment)>,
    id: PaymentId,
    v: PendingOutboundPayment,
)
    ensures
        assoc_map(s.push((id, v))) =~= assoc_map(s).insert(id@, v),
        keys_of(s.push((id, v))) =~= keys_of(s).push(id@),
{
    assert(s.push((id, v)).drop_last() =~= s);
    assert(keys_of(s.push((id, v))) =~= keys_of(s).push(id@));
}

/// Removing the entry at index `i` removes exactly that key.
pub proof fn lemma_assoc_map_remove(s: Seq<(PaymentId, PendingOutboundPayment)>, i: int)
    requires
        keys_of(s).no_duplicates(),
        0 <= i < s.len(),
    ensures
        assoc_map(s.remove(i)) =~= assoc_map(s).remove(s[i].0@),
        keys_of(s.remove(i)) =~= keys_of(s).remove(i),
        keys_of(s.remove(i)).no_duplicates(),
{
    let s2 = s.remove(i);
    assert(keys_of(s2) =~= keys_of(s).remove(i));
    let k = s[i].0@;
    assert forall|p: int, q: int|
        0 <= p < keys_of(s2).len() && 0 <= q < keys_of(s2).len() && p != q implies keys_of(s2)[p]
        != keys_of(s2)[q] by {
        let op: int = if p < i {
            p
        } else {
            p + 1
        };
        let oq: int = if q < i {
            q
        } else {
            q + 1
        };
        assert(keys_of(s2)[p] == keys_of(s)[op]);
        assert(keys_of(s2)[q] == keys_of(s)[oq]);
    }
    assert forall|x: Seq<u8>|
        assoc_map(s2).contains_key(x) == assoc_map(s).remove(k).contains_key(x) by {
        lemma_assoc_map_dom(s, x);
        lemma_assoc_map_dom(s2, x);
        if keys_of(s2).contains(x) {
            let j = choose|j: int| 0 <= j < keys_of(s2).len() && keys_of(s2)[j] == x;
            let oj: int = if j < i {
                j
            } else {
                j + 1
            };
            assert(keys_of(s)[oj] == x);
            assert(keys_of(s)[i] == k);
            if x == k {
                assert(oj != i);
                assert(false);
            }
        }
        if keys_of(s).contains(x) && x != k {
            let j = choose|j: int| 0 <= j < keys_of(s).len() && keys_of(s)[j] == x;
            assert(j != i);
            if j < i {
                assert(keys_of(s2)[j] == x);
            } else {
                assert(keys_of(s2)[j - 1] == x);
            }
        }
    }
    assert forall|x: Seq<u8>| assoc_map(s2).contains_key(x) implies assoc_map(s2)[x] == assoc_map(
        s,
    ).remove(k)[x] by {
        lemma_assoc_map_dom(s2, x);
        let j = choose|j: int| 0 <= j < keys_of(s2).len() && keys_of(s2)[j] == x;
        assert(s2[j].0@ == x);
        lemma_assoc_map_index(s2, j);
        let oj: int = if j < i {
            j
        } else {
            j + 1
        };
        assert(s2[j] == s[oj]);
        lemma_assoc_map_index(s, oj);
    }
}

/// With distinct keys, the denoted map has exactly one key per entry.
pub proof fn lemma_assoc_map_len(s: Seq<(PaymentId, PendingOutboundPayment)>)
    requires
        keys_of(s).no_duplicates(),
    ensures
        assoc_map(s).dom().len() == s.len(),
        assoc_map(s).dom().finite(),
    decreases s.len(),
{
    if s.len() == 0 {
        assert(assoc_map(s).dom() =~= Set::<Seq<u8>>::empty());
    } else {
        assert(keys_of(s.drop_last()) =~= keys_of(s).drop_last());
        lemma_assoc_map_len(s.drop_last());
        lemma_assoc_map_dom(s.drop_last(), s.last().0@);
        assert(!keys_of(s.drop_last()).contains(s.last().0@)) by {
            if keys_of(s.drop_last()).contains(s.last().0@) {
                let i = choose|i: int|
                    0 <= i < keys_of(s.drop_last()).len() && keys_of(s.drop_last())[i]
                        == s.last().0@;
                assert(keys_of(s)[i] == keys_of(s)[s.len() - 1]);
            }
        }
        assert(assoc_map(s).dom() =~= assoc_map(s.drop_last()).dom().insert(s.last().0@));
    }
}

/// The registry of pending outbound payments. One entry per live
/// `PaymentId`; keys are kept distinct and every payment well formed.
pub struct OutboundPayments {
    payments: Vec<(PaymentId, PendingOutboundPayment)>,
}

impl View for OutboundPayments {
    type V = Map<Seq<u8>, PendingOutboundPayment>;

    closed spec fn view(&self) -> Map<Seq<u8>, PendingOutboundPayment> {
        assoc_map(self.payments@)
    }
}

impl OutboundPayments {
    /// Keys are distinct and every stored payment is well formed; in
    /// particular every `Retryable` payment's pending amount respects the
    /// 10% overpayment cap.
    pub closed spec fn wf(&self) -> bool {
        &&& keys_of(self.payments@).no_duplicates()
        &&& forall|i: int|
            0 <= i < self.payments@.len() ==> (#[trigger] self.payments@[i].1).wf()
    }

    /// The number of live payments.
    pub closed spec fn spec_len(&self) -> nat {
        self.payments@.len()
    }

    /// Every payment in the registry is well formed.
    pub proof fn lemma_wf_payments(&self)
        requires
            self.wf(),
        ensures
            forall|k: Seq<u8>| #[trigger]
                self@.contains_key(k) ==> self@[k].wf(),
            self.spec_len() == self@.dom().len(),
    {
        assert forall|k: Seq<u8>| #[trigger] self@.contains_key(k) implies self@[k].wf() by {
            lemma_assoc_map_dom(self.payments@, k);
            let i = choose|i: int|
                0 <= i < keys_of(self.payments@).len() && keys_of(self.payments@)[i] == k;
            assert(self.payments@[i].0@ == k);
            lemma_assoc_map_index(self.payments@, i);
            assert(self.payments@[i].1.wf());
        }
        lemma_assoc_map_len(self.payments@);
    }

    pub fn new() -> (r: Self)
        ensures
            r.wf(),
            r@ =~= Map::<Seq<u8>, PendingOutboundPayment>::empty(),
            r.spec_len() == 0,
    {
        OutboundPayments { payments: Vec::new() }
    }

    /// Whether any payment is still tracked.
    pub fn has_pending_payments(&self) -> (r: bool)
        ensures
            r == (self.spec_len() != 0),
            self.spec_len() == 0 ==> self@ =~= Map::<Seq<u8>, PendingOutboundPayment>::empty(),
    {
        self.payments.len() != 0
    }

    /// Forgets every payment.
    pub fn clear_pending_payments(&mut self)
        ensures
            final(self).wf(),
            final(self)@ =~= Map::<Seq<u8>, PendingOutboundPayment>::empty(),
            final(self).spec_len() == 0,
    {
        self.payments.clear();
    }

    /// The index of the entry for `payment_id`, when one exists.
    fn find_index(&self, payment_id: &PaymentId) -> (r: Option<usize>)
        ensures
            match r {
                Some(i) => i < self.payments@.len() && self.payments@[i as int].0@ == payment_id@,
                None => !self@.contains_key(payment_id@),
            },
    {
        let mut i: usize = 0;
        while i < self.payments.len()
            invariant
                0 <= i <= self.payments@.len(),
                forall|j: int| 0 <= j < i ==> keys_of(self.payments@)[j] != payment_id@,
            decreases self.payments@.len() - i,
        {
            if crate::bytes_eq(&self.payments[i].0 .0, &payment_id.0) {
                proof {
                    assert(self.payments@[i as int].0@ =~= payment_id@);
                }
                return Some(i);
            }
            proof {
                assert(keys_of(self.payments@)[i as int] == self.payments@[i as int].0@);
                assert(keys_of(self.payments@)[i as int] != payment_id@) by {
                    if self.payments@[i as int].0@ == payment_id@ {
                        assert(self.payments@[i as int].0 .0@ =~= payment_id.0@);
                    }
                }
            }
            i += 1;
        }
        proof {
            lemma_assoc_map_dom(self.payments@, payment_id@);
            if keys_of(self.payments@).contains(payment_id@) {
                let j = choose|j: int|
                    0 <= j < keys_of(self.payments@).len() && keys_of(self.payments@)[j]
                        == payment_id@;
                assert(false);
            }
        }
        None
    }

    /// A shared borrow of the payment for `payment_id`, when one exists.
    pub fn get(&self, payment_id: &PaymentId) -> (r: Option<&PendingOutboundPayment>)
        requires
            self.wf(),
        ensures
            match r {
                Some(p) => self@.contains_key(payment_id@) && *p == self@[payment_id@],
                None => !self@.contains_key(payment_id@),
            },
    {
        match self.find_index(payment_id) {
            Some(i) => {
                proof {
                    lemma_assoc_map_index(self.payments@, i as int);
                }
                Some(&self.payments[i].1)
            },
            None => None,
        }
    }
}


/// Draws session secrets from the entropy source until it has `n` distinct
/// ones, allowing a few redraws per secret. With a sound entropy source no
/// draw ever repeats; `None` means the source is broken.
pub fn fresh_session_privs<ES: EntropySource>(entropy_source: &ES, n: usize) -> (r: Option<
    Vec<[u8; 32]>,
>)
    ensures
        r matches Some(v) ==> v@.len() == n && byte_views(v@).no_duplicates(),
{
    let mut seen = SessionSet::new();
    let mut r: Vec<[u8; 32]> = Vec::new();
    proof {
        assert(byte_views(r@) =~= Seq::<Seq<u8>>::empty());
        assert(seen@ =~= byte_views(r@).to_set());
    }
    let mut i: usize = 0;
    while i < n
        invariant
            seen.wf(),
            seen@ == byte_views(r@).to_set(),
            byte_views(r@).no_duplicates(),
            r@.len() == i,
            i <= n,
        decreases n - i,
    {
        let mut found = false;
        let mut tries: usize = 0;
        while tries < 64 && !found
            invariant
                seen.wf(),
                seen@ == byte_views(r@).to_set(),
                byte_views(r@).no_duplicates(),
                found ==> r@.len() == i + 1,
                !found ==> r@.len() == i,
                i < n,
            decreases 64 - tries,
        {
            let sp = entropy_source.get_secure_random_bytes();
            if seen.insert(sp) {
                proof {
                    lemma_byte_views_push(r@, sp);
                }
                r.push(sp);
                found = true;
            }
            tries += 1;
        }
        if !found {
            return None;
        }
        i += 1;
    }
    Some(r)
}

impl OutboundPayments {
    /// Registers a new `Retryable` payment for `payment_id`, with one fresh
    /// session secret per path, and the route's total as both the pending and
    /// the total amount. Fails with `DuplicatePayment`, changing nothing,
    /// exactly when the id is already present.
    pub fn add_new_pending_payment<ES: EntropySource>(
        &mut self,
        payment_hash: PaymentHash,
        payment_secret: Option<PaymentSecret>,
        payment_id: PaymentId,
        keysend_preimage: Option<PaymentPreimage>,
        route: &Route,
        retry_strategy: Option<Retry>,
        payment_params: Option<PaymentParameters>,
        entropy_source: &ES,
        best_block_height: u32,
        now_ticks: u64,
    ) -> (r: Result<Vec<[u8; 32]>, PaymentSendFailure>)
        requires
            old(self).wf(),
            route_usable(route.paths@),
        ensures
            final(self).wf(),
            r == Err::<Vec<[u8; 32]>, PaymentSendFailure>(PaymentSendFailure::DuplicatePayment)
                <==> old(self)@.contains_key(payment_id@),
            r is Err ==> *final(self) == *old(self) && (r == Err::<
                Vec<[u8; 32]>,
                PaymentSendFailure,
            >(PaymentSendFailure::DuplicatePayment) || r matches Err(
                PaymentSendFailure::ParameterError(_),
            )),
            r matches Err(PaymentSendFailure::ParameterError(e)) ==> (
            e matches crate::types::ApiError::APIMisuseError { err } && err@
                == crate::errors::msg_duplicate_session_keys()),
            r matches Ok(privs) ==> {
                &&& privs@.len() == route.paths@.len()
                &&& byte_views(privs@).no_duplicates()
                &&& final(self)@ =~= old(self)@.insert(payment_id@, final(self)@[payment_id@])
                &&& final(self)@.contains_key(payment_id@)
                &&& final(self).spec_len() == old(self).spec_len() + 1
                &&& new_retryable_matches(
                    final(self)@[payment_id@],
                    byte_views(privs@).to_set(),
                    route.paths@.len() as int,
                    route_total(route.paths@),
                    route_fees(route.paths@),
                    retry_strategy,
                    payment_params,
                    payment_hash,
                    payment_secret,
                    keysend_preimage,
                    best_block_height,
                    now_ticks,
                )
            },
    {
        let n = route.paths.len();
        match self.find_index(&payment_id) {
            Some(i) => {
                proof {
                    lemma_assoc_map_index(self.payments@, i as int);
                }
                Err(PaymentSendFailure::DuplicatePayment)
            },
            None => {
                let onion_session_privs = match fresh_session_privs(entropy_source, n) {
                    Some(privs) => privs,
                    None => {
                        return Err(PaymentSendFailure::ParameterError(
                            crate::types::ApiError::APIMisuseError {
                                err: "Entropy source returned duplicate session keys".to_owned(),
                            },
                        ));
                    },
                };
                let total_msat = match route_total_amount_checked(route) {
                    Some(t) => t,
                    None => {
                        proof {
                            assert(false);
                        }
                        0
                    },
                };
                let mut payment = PendingOutboundPayment::Retryable {
                    retry_strategy,
                    attempts: PaymentAttempts::new(now_ticks),
                    payment_params,
                    session_privs: SessionSet::new(),
                    pending_amt_msat: 0,
                    pending_fee_msat: Some(0),
                    payment_hash,
                    payment_secret,
                    keysend_preimage,
                    starting_block_height: best_block_height,
                    total_msat,
                };
                let ghost privs = onion_session_privs@;
                let ghost ps = route.paths@;
                let mut i: usize = 0;
                proof {
                    assert(byte_views(privs.subrange(0, 0)) =~= Seq::<Seq<u8>>::empty());
                    assert(payment.sessions() =~= byte_views(privs.subrange(0, 0)).to_set());
                    assert(ps.subrange(0, 0) =~= Seq::<Vec<RouteHop>>::empty());
                }
                while i < n
                    invariant
                        0 <= i <= n,
                        n == ps.len(),
                        ps == route.paths@,
                        privs == onion_session_privs@,
                        privs.len() == n,
                        byte_views(privs).no_duplicates(),
                        route_usable(ps),
                        total_msat == route_total(ps),
                        payment is Retryable,
                        payment.sessions_wf(),
                        payment.sessions() =~= byte_views(privs.subrange(0, i as int)).to_set(),
                        payment.sessions().len() == i,
                        payment.spec_pending_amt() == route_total(ps.subrange(0, i as int)),
                        payment.spec_pending_fee() == if route_fees(ps.subrange(0, i as int))
                            <= u64::MAX as int {
                            Some(route_fees(ps.subrange(0, i as int)) as u64)
                        } else {
                            None::<u64>
                        },
                        payment.spec_retry_strategy() == retry_strategy,
                        payment.spec_params() == payment_params,
                        payment.spec_payment_hash() == Some(payment_hash),
                        payment.spec_payment_secret() == payment_secret,
                        payment.spec_keysend_preimage() == keysend_preimage,
                        payment.spec_total() == total_msat as int,
                        payment.spec_starting_block_height() == best_block_height,
                        payment.spec_attempts() == (PaymentAttempts {
                            count: 0,
                            first_attempted_at: now_ticks,
                        }),
                    decreases n - i,
                {
                    proof {
                        assert(ps[i as int]@.len() > 0);
                        assert(ps.subrange(0, i + 1).drop_last() =~= ps.subrange(0, i as int));
                        assert(ps.subrange(0, i + 1).last() == ps[i as int]);
                        lemma_route_total_prefix(ps, i + 1, ps.len() as int);
                        assert(ps.subrange(0, ps.len() as int) =~= ps);
                        lemma_route_total_nonneg(ps.subrange(0, i + 1));
                        lemma_within_own_cap(route_total(ps));
                        assert(payment.spec_pending_amt() + crate::types::path_amt(ps[i as int]@)
                            <= u64::MAX as int);
                        assert(!payment.sessions().contains(privs[i as int]@)) by {
                            if byte_views(privs.subrange(0, i as int)).contains(privs[i as int]@) {
                                let j = choose|j: int|
                                    0 <= j < i && byte_views(privs.subrange(0, i as int))[j]
                                        == privs[i as int]@;
                                assert(byte_views(privs)[j] == byte_views(privs)[i as int]);
                            }
                        }
                    }
                    let inserted = payment.insert(onion_session_privs[i], &route.paths[i]);
                    proof {
                        assert(inserted);
                        lemma_byte_views_push(privs.subrange(0, i as int), privs[i as int]);
                        assert(privs.subrange(0, i + 1) =~= privs.subrange(0, i as int).push(
                            privs[i as int],
                        ));
                        assert(byte_views(privs.subrange(0, i + 1)) =~= byte_views(
                            privs.subrange(0, i as int),
                        ).push(privs[i as int]@));
                        assert(payment.sessions() =~= byte_views(
                            privs.subrange(0, i + 1),
                        ).to_set());
                        crate::types::lemma_path_fees_nonneg(ps[i as int]@);
                        assert(route_fees(ps.subrange(0, i + 1)) == route_fees(
                            ps.subrange(0, i as int),
                        ) + crate::types::path_fees(ps[i as int]@));
                        assert(crate::types::all_paths_nonempty(ps.subrange(0, i + 1))) by {
                            assert forall|j: int|
                                0 <= j < i + 1 implies (#[trigger] ps.subrange(0, i + 1)[j])@.len()
                                > 0 by {
                                assert(ps.subrange(0, i + 1)[j] == ps[j]);
                            }
                        }
                        assert(crate::types::all_paths_nonempty(ps.subrange(0, i as int))) by {
                            assert forall|j: int|
                                0 <= j < i implies (#[trigger] ps.subrange(0, i as int)[j])@.len()
                                > 0 by {
                                assert(ps.subrange(0, i as int)[j] == ps[j]);
                            }
                        }
                        lemma_route_fees_nonneg(ps.subrange(0, i as int));
                        lemma_route_fees_nonneg(ps.subrange(0, i + 1));
                    }
                    i += 1;
                }
                proof {
                    assert(privs.subrange(0, n as int) =~= privs);
                    assert(ps.subrange(0, n as int) =~= ps);
                    lemma_route_total_nonneg(ps);
                    lemma_within_own_cap(route_total(ps));
                    assert(payment.amounts_ok());
                    assert(payment.wf());
                }
                let ghost old_entries = self.payments@;
                self.payments.push((payment_id, payment));
                proof {
                    lemma_assoc_map_push(old_entries, payment_id, payment);
                    lemma_assoc_map_dom(old_entries, payment_id@);
                    assert(!keys_of(old_entries).contains(payment_id@));
                    assert(keys_of(self.payments@) =~= keys_of(old_entries).push(payment_id@));
                    assert(keys_of(self.payments@).no_duplicates()) by {
                        let ks = keys_of(old_entries);
                        let ks2 = keys_of(self.payments@);
                        assert forall|p: int, q: int|
                            0 <= p < ks2.len() && 0 <= q < ks2.len() && p != q implies ks2[p]
                            != ks2[q] by {
                            if p < ks.len() && q < ks.len() {
                            } else if p < ks.len() {
                                assert(ks.contains(ks[p]));
                            } else if q < ks.len() {
                                assert(ks.contains(ks[q]));
                            }
                        }
                    }
                    assert(self.wf()) by {
                        assert forall|j: int|
                            0 <= j < self.payments@.len() implies (
                        #[trigger] self.payments@[j].1).wf() by {
                            if j < old_entries.len() {
                                assert(self.payments@[j] == old_entries[j]);
                            } else {
                                assert(self.payments@[j].1 == payment);
                            }
                        }
                    }
                    lemma_assoc_map_index(self.payments@, self.payments@.len() - 1);
                }
                Ok(onion_session_privs)
            },
        }
    }
}

/// What a freshly registered payment looks like.
pub open spec fn new_retryable_matches(
    p: PendingOutboundPayment,
    sessions: Set<Seq<u8>>,
    n_paths: int,
    total: int,
    fees: int,
    retry_strategy: Option<Retry>,
    payment_params: Option<PaymentParameters>,
    payment_hash: PaymentHash,
    payment_secret: Option<PaymentSecret>,
    keysend_preimage: Option<PaymentPreimage>,
    best_block_height: u32,
    now_ticks: u64,
) -> bool {
    &&& p is Retryable
    &&& p.wf()
    &&& p.sessions() =~= sessions
    &&& p.sessions().len() == n_paths
    &&& p.spec_pending_amt() == total
    &&& p.spec_total() == total
    &&& p.spec_pending_fee() == if fees <= u64::MAX as int {
        Some(fees as u64)
    } else {
        None::<u64>
    }
    &&& p.spec_retry_strategy() == retry_strategy
    &&& p.spec_params() == payment_params
    &&& p.spec_payment_hash() == Some(payment_hash)
    &&& p.spec_payment_secret() == payment_secret
    &&& p.spec_keysend_preimage() == keysend_preimage
    &&& p.spec_starting_block_height() == best_block_height
    &&& p.spec_attempts() == (PaymentAttempts { count: 0, first_attempted_at: now_ticks })
}



impl OutboundPayments {
    /// Takes the entry for `payment_id` out of the registry, when present.
    pub(crate) fn take_payment(&mut self, payment_id: &PaymentId) -> (r: Option<
        (PaymentId, PendingOutboundPayment),
    >)
        requires
            old(self).wf(),
        ensures
            final(self).wf(),
            match r {
                Some(entry) => {
                    &&& entry.0@ == payment_id@
                    &&& old(self)@.contains_key(payment_id@)
                    &&& entry.1 == old(self)@[payment_id@]
                    &&& entry.1.wf()
                    &&& final(self)@ =~= old(self)@.remove(payment_id@)
                    &&& final(self).spec_len() == old(self).spec_len() - 1
                    &&& !final(self)@.contains_key(payment_id@)
                },
                None => !old(self)@.contains_key(payment_id@) && *final(self) == *old(self),
            },
    {
        match self.find_index(payment_id) {
            None => None,
            Some(i) => {
                proof {
                    lemma_assoc_map_index(self.payments@, i as int);
                    lemma_assoc_map_remove(self.payments@, i as int);
                }
                let ghost old_entries = self.payments@;
                let entry = self.payments.remove(i);
                proof {
                    assert(self.payments@ =~= old_entries.remove(i as int));
                    assert(self.wf()) by {
                        assert forall|j: int|
                            0 <= j < self.payments@.len() implies (
                        #[trigger] self.payments@[j].1).wf() by {
                            if j < i {
                                assert(self.payments@[j] == old_entries[j]);
                            } else {
                                assert(self.payments@[j] == old_entries[j + 1]);
                            }
                        }
                    }
                    lemma_assoc_map_dom(self.payments@, payment_id@);
                    assert(!keys_of(self.payments@).contains(payment_id@)) by {
                        if keys_of(self.payments@).contains(payment_id@) {
                            let j = choose|j: int|
                                0 <= j < keys_of(self.payments@).len() && keys_of(
                                    self.payments@,
                                )[j] == payment_id@;
                            let oj: int = if j < i {
                                j
                            } else {
                                j + 1
                            };
                            assert(keys_of(old_entries)[oj] == keys_of(old_entries)[i as int]);
                        }
                    }
                }
                Some(entry)
            },
        }
    }

    /// Puts a payment back under an id that is not in the registry.
    pub(crate) fn put_payment(&mut self, payment_id: PaymentId, payment: PendingOutboundPayment)
        requires
            old(self).wf(),
            !old(self)@.contains_key(payment_id@),
            payment.wf(),
        ensures
            final(self).wf(),
            final(self)@ =~= old(self)@.insert(payment_id@, payment),
            final(self).spec_len() == old(self).spec_len() + 1,
    {
        let ghost old_entries = self.payments@;
        self.payments.push((payment_id, payment));
        proof {
            lemma_assoc_map_push(old_entries, payment_id, payment);
            lemma_assoc_map_dom(old_entries, payment_id@);
            assert(keys_of(self.payments@) =~= keys_of(old_entries).push(payment_id@));
            assert(keys_of(self.payments@).no_duplicates()) by {
                let ks = keys_of(old_entries);
                let ks2 = keys_of(self.payments@);
                assert forall|a: int, b: int|
                    0 <= a < ks2.len() && 0 <= b < ks2.len() && a != b implies ks2[a] != ks2[b] by {
                    if a < ks.len() && b < ks.len() {
                    } else if a < ks.len() {
                        assert(ks.contains(ks[a]));
                    } else if b < ks.len() {
                        assert(ks.contains(ks[b]));
                    }
                }
            }
            assert(self.wf()) by {
                assert forall|j: int|
                    0 <= j < self.payments@.len() implies (#[trigger] self.payments@[j].1).wf() by {
                    if j < old_entries.len() {
                        assert(self.payments@[j] == old_entries[j]);
                    }
                }
            }
        }
    }

    /// Marks a payment `Abandoned`. On `Legacy` and `Fulfilled` payments, and
    /// on unknown ids, this changes nothing. When the last HTLC has already
    /// resolved, the payment is dropped and its `PaymentFailed` event
    /// returned for the caller to emit.
    pub fn abandon_payment(&mut self, payment_id: PaymentId) -> (r: Option<Event>)
        requires
            old(self).wf(),
        ensures
            final(self).wf(),
            !old(self)@.contains_key(payment_id@) ==> *final(self) == *old(self) && r is None,
            old(self)@.contains_key(payment_id@) ==> {
                let p = old(self)@[payment_id@];
                &&& (p is Legacy || p is Fulfilled) ==> final(self)@ =~= old(self)@ && r is None
                &&& (p is Retryable || p is Abandoned) ==> {
                    if p.sessions().len() == 0 {
                        &&& final(self)@ =~= old(self)@.remove(payment_id@)
                        &&& r matches Some(ev)
                        &&& (ev matches Event::PaymentFailed { payment_id: pid, payment_hash }
                            && pid@ == payment_id@ && Some(payment_hash) == p.spec_payment_hash())
                    } else {
                        &&& r is None
                        &&& final(self)@ =~= old(self)@.insert(
                            payment_id@,
                            final(self)@[payment_id@],
                        )
                        &&& final(self)@.contains_key(payment_id@)
                        &&& {
                            let q = final(self)@[payment_id@];
                            &&& q is Abandoned
                            &&& q.sessions() =~= p.sessions()
                            &&& q.spec_payment_hash() == p.spec_payment_hash()
                        }
                    }
                }
            },
    {
        match self.take_payment(&payment_id) {
            None => None,
            Some((id, mut payment)) => {
                match payment.mark_abandoned() {
                    Ok(()) => {
                        if payment.remaining_parts() == 0 {
                            let payment_hash = match payment.payment_hash() {
                                Some(h) => h,
                                None => {
                                    proof {
                                        assert(false);
                                    }
                                    PaymentHash([0u8; 32])
                                },
                            };
                            Some(Event::PaymentFailed { payment_id: id, payment_hash })
                        } else {
                            self.put_payment(id, payment);
                            None
                        }
                    },
                    Err(()) => {
                        self.put_payment(id, payment);
                        proof {
                            assert(old(self)@.remove(payment_id@).insert(
                                payment_id@,
                                old(self)@[payment_id@],
                            ) =~= old(self)@);
                            assert(self@ =~= old(self)@);
                        }
                        None
                    },
                }
            },
        }
    }
}



impl OutboundPayments {
    /// Handles a revealed preimage for one HTLC. On first claim the payment
    /// becomes `Fulfilled` and a `PaymentSent` event is pushed; a claim seen
    /// on-chain also resolves its session at once, with a
    /// `PaymentPathSuccessful` event. Claims for unknown ids are ignored.
    pub fn claim_htlc(
        &mut self,
        payment_id: PaymentId,
        payment_preimage: PaymentPreimage,
        session_priv: [u8; 32],
        path: Vec<RouteHop>,
        from_onchain: bool,
        pending_events: &mut Vec<Event>,
    )
        requires
            old(self).wf(),
            path@.len() > 0,
        ensures
            final(self).wf(),
            !old(self)@.contains_key(payment_id@) ==> *final(self) == *old(self)
                && final(pending_events)@ == old(pending_events)@,
            old(self)@.contains_key(payment_id@) ==> {
                let p = old(self)@[payment_id@];
                let newly = !(p is Fulfilled);
                let removed = from_onchain && p.sessions().contains(session_priv@);
                let n0 = old(pending_events)@.len() as int;
                &&& final(self)@ =~= old(self)@.insert(payment_id@, final(self)@[payment_id@])
                &&& final(self)@.contains_key(payment_id@)
                &&& {
                    let q = final(self)@[payment_id@];
                    &&& q is Fulfilled
                    &&& q.spec_payment_hash() == p.spec_payment_hash()
                    &&& q.sessions() =~= if removed {
                        p.sessions().remove(session_priv@)
                    } else {
                        p.sessions()
                    }
                    &&& q.spec_timer_ticks() == if newly {
                        0
                    } else {
                        p.spec_timer_ticks() as int
                    }
                }
                &&& final(pending_events)@.len() == n0 + (if newly {
                    1int
                } else {
                    0int
                }) + (if removed {
                    1int
                } else {
                    0int
                })
                &&& old(pending_events)@.is_prefix_of(final(pending_events)@)
                &&& (newly ==> (final(pending_events)@[n0] matches Event::PaymentSent {
                    payment_id: pid,
                    payment_preimage: pre,
                    payment_hash: h,
                    fee_paid_msat,
                } && pid matches Some(x) && x@ == payment_id@ && pre == payment_preimage && h@
                    == crate::hashing::hash_of_preimage(payment_preimage@) && fee_paid_msat
                    == p.spec_pending_fee()))
                &&& (removed ==> (final(pending_events)@[n0 + (if newly {
                    1int
                } else {
                    0int
                })] matches Event::PaymentPathSuccessful { payment_id: pid, payment_hash: h, path: pth }
                    && pid@ == payment_id@ && (h matches Some(hh) && hh@
                    == crate::hashing::hash_of_preimage(payment_preimage@)) && pth@ == path@))
            },
    {
        match self.take_payment(&payment_id) {
            None => {
                // A duplicative fulfill for an unknown payment; nothing to do.
            },
            Some((id, mut payment)) => {
                if !payment.is_fulfilled() {
                    let payment_hash = crate::hashing::payment_hash_for_preimage(
                        &payment_preimage,
                    );
                    let fee_paid_msat = payment.get_pending_fee_msat();
                    pending_events.push(
                        Event::PaymentSent {
                            payment_id: Some(id),
                            payment_preimage,
                            payment_hash,
                            fee_paid_msat,
                        },
                    );
                    payment.mark_fulfilled();
                }
                if from_onchain {
                    // An on-chain claim resolves the session at once. A
                    // one-block reorg could in principle resurrect it; that
                    // risk is accepted.
                    if payment.remove(&session_priv, Some(&path)) {
                        let payment_hash = Some(
                            crate::hashing::payment_hash_for_preimage(&payment_preimage),
                        );
                        pending_events.push(
                            Event::PaymentPathSuccessful { payment_id: id, payment_hash, path },
                        );
                    }
                }
                self.put_payment(id, payment);
                proof {
                    assert(old(self)@.remove(payment_id@).insert(payment_id@, payment) =~= old(
                        self,
                    )@.insert(payment_id@, payment));
                }
            },
        }
    }
}



/// What one payment looks like after a cleanup pass saw it as `Fulfilled`.
pub open spec fn fulfilled_like(
    q: PendingOutboundPayment,
    p: PendingOutboundPayment,
    ticks: int,
) -> bool {
    &&& q is Fulfilled
    &&& q.sessions() == p.sessions()
    &&& q.spec_payment_hash() == p.spec_payment_hash()
    &&& q.spec_timer_ticks() == ticks
}

/// The fate of one payment under a stale-cleanup pass: untouched unless
/// `Fulfilled`; a `Fulfilled` payment with outstanding HTLCs or a queued
/// event that references it stays with its clock reset; otherwise its clock
/// ticks up and it is dropped once the clock leaves the grace period.
pub open spec fn stale_cleanup_post(
    p: PendingOutboundPayment,
    evs: Seq<Event>,
    k: Seq<u8>,
    m: Map<Seq<u8>, PendingOutboundPayment>,
) -> bool {
    if !(p is Fulfilled) {
        m.contains_key(k) && m[k] == p
    } else {
        let stale = p.sessions().len() == 0 && !crate::types::any_event_references(evs, k);
        if stale {
            let new_ticks: int = if p.spec_timer_ticks() < 255 {
                p.spec_timer_ticks() + 1
            } else {
                255
            };
            if new_ticks <= crate::types::IDEMPOTENCY_TIMEOUT_TICKS {
                m.contains_key(k) && fulfilled_like(m[k], p, new_ticks)
            } else {
                !m.contains_key(k)
            }
        } else {
            m.contains_key(k) && fulfilled_like(m[k], p, 0)
        }
    }
}

impl OutboundPayments {
    /// One idempotency-cleanup pass over all payments, driven by a timer.
    /// Only `Fulfilled` payments with no outstanding HTLCs age; any queued
    /// event that references such a payment keeps it alive with its clock
    /// reset, so a payment id stays unusable while its settlement event is
    /// undrained.
    pub fn remove_stale_resolved_payments(&mut self, pending_events: &Vec<Event>)
        requires
            old(self).wf(),
        ensures
            final(self).wf(),
            forall|k: Seq<u8>| #[trigger]
                final(self)@.contains_key(k) ==> old(self)@.contains_key(k),
            forall|k: Seq<u8>| #[trigger]
                old(self)@.contains_key(k) ==> stale_cleanup_post(
                    old(self)@[k],
                    pending_events@,
                    k,
                    final(self)@,
                ),
    {
        let ghost orig = self.payments@;
        let mut i: usize = 0;
        let ghost mut j: int = 0;
        while i < self.payments.len()
            invariant
                self.wf(),
                orig == old(self).payments@,
                assoc_map(orig) == old(self)@,
                keys_of(orig).no_duplicates(),
                0 <= i <= self.payments@.len(),
                i <= j <= orig.len(),
                self.payments@.len() - i == orig.len() - j,
                forall|t: int|
                    j <= t < orig.len() ==> self.payments@[i + (t - j)] == #[trigger] orig[t],
                forall|x: Seq<u8>| #[trigger]
                    assoc_map(self.payments@).contains_key(x) ==> assoc_map(orig).contains_key(x),
                forall|t: int|
                    0 <= t < j ==> stale_cleanup_post(
                        (#[trigger] orig[t]).1,
                        pending_events@,
                        orig[t].0@,
                        self@,
                    ),
            decreases self.payments@.len() - i,
        {
            let ghost entries = self.payments@;
            let ghost k = orig[j].0@;
            let ghost p = orig[j].1;
            proof {
                assert(entries[i as int] == orig[j]);
                lemma_assoc_map_index(entries, i as int);
                lemma_assoc_map_index(orig, j);
                assert(old(self)@.contains_key(k));
            }
            let is_fulfilled = self.payments[i].1.is_fulfilled();
            if !is_fulfilled {
                i += 1;
                proof {
                    j = j + 1;
                }
            } else {
                let pid = self.payments[i].0;
                let referenced = crate::types::events_reference_payment(pending_events, &pid);
                let keep = {
                    let entry = &mut self.payments[i];
                    entry.1.stale_tick(referenced)
                };
                proof {
                    let newp = self.payments@[i as int].1;
                    assert(self.payments@ == entries.update(i as int, (orig[j].0, newp)));
                    lemma_assoc_map_update(entries, i as int, newp);
                    assert(entries[i as int].0 == orig[j].0);
                    assert(self@ =~= assoc_map(entries).insert(k, newp));
                    assert(keys_of(self.payments@) =~= keys_of(entries));
                    assert(self.wf()) by {
                        assert forall|t: int|
                            0 <= t < self.payments@.len() implies (
                        #[trigger] self.payments@[t].1).wf() by {
                            if t != i {
                                assert(self.payments@[t] == entries[t]);
                            }
                        }
                    }
                }
                if keep {
                    i += 1;
                    proof {
                        j = j + 1;
                        assert forall|x: Seq<u8>| #[trigger]
                            assoc_map(self.payments@).contains_key(x) implies assoc_map(
                            orig,
                        ).contains_key(x) by {
                            if x == k {
                                assert(assoc_map(orig).contains_key(k));
                            } else {
                                assert(assoc_map(entries).contains_key(x));
                            }
                        }
                        assert forall|t: int|
                            0 <= t < j implies stale_cleanup_post(
                            (#[trigger] orig[t]).1,
                            pending_events@,
                            orig[t].0@,
                            self@,
                        ) by {
                            if t < j - 1 {
                                assert(orig[t].0@ != k) by {
                                    assert(keys_of(orig)[t] == orig[t].0@);
                                    assert(keys_of(orig)[j - 1] == k);
                                }
                            }
                        }
                    }
                } else {
                    let ghost entries2 = self.payments@;
                    let _ = self.payments.remove(i);
                    proof {
                        lemma_assoc_map_remove(entries2, i as int);
                        assert(self.payments@ =~= entries2.remove(i as int));
                        assert(self.wf()) by {
                            assert forall|t: int|
                                0 <= t < self.payments@.len() implies (
                            #[trigger] self.payments@[t].1).wf() by {
                                if t < i {
                                    assert(self.payments@[t] == entries2[t]);
                                } else {
                                    assert(self.payments@[t] == entries2[t + 1]);
                                }
                            }
                        }
                        j = j + 1;
                        assert forall|x: Seq<u8>| #[trigger]
                            assoc_map(self.payments@).contains_key(x) implies assoc_map(
                            orig,
                        ).contains_key(x) by {
                            if x != k {
                                assert(assoc_map(entries2).contains_key(x));
                                assert(assoc_map(entries).contains_key(x));
                            }
                        }
                        assert forall|t: int|
                            0 <= t < j implies stale_cleanup_post(
                            (#[trigger] orig[t]).1,
                            pending_events@,
                            orig[t].0@,
                            self@,
                        ) by {
                            if t < j - 1 {
                                assert(orig[t].0@ != k) by {
                                    assert(keys_of(orig)[t] == orig[t].0@);
                                    assert(keys_of(orig)[j - 1] == k);
                                }
                            }
                        }
                        assert forall|t: int|
                            j <= t < orig.len() implies self.payments@[i + (t - j)] == (
                        #[trigger] orig[t]) by {
                            assert(entries2[i + (t - j) + 1] == entries[i + (t - j) + 1]);
                        }
                    }
                }
            }
        }
        proof {
            assert(j == orig.len());
            assert forall|k: Seq<u8>| #[trigger]
                old(self)@.contains_key(k) implies stale_cleanup_post(
                old(self)@[k],
                pending_events@,
                k,
                self@,
            ) by {
                lemma_assoc_map_dom(orig, k);
                let t = choose|t: int| 0 <= t < keys_of(orig).len() && keys_of(orig)[t] == k;
                assert(orig[t].0@ == k);
                lemma_assoc_map_index(orig, t);
            }
        }
    }
}



/// The sessions that the first `t` sources claim for payment `k`.
pub open spec fn claimed_sessions(srcs: Seq<HtlcSource>, k: Seq<u8>, t: int) -> Set<Seq<u8>> {
    Set::new(
        |sp: Seq<u8>|
            exists|i: int|
                0 <= i < t && (#[trigger] srcs[i]).payment_id@ == k && srcs[i].session_priv@ == sp,
    )
}

/// Whether `ev` is the `PaymentPathSuccessful` event for one claimed source.
pub open spec fn path_successful_event_for(
    ev: Event,
    src: HtlcSource,
    hash: Option<PaymentHash>,
) -> bool {
    ev matches Event::PaymentPathSuccessful { payment_id, payment_hash, path } && payment_id@
        == src.payment_id@ && payment_hash == hash && path@ == src.path@
}

impl OutboundPayments {
    /// Resolves sessions that upstream channel accounting confirmed claimed:
    /// each source's session leaves its payment's set, with a
    /// `PaymentPathSuccessful` event. Callers hand in sources of fulfilled
    /// payments only.
    pub fn finalize_claims(&mut self, sources: Vec<HtlcSource>, pending_events: &mut Vec<Event>)
        requires
            old(self).wf(),
            forall|i: int|
                0 <= i < sources@.len() && old(self)@.contains_key(
                    (#[trigger] sources@[i]).payment_id@,
                ) ==> old(self)@[sources@[i].payment_id@] is Fulfilled,
        ensures
            final(self).wf(),
            forall|k: Seq<u8>|
                final(self)@.contains_key(k) == #[trigger] old(self)@.contains_key(k),
            forall|k: Seq<u8>| #[trigger]
                old(self)@.contains_key(k) ==> {
                    let p = old(self)@[k];
                    let q = final(self)@[k];
                    &&& q.same_non_session_fields(&p)
                    &&& q.sessions() =~= p.sessions().difference(
                        claimed_sessions(sources@, k, sources@.len() as int),
                    )
                },
            old(pending_events)@.is_prefix_of(final(pending_events)@),
            forall|j: int|
                old(pending_events)@.len() <= j < final(pending_events)@.len() ==> (
                #[trigger] final(pending_events)@[j]) is PaymentPathSuccessful,
            forall|i: int|
                0 <= i < sources@.len() && old(self)@.contains_key(
                    (#[trigger] sources@[i]).payment_id@,
                ) && old(self)@[sources@[i].payment_id@].sessions().contains(
                    sources@[i].session_priv@,
                ) && !claimed_sessions(sources@, sources@[i].payment_id@, i).contains(
                    sources@[i].session_priv@,
                ) ==> exists|j: int|
                    old(pending_events)@.len() <= j < final(pending_events)@.len()
                        && path_successful_event_for(
                        final(pending_events)@[j],
                        sources@[i],
                        old(self)@[sources@[i].payment_id@].spec_payment_hash(),
                    ),
    {
        let ghost srcs = sources@;
        let ghost n0 = old(pending_events)@.len() as int;
        let mut idx: usize = 0;
        while idx < sources.len()
            invariant
                self.wf(),
                srcs == sources@,
                0 <= idx <= srcs.len(),
                forall|i: int|
                    0 <= i < srcs.len() && old(self)@.contains_key(
                        (#[trigger] srcs[i]).payment_id@,
                    ) ==> old(self)@[srcs[i].payment_id@] is Fulfilled,
                n0 == old(pending_events)@.len() as int,
                forall|k: Seq<u8>|
                    assoc_map(self.payments@).contains_key(k) == #[trigger] old(
                        self,
                    )@.contains_key(k),
                forall|k: Seq<u8>| #[trigger]
                    old(self)@.contains_key(k) ==> {
                        let p = old(self)@[k];
                        let q = assoc_map(self.payments@)[k];
                        &&& q.same_non_session_fields(&p)
                        &&& q.sessions() =~= p.sessions().difference(
                            claimed_sessions(srcs, k, idx as int),
                        )
                    },
                old(pending_events)@.is_prefix_of(pending_events@),
                forall|j: int|
                    n0 <= j < pending_events@.len() ==> (
                    #[trigger] pending_events@[j]) is PaymentPathSuccessful,
                forall|i: int|
                    0 <= i < idx && old(self)@.contains_key((#[trigger] srcs[i]).payment_id@)
                        && old(self)@[srcs[i].payment_id@].sessions().contains(
                        srcs[i].session_priv@,
                    ) && !claimed_sessions(srcs, srcs[i].payment_id@, i).contains(
                        srcs[i].session_priv@,
                    ) ==> exists|j: int|
                        n0 <= j < pending_events@.len() && path_successful_event_for(
                            pending_events@[j],
                            srcs[i],
                            old(self)@[srcs[i].payment_id@].spec_payment_hash(),
                        ),
            decreases srcs.len() - idx,
        {
            let ghost k = srcs[idx as int].payment_id@;
            let ghost sp = srcs[idx as int].session_priv@;
            let ghost evs_before = pending_events@;
            let source_payment_id = sources[idx].payment_id;
            match self.take_payment(&source_payment_id) {
                None => {
                    proof {
                        assert forall|k2: Seq<u8>| #[trigger]
                            old(self)@.contains_key(k2) implies claimed_sessions(
                            srcs,
                            k2,
                            idx + 1,
                        ) =~= claimed_sessions(srcs, k2, idx as int) by {
                            assert(k2 != k);
                            assert forall|sp2: Seq<u8>|
                                claimed_sessions(srcs, k2, idx + 1).contains(
                                    sp2,
                                ) implies claimed_sessions(srcs, k2, idx as int).contains(sp2) by {
                                let i = choose|i: int|
                                    0 <= i < idx + 1 && (#[trigger] srcs[i]).payment_id@ == k2
                                        && srcs[i].session_priv@ == sp2;
                                assert(i < idx);
                            }
                        }
                    }
                },
                Some((id, mut payment)) => {
                    let ghost q_before = payment;
                    proof {
                        assert(old(self)@.contains_key(k));
                        assert((#[trigger] srcs[idx as int]).payment_id@ == k);
                        assert(old(self)@[k] is Fulfilled);
                        assert(q_before.same_non_session_fields(&old(self)@[k]));
                        assert(q_before is Fulfilled);
                        assert(q_before.sessions() =~= old(self)@[k].sessions().difference(
                            claimed_sessions(srcs, k, idx as int),
                        ));
                    }
                    let removed = payment.remove(&sources[idx].session_priv, None);
                    if removed {
                        let payment_hash = payment.payment_hash();
                        pending_events.push(
                            Event::PaymentPathSuccessful {
                                payment_id: id,
                                payment_hash,
                                path: crate::types::copy_vec(&sources[idx].path),
                            },
                        );
                    }
                    self.put_payment(id, payment);
                    proof {
                        let p = old(self)@[k];
                        assert(payment.sessions() =~= p.sessions().difference(
                            claimed_sessions(srcs, k, idx + 1),
                        )) by {
                            assert(claimed_sessions(srcs, k, idx + 1) =~= claimed_sessions(
                                srcs,
                                k,
                                idx as int,
                            ).insert(sp)) by {
                                assert((#[trigger] srcs[idx as int]).payment_id@ == k
                                    && srcs[idx as int].session_priv@ == sp);
                                assert forall|sp2: Seq<u8>|
                                    claimed_sessions(srcs, k, idx + 1).contains(sp2) && sp2
                                        != sp implies claimed_sessions(srcs, k, idx as int).contains(
                                    sp2,
                                ) by {
                                    let i = choose|i: int|
                                        0 <= i < idx + 1 && (#[trigger] srcs[i]).payment_id@ == k
                                            && srcs[i].session_priv@ == sp2;
                                    assert(i < idx);
                                }
                            }
                        }
                        assert forall|k2: Seq<u8>| #[trigger]
                            old(self)@.contains_key(k2) && k2 != k implies claimed_sessions(
                            srcs,
                            k2,
                            idx + 1,
                        ) =~= claimed_sessions(srcs, k2, idx as int) by {
                            assert forall|sp2: Seq<u8>|
                                claimed_sessions(srcs, k2, idx + 1).contains(
                                    sp2,
                                ) implies claimed_sessions(srcs, k2, idx as int).contains(sp2) by {
                                let i = choose|i: int|
                                    0 <= i < idx + 1 && (#[trigger] srcs[i]).payment_id@ == k2
                                        && srcs[i].session_priv@ == sp2;
                                assert(i < idx);
                            }
                        }
                        if removed {
                            assert(path_successful_event_for(
                                pending_events@[pending_events@.len() - 1],
                                srcs[idx as int],
                                old(self)@[k].spec_payment_hash(),
                            ));
                        } else {
                            assert(!q_before.sessions().contains(sp));
                        }
                    }
                },
            }
            proof {
                assert forall|i2: int|
                    0 <= i2 < idx + 1 && old(self)@.contains_key(
                        (#[trigger] srcs[i2]).payment_id@,
                    ) && old(self)@[srcs[i2].payment_id@].sessions().contains(
                        srcs[i2].session_priv@,
                    ) && !claimed_sessions(srcs, srcs[i2].payment_id@, i2).contains(
                        srcs[i2].session_priv@,
                    ) implies exists|j: int|
                    n0 <= j < pending_events@.len() && path_successful_event_for(
                        pending_events@[j],
                        srcs[i2],
                        old(self)@[srcs[i2].payment_id@].spec_payment_hash(),
                    ) by {
                    if i2 < idx {
                        let j = choose|j: int|
                            n0 <= j < evs_before.len() && path_successful_event_for(
                                evs_before[j],
                                srcs[i2],
                                old(self)@[srcs[i2].payment_id@].spec_payment_hash(),
                            );
                        assert(pending_events@[j] == evs_before[j]);
                        assert(path_successful_event_for(
                            pending_events@[j],
                            srcs[i2],
                            old(self)@[srcs[i2].payment_id@].spec_payment_hash(),
                        ));
                    } else {
                        let j = pending_events@.len() - 1;
                        assert(path_successful_event_for(
                            pending_events@[j],
                            srcs[i2],
                            old(self)@[srcs[i2].payment_id@].spec_payment_hash(),
                        ));
                    }
                }
            }
            idx += 1;
        }
    }
}



/// The retry parameters that a path failure computes: the failed path's
/// value, the stored parameters when present (backfilled with the path's
/// final CLTV delta and, for non-probes, the failing channel appended once
/// more), else the parameters the HTLC carried.
pub open spec fn retry_matches(
    r2: Option<RouteParameters>,
    stored: Option<PaymentParameters>,
    arg: Option<PaymentParameters>,
    scid: Option<u64>,
    probe: bool,
    path: Seq<RouteHop>,
) -> bool {
    match stored {
        Some(pp) => r2 matches Some(rp) && {
            let delta: u32 = if pp.final_cltv_expiry_delta is Some {
                pp.final_cltv_expiry_delta.unwrap()
            } else {
                path.last().cltv_expiry_delta
            };
            let prev1: Seq<u64> = if scid is Some {
                pp.previously_failed_channels@.push(scid.unwrap())
            } else {
                pp.previously_failed_channels@
            };
            let prev2: Seq<u64> = if !probe && scid is Some {
                prev1.push(scid.unwrap())
            } else {
                prev1
            };
            &&& rp.final_value_msat == crate::types::path_amt(path)
            &&& rp.final_cltv_expiry_delta == delta
            &&& rp.payment_params.expiry_time == pp.expiry_time
            &&& rp.payment_params.final_cltv_expiry_delta == Some(delta)
            &&& rp.payment_params.previously_failed_channels@ == prev2
        },
        None => match arg {
            Some(ap) => r2 matches Some(rp) && {
                let delta: u32 = if ap.final_cltv_expiry_delta is Some {
                    ap.final_cltv_expiry_delta.unwrap()
                } else {
                    path.last().cltv_expiry_delta
                };
                let prev: Seq<u64> = if !probe && scid is Some {
                    ap.previously_failed_channels@.push(scid.unwrap())
                } else {
                    ap.previously_failed_channels@
                };
                &&& rp.final_value_msat == crate::types::path_amt(path)
                &&& rp.final_cltv_expiry_delta == delta
                &&& rp.payment_params.expiry_time == ap.expiry_time
                &&& rp.payment_params.final_cltv_expiry_delta == ap.final_cltv_expiry_delta
                &&& rp.payment_params.previously_failed_channels@ == prev
            },
            None => r2 is None,
        },
    }
}

impl OutboundPayments {
    /// Handles one failed HTLC: drops its session from the payment, records
    /// the failing channel, computes parameters for a retry, and emits the
    /// failure events. A duplicate failure (unknown id or session) changes
    /// nothing; a failure on a fulfilled payment only drops the session. When
    /// the last session of an abandoned payment fails, the payment is dropped
    /// with a `PaymentFailed` event. A probe payment gets `ProbeSuccessful`
    /// or `ProbeFailed` instead of `PaymentPathFailed`, and a retryable
    /// failure with attempts remaining signals `PendingHTLCsForwardable`.
    pub fn fail_htlc(
        &mut self,
        payment_hash: &PaymentHash,
        payment_retryable: bool,
        network_update: Option<NetworkUpdate>,
        short_channel_id: Option<u64>,
        path: &Vec<RouteHop>,
        session_priv: &[u8; 32],
        payment_id: &PaymentId,
        payment_params: &Option<PaymentParameters>,
        probing_cookie_secret: [u8; 32],
        now_ticks: u64,
        pending_events: &mut Vec<Event>,
    )
        requires
            old(self).wf(),
            path@.len() > 0,
        ensures
            final(self).wf(),
            ({
                let n0 = old(pending_events)@.len() as int;
                let known = old(self)@.contains_key(payment_id@) && old(
                    self,
                )@[payment_id@].sessions().contains(session_priv@);
                if !known {
                    &&& final(self)@ =~= old(self)@
                    &&& final(pending_events)@ == old(pending_events)@
                } else {
                    let p = old(self)@[payment_id@];
                    let sessions_after = p.sessions().remove(session_priv@);
                    if p is Fulfilled {
                        &&& final(pending_events)@ == old(pending_events)@
                        &&& final(self)@ =~= old(self)@.insert(
                            payment_id@,
                            final(self)@[payment_id@],
                        )
                        &&& final(self)@.contains_key(payment_id@)
                        &&& {
                            let q = final(self)@[payment_id@];
                            &&& q is Fulfilled
                            &&& q.sessions() =~= sessions_after
                            &&& q.same_non_session_fields(&p)
                        }
                    } else {
                        let all_failed = sessions_after.len() == 0;
                        let dropped = all_failed && p is Abandoned;
                        let probe = crate::hashing::is_probe(
                            payment_hash@,
                            payment_id@,
                            probing_cookie_secret@,
                        );
                        let retry_possible = p.spec_params() is Some || *payment_params is Some;
                        let signal_retry = !probe && payment_retryable && p.auto_retryable(
                            now_ticks,
                        ) && retry_possible;
                        &&& (dropped ==> final(self)@ =~= old(self)@.remove(payment_id@))
                        &&& (!dropped ==> {
                            &&& final(self)@ =~= old(self)@.insert(
                                payment_id@,
                                final(self)@[payment_id@],
                            )
                            &&& final(self)@.contains_key(payment_id@)
                            &&& {
                                let q = final(self)@[payment_id@];
                                &&& q.same_non_session_fields_except_params(&p)
                                &&& q.sessions() =~= sessions_after
                                &&& (p is Retryable ==> q.spec_pending_amt() == (if p.spec_pending_amt()
                                    >= crate::types::path_amt(path@) {
                                    p.spec_pending_amt() - crate::types::path_amt(path@)
                                } else {
                                    0int
                                }))
                                &&& (match p.spec_params() {
                                    Some(pp) => q.spec_params() matches Some(qp)
                                        && qp.expiry_time == pp.expiry_time
                                        && qp.previously_failed_channels@ == (
                                    if short_channel_id is Some {
                                        pp.previously_failed_channels@.push(
                                            short_channel_id.unwrap(),
                                        )
                                    } else {
                                        pp.previously_failed_channels@
                                    }) && qp.final_cltv_expiry_delta == (
                                    if pp.final_cltv_expiry_delta is Some {
                                        pp.final_cltv_expiry_delta
                                    } else {
                                        Some(path@.last().cltv_expiry_delta)
                                    }),
                                    None => q.spec_params() is None,
                                })
                            }
                        })
                        &&& final(pending_events)@.len() == n0 + 1 + (if dropped {
                            1int
                        } else {
                            0int
                        }) + (if signal_retry {
                            1int
                        } else {
                            0int
                        })
                        &&& old(pending_events)@.is_prefix_of(final(pending_events)@)
                        &&& (probe && !payment_retryable ==> (final(pending_events)@[n0] matches Event::ProbeSuccessful { payment_id: pid, payment_hash: h, path: pth }
                            && pid@ == payment_id@ && h == *payment_hash && pth@ == path@))
                        &&& (probe && payment_retryable ==> (final(pending_events)@[n0] matches Event::ProbeFailed { payment_id: pid, payment_hash: h, path: pth, short_channel_id: sc }
                            && pid@ == payment_id@ && h == *payment_hash && pth@ == path@ && sc
                            == short_channel_id))
                        &&& (!probe ==> (final(pending_events)@[n0] matches Event::PaymentPathFailed {
                            payment_id: pid,
                            payment_hash: h,
                            payment_failed_permanently,
                            network_update: nu,
                            all_paths_failed: apf,
                            path: pth,
                            short_channel_id: sc,
                            retry: r2,
                        } && (pid matches Some(x) && x@ == payment_id@) && h == *payment_hash
                            && payment_failed_permanently == !payment_retryable && nu
                            == network_update && apf == all_failed && pth@ == path@ && sc
                            == short_channel_id && retry_matches(
                            r2,
                            p.spec_params(),
                            *payment_params,
                            short_channel_id,
                            false,
                            path@,
                        )))
                        &&& (dropped ==> (final(pending_events)@[n0 + 1] matches Event::PaymentFailed { payment_id: pid, payment_hash: h }
                            && pid@ == payment_id@ && Some(h) == p.spec_payment_hash()))
                        &&& (signal_retry ==> (final(pending_events)@[n0 + 1 + (if dropped {
                            1int
                        } else {
                            0int
                        })] matches Event::PendingHTLCsForwardable { time_forwardable_millis }
                            && time_forwardable_millis
                            == crate::types::MIN_HTLC_RELAY_HOLDING_CELL_MILLIS))
                    }
                }
            }),
    {
        let ghost k = payment_id@;
        match self.take_payment(payment_id) {
            None => {
                // A duplicative failure for an unknown payment; nothing to do.
            },
            Some((id, mut payment)) => {
                let ghost p = payment;
                if !payment.remove(session_priv, Some(path)) {
                    self.put_payment(id, payment);
                    proof {
                        assert(old(self)@.remove(k).insert(k, old(self)@[k]) =~= old(self)@);
                    }
                    return ;
                }
                if payment.is_fulfilled() {
                    // A failure arriving after the payment completed: the
                    // session is gone, nothing further to report.
                    self.put_payment(id, payment);
                    proof {
                        assert(old(self)@.remove(k).insert(k, payment) =~= old(self)@.insert(
                            k,
                            payment,
                        ));
                    }
                    return ;
                }
                let attempts_remaining = payment.is_auto_retryable_now(now_ticks);
                if let Some(scid) = short_channel_id {
                    payment.insert_previously_failed_scid(scid);
                }
                let path_last_cltv = path[path.len() - 1].cltv_expiry_delta;
                let path_last_fee = path[path.len() - 1].fee_msat;
                payment.backfill_final_cltv_expiry_delta(path_last_cltv);
                let mut retry: Option<RouteParameters> = None;
                match payment.payment_parameters() {
                    Some(params) => {
                        let delta = match params.final_cltv_expiry_delta {
                            Some(d) => d,
                            None => {
                                proof {
                                    assert(false);
                                }
                                path_last_cltv
                            },
                        };
                        retry = Some(
                            RouteParameters {
                                payment_params: params,
                                final_value_msat: path_last_fee,
                                final_cltv_expiry_delta: delta,
                            },
                        );
                    },
                    None => {
                        if let Some(params_arg) = payment_params {
                            let delta = match params_arg.final_cltv_expiry_delta {
                                Some(d) => d,
                                None => path_last_cltv,
                            };
                            retry = Some(
                                RouteParameters {
                                    payment_params: params_arg.duplicate(),
                                    final_value_msat: path_last_fee,
                                    final_cltv_expiry_delta: delta,
                                },
                            );
                        }
                    },
                }
                let all_paths_failed = payment.remaining_parts() == 0;
                let mut full_failure_ev: Option<Event> = None;
                if all_paths_failed && payment.abandoned() {
                    let hash = match payment.payment_hash() {
                        Some(h) => h,
                        None => {
                            proof {
                                assert(false);
                            }
                            PaymentHash([0u8; 32])
                        },
                    };
                    full_failure_ev = Some(
                        Event::PaymentFailed { payment_id: id, payment_hash: hash },
                    );
                } else {
                    self.put_payment(id, payment);
                    proof {
                        assert(old(self)@.remove(k).insert(k, payment) =~= old(self)@.insert(
                            k,
                            payment,
                        ));
                    }
                }
                let probe = crate::hashing::payment_is_probe(
                    payment_hash,
                    payment_id,
                    probing_cookie_secret,
                );
                let mut pending_retry_ev: Option<Event> = None;
                let path_failure = if probe {
                    if !payment_retryable {
                        Event::ProbeSuccessful {
                            payment_id: *payment_id,
                            payment_hash: *payment_hash,
                            path: crate::types::copy_vec(path),
                        }
                    } else {
                        Event::ProbeFailed {
                            payment_id: *payment_id,
                            payment_hash: *payment_hash,
                            path: crate::types::copy_vec(path),
                            short_channel_id,
                        }
                    }
                } else {
                    if let Some(scid) = short_channel_id {
                        if let Some(r) = &mut retry {
                            r.payment_params.previously_failed_channels.push(scid);
                        }
                    }
                    if payment_retryable && attempts_remaining && retry.is_some() {
                        pending_retry_ev = Some(
                            Event::PendingHTLCsForwardable {
                                time_forwardable_millis:
                                    crate::types::MIN_HTLC_RELAY_HOLDING_CELL_MILLIS,
                            },
                        );
                    }
                    Event::PaymentPathFailed {
                        payment_id: Some(*payment_id),
                        payment_hash: *payment_hash,
                        payment_failed_permanently: !payment_retryable,
                        network_update,
                        all_paths_failed,
                        path: crate::types::copy_vec(path),
                        short_channel_id,
                        retry,
                    }
                };
                pending_events.push(path_failure);
                if let Some(ev) = full_failure_ev {
                    pending_events.push(ev);
                }
                if let Some(ev) = pending_retry_ev {
                    pending_events.push(ev);
                }
            },
        }
    }
}



/// The hypothesis under which the dispatch amounts are exact: the dispatched
/// sessions are distinct, every one of them is outstanding on the payment,
/// and no path is empty.
pub open spec fn dispatch_amounts_tracked(
    p: PendingOutboundPayment,
    privs: Seq<[u8; 32]>,
    paths: Seq<Vec<RouteHop>>,
) -> bool {
    &&& byte_views(privs).no_duplicates()
    &&& (forall|i: int| 0 <= i < privs.len() ==> p.sessions().contains((#[trigger] privs[i])@))
    &&& crate::types::all_paths_nonempty(paths)
}

/// How one dispatch pass relates the registry before and after: only the
/// dispatched payment changes; exactly the sessions of non-committed paths
/// leave its set, and (when those sessions were all outstanding and
/// distinct) exactly their paths' amounts and fees leave the bookkeeping.
pub open spec fn dispatch_state(
    old_m: Map<Seq<u8>, PendingOutboundPayment>,
    new_m: Map<Seq<u8>, PendingOutboundPayment>,
    k: Seq<u8>,
    privs: Seq<[u8; 32]>,
    paths: Seq<Vec<RouteHop>>,
    results: Seq<Result<(), crate::types::ApiError>>,
) -> bool {
    if old_m.contains_key(k) {
        &&& new_m.contains_key(k)
        &&& new_m.dom() =~= old_m.dom()
        &&& (forall|x: Seq<u8>|
            old_m.contains_key(x) && x != k ==> new_m[x] == #[trigger] old_m[x])
        &&& new_m[k].same_non_session_fields(&old_m[k])
        &&& new_m[k].sessions() =~= old_m[k].sessions().difference(
            crate::sending::removed_privs(privs, results, results.len() as int),
        )
        &&& (privs.len() == results.len() && results.len() == paths.len()
            && dispatch_amounts_tracked(old_m[k], privs, paths) ==> {
            &&& (old_m[k].spec_pending_amt() >= crate::sending::unsent_amount(results, paths)
                ==> new_m[k].spec_pending_amt() == old_m[k].spec_pending_amt()
                - crate::sending::unsent_amount(results, paths))
            &&& (match old_m[k].spec_pending_fee() {
                Some(f) => f >= crate::sending::unsent_fees(results, paths)
                    ==> new_m[k].spec_pending_fee() == Some(
                    (f - crate::sending::unsent_fees(results, paths)) as u64,
                ),
                None => new_m[k].spec_pending_fee() is None,
            })
        })
    } else {
        new_m =~= old_m
    }
}

impl OutboundPayments {
    /// Sends one HTLC along each path and records the per-path outcomes.
    /// A path whose dispatch fails without committing has its session (and
    /// amounts) removed from the payment's bookkeeping at once.
    pub(crate) fn dispatch_paths<SP: crate::collaborators::PathSender>(
        &mut self,
        route: &Route,
        payment_hash: PaymentHash,
        payment_secret: &Option<PaymentSecret>,
        keysend_preimage: Option<PaymentPreimage>,
        payment_id: PaymentId,
        total_value: u64,
        cur_height: u32,
        onion_session_privs: &Vec<[u8; 32]>,
        send_payment_along_path: &SP,
    ) -> (results: Vec<Result<(), crate::types::ApiError>>)
        requires
            old(self).wf(),
            crate::types::all_paths_nonempty(route.paths@),
            onion_session_privs@.len() == route.paths@.len(),
        ensures
            final(self).wf(),
            results@.len() == route.paths@.len(),
            dispatch_state(
                old(self)@,
                final(self)@,
                payment_id@,
                onion_session_privs@,
                route.paths@,
                results@,
            ),
            (forall|i: int|
                0 <= i < results@.len() ==> !crate::sending::removed_at(results@, i))
                ==> *final(self) == *old(self),
            !old(self)@.contains_key(payment_id@) ==> *final(self) == *old(self),
    {
        let ghost orig = old(self)@;
        let ghost k = payment_id@;
        let ghost privs = onion_session_privs@;
        let ghost ps = route.paths@;
        let mut results: Vec<Result<(), crate::types::ApiError>> = Vec::new();
        let mut idx: usize = 0;
        proof {
            assert(crate::sending::removed_privs(privs, results@, 0) =~= Set::<Seq<u8>>::empty());
            assert(ps.subrange(0, 0) =~= Seq::<Vec<RouteHop>>::empty());
            assert(crate::sending::unsent_amount(results@, ps.subrange(0, 0)) == 0);
            assert(crate::sending::unsent_fees(results@, ps.subrange(0, 0)) == 0);
            if orig.contains_key(k) {
                assert(orig[k].sessions().difference(
                    crate::sending::removed_privs(privs, results@, 0),
                ) =~= orig[k].sessions());
            }
        }
        while idx < route.paths.len()
            invariant
                self.wf(),
                ps == route.paths@,
                privs == onion_session_privs@,
                privs.len() == ps.len(),
                crate::types::all_paths_nonempty(ps),
                orig == old(self)@,
                k == payment_id@,
                0 <= idx <= ps.len(),
                results@.len() == idx,
                orig.contains_key(k) ==> {
                    &&& assoc_map(self.payments@).contains_key(k)
                    &&& assoc_map(self.payments@).dom() =~= orig.dom()
                    &&& (forall|x: Seq<u8>|
                        orig.contains_key(x) && x != k ==> assoc_map(self.payments@)[x]
                            == #[trigger] orig[x])
                    &&& assoc_map(self.payments@)[k].same_non_session_fields(&orig[k])
                    &&& assoc_map(self.payments@)[k].sessions() =~= orig[k].sessions().difference(
                        crate::sending::removed_privs(privs, results@, idx as int),
                    )
                    &&& (dispatch_amounts_tracked(orig[k], privs, ps) ==> {
                        &&& (orig[k].spec_pending_amt() >= crate::sending::unsent_amount(
                            results@,
                            ps.subrange(0, idx as int),
                        ) ==> assoc_map(self.payments@)[k].spec_pending_amt()
                            == orig[k].spec_pending_amt() - crate::sending::unsent_amount(
                            results@,
                            ps.subrange(0, idx as int),
                        ))
                        &&& (match orig[k].spec_pending_fee() {
                            Some(f) => f >= crate::sending::unsent_fees(
                                results@,
                                ps.subrange(0, idx as int),
                            ) ==> assoc_map(self.payments@)[k].spec_pending_fee() == Some(
                                (f - crate::sending::unsent_fees(
                                    results@,
                                    ps.subrange(0, idx as int),
                                )) as u64,
                            ),
                            None => assoc_map(self.payments@)[k].spec_pending_fee() is None,
                        })
                    })
                },
                !orig.contains_key(k) ==> *self == *old(self),
                (forall|i: int|
                    0 <= i < idx ==> !crate::sending::removed_at(results@, i)) ==> *self == *old(self),
            decreases ps.len() - idx,
        {
            let ghost results_before = results@;
            let path: &Vec<RouteHop> = &route.paths[idx];
            proof {
                assert(ps[idx as int]@.len() > 0);
            }
            let session_priv = onion_session_privs[idx];
            let mut path_res = send_payment_along_path.send_path(
                path,
                &route.payment_params,
                &payment_hash,
                payment_secret,
                total_value,
                cur_height,
                payment_id,
                &keysend_preimage,
                session_priv,
            );
            let commit_kept = match &path_res {
                Ok(_) => true,
                Err(crate::types::ApiError::MonitorUpdateInProgress) => true,
                Err(_) => false,
            };
            if !commit_kept {
                match self.take_payment(&payment_id) {
                    Some((id, mut payment)) => {
                        let ghost q_before = payment;
                        proof {
                            if dispatch_amounts_tracked(orig[k], privs, ps) {
                                assert(q_before.sessions().contains(session_priv@)) by {
                                    assert(orig[k].sessions().contains(privs[idx as int]@));
                                    if crate::sending::removed_privs(
                                        privs,
                                        results_before,
                                        idx as int,
                                    ).contains(privs[idx as int]@) {
                                        let i = choose|i: int|
                                            0 <= i < idx && crate::sending::removed_at(
                                                results_before,
                                                i,
                                            ) && (#[trigger] privs[i])@ == privs[idx as int]@;
                                        assert(byte_views(privs)[i] == byte_views(
                                            privs,
                                        )[idx as int]);
                                    }
                                }
                            }
                        }
                        let removed = payment.remove(&session_priv, Some(path));
                        self.put_payment(id, payment);
                    },
                    None => {
                        proof {
                            assert(!orig.contains_key(k));
                        }
                        path_res = Err(
                            crate::errors::misuse_error(
                                "Internal error: payment disappeared during processing. Please report this bug!",
                            ),
                        );
                    },
                }
            }
            results.push(path_res);
            proof {
                assert forall|i: int| 0 <= i < idx implies (crate::sending::removed_at(
                    results@,
                    i,
                ) == crate::sending::removed_at(results_before, i)) by {
                    assert(results@[i] == results_before[i]);
                }
                let was_removed = crate::sending::removed_at(results@, idx as int);
                if orig.contains_key(k) {
                    if was_removed {
                        assert(crate::sending::removed_privs(privs, results@, idx + 1)
                            =~= crate::sending::removed_privs(
                            privs,
                            results_before,
                            idx as int,
                        ).insert(privs[idx as int]@)) by {
                            assert forall|sp: Seq<u8>|
                                crate::sending::removed_privs(privs, results@, idx + 1).contains(
                                    sp,
                                ) implies crate::sending::removed_privs(
                                privs,
                                results_before,
                                idx as int,
                            ).insert(privs[idx as int]@).contains(sp) by {
                                let i = choose|i: int|
                                    0 <= i < idx + 1 && crate::sending::removed_at(results@, i) && (
                                    #[trigger] privs[i])@ == sp;
                                if i < idx {
                                    assert(crate::sending::removed_privs(
                                        privs,
                                        results_before,
                                        idx as int,
                                    ).contains(sp));
                                }
                            }
                            assert forall|sp: Seq<u8>|
                                crate::sending::removed_privs(
                                    privs,
                                    results_before,
                                    idx as int,
                                ).insert(privs[idx as int]@).contains(
                                    sp,
                                ) implies crate::sending::removed_privs(
                                privs,
                                results@,
                                idx + 1,
                            ).contains(sp) by {
                                if sp == privs[idx as int]@ {
                                    assert(crate::sending::removed_at(results@, idx as int) && (
                                    privs[idx as int])@ == sp);
                                } else {
                                    let i = choose|i: int|
                                        0 <= i < idx && crate::sending::removed_at(
                                            results_before,
                                            i,
                                        ) && (#[trigger] privs[i])@ == sp;
                                    assert(crate::sending::removed_at(results@, i) && (
                                    privs[i])@ == sp);
                                }
                            }
                        }
                    } else {
                        assert(crate::sending::removed_privs(privs, results@, idx + 1)
                            =~= crate::sending::removed_privs(
                            privs,
                            results_before,
                            idx as int,
                        )) by {
                            assert forall|sp: Seq<u8>|
                                crate::sending::removed_privs(privs, results@, idx + 1).contains(
                                    sp,
                                ) implies crate::sending::removed_privs(
                                privs,
                                results_before,
                                idx as int,
                            ).contains(sp) by {
                                let i = choose|i: int|
                                    0 <= i < idx + 1 && crate::sending::removed_at(results@, i) && (
                                    #[trigger] privs[i])@ == sp;
                                assert(i < idx);
                                assert(crate::sending::removed_at(results_before, i));
                            }
                            assert forall|sp: Seq<u8>|
                                crate::sending::removed_privs(
                                    privs,
                                    results_before,
                                    idx as int,
                                ).contains(sp) implies crate::sending::removed_privs(
                                privs,
                                results@,
                                idx + 1,
                            ).contains(sp) by {
                                let i = choose|i: int|
                                    0 <= i < idx && crate::sending::removed_at(
                                        results_before,
                                        i,
                                    ) && (#[trigger] privs[i])@ == sp;
                                assert(crate::sending::removed_at(results@, i));
                            }
                        }
                    }
                    assert(assoc_map(self.payments@)[k].sessions() =~= orig[k].sessions().difference(
                        crate::sending::removed_privs(privs, results@, idx + 1),
                    ));
                    assert(results@.drop_last() =~= results_before);
                    assert(ps.subrange(0, idx + 1).drop_last() =~= ps.subrange(0, idx as int));
                    assert(ps.subrange(0, idx + 1).last() == ps[idx as int]);
                    assert(crate::sending::unsent_amount(results@, ps.subrange(0, idx + 1))
                        == crate::sending::unsent_amount(results_before, ps.subrange(0, idx as int))
                        + if was_removed {
                        crate::types::path_amt(ps[idx as int]@)
                    } else {
                        0int
                    });
                    assert(crate::sending::unsent_fees(results@, ps.subrange(0, idx + 1))
                        == crate::sending::unsent_fees(results_before, ps.subrange(0, idx as int))
                        + if was_removed {
                        crate::types::path_fees(ps[idx as int]@)
                    } else {
                        0int
                    });
                    crate::types::lemma_path_amt_nonneg(ps[idx as int]@);
                    crate::types::lemma_path_fees_nonneg(ps[idx as int]@);
                    if dispatch_amounts_tracked(orig[k], privs, ps) {
                        crate::sending::lemma_unsent_le_total(
                            results_before,
                            ps.subrange(0, idx as int),
                        );
                        crate::sending::lemma_unsent_le_total(results@, ps.subrange(0, idx + 1));
                        assert(crate::types::all_paths_nonempty(ps.subrange(0, idx as int))) by {
                            assert forall|j: int|
                                0 <= j < idx implies (#[trigger] ps.subrange(0, idx as int)[j])@.len()
                                > 0 by {
                                assert(ps.subrange(0, idx as int)[j] == ps[j]);
                            }
                        }
                        assert(crate::types::all_paths_nonempty(ps.subrange(0, idx + 1))) by {
                            assert forall|j: int|
                                0 <= j < idx + 1 implies (#[trigger] ps.subrange(0, idx + 1)[j])@.len()
                                > 0 by {
                                assert(ps.subrange(0, idx + 1)[j] == ps[j]);
                            }
                        }
                        crate::sending::lemma_unsent_fees_nonneg(
                            results_before,
                            ps.subrange(0, idx as int),
                        );
                        crate::sending::lemma_unsent_fees_nonneg(results@, ps.subrange(0, idx + 1));
                    }
                }
            }
            idx += 1;
        }
        proof {
            assert(ps.subrange(0, ps.len() as int) =~= ps);
        }
        results
    }
}



/// Whether a payment calls for an automatic retry now: a `Retryable` payment
/// whose strategy allows another attempt, with part of its total unsent and
/// parameters to reroute with.
pub open spec fn auto_retry_candidate(p: PendingOutboundPayment, now_ticks: u64) -> bool {
    &&& p is Retryable
    &&& p.auto_retryable(now_ticks)
    &&& p.spec_pending_amt() < p.spec_total()
    &&& p.spec_params() is Some
}

impl OutboundPayments {
    /// Finds one payment due for an automatic retry, with the parameters to
    /// route its unsent balance.
    pub(crate) fn find_auto_retry_candidate(&self, now_ticks: u64) -> (r: Option<
        (PaymentId, RouteParameters),
    >)
        requires
            self.wf(),
        ensures
            match r {
                Some(c) => {
                    &&& self@.contains_key(c.0@)
                    &&& auto_retry_candidate(self@[c.0@], now_ticks)
                    &&& {
                        let p = self@[c.0@];
                        let params = p.spec_params().unwrap();
                        &&& c.1.final_value_msat == p.spec_total() - p.spec_pending_amt()
                        &&& c.1.final_cltv_expiry_delta as int == (
                        if params.final_cltv_expiry_delta is Some {
                            params.final_cltv_expiry_delta.unwrap() as int
                        } else {
                            crate::types::DEFAULT_MIN_FINAL_CLTV_EXPIRY_DELTA as int
                        })
                        &&& c.1.payment_params.expiry_time == params.expiry_time
                        &&& c.1.payment_params.final_cltv_expiry_delta
                            == params.final_cltv_expiry_delta
                        &&& c.1.payment_params.previously_failed_channels@
                            == params.previously_failed_channels@
                    }
                },
                None => forall|k: Seq<u8>| #[trigger]
                    self@.contains_key(k) ==> !auto_retry_candidate(self@[k], now_ticks),
            },
    {
        let mut i: usize = 0;
        while i < self.payments.len()
            invariant
                self.wf(),
                0 <= i <= self.payments@.len(),
                forall|j: int|
                    0 <= j < i ==> !auto_retry_candidate(
                        (#[trigger] self.payments@[j]).1,
                        now_ticks,
                    ),
            decreases self.payments@.len() - i,
        {
            let payment = &self.payments[i].1;
            if payment.is_auto_retryable_now(now_ticks) {
                match payment {
                    PendingOutboundPayment::Retryable {
                        pending_amt_msat,
                        total_msat,
                        payment_params: Some(params),
                        ..
                    } => {
                        if pending_amt_msat < total_msat {
                            let delta = match params.final_cltv_expiry_delta {
                                Some(d) => d,
                                None => crate::types::DEFAULT_MIN_FINAL_CLTV_EXPIRY_DELTA,
                            };
                            let route_params = RouteParameters {
                                payment_params: params.duplicate(),
                                final_value_msat: *total_msat - *pending_amt_msat,
                                final_cltv_expiry_delta: delta,
                            };
                            proof {
                                lemma_assoc_map_index(self.payments@, i as int);
                            }
                            return Some((self.payments[i].0, route_params));
                        }
                    },
                    _ => {},
                }
            }
            proof {
                assert(!auto_retry_candidate(self.payments@[i as int].1, now_ticks));
            }
            i += 1;
        }
        proof {
            assert forall|k: Seq<u8>| #[trigger]
                self@.contains_key(k) implies !auto_retry_candidate(self@[k], now_ticks) by {
                lemma_assoc_map_dom(self.payments@, k);
                let j = choose|j: int|
                    0 <= j < keys_of(self.payments@).len() && keys_of(self.payments@)[j] == k;
                assert(self.payments@[j].0@ == k);
                lemma_assoc_map_index(self.payments@, j);
            }
        }
        None
    }
}


} // verus!
