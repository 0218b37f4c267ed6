use std::cell::{Cell, RefCell};

use outbound_payment::collaborators::{
    EntropySource, LightningError, NodeSigner, PathSender, Router,
};
use outbound_payment::hashing::probing_cookie_from_id;
use outbound_payment::registry::OutboundPayments;
use outbound_payment::types::{
    ApiError, Event, HtlcSource, NodeId, PaymentHash, PaymentId, PaymentParameters,
    PaymentPreimage, PaymentSecret, Retry, Route, RouteHop, RouteParameters,
    IDEMPOTENCY_TIMEOUT_TICKS,
};

struct TestRouter {
    route: Option<Route>,
    calls: Cell<usize>,
}

impl Router for TestRouter {
    fn find_route(
        &self,
        _payer: &NodeId,
        _route_params: &RouteParameters,
    ) -> Result<Route, LightningError> {
        self.calls.set(self.calls.get() + 1);
        match &self.route {
            Some(r) => Ok(r.clone()),
            None => Err(LightningError { err: String::from("no route found") }),
        }
    }
}

struct TestEntropy {
    counter: Cell<u8>,
}

impl TestEntropy {
    fn new() -> Self {
        TestEntropy { counter: Cell::new(1) }
    }
}

impl EntropySource for TestEntropy {
    fn get_secure_random_bytes(&self) -> [u8; 32] {
        let c = self.counter.get();
        self.counter.set(c.wrapping_add(1));
        [c; 32]
    }
}

struct TestSigner;

impl NodeSigner for TestSigner {
    fn get_node_id(&self) -> NodeId {
        NodeId([2; 33])
    }
}

struct TestSender {
    script: RefCell<Vec<Result<(), ApiError>>>,
    sessions: RefCell<Vec<[u8; 32]>>,
}

impl TestSender {
    fn succeeding() -> Self {
        TestSender { script: RefCell::new(Vec::new()), sessions: RefCell::new(Vec::new()) }
    }
}

impl PathSender for TestSender {
    fn send_path(
        &self,
        _path: &Vec<RouteHop>,
        _payment_params: &Option<PaymentParameters>,
        _payment_hash: &PaymentHash,
        _payment_secret: &Option<PaymentSecret>,
        _total_value_msat: u64,
        _cur_height: u32,
        _payment_id: PaymentId,
        _keysend_preimage: &Option<PaymentPreimage>,
        session_priv: [u8; 32],
    ) -> Result<(), ApiError> {
        self.sessions.borrow_mut().push(session_priv);
        let mut script = self.script.borrow_mut();
        if script.is_empty() {
            Ok(())
        } else {
            script.remove(0)
        }
    }
}

fn hop(fee_msat: u64, cltv_expiry_delta: u32) -> RouteHop {
    RouteHop { pubkey: NodeId([9; 33]), short_channel_id: 1, fee_msat, cltv_expiry_delta }
}

fn params() -> PaymentParameters {
    PaymentParameters {
        expiry_time: None,
        final_cltv_expiry_delta: Some(144),
        previously_failed_channels: Vec::new(),
    }
}

fn route_params(final_value_msat: u64) -> RouteParameters {
    RouteParameters { payment_params: params(), final_value_msat, final_cltv_expiry_delta: 144 }
}

fn one_path_route(final_fee: u64) -> Route {
    Route { paths: vec![vec![hop(10, 40), hop(final_fee, 144)]], payment_params: Some(params()) }
}

/// Sends one payment over one path and hands back the session secret the
/// channel layer saw.
fn send_one(
    outbound_payments: &mut OutboundPayments,
    payment_id: PaymentId,
    payment_hash: PaymentHash,
) -> [u8; 32] {
    let router = TestRouter { route: Some(one_path_route(1_000)), calls: Cell::new(0) };
    let entropy = TestEntropy::new();
    let sender = TestSender::succeeding();
    outbound_payments
        .send_payment(
            payment_hash,
            &None,
            payment_id,
            Retry::Attempts(2),
            route_params(1_000),
            &router,
            &entropy,
            &TestSigner,
            0,
            0,
            None,
            &sender,
        )
        .unwrap();
    let session = sender.sessions.borrow()[0];
    session
}

#[test]
fn claim_emits_payment_sent_with_the_fee_paid() {
    let mut outbound_payments = OutboundPayments::new();
    let payment_id = PaymentId([7; 32]);
    let preimage = PaymentPreimage([11; 32]);
    let payment_hash = outbound_payment::hashing::payment_hash_for_preimage(&preimage);
    let session = send_one(&mut outbound_payments, payment_id, payment_hash);

    let mut events = Vec::new();
    let path = one_path_route(1_000).paths[0].clone();
    outbound_payments.claim_htlc(payment_id, preimage, session, path, false, &mut events);
    assert_eq!(events.len(), 1);
    match &events[0] {
        Event::PaymentSent { payment_id: pid, payment_preimage, payment_hash: h, fee_paid_msat } => {
            assert_eq!(*pid, Some(payment_id));
            assert_eq!(*payment_preimage, preimage);
            assert_eq!(*h, payment_hash);
            assert_eq!(*fee_paid_msat, Some(10));
        }
        other => panic!("Unexpected event: {:?}", other),
    }
    assert!(outbound_payments.get(&payment_id).unwrap().is_fulfilled());

    // A duplicate preimage arrival changes nothing.
    let path = one_path_route(1_000).paths[0].clone();
    outbound_payments.claim_htlc(payment_id, preimage, session, path, false, &mut events);
    assert_eq!(events.len(), 1);
}

#[test]
fn onchain_claim_resolves_the_session_at_once() {
    let mut outbound_payments = OutboundPayments::new();
    let payment_id = PaymentId([7; 32]);
    let preimage = PaymentPreimage([11; 32]);
    let payment_hash = outbound_payment::hashing::payment_hash_for_preimage(&preimage);
    let session = send_one(&mut outbound_payments, payment_id, payment_hash);

    let mut events = Vec::new();
    let path = one_path_route(1_000).paths[0].clone();
    outbound_payments.claim_htlc(payment_id, preimage, session, path, true, &mut events);
    assert_eq!(events.len(), 2);
    assert!(matches!(events[0], Event::PaymentSent { .. }));
    match &events[1] {
        Event::PaymentPathSuccessful { payment_id: pid, payment_hash: h, .. } => {
            assert_eq!(*pid, payment_id);
            assert_eq!(*h, Some(payment_hash));
        }
        other => panic!("Unexpected event: {:?}", other),
    }
    assert_eq!(outbound_payments.get(&payment_id).unwrap().remaining_parts(), 0);
}

#[test]
fn finalize_claims_resolves_sessions_of_fulfilled_payments() {
    let mut outbound_payments = OutboundPayments::new();
    let payment_id = PaymentId([7; 32]);
    let preimage = PaymentPreimage([11; 32]);
    let payment_hash = outbound_payment::hashing::payment_hash_for_preimage(&preimage);
    let session = send_one(&mut outbound_payments, payment_id, payment_hash);

    let mut events = Vec::new();
    let path = one_path_route(1_000).paths[0].clone();
    outbound_payments.claim_htlc(payment_id, preimage, session, path, false, &mut events);
    assert_eq!(outbound_payments.get(&payment_id).unwrap().remaining_parts(), 1);

    let path = one_path_route(1_000).paths[0].clone();
    outbound_payments.finalize_claims(
        vec![HtlcSource { session_priv: session, payment_id, path }],
        &mut events,
    );
    assert_eq!(outbound_payments.get(&payment_id).unwrap().remaining_parts(), 0);
    assert!(matches!(events.last().unwrap(), Event::PaymentPathSuccessful { .. }));
}

#[test]
fn idempotency_window_expires_after_enough_quiet_ticks() {
    let mut outbound_payments = OutboundPayments::new();
    let payment_id = PaymentId([7; 32]);
    let preimage = PaymentPreimage([11; 32]);
    let payment_hash = outbound_payment::hashing::payment_hash_for_preimage(&preimage);
    let session = send_one(&mut outbound_payments, payment_id, payment_hash);

    let mut events = Vec::new();
    let path = one_path_route(1_000).paths[0].clone();
    outbound_payments.claim_htlc(payment_id, preimage, session, path, false, &mut events);
    let path = one_path_route(1_000).paths[0].clone();
    outbound_payments.finalize_claims(
        vec![HtlcSource { session_priv: session, payment_id, path }],
        &mut events,
    );

    // While the settlement events are undrained, the payment id stays
    // reserved however often the cleanup runs.
    for _ in 0..20 {
        outbound_payments.remove_stale_resolved_payments(&events);
    }
    assert!(outbound_payments.get(&payment_id).is_some());

    // Once the events are drained, the idempotency clock runs out after
    // the grace period.
    events.clear();
    for _ in 0..(IDEMPOTENCY_TIMEOUT_TICKS as usize + 1) {
        assert!(outbound_payments.get(&payment_id).is_some());
        outbound_payments.remove_stale_resolved_payments(&events);
    }
    assert!(outbound_payments.get(&payment_id).is_none());

    // The id can now be used again.
    let _ = send_one(&mut outbound_payments, payment_id, payment_hash);
    assert!(outbound_payments.get(&payment_id).is_some());
}

#[test]
fn abandon_is_a_no_op_on_fulfilled_payments() {
    let mut outbound_payments = OutboundPayments::new();
    let payment_id = PaymentId([7; 32]);
    let preimage = PaymentPreimage([11; 32]);
    let payment_hash = outbound_payment::hashing::payment_hash_for_preimage(&preimage);
    let session = send_one(&mut outbound_payments, payment_id, payment_hash);

    let mut events = Vec::new();
    let path = one_path_route(1_000).paths[0].clone();
    outbound_payments.claim_htlc(payment_id, preimage, session, path, false, &mut events);

    assert_eq!(outbound_payments.abandon_payment(payment_id), None);
    assert!(outbound_payments.get(&payment_id).unwrap().is_fulfilled());

    // Abandoning an unknown payment also does nothing.
    assert_eq!(outbound_payments.abandon_payment(PaymentId([9; 32])), None);
}

#[test]
fn abandoned_payment_fails_once_its_last_htlc_resolves() {
    let mut outbound_payments = OutboundPayments::new();
    let payment_id = PaymentId([7; 32]);
    let payment_hash = PaymentHash([1; 32]);
    let session = send_one(&mut outbound_payments, payment_id, payment_hash);

    // The HTLC is still in flight, so abandoning only marks the payment.
    assert_eq!(outbound_payments.abandon_payment(payment_id), None);
    assert!(outbound_payments.get(&payment_id).unwrap().abandoned());

    let mut events = Vec::new();
    let path = one_path_route(1_000).paths[0].clone();
    outbound_payments.fail_htlc(
        &payment_hash,
        false,
        None,
        None,
        &path,
        &session,
        &payment_id,
        &None,
        [0; 32],
        0,
        &mut events,
    );
    assert!(outbound_payments.get(&payment_id).is_none());
    assert_eq!(events.len(), 2);
    assert!(matches!(events[0], Event::PaymentPathFailed { .. }));
    match &events[1] {
        Event::PaymentFailed { payment_id: pid, payment_hash: h } => {
            assert_eq!(*pid, payment_id);
            assert_eq!(*h, payment_hash);
        }
        other => panic!("Unexpected event: {:?}", other),
    }
}

#[test]
fn failed_path_emits_retry_parameters_and_retry_signal() {
    let mut outbound_payments = OutboundPayments::new();
    let payment_id = PaymentId([7; 32]);
    let payment_hash = PaymentHash([1; 32]);
    let session = send_one(&mut outbound_payments, payment_id, payment_hash);

    let mut events = Vec::new();
    let path = one_path_route(1_000).paths[0].clone();
    outbound_payments.fail_htlc(
        &payment_hash,
        true,
        None,
        Some(42),
        &path,
        &session,
        &payment_id,
        &None,
        [0; 32],
        0,
        &mut events,
    );
    assert_eq!(events.len(), 2);
    match &events[0] {
        Event::PaymentPathFailed {
            payment_id: pid,
            payment_hash: h,
            payment_failed_permanently,
            all_paths_failed,
            short_channel_id,
            retry,
            ..
        } => {
            assert_eq!(*pid, Some(payment_id));
            assert_eq!(*h, payment_hash);
            assert!(!payment_failed_permanently);
            assert!(*all_paths_failed);
            assert_eq!(*short_channel_id, Some(42));
            let retry = retry.as_ref().expect("retry parameters should be offered");
            assert_eq!(retry.final_value_msat, 1_000);
            assert_eq!(retry.final_cltv_expiry_delta, 144);
            // The failing channel is recorded for rerouting: once in the
            // stored parameters and once more on the retry copy.
            assert_eq!(retry.payment_params.previously_failed_channels, vec![42, 42]);
        }
        other => panic!("Unexpected event: {:?}", other),
    }
    assert!(matches!(events[1], Event::PendingHTLCsForwardable { .. }));

    // A duplicate failure for the same session is ignored.
    let n = events.len();
    outbound_payments.fail_htlc(
        &payment_hash,
        true,
        None,
        Some(42),
        &path,
        &session,
        &payment_id,
        &None,
        [0; 32],
        0,
        &mut events,
    );
    assert_eq!(events.len(), n);
}

#[test]
fn probe_outcomes_are_reported_as_probe_events() {
    let mut outbound_payments = OutboundPayments::new();
    let entropy = TestEntropy::new();
    let sender = TestSender::succeeding();
    let probing_cookie_secret = [13; 32];

    let (payment_hash, payment_id) = outbound_payments
        .send_probe(
            vec![hop(100, 40), hop(900, 144)],
            probing_cookie_secret,
            &entropy,
            &TestSigner,
            0,
            0,
            &sender,
        )
        .unwrap();
    assert_eq!(payment_hash, probing_cookie_from_id(&payment_id, probing_cookie_secret));
    let session = sender.sessions.borrow()[0];

    // A probe that failed at the destination non-retryably did its job.
    let mut events = Vec::new();
    let path = vec![hop(100, 40), hop(900, 144)];
    outbound_payments.fail_htlc(
        &payment_hash,
        false,
        None,
        None,
        &path,
        &session,
        &payment_id,
        &None,
        probing_cookie_secret,
        0,
        &mut events,
    );
    assert_eq!(events.len(), 1);
    match &events[0] {
        Event::ProbeSuccessful { payment_id: pid, payment_hash: h, .. } => {
            assert_eq!(*pid, payment_id);
            assert_eq!(*h, payment_hash);
        }
        other => panic!("Unexpected event: {:?}", other),
    }

    // A second probe that failed early, retryably, reports a failed probe.
    let entropy2 = TestEntropy { counter: Cell::new(100) };
    let sender2 = TestSender::succeeding();
    let (payment_hash2, payment_id2) = outbound_payments
        .send_probe(
            vec![hop(100, 40), hop(900, 144)],
            probing_cookie_secret,
            &entropy2,
            &TestSigner,
            0,
            0,
            &sender2,
        )
        .unwrap();
    let session2 = sender2.sessions.borrow()[0];
    let mut events2 = Vec::new();
    outbound_payments.fail_htlc(
        &payment_hash2,
        true,
        None,
        Some(7),
        &path,
        &session2,
        &payment_id2,
        &None,
        probing_cookie_secret,
        0,
        &mut events2,
    );
    assert_eq!(events2.len(), 1);
    match &events2[0] {
        Event::ProbeFailed { payment_id: pid, payment_hash: h, short_channel_id, .. } => {
            assert_eq!(*pid, payment_id2);
            assert_eq!(*h, payment_hash2);
            assert_eq!(*short_channel_id, Some(7));
        }
        other => panic!("Unexpected event: {:?}", other),
    }
}

#[test]
fn clear_pending_payments_empties_the_registry() {
    let mut outbound_payments = OutboundPayments::new();
    assert!(!outbound_payments.has_pending_payments());
    let _ = send_one(&mut outbound_payments, PaymentId([7; 32]), PaymentHash([1; 32]));
    assert!(outbound_payments.has_pending_payments());
    outbound_payments.clear_pending_payments();
    assert!(!outbound_payments.has_pending_payments());
}

#[test]
fn outstanding_htlcs_keep_a_fulfilled_payment_alive() {
    let mut outbound_payments = OutboundPayments::new();
    let payment_id = PaymentId([7; 32]);
    let preimage = PaymentPreimage([11; 32]);
    let payment_hash = outbound_payment::hashing::payment_hash_for_preimage(&preimage);
    let session = send_one(&mut outbound_payments, payment_id, payment_hash);

    let mut events = Vec::new();
    let path = one_path_route(1_000).paths[0].clone();
    outbound_payments.claim_htlc(payment_id, preimage, session, path, false, &mut events);
    events.clear();

    // The session is still outstanding, so the payment never ages out.
    for _ in 0..20 {
        outbound_payments.remove_stale_resolved_payments(&events);
    }
    assert!(outbound_payments.get(&payment_id).is_some());
}

#[test]
fn events_for_other_payments_do_not_delay_cleanup() {
    let mut outbound_payments = OutboundPayments::new();
    let payment_id = PaymentId([7; 32]);
    let preimage = PaymentPreimage([11; 32]);
    let payment_hash = outbound_payment::hashing::payment_hash_for_preimage(&preimage);
    let session = send_one(&mut outbound_payments, payment_id, payment_hash);

    let mut events = Vec::new();
    let path = one_path_route(1_000).paths[0].clone();
    outbound_payments.claim_htlc(payment_id, preimage, session, path, false, &mut events);
    let path = one_path_route(1_000).paths[0].clone();
    outbound_payments.finalize_claims(
        vec![HtlcSource { session_priv: session, payment_id, path }],
        &mut events,
    );

    // A queue holding only events about some other payment does not reset
    // the idempotency clock.
    let unrelated = vec![Event::PaymentFailed {
        payment_id: PaymentId([9; 32]),
        payment_hash: PaymentHash([9; 32]),
    }];
    for _ in 0..(IDEMPOTENCY_TIMEOUT_TICKS as usize + 1) {
        outbound_payments.remove_stale_resolved_payments(&unrelated);
    }
    assert!(outbound_payments.get(&payment_id).is_none());
}
