use std::cell::{Cell, RefCell};

use outbound_payment::collaborators::{
    EntropySource, LightningError, NodeSigner, PathSender, Router,
};
use outbound_payment::payment_state::PendingOutboundPayment;
use outbound_payment::registry::OutboundPayments;
use outbound_payment::types::{
    ApiError, NodeId, PaymentHash, PaymentId, PaymentParameters, PaymentPreimage, PaymentSecret,
    Retry, Route, RouteHop, RouteParameters,
};

struct TestRouter {
    route: Option<Route>,
    fail: bool,
    calls: Cell<usize>,
}

impl TestRouter {
    fn returning(route: Route) -> Self {
        TestRouter { route: Some(route), fail: false, calls: Cell::new(0) }
    }

    fn failing() -> Self {
        TestRouter { route: None, fail: true, calls: Cell::new(0) }
    }
}

impl Router for TestRouter {
    fn find_route(
        &self,
        _payer: &NodeId,
        _route_params: &RouteParameters,
    ) -> Result<Route, LightningError> {
        self.calls.set(self.calls.get() + 1);
        if self.fail {
            Err(LightningError { err: String::from("no route found") })
        } else {
            Ok(self.route.clone().unwrap())
        }
    }
}

struct TestEntropy {
    counter: Cell<u8>,
}

impl TestEntropy {
    fn new() -> Self {
        TestEntropy { counter: Cell::new(1) }
    }
}

impl EntropySource for TestEntropy {
    fn get_secure_random_bytes(&self) -> [u8; 32] {
        let c = self.counter.get();
        self.counter.set(c.wrapping_add(1));
        [c; 32]
    }
}

struct TestSigner;

impl NodeSigner for TestSigner {
    fn get_node_id(&self) -> NodeId {
        NodeId([2; 33])
    }
}

struct TestSender {
    script: RefCell<Vec<Result<(), ApiError>>>,
    sessions: RefCell<Vec<[u8; 32]>>,
    calls: Cell<usize>,
}

impl TestSender {
    fn succeeding() -> Self {
        TestSender { script: RefCell::new(Vec::new()), sessions: RefCell::new(Vec::new()), calls: Cell::new(0) }
    }

    fn scripted(script: Vec<Result<(), ApiError>>) -> Self {
        TestSender { script: RefCell::new(script), sessions: RefCell::new(Vec::new()), calls: Cell::new(0) }
    }
}

impl PathSender for TestSender {
    fn send_path(
        &self,
        _path: &Vec<RouteHop>,
        _payment_params: &Option<PaymentParameters>,
        _payment_hash: &PaymentHash,
        _payment_secret: &Option<PaymentSecret>,
        _total_value_msat: u64,
        _cur_height: u32,
        _payment_id: PaymentId,
        _keysend_preimage: &Option<PaymentPreimage>,
        session_priv: [u8; 32],
    ) -> Result<(), ApiError> {
        self.calls.set(self.calls.get() + 1);
        self.sessions.borrow_mut().push(session_priv);
        let mut script = self.script.borrow_mut();
        if script.is_empty() {
            Ok(())
        } else {
            script.remove(0)
        }
    }
}

fn hop(fee_msat: u64, cltv_expiry_delta: u32) -> RouteHop {
    RouteHop { pubkey: NodeId([9; 33]), short_channel_id: 1, fee_msat, cltv_expiry_delta }
}

fn params() -> PaymentParameters {
    PaymentParameters {
        expiry_time: None,
        final_cltv_expiry_delta: Some(144),
        previously_failed_channels: Vec::new(),
    }
}

fn route_params(final_value_msat: u64) -> RouteParameters {
    RouteParameters { payment_params: params(), final_value_msat, final_cltv_expiry_delta: 144 }
}

fn one_path_route(final_fee: u64) -> Route {
    Route { paths: vec![vec![hop(10, 40), hop(final_fee, 144)]], payment_params: Some(params()) }
}

fn two_path_route(fee0: u64, fee1: u64) -> Route {
    Route {
        paths: vec![vec![hop(10, 40), hop(fee0, 144)], vec![hop(20, 40), hop(fee1, 150)]],
        payment_params: Some(params()),
    }
}

fn zeros_hex() -> String {
    let mut s = String::new();
    for _ in 0..64 {
        s.push('0');
    }
    s
}

#[test]
fn fails_paying_after_expiration() {
    do_fails_paying_after_expiration(false);
    do_fails_paying_after_expiration(true);
}

fn do_fails_paying_after_expiration(on_retry: bool) {
    let mut outbound_payments = OutboundPayments::new();
    let router = TestRouter::returning(one_path_route(1_000));
    let entropy = TestEntropy::new();
    let signer = TestSigner;
    let sender = TestSender::succeeding();

    let now_secs: u64 = 1_000_000;
    let expired_route_params = RouteParameters {
        payment_params: PaymentParameters {
            expiry_time: Some(now_secs - 2),
            final_cltv_expiry_delta: Some(144),
            previously_failed_channels: Vec::new(),
        },
        final_value_msat: 0,
        final_cltv_expiry_delta: 0,
    };
    let err = if on_retry {
        outbound_payments
            .pay_internal(
                PaymentId([0; 32]),
                None,
                expired_route_params,
                &router,
                &entropy,
                &signer,
                0,
                0,
                Some(now_secs),
                &sender,
            )
            .unwrap_err()
    } else {
        outbound_payments
            .send_payment(
                PaymentHash([0; 32]),
                &None,
                PaymentId([0; 32]),
                Retry::Attempts(0),
                expired_route_params,
                &router,
                &entropy,
                &signer,
                0,
                0,
                Some(now_secs),
                &sender,
            )
            .unwrap_err()
    };
    if let outbound_payment::types::PaymentSendFailure::ParameterError(
        ApiError::APIMisuseError { err },
    ) = err
    {
        assert!(err.contains("Invoice expired"));
        assert_eq!(err, format!("Invoice expired for payment id {}", zeros_hex()));
    } else {
        panic!("Unexpected error");
    }
}

#[test]
fn find_route_error() {
    do_find_route_error(false);
    do_find_route_error(true);
}

fn do_find_route_error(on_retry: bool) {
    let mut outbound_payments = OutboundPayments::new();
    let router = TestRouter::failing();
    let entropy = TestEntropy::new();
    let signer = TestSigner;
    let sender = TestSender::succeeding();

    let err = if on_retry {
        outbound_payments
            .test_add_new_pending_payment(
                PaymentHash([0; 32]),
                None,
                PaymentId([0; 32]),
                &Route { paths: Vec::new(), payment_params: None },
                Some(Retry::Attempts(1)),
                &entropy,
                0,
                0,
            )
            .unwrap();
        outbound_payments
            .pay_internal(
                PaymentId([0; 32]),
                None,
                route_params(0),
                &router,
                &entropy,
                &signer,
                0,
                0,
                None,
                &sender,
            )
            .unwrap_err()
    } else {
        outbound_payments
            .send_payment(
                PaymentHash([0; 32]),
                &None,
                PaymentId([0; 32]),
                Retry::Attempts(0),
                route_params(0),
                &router,
                &entropy,
                &signer,
                0,
                0,
                None,
                &sender,
            )
            .unwrap_err()
    };
    if let outbound_payment::types::PaymentSendFailure::ParameterError(
        ApiError::APIMisuseError { err },
    ) = err
    {
        assert!(err.contains("Failed to find a route"));
    } else {
        panic!("Unexpected error");
    }
}

#[test]
fn duplicate_payment_id_is_rejected() {
    let mut outbound_payments = OutboundPayments::new();
    let router = TestRouter::returning(one_path_route(1_000));
    let entropy = TestEntropy::new();
    let signer = TestSigner;
    let sender = TestSender::succeeding();

    let first = outbound_payments.send_payment(
        PaymentHash([1; 32]),
        &None,
        PaymentId([7; 32]),
        Retry::Attempts(0),
        route_params(1_000),
        &router,
        &entropy,
        &signer,
        0,
        0,
        None,
        &sender,
    );
    assert_eq!(first, Ok(()));
    let second = outbound_payments.send_payment(
        PaymentHash([1; 32]),
        &None,
        PaymentId([7; 32]),
        Retry::Attempts(0),
        route_params(1_000),
        &router,
        &entropy,
        &signer,
        0,
        0,
        None,
        &sender,
    );
    assert_eq!(second, Err(outbound_payment::types::PaymentSendFailure::DuplicatePayment));
}

#[test]
fn multi_path_payment_requires_a_secret() {
    let mut outbound_payments = OutboundPayments::new();
    let entropy = TestEntropy::new();
    let signer = TestSigner;
    let sender = TestSender::succeeding();

    let err = outbound_payments
        .send_payment_with_route(
            &two_path_route(600, 400),
            PaymentHash([1; 32]),
            &None,
            PaymentId([7; 32]),
            &entropy,
            &signer,
            0,
            0,
            &sender,
        )
        .unwrap_err();
    if let outbound_payment::types::PaymentSendFailure::ParameterError(
        ApiError::APIMisuseError { err },
    ) = err
    {
        assert_eq!(err, "Payment secret is required for multi-path payments");
    } else {
        panic!("Unexpected error");
    }
    // A rejected parameter leaves no state behind, so a corrected resend
    // under the same id goes through.
    assert!(!outbound_payments.has_pending_payments());
    outbound_payments
        .send_payment_with_route(
            &two_path_route(600, 400),
            PaymentHash([1; 32]),
            &Some(PaymentSecret([5; 32])),
            PaymentId([7; 32]),
            &entropy,
            &signer,
            0,
            0,
            &sender,
        )
        .unwrap();
    assert!(outbound_payments.has_pending_payments());
}

#[test]
fn partial_failure_keeps_committed_path_and_offers_retry() {
    let mut outbound_payments = OutboundPayments::new();
    let entropy = TestEntropy::new();
    let signer = TestSigner;
    let sender = TestSender::scripted(vec![
        Ok(()),
        Err(ApiError::ChannelUnavailable { err: String::from("saturated") }),
    ]);

    let payment_id = PaymentId([7; 32]);
    let err = outbound_payments
        .send_payment_with_route(
            &two_path_route(600, 400),
            PaymentHash([1; 32]),
            &Some(PaymentSecret([5; 32])),
            payment_id,
            &entropy,
            &signer,
            0,
            0,
            &sender,
        )
        .unwrap_err();
    match err {
        outbound_payment::types::PaymentSendFailure::PartialFailure {
            results,
            failed_paths_retry,
            payment_id: pid,
        } => {
            assert_eq!(pid, payment_id);
            assert_eq!(results.len(), 2);
            assert!(results[0].is_ok());
            assert!(results[1].is_err());
            let retry = failed_paths_retry.expect("the failed path should be retryable");
            assert_eq!(retry.final_value_msat, 400);
            assert_eq!(retry.final_cltv_expiry_delta, 144);
        }
        other => panic!("Unexpected error: {:?}", other),
    }
    // Only the committed path's amount stays pending.
    match outbound_payments.get(&payment_id) {
        Some(PendingOutboundPayment::Retryable { pending_amt_msat, .. }) => {
            assert_eq!(*pending_amt_msat, 600);
        }
        _ => panic!("the payment should remain pending"),
    }
}

#[test]
fn all_paths_failing_removes_the_payment() {
    let mut outbound_payments = OutboundPayments::new();
    let router = TestRouter::returning(one_path_route(1_000));
    let entropy = TestEntropy::new();
    let signer = TestSigner;
    let sender = TestSender::scripted(vec![
        Err(ApiError::ChannelUnavailable { err: String::from("down") }),
    ]);

    let payment_id = PaymentId([7; 32]);
    let res = outbound_payments.send_payment(
        PaymentHash([1; 32]),
        &None,
        payment_id,
        Retry::Attempts(0),
        route_params(1_000),
        &router,
        &entropy,
        &signer,
        0,
        0,
        None,
        &sender,
    );
    assert!(res.is_err());
    assert!(outbound_payments.get(&payment_id).is_none());
    assert!(!outbound_payments.has_pending_payments());
}

#[test]
fn retry_cap_exhausts_and_scanner_stops() {
    let mut outbound_payments = OutboundPayments::new();
    let router = TestRouter::returning(one_path_route(1_000));
    let entropy = TestEntropy::new();
    let signer = TestSigner;
    let ok_sender = TestSender::succeeding();

    let payment_id = PaymentId([7; 32]);
    let res = outbound_payments.send_payment(
        PaymentHash([1; 32]),
        &None,
        payment_id,
        Retry::Attempts(2),
        route_params(1_000),
        &router,
        &entropy,
        &signer,
        0,
        0,
        None,
        &ok_sender,
    );
    assert_eq!(res, Ok(()));

    // The one in-flight HTLC fails; the payment is now short of its total.
    let failed_session = ok_sender.sessions.borrow()[0];
    let path = one_path_route(1_000).paths[0].clone();
    let mut events = Vec::new();
    outbound_payments.fail_htlc(
        &PaymentHash([1; 32]),
        true,
        None,
        None,
        &path,
        &failed_session,
        &payment_id,
        &None,
        [0; 32],
        0,
        &mut events,
    );

    // Automatic retries keep failing until the two permitted attempts are
    // used up.
    let failing_sender = TestSender::scripted(vec![
        Err(ApiError::ChannelUnavailable { err: String::from("down") }),
        Err(ApiError::ChannelUnavailable { err: String::from("down") }),
        Err(ApiError::ChannelUnavailable { err: String::from("down") }),
        Err(ApiError::ChannelUnavailable { err: String::from("down") }),
    ]);
    outbound_payments.check_retry_payments(
        &router,
        &entropy,
        &signer,
        0,
        0,
        None,
        &failing_sender,
    );
    match outbound_payments.get(&payment_id) {
        Some(payment) => assert!(!payment.is_auto_retryable_now(0)),
        None => panic!("the payment should remain until abandoned"),
    }

    // With retries exhausted the scanner finds nothing to do.
    let calls_before = router.calls.get();
    outbound_payments.check_retry_payments(
        &router,
        &entropy,
        &signer,
        0,
        0,
        None,
        &TestSender::succeeding(),
    );
    assert_eq!(router.calls.get(), calls_before);
}

#[test]
fn retry_refusals_name_the_reason() {
    let mut outbound_payments = OutboundPayments::new();
    let entropy = TestEntropy::new();
    let signer = TestSigner;
    let sender = TestSender::succeeding();

    // Unknown payment id.
    let err = outbound_payments
        .retry_payment_with_route(
            &one_path_route(1_000),
            PaymentId([0; 32]),
            &entropy,
            &signer,
            0,
            0,
            &sender,
        )
        .unwrap_err();
    if let outbound_payment::types::PaymentSendFailure::ParameterError(
        ApiError::APIMisuseError { err },
    ) = err
    {
        assert_eq!(err, format!("Payment with ID {} not found", zeros_hex()));
    } else {
        panic!("Unexpected error");
    }

    // A payment with no attempts left: its one HTLC fails, and the
    // zero-attempt strategy refuses a retry.
    let payment_id = PaymentId([7; 32]);
    let privs = outbound_payments
        .test_add_new_pending_payment(
            PaymentHash([1; 32]),
            None,
            payment_id,
            &one_path_route(1_000),
            Some(Retry::Attempts(0)),
            &entropy,
            0,
            0,
        )
        .unwrap();
    let mut events = Vec::new();
    let failed_path = one_path_route(1_000).paths[0].clone();
    outbound_payments.fail_htlc(
        &PaymentHash([1; 32]),
        true,
        None,
        None,
        &failed_path,
        &privs[0],
        &payment_id,
        &None,
        [0; 32],
        0,
        &mut events,
    );
    let err = outbound_payments
        .retry_payment_with_route(
            &one_path_route(1_000),
            payment_id,
            &entropy,
            &signer,
            0,
            0,
            &sender,
        )
        .unwrap_err();
    if let outbound_payment::types::PaymentSendFailure::ParameterError(
        ApiError::APIMisuseError { err },
    ) = err
    {
        assert!(err.starts_with("Retries exhausted for payment id "));
    } else {
        panic!("Unexpected error");
    }

    // A retry that would overpay the 10% allowance.
    let payment_id2 = PaymentId([8; 32]);
    outbound_payments
        .test_add_new_pending_payment(
            PaymentHash([1; 32]),
            None,
            payment_id2,
            &one_path_route(1_000),
            None,
            &entropy,
            0,
            0,
        )
        .unwrap();
    let err = outbound_payments
        .retry_payment_with_route(
            &one_path_route(1_000),
            payment_id2,
            &entropy,
            &signer,
            0,
            0,
            &sender,
        )
        .unwrap_err();
    if let outbound_payment::types::PaymentSendFailure::ParameterError(
        ApiError::APIMisuseError { err },
    ) = err
    {
        assert!(err.contains("more than 10% over"));
    } else {
        panic!("Unexpected error");
    }

    // A zero-length path is rejected before anything else.
    let err = outbound_payments
        .retry_payment_with_route(
            &Route { paths: vec![Vec::new()], payment_params: None },
            payment_id2,
            &entropy,
            &signer,
            0,
            0,
            &sender,
        )
        .unwrap_err();
    if let outbound_payment::types::PaymentSendFailure::ParameterError(
        ApiError::APIMisuseError { err },
    ) = err
    {
        assert_eq!(err, "length-0 path in route");
    } else {
        panic!("Unexpected error");
    }
}

#[test]
fn spontaneous_payment_hashes_its_preimage() {
    let mut outbound_payments = OutboundPayments::new();
    let router = TestRouter::returning(one_path_route(1_000));
    let entropy = TestEntropy::new();
    let signer = TestSigner;
    let sender = TestSender::succeeding();

    let preimage = PaymentPreimage([11; 32]);
    let hash = outbound_payments
        .send_spontaneous_payment(
            Some(preimage),
            PaymentId([7; 32]),
            Retry::Attempts(0),
            route_params(1_000),
            &router,
            &entropy,
            &signer,
            0,
            0,
            None,
            &sender,
        )
        .unwrap();
    let expected = <bitcoin::hashes::sha256::Hash as bitcoin::hashes::Hash>::into_inner(
        <bitcoin::hashes::sha256::Hash as bitcoin::hashes::Hash>::hash(&[11; 32]),
    );
    assert_eq!(hash.0, expected);
}

#[test]
fn probing_a_short_path_is_refused() {
    let mut outbound_payments = OutboundPayments::new();
    let entropy = TestEntropy::new();
    let signer = TestSigner;
    let sender = TestSender::succeeding();

    let err = outbound_payments
        .send_probe(vec![hop(100, 40)], [0; 32], &entropy, &signer, 0, 0, &sender)
        .unwrap_err();
    if let outbound_payment::types::PaymentSendFailure::ParameterError(
        ApiError::APIMisuseError { err },
    ) = err
    {
        assert_eq!(err, "No need probing a path with less than two hops");
    } else {
        panic!("Unexpected error");
    }
}

#[test]
fn a_path_through_us_is_rejected() {
    let mut outbound_payments = OutboundPayments::new();
    let entropy = TestEntropy::new();
    let signer = TestSigner;
    let sender = TestSender::succeeding();

    let mut looped = one_path_route(1_000);
    looped.paths[0][0].pubkey = NodeId([2; 33]);
    let err = outbound_payments
        .send_payment_with_route(
            &looped,
            PaymentHash([1; 32]),
            &None,
            PaymentId([7; 32]),
            &entropy,
            &signer,
            0,
            0,
            &sender,
        )
        .unwrap_err();
    match err {
        outbound_payment::types::PaymentSendFailure::PathParameterError(results) => {
            assert_eq!(results.len(), 1);
            assert!(results[0].is_err());
        }
        other => panic!("Unexpected error: {:?}", other),
    }
    // The rejected route created no lasting state; the same id works with a
    // corrected route.
    assert!(outbound_payments.get(&PaymentId([7; 32])).is_none());
    outbound_payments
        .send_payment_with_route(
            &one_path_route(1_000),
            PaymentHash([1; 32]),
            &None,
            PaymentId([7; 32]),
            &entropy,
            &signer,
            0,
            0,
            &sender,
        )
        .unwrap();
    assert!(outbound_payments.get(&PaymentId([7; 32])).is_some());
}

#[test]
fn retry_scan_stops_when_routing_fails() {
    let mut outbound_payments = OutboundPayments::new();
    let good_router = TestRouter::returning(one_path_route(1_000));
    let entropy = TestEntropy::new();
    let signer = TestSigner;
    let sender = TestSender::succeeding();

    let payment_id = PaymentId([7; 32]);
    outbound_payments
        .send_payment(
            PaymentHash([1; 32]),
            &None,
            payment_id,
            Retry::Attempts(5),
            route_params(1_000),
            &good_router,
            &entropy,
            &signer,
            0,
            0,
            None,
            &sender,
        )
        .unwrap();
    let session = sender.sessions.borrow()[0];
    let path = one_path_route(1_000).paths[0].clone();
    let mut events = Vec::new();
    outbound_payments.fail_htlc(
        &PaymentHash([1; 32]),
        true,
        None,
        None,
        &path,
        &session,
        &payment_id,
        &None,
        [0; 32],
        0,
        &mut events,
    );

    // With the router failing, the scan consults it for the one candidate,
    // sees the error, and stops rather than rescanning.
    let failing_router = TestRouter::failing();
    outbound_payments.check_retry_payments(
        &failing_router,
        &entropy,
        &signer,
        0,
        0,
        None,
        &TestSender::succeeding(),
    );
    assert_eq!(failing_router.calls.get(), 1);
}

#[test]
fn manual_dispatch_reaps_fully_failed_payments() {
    let mut outbound_payments = OutboundPayments::new();
    let entropy = TestEntropy::new();
    let signer = TestSigner;

    let payment_id = PaymentId([7; 32]);
    let route = one_path_route(1_000);
    let privs = outbound_payments
        .test_add_new_pending_payment(
            PaymentHash([1; 32]),
            None,
            payment_id,
            &route,
            None,
            &entropy,
            0,
            0,
        )
        .unwrap();

    let failing = TestSender::scripted(vec![Err(ApiError::ChannelUnavailable {
        err: String::from("down"),
    })]);
    let res = outbound_payments.test_send_payment_internal(
        &route,
        PaymentHash([1; 32]),
        &None,
        None,
        payment_id,
        None,
        privs,
        &signer,
        0,
        &failing,
    );
    match res {
        Err(outbound_payment::types::PaymentSendFailure::AllFailedResendSafe(errs)) => {
            assert_eq!(errs.len(), 1);
        }
        other => panic!("Unexpected result: {:?}", other),
    }
    assert!(outbound_payments.get(&payment_id).is_none());
}

#[test]
fn spontaneous_payment_with_route_reuses_the_preimage_hash() {
    let mut outbound_payments = OutboundPayments::new();
    let entropy = TestEntropy::new();
    let signer = TestSigner;
    let sender = TestSender::succeeding();

    let preimage = PaymentPreimage([11; 32]);
    let hash = outbound_payments
        .send_spontaneous_payment_with_route(
            &one_path_route(1_000),
            Some(preimage),
            PaymentId([7; 32]),
            &entropy,
            &signer,
            0,
            0,
            &sender,
        )
        .unwrap();
    let expected = <bitcoin::hashes::sha256::Hash as bitcoin::hashes::Hash>::into_inner(
        <bitcoin::hashes::sha256::Hash as bitcoin::hashes::Hash>::hash(&[11; 32]),
    );
    assert_eq!(hash.0, expected);
    // The payment keeps the preimage so that retries reuse the same hash.
    match outbound_payments.get(&PaymentId([7; 32])) {
        Some(PendingOutboundPayment::Retryable { keysend_preimage, payment_hash, .. }) => {
            assert_eq!(*keysend_preimage, Some(preimage));
            assert_eq!(payment_hash.0, expected);
        }
        _ => panic!("the payment should be pending"),
    }
}

#[test]
fn stored_payment_parameters_are_copied_out() {
    let mut outbound_payments = OutboundPayments::new();
    let router = TestRouter::returning(one_path_route(1_000));
    let entropy = TestEntropy::new();
    let signer = TestSigner;
    let sender = TestSender::succeeding();

    let payment_id = PaymentId([7; 32]);
    outbound_payments
        .send_payment(
            PaymentHash([1; 32]),
            &None,
            payment_id,
            Retry::Attempts(1),
            route_params(1_000),
            &router,
            &entropy,
            &signer,
            0,
            0,
            None,
            &sender,
        )
        .unwrap();
    let stored = outbound_payments.get(&payment_id).unwrap().payment_parameters().unwrap();
    assert_eq!(stored.final_cltv_expiry_delta, Some(144));
    assert!(stored.previously_failed_channels.is_empty());
}

#[test]
fn partial_failure_in_a_send_counts_as_sent() {
    let mut outbound_payments = OutboundPayments::new();
    let router = TestRouter::returning(two_path_route(600, 400));
    let entropy = TestEntropy::new();
    let signer = TestSigner;
    let sender = TestSender::scripted(vec![
        Ok(()),
        Err(ApiError::ChannelUnavailable { err: String::from("saturated") }),
    ]);

    let payment_id = PaymentId([7; 32]);
    // One path commits, so the payment counts as sent even though the retry
    // of the unsent part goes nowhere.
    let res = outbound_payments.send_payment(
        PaymentHash([1; 32]),
        &Some(PaymentSecret([5; 32])),
        payment_id,
        Retry::Attempts(2),
        route_params(1_000),
        &router,
        &entropy,
        &signer,
        0,
        0,
        None,
        &sender,
    );
    assert_eq!(res, Ok(()));
    match outbound_payments.get(&payment_id) {
        Some(PendingOutboundPayment::Retryable { pending_amt_msat, .. }) => {
            assert_eq!(*pending_amt_msat, 600);
        }
        _ => panic!("the committed part should remain pending"),
    }
}
