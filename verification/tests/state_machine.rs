use outbound_payment::payment_state::PendingOutboundPayment;
use outbound_payment::session_set::SessionSet;
use outbound_payment::types::{
    NodeId, PaymentAttempts, PaymentHash, PaymentSecret, Retry, RouteHop,
};

fn hop(fee_msat: u64, cltv_expiry_delta: u32) -> RouteHop {
    RouteHop { pubkey: NodeId([9; 33]), short_channel_id: 1, fee_msat, cltv_expiry_delta }
}

fn two_hop_path(intermediate_fee: u64, final_fee: u64) -> Vec<RouteHop> {
    vec![hop(intermediate_fee, 40), hop(final_fee, 144)]
}

fn fresh_retryable(total_msat: u64) -> PendingOutboundPayment {
    PendingOutboundPayment::Retryable {
        retry_strategy: Some(Retry::Attempts(2)),
        attempts: PaymentAttempts::new(0),
        payment_params: None,
        session_privs: SessionSet::new(),
        payment_hash: PaymentHash([3; 32]),
        payment_secret: Some(PaymentSecret([4; 32])),
        keysend_preimage: None,
        pending_amt_msat: 0,
        pending_fee_msat: Some(0),
        total_msat,
        starting_block_height: 100,
    }
}

#[test]
fn insert_tracks_amount_and_fees() {
    let mut payment = fresh_retryable(2_000);
    let path = two_hop_path(10, 1_000);
    assert!(payment.insert([1; 32], &path));
    match &payment {
        PendingOutboundPayment::Retryable { pending_amt_msat, pending_fee_msat, .. } => {
            assert_eq!(*pending_amt_msat, 1_000);
            assert_eq!(*pending_fee_msat, Some(10));
        }
        _ => panic!("expected a retryable payment"),
    }
    assert_eq!(payment.remaining_parts(), 1);
}

#[test]
fn insert_same_session_twice_is_rejected() {
    let mut payment = fresh_retryable(2_000);
    let path = two_hop_path(10, 1_000);
    assert!(payment.insert([1; 32], &path));
    // Inserting the same session again returns false and leaves the
    // amounts untouched.
    assert!(!payment.insert([1; 32], &path));
    match &payment {
        PendingOutboundPayment::Retryable { pending_amt_msat, pending_fee_msat, .. } => {
            assert_eq!(*pending_amt_msat, 1_000);
            assert_eq!(*pending_fee_msat, Some(10));
        }
        _ => panic!("expected a retryable payment"),
    }
    assert_eq!(payment.remaining_parts(), 1);
}

#[test]
fn remove_absent_session_is_rejected() {
    let mut payment = fresh_retryable(2_000);
    let path = two_hop_path(10, 1_000);
    assert!(payment.insert([1; 32], &path));
    // Removing a session that is not there returns false and changes
    // nothing.
    assert!(!payment.remove(&[2; 32], Some(&path)));
    match &payment {
        PendingOutboundPayment::Retryable { pending_amt_msat, pending_fee_msat, .. } => {
            assert_eq!(*pending_amt_msat, 1_000);
            assert_eq!(*pending_fee_msat, Some(10));
        }
        _ => panic!("expected a retryable payment"),
    }
    assert!(payment.remove(&[1; 32], Some(&path)));
    assert_eq!(payment.remaining_parts(), 0);
    match &payment {
        PendingOutboundPayment::Retryable { pending_amt_msat, pending_fee_msat, .. } => {
            assert_eq!(*pending_amt_msat, 0);
            assert_eq!(*pending_fee_msat, Some(0));
        }
        _ => panic!("expected a retryable payment"),
    }
}

#[test]
fn insert_is_refused_on_fulfilled_and_abandoned() {
    let path = two_hop_path(10, 1_000);
    let mut fulfilled = fresh_retryable(2_000);
    fulfilled.mark_fulfilled();
    assert!(!fulfilled.insert([1; 32], &path));

    let mut abandoned = fresh_retryable(2_000);
    abandoned.mark_abandoned().unwrap();
    assert!(!abandoned.insert([1; 32], &path));
}

#[test]
fn mark_fulfilled_preserves_sessions() {
    let mut payment = fresh_retryable(2_000);
    let path = two_hop_path(10, 1_000);
    assert!(payment.insert([1; 32], &path));
    assert!(payment.insert([2; 32], &path));
    payment.mark_fulfilled();
    assert!(payment.is_fulfilled());
    assert_eq!(payment.remaining_parts(), 2);
    assert_eq!(payment.payment_hash(), Some(PaymentHash([3; 32])));
}

#[test]
fn mark_abandoned_fails_on_legacy_and_fulfilled() {
    let mut legacy = PendingOutboundPayment::Legacy { session_privs: SessionSet::new() };
    assert_eq!(legacy.mark_abandoned(), Err(()));

    let mut fulfilled = fresh_retryable(2_000);
    fulfilled.mark_fulfilled();
    assert_eq!(fulfilled.mark_abandoned(), Err(()));
    assert!(fulfilled.is_fulfilled());

    let mut retryable = fresh_retryable(2_000);
    assert_eq!(retryable.mark_abandoned(), Ok(()));
    assert!(retryable.abandoned());
}

#[test]
fn retry_attempts_policy_counts_attempts() {
    let strategy = Retry::Attempts(2);
    let mut attempts = PaymentAttempts::new(0);
    assert!(strategy.is_retryable_now(&attempts, 0));
    attempts.count = 1;
    assert!(strategy.is_retryable_now(&attempts, 0));
    attempts.count = 2;
    assert!(!strategy.is_retryable_now(&attempts, 0));
}

#[test]
fn retry_timeout_policy_compares_elapsed_ticks() {
    let strategy = Retry::Timeout(10);
    let attempts = PaymentAttempts::new(100);
    assert!(strategy.is_retryable_now(&attempts, 100));
    assert!(strategy.is_retryable_now(&attempts, 110));
    assert!(!strategy.is_retryable_now(&attempts, 111));
    // A clock that runs backwards counts as no time elapsed.
    assert!(strategy.is_retryable_now(&attempts, 50));
}

#[test]
fn auto_retry_requires_a_strategy() {
    let mut payment = fresh_retryable(2_000);
    assert!(payment.is_auto_retryable_now(0));
    assert!(payment.is_retryable_now(0));
    if let PendingOutboundPayment::Retryable { retry_strategy, .. } = &mut payment {
        *retry_strategy = None;
    }
    // Without a strategy automatic retries stop but manual ones go on.
    assert!(!payment.is_auto_retryable_now(0));
    assert!(payment.is_retryable_now(0));
}

#[test]
fn previously_failed_channels_accumulate() {
    let mut payment = fresh_retryable(2_000);
    if let PendingOutboundPayment::Retryable { payment_params, .. } = &mut payment {
        *payment_params = Some(outbound_payment::types::PaymentParameters {
            expiry_time: None,
            final_cltv_expiry_delta: Some(144),
            previously_failed_channels: Vec::new(),
        });
    }
    payment.insert_previously_failed_scid(42);
    payment.insert_previously_failed_scid(43);
    match &payment {
        PendingOutboundPayment::Retryable { payment_params: Some(params), .. } => {
            assert_eq!(params.previously_failed_channels, vec![42, 43]);
        }
        _ => panic!("expected stored payment parameters"),
    }
}
