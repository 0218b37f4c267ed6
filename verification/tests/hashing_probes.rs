use outbound_payment::hashing::{
    hex_lower32, payment_hash_for_preimage, payment_is_probe, probing_cookie_from_id,
};
use outbound_payment::types::{PaymentId, PaymentPreimage};

fn reference_sha256(data: &[u8]) -> [u8; 32] {
    <bitcoin::hashes::sha256::Hash as bitcoin::hashes::Hash>::into_inner(
        <bitcoin::hashes::sha256::Hash as bitcoin::hashes::Hash>::hash(data),
    )
}

#[test]
fn payment_hash_is_sha256_of_preimage() {
    let preimage = PaymentPreimage([7; 32]);
    let hash = payment_hash_for_preimage(&preimage);
    assert_eq!(hash.0, reference_sha256(&[7; 32]));
}

#[test]
fn probing_cookie_is_sha256_of_secret_and_id() {
    let payment_id = PaymentId([5; 32]);
    let secret = [6; 32];
    let cookie = probing_cookie_from_id(&payment_id, secret);
    let mut preimage = [0u8; 64];
    preimage[..32].copy_from_slice(&secret);
    preimage[32..].copy_from_slice(&payment_id.0);
    assert_eq!(cookie.0, reference_sha256(&preimage));
}

#[test]
fn probe_detection_round_trips() {
    let payment_id = PaymentId([5; 32]);
    let secret = [6; 32];
    let cookie = probing_cookie_from_id(&payment_id, secret);
    assert!(payment_is_probe(&cookie, &payment_id, secret));
    // A different id, or a different secret, no longer matches.
    assert!(!payment_is_probe(&cookie, &PaymentId([8; 32]), secret));
    assert!(!payment_is_probe(&cookie, &payment_id, [9; 32]));
}

#[test]
fn hex_rendering_is_lowercase_and_exact() {
    let mut bytes = [0u8; 32];
    bytes[0] = 0xde;
    bytes[1] = 0xad;
    bytes[31] = 0x0f;
    let rendered = hex_lower32(&bytes);
    let mut expected = String::from("dead");
    for _ in 0..29 {
        expected.push_str("00");
    }
    expected.push_str("0f");
    assert_eq!(rendered, expected);
}
