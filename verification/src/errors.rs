//! The error messages the send family returns, each pinned down by a spec
//! function so that contracts can name the exact failure.

use vstd::prelude::*;

use crate::hashing::hex_of;
use crate::types::{ApiError, PaymentId, PaymentSendFailure};

verus! {

pub open spec fn msg_invoice_expired() -> Seq<char> {
    "Invoice expired for payment id "@
}

pub open spec fn msg_route_failed(id: Seq<u8>, router_err: Seq<char>) -> Seq<char> {
    "Failed to find a route for payment "@ + hex_of(id) + ": "@ + router_err
}

pub open spec fn msg_retries_exhausted() -> Seq<char> {
    "Retries exhausted for payment id "@
}

pub open spec fn msg_not_found(id: Seq<u8>) -> Seq<char> {
    "Payment with ID "@ + hex_of(id) + " not found"@
}

pub open spec fn msg_legacy_retry() -> Seq<char> {
    "Unable to retry payments that were initially sent on versions prior to 0.0.102"@
}

pub open spec fn msg_already_completed() -> Seq<char> {
    "Payment already completed"@
}

pub open spec fn msg_already_abandoned() -> Seq<char> {
    "Payment already abandoned (with some HTLCs still pending)"@
}

pub open spec fn msg_overpay() -> Seq<char> {
    "retry amount will put the pending amount more than 10% over the total payment amount"@
}

pub open spec fn msg_zero_len_path() -> Seq<char> {
    "length-0 path in route"@
}

pub open spec fn msg_need_one_path() -> Seq<char> {
    "There must be at least one path to send over"@
}

pub open spec fn msg_secret_required() -> Seq<char> {
    "Payment secret is required for multi-path payments"@
}

pub open spec fn msg_bogus_path() -> Seq<char> {
    "Path didn't go anywhere/had bogus size"@
}

pub open spec fn msg_loop_path() -> Seq<char> {
    "Path went through us but wasn't a simple rebalance loop to us"@
}

pub open spec fn msg_probe_too_short() -> Seq<char> {
    "No need probing a path with less than two hops"@
}

pub open spec fn msg_unusable_route() -> Seq<char> {
    "Route amounts exceed what the payment bookkeeping can represent"@
}

pub open spec fn msg_duplicate_session_keys() -> Seq<char> {
    "Entropy source returned duplicate session keys"@
}

/// A message that does not begin like the invoice-expiry message is not the
/// invoice-expiry message for any id.
pub proof fn lemma_distinct_from_expired(m: Seq<char>, id: Seq<u8>)
    requires
        m.len() > 0,
        m[0] != 'I',
    ensures
        m != msg_invoice_expired() + hex_of(id),
{
    reveal_strlit("Invoice expired for payment id ");
    assert((msg_invoice_expired() + hex_of(id))[0] == 'I');
}

/// An `APIMisuseError` whose message is a fixed string.
pub fn misuse_error(msg: &str) -> (e: ApiError)
    ensures
        e matches ApiError::APIMisuseError { err } && err@ == msg@,
{
    ApiError::APIMisuseError { err: msg.to_owned() }
}

/// An `APIMisuseError` whose message names the payment id in hex.
pub fn misuse_error_with_id(prefix: &str, payment_id: &PaymentId) -> (e: ApiError)
    ensures
        e matches ApiError::APIMisuseError { err } && err@ == prefix@ + hex_of(payment_id@),
{
    let mut err = prefix.to_owned();
    let hex = crate::hashing::hex_lower32(&payment_id.0);
    err.append(hex.as_str());
    ApiError::APIMisuseError { err }
}

/// The pre-flight error for an expired invoice.
pub fn invoice_expired_error(payment_id: &PaymentId) -> (r: PaymentSendFailure)
    ensures
        r matches PaymentSendFailure::ParameterError(e) && (e matches ApiError::APIMisuseError {
            err,
        } && err@ == msg_invoice_expired() + hex_of(payment_id@)),
{
    PaymentSendFailure::ParameterError(
        misuse_error_with_id("Invoice expired for payment id ", payment_id),
    )
}

/// The pre-flight error for a failed route lookup, carrying the router's own
/// message.
pub fn route_failed_error(payment_id: &PaymentId, router_err: &String) -> (r: PaymentSendFailure)
    ensures
        r matches PaymentSendFailure::ParameterError(e) && (e matches ApiError::APIMisuseError {
            err,
        } && err@ == msg_route_failed(payment_id@, router_err@)),
{
    let mut err = "Failed to find a route for payment ".to_owned();
    let hex = crate::hashing::hex_lower32(&payment_id.0);
    err.append(hex.as_str());
    err.append(": ");
    err.append(router_err.as_str());
    PaymentSendFailure::ParameterError(ApiError::APIMisuseError { err })
}

/// The error for a payment whose id is not in the registry.
pub fn not_found_error(payment_id: &PaymentId) -> (r: PaymentSendFailure)
    ensures
        r matches PaymentSendFailure::ParameterError(e) && (e matches ApiError::APIMisuseError {
            err,
        } && err@ == msg_not_found(payment_id@)),
{
    let mut err = "Payment with ID ".to_owned();
    let hex = crate::hashing::hex_lower32(&payment_id.0);
    err.append(hex.as_str());
    err.append(" not found");
    PaymentSendFailure::ParameterError(ApiError::APIMisuseError { err })
}

/// An `InvalidRoute` error with a fixed message.
pub fn invalid_route_error(msg: &str) -> (e: ApiError)
    ensures
        e matches ApiError::InvalidRoute { err } && err@ == msg@,
{
    ApiError::InvalidRoute { err: msg.to_owned() }
}

} // verus!
