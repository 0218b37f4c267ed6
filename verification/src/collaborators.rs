//! The collaborators this engine is driven by but does not implement:
//! route finding, entropy, the node's identity, and per-path HTLC dispatch.
//! Implementations are supplied by the embedding node; nothing is assumed of
//! what they return beyond their types.

use vstd::prelude::*;

use crate::types::{
    ApiError, NodeId, PaymentHash, PaymentId, PaymentParameters, PaymentPreimage, PaymentSecret,
    Route, RouteHop, RouteParameters,
};

verus! {

/// A routing failure, as reported by the router.
#[derive(Clone, Debug, PartialEq, Eq)]
pub struct LightningError {
    pub err: String,
}

/// Finds routes; consulted on every send and retry attempt.
pub trait Router {
    fn find_route(&self, payer: &NodeId, route_params: &RouteParameters) -> Result<
        Route,
        LightningError,
    >;
}

/// A source of cryptographically secure random bytes.
pub trait EntropySource {
    fn get_secure_random_bytes(&self) -> [u8; 32];
}

/// Knows the local node's identity.
pub trait NodeSigner {
    fn get_node_id(&self) -> NodeId;
}

/// Dispatches one HTLC along one path; the channel layer behind it.
pub trait PathSender {
    fn send_path(
        &self,
        path: &Vec<RouteHop>,
        payment_params: &Option<PaymentParameters>,
        payment_hash: &PaymentHash,
        payment_secret: &Option<PaymentSecret>,
        total_value_msat: u64,
        cur_height: u32,
        payment_id: PaymentId,
        keysend_preimage: &Option<PaymentPreimage>,
        session_priv: [u8; 32],
    ) -> Result<(), ApiError>;
}

} // verus!
