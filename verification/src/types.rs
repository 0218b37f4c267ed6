//! Plain data carried through the payment engine: identifiers, routes,
//! retry policy, errors, and emitted events.

use vstd::prelude::*;

verus! {

/// How many cleanup ticks a fulfilled payment with no outstanding HTLCs and
/// no undrained event survives before it is forgotten.
pub const IDEMPOTENCY_TIMEOUT_TICKS: u8 = 7;

/// Pacing delay, in milliseconds, signalled when a failed path should be
/// retried.
pub const MIN_HTLC_RELAY_HOLDING_CELL_MILLIS: u64 = 100;

/// Fallback CLTV delta for the final hop when the stored parameters omit it.
pub const DEFAULT_MIN_FINAL_CLTV_EXPIRY_DELTA: u32 = 18;

/// A retry may overshoot the total by at most this percentage.
pub const RETRY_OVERFLOW_PERCENTAGE: u64 = 10;

/// Caller-chosen identity for one logical payment.
#[derive(Clone, Copy, Debug, PartialEq, Eq)]
pub struct PaymentId(pub [u8; 32]);

impl View for PaymentId {
    type V = Seq<u8>;

    open spec fn view(&self) -> Seq<u8> {
        self.0@
    }
}

/// SHA-256 of a `PaymentPreimage`; the value committed in HTLCs.
#[derive(Clone, Copy, Debug, PartialEq, Eq)]
pub struct PaymentHash(pub [u8; 32]);

impl View for PaymentHash {
    type V = Seq<u8>;

    open spec fn view(&self) -> Seq<u8> {
        self.0@
    }
}

/// 32-byte secret whose SHA-256 is a `PaymentHash`; revealing it claims the payment.
#[derive(Clone, Copy, Debug, PartialEq, Eq)]
pub struct PaymentPreimage(pub [u8; 32]);

impl View for PaymentPreimage {
    type V = Seq<u8>;

    open spec fn view(&self) -> Seq<u8> {
        self.0@
    }
}

/// Recipient-issued nonce, mandatory for multi-path payments.
#[derive(Clone, Copy, Debug, PartialEq, Eq)]
pub struct PaymentSecret(pub [u8; 32]);

impl View for PaymentSecret {
    type V = Seq<u8>;

    open spec fn view(&self) -> Seq<u8> {
        self.0@
    }
}

/// A node's public key, carried as its 33-byte serialization.
#[derive(Clone, Copy, Debug, PartialEq, Eq)]
pub struct NodeId(pub [u8; 33]);

impl View for NodeId {
    type V = Seq<u8>;

    open spec fn view(&self) -> Seq<u8> {
        self.0@
    }
}

/// One hop of an onion route. For the last hop of a path, `fee_msat` is the
/// amount delivered to the recipient over that path.
#[derive(Clone, Copy, Debug, PartialEq, Eq)]
pub struct RouteHop {
    pub pubkey: NodeId,
    pub short_channel_id: u64,
    pub fee_msat: u64,
    pub cltv_expiry_delta: u32,
}

/// Parameters describing the recipient, kept for rerouting on retry.
#[derive(Clone, Debug, PartialEq, Eq)]
pub struct PaymentParameters {
    /// Absolute UNIX seconds after which the invoice must not be paid.
    pub expiry_time: Option<u64>,
    /// CLTV delta for the final hop; backfilled from a failing path when absent.
    pub final_cltv_expiry_delta: Option<u32>,
    /// Short channel ids that already failed for this payment.
    pub previously_failed_channels: Vec<u64>,
}

impl PaymentParameters {
    /// A field-for-field copy with a pinned-down contract.
    pub fn duplicate(&self) -> (r: Self)
        ensures
            r.expiry_time == self.expiry_time,
            r.final_cltv_expiry_delta == self.final_cltv_expiry_delta,
            r.previously_failed_channels@ == self.previously_failed_channels@,
    {
        PaymentParameters {
            expiry_time: self.expiry_time,
            final_cltv_expiry_delta: self.final_cltv_expiry_delta,
            previously_failed_channels: copy_vec(&self.previously_failed_channels),
        }
    }
}

/// What a router is asked to find a route for.
#[derive(Clone, Debug, PartialEq, Eq)]
pub struct RouteParameters {
    pub payment_params: PaymentParameters,
    pub final_value_msat: u64,
    pub final_cltv_expiry_delta: u32,
}

/// A found route: one or more paths, plus the parameters it was found for.
#[derive(Clone, Debug, PartialEq, Eq)]
pub struct Route {
    pub paths: Vec<Vec<RouteHop>>,
    pub payment_params: Option<PaymentParameters>,
}

/// Strategies available to retry payment path failures.
#[derive(Clone, Copy, Debug, Eq, Hash, PartialEq)]
pub enum Retry {
    /// Max number of attempts to retry the payment.
    Attempts(usize),
    /// Ticks elapsed (on the caller's monotonic clock) before abandoning
    /// retries for a payment.
    Timeout(u64),
}

/// Attempt counter plus the timestamp of the first attempt, in the caller's
/// monotonic clock ticks.
#[derive(Clone, Copy, Debug, PartialEq, Eq)]
pub struct PaymentAttempts {
    /// Incremented only after the result of an attempt is known.
    pub count: usize,
    pub first_attempted_at: u64,
}

impl PaymentAttempts {
    pub fn new(now_ticks: u64) -> (r: Self)
        ensures
            r.count == 0,
            r.first_attempted_at == now_ticks,
    {
        PaymentAttempts { count: 0, first_attempted_at: now_ticks }
    }
}

pub open spec fn retry_allows(strategy: Retry, attempts: PaymentAttempts, now_ticks: u64) -> bool {
    match strategy {
        Retry::Attempts(max) => attempts.count < max,
        Retry::Timeout(max_ticks) => elapsed_ticks(attempts.first_attempted_at, now_ticks)
            <= max_ticks,
    }
}

pub open spec fn elapsed_ticks(first: u64, now: u64) -> int {
    if now >= first {
        now - first
    } else {
        0
    }
}

impl Retry {
    /// Whether the strategy permits one more attempt at `now_ticks`.
    pub fn is_retryable_now(&self, attempts: &PaymentAttempts, now_ticks: u64) -> (r: bool)
        ensures
            r == retry_allows(*self, *attempts, now_ticks),
    {
        match self {
            Retry::Attempts(max_retry_count) => *max_retry_count > attempts.count,
            Retry::Timeout(max_ticks) => {
                let elapsed: u64 = if now_ticks >= attempts.first_attempted_at {
                    now_ticks - attempts.first_attempted_at
                } else {
                    0
                };
                elapsed <= *max_ticks
            },
        }
    }
}

/// Errors surfaced from parameter validation and per-path dispatch.
#[derive(Clone, Debug, PartialEq, Eq)]
pub enum ApiError {
    /// The caller misused the interface; `err` says how.
    APIMisuseError { err: String },
    /// The supplied route was malformed.
    InvalidRoute { err: String },
    /// The channel for a path cannot take the HTLC right now.
    ChannelUnavailable { err: String },
    /// The HTLC is committed pending a monitor write: in flight, yet surfaced
    /// as an error.
    MonitorUpdateInProgress,
}

/// Why a send-family operation failed.
#[derive(Clone, Debug, PartialEq, Eq)]
pub enum PaymentSendFailure {
    /// A parameter was invalid; nothing was sent and no state was created.
    ParameterError(ApiError),
    /// A parameter in a single path was invalid; nothing was sent. One entry
    /// per path, in route order.
    PathParameterError(Vec<Result<(), ApiError>>),
    /// All paths failed with no channel state change; the payment entry was
    /// removed and the full amount may be re-sent.
    AllFailedResendSafe(Vec<ApiError>),
    /// The `PaymentId` is already in use by a payment that is neither
    /// fulfilled nor abandoned.
    DuplicatePayment,
    /// Some paths committed and some did not. The full amount must not be
    /// re-sent; `failed_paths_retry` can top up the missing part.
    PartialFailure {
        /// Per-path outcomes, in route order.
        results: Vec<Result<(), ApiError>>,
        /// Parameters to route the unsent balance, when any path failed
        /// without committing.
        failed_paths_retry: Option<RouteParameters>,
        /// The payment, now at least partially pending.
        payment_id: PaymentId,
    },
}

/// A fact about the network learned from a failure, passed through to events.
#[derive(Clone, Copy, Debug, PartialEq, Eq)]
pub enum NetworkUpdate {
    ChannelFailure { short_channel_id: u64, is_permanent: bool },
    NodeFailure { node_id: NodeId, is_permanent: bool },
}

/// The origin of a claimed HTLC, as reported by channel accounting.
#[derive(Clone, Debug, PartialEq, Eq)]
pub struct HtlcSource {
    pub session_priv: [u8; 32],
    pub payment_id: PaymentId,
    pub path: Vec<RouteHop>,
}

/// Events emitted towards the payer.
#[derive(Clone, Debug, PartialEq, Eq)]
pub enum Event {
    PaymentSent {
        payment_id: Option<PaymentId>,
        payment_preimage: PaymentPreimage,
        payment_hash: PaymentHash,
        fee_paid_msat: Option<u64>,
    },
    PaymentPathSuccessful {
        payment_id: PaymentId,
        payment_hash: Option<PaymentHash>,
        path: Vec<RouteHop>,
    },
    PaymentPathFailed {
        payment_id: Option<PaymentId>,
        payment_hash: PaymentHash,
        payment_failed_permanently: bool,
        network_update: Option<NetworkUpdate>,
        all_paths_failed: bool,
        path: Vec<RouteHop>,
        short_channel_id: Option<u64>,
        retry: Option<RouteParameters>,
    },
    PaymentFailed {
        payment_id: PaymentId,
        payment_hash: PaymentHash,
    },
    PendingHTLCsForwardable {
        time_forwardable_millis: u64,
    },
    ProbeSuccessful {
        payment_id: PaymentId,
        payment_hash: PaymentHash,
        path: Vec<RouteHop>,
    },
    ProbeFailed {
        payment_id: PaymentId,
        payment_hash: PaymentHash,
        path: Vec<RouteHop>,
        short_channel_id: Option<u64>,
    },
}

/// Whether an event refers to the given payment id: the events whose
/// presence in the queue keeps a fulfilled payment's idempotency clock at
/// zero.
pub open spec fn event_references(ev: Event, id: Seq<u8>) -> bool {
    match ev {
        Event::PaymentSent { payment_id: Some(pid), .. } => pid@ == id,
        Event::PaymentPathSuccessful { payment_id, .. } => payment_id@ == id,
        Event::PaymentPathFailed { payment_id: Some(pid), .. } => pid@ == id,
        _ => false,
    }
}

/// Whether any queued event refers to the given payment id.
pub open spec fn any_event_references(evs: Seq<Event>, id: Seq<u8>) -> bool {
    exists|i: int| 0 <= i < evs.len() && event_references(evs[i], id)
}

/// Scans the event queue for a reference to `payment_id`.
pub fn events_reference_payment(events: &Vec<Event>, payment_id: &PaymentId) -> (r: bool)
    ensures
        r == any_event_references(events@, payment_id@),
{
    let mut i: usize = 0;
    while i < events.len()
        invariant
            0 <= i <= events@.len(),
            forall|j: int| 0 <= j < i ==> !event_references(events@[j], payment_id@),
        decreases events@.len() - i,
    {
        let referenced = match &events[i] {
            Event::PaymentSent { payment_id: Some(pid), .. } => crate::bytes_eq(
                &pid.0,
                &payment_id.0,
            ),
            Event::PaymentPathSuccessful { payment_id: pid, .. } => crate::bytes_eq(
                &pid.0,
                &payment_id.0,
            ),
            Event::PaymentPathFailed { payment_id: Some(pid), .. } => crate::bytes_eq(
                &pid.0,
                &payment_id.0,
            ),
            _ => false,
        };
        if referenced {
            return true;
        }
        i += 1;
    }
    false
}

/// Copies a vector of plainly copyable elements, keeping its view.
pub fn copy_vec<T: Copy>(v: &Vec<T>) -> (r: Vec<T>)
    ensures
        r@ == v@,
{
    let mut r: Vec<T> = Vec::new();
    let mut i: usize = 0;
    while i < v.len()
        invariant
            0 <= i <= v.len(),
            r@ == v@.subrange(0, i as int),
        decreases v.len() - i,
    {
        r.push(v[i]);
        i += 1;
    }
    proof {
        assert(v@.subrange(0, v@.len() as int) =~= v@);
    }
    r
}

/// The amount delivered to the recipient over one path: its last hop's fee.
pub open spec fn path_amt(path: Seq<RouteHop>) -> int {
    if path.len() == 0 {
        0
    } else {
        path.last().fee_msat as int
    }
}

/// Sum of `fee_msat` over all hops of a path.
pub open spec fn sum_hop_fees(hops: Seq<RouteHop>) -> int
    decreases hops.len(),
{
    if hops.len() == 0 {
        0
    } else {
        sum_hop_fees(hops.drop_last()) + hops.last().fee_msat as int
    }
}

/// Sum of the intermediate (non-final) hops' fees of a path.
pub open spec fn path_fees(path: Seq<RouteHop>) -> int {
    sum_hop_fees(path) - path_amt(path)
}

/// Total amount of a route: the sum of what each path delivers.
pub open spec fn route_total(paths: Seq<Vec<RouteHop>>) -> int
    decreases paths.len(),
{
    if paths.len() == 0 {
        0
    } else {
        route_total(paths.drop_last()) + path_amt(paths.last()@)
    }
}

/// Sum of the intermediate fees over all paths of a route.
pub open spec fn route_fees(paths: Seq<Vec<RouteHop>>) -> int
    decreases paths.len(),
{
    if paths.len() == 0 {
        0
    } else {
        route_fees(paths.drop_last()) + path_fees(paths.last()@)
    }
}

/// Hop fee sums are never negative.
pub proof fn lemma_sum_hop_fees_nonneg(hops: Seq<RouteHop>)
    ensures
        sum_hop_fees(hops) >= 0,
    decreases hops.len(),
{
    if hops.len() > 0 {
        lemma_sum_hop_fees_nonneg(hops.drop_last());
    }
}

/// For a nonempty path, the intermediate fees are the fee sum of all hops
/// but the last, and so never negative.
pub proof fn lemma_path_fees_nonneg(path: Seq<RouteHop>)
    requires
        path.len() > 0,
    ensures
        path_fees(path) == sum_hop_fees(path.drop_last()),
        path_fees(path) >= 0,
{
    lemma_sum_hop_fees_nonneg(path.drop_last());
}

/// Route totals are never negative.
pub proof fn lemma_route_total_nonneg(paths: Seq<Vec<RouteHop>>)
    ensures
        route_total(paths) >= 0,
    decreases paths.len(),
{
    if paths.len() > 0 {
        lemma_route_total_nonneg(paths.drop_last());
    }
}

/// A route's total only grows as paths are appended.
pub proof fn lemma_route_total_prefix(paths: Seq<Vec<RouteHop>>, i: int, j: int)
    requires
        0 <= i <= j <= paths.len(),
    ensures
        route_total(paths.subrange(0, i)) <= route_total(paths.subrange(0, j)),
    decreases j - i,
{
    if i < j {
        lemma_route_total_prefix(paths, i, j - 1);
        assert(paths.subrange(0, j).drop_last() =~= paths.subrange(0, j - 1));
        lemma_path_amt_nonneg(paths.subrange(0, j).last()@);
    }
}

pub proof fn lemma_path_amt_nonneg(path: Seq<RouteHop>)
    ensures
        path_amt(path) >= 0,
{
}

/// Route fee sums are never negative when every path is nonempty.
pub proof fn lemma_route_fees_nonneg(paths: Seq<Vec<RouteHop>>)
    requires
        all_paths_nonempty(paths),
    ensures
        route_fees(paths) >= 0,
    decreases paths.len(),
{
    if paths.len() > 0 {
        assert(all_paths_nonempty(paths.drop_last())) by {
            assert forall|i: int|
                0 <= i < paths.len() - 1 implies (#[trigger] paths.drop_last()[i])@.len() > 0 by {
                assert(paths.drop_last()[i] == paths[i]);
            }
        }
        lemma_route_fees_nonneg(paths.drop_last());
        assert(paths.last()@.len() > 0) by {
            assert(paths[paths.len() - 1]@.len() > 0);
        }
        lemma_path_fees_nonneg(paths.last()@);
    }
}

/// Whether all paths of a route are nonempty.
pub open spec fn all_paths_nonempty(paths: Seq<Vec<RouteHop>>) -> bool {
    forall|i: int| 0 <= i < paths.len() ==> (#[trigger] paths[i])@.len() > 0
}

/// Whether a route's paths are all nonempty with a total that a `u64` holds.
pub open spec fn route_summable(paths: Seq<Vec<RouteHop>>) -> bool {
    all_paths_nonempty(paths) && route_total(paths) <= u64::MAX as int
}

/// Whether a route can enter the bookkeeping: all paths nonempty, and its
/// total, with the 10% retry allowance on top, representable in a `u64`.
pub open spec fn route_usable(paths: Seq<Vec<RouteHop>>) -> bool {
    &&& all_paths_nonempty(paths)
    &&& route_total(paths) * 110 / 100 <= u64::MAX as int
}

/// Computes a route's total amount, checking that the route is usable.
pub fn route_total_amount_checked(route: &Route) -> (r: Option<u64>)
    ensures
        match r {
            Some(t) => route_usable(route.paths@) && t == route_total(route.paths@),
            None => !route_usable(route.paths@),
        },
{
    let paths = &route.paths;
    let ghost ps = paths@;
    let mut total: u64 = 0;
    let mut i: usize = 0;
    proof {
        assert(ps.subrange(0, 0) =~= Seq::<Vec<RouteHop>>::empty());
    }
    while i < paths.len()
        invariant
            0 <= i <= ps.len(),
            ps == paths@,
            ps == route.paths@,
            total == route_total(ps.subrange(0, i as int)),
            forall|j: int| 0 <= j < i ==> (#[trigger] ps[j])@.len() > 0,
        decreases ps.len() - i,
    {
        let path: &Vec<RouteHop> = &paths[i];
        if path.len() == 0 {
            proof {
                assert(!all_paths_nonempty(ps)) by {
                    if all_paths_nonempty(ps) {
                        assert(ps[i as int]@.len() > 0);
                    }
                }
            }
            return None;
        }
        proof {
            assert(ps.subrange(0, i + 1).drop_last() =~= ps.subrange(0, i as int));
            assert(ps.subrange(0, i + 1).last() == ps[i as int]);
        }
        match total.checked_add(path[path.len() - 1].fee_msat) {
            Some(t) => {
                total = t;
            },
            None => {
                proof {
                    assert(route_total(ps.subrange(0, i + 1)) == total + path_amt(ps[i as int]@));
                    lemma_route_total_prefix(ps, i + 1, ps.len() as int);
                    assert(ps.subrange(0, ps.len() as int) =~= ps);
                    assert(route_total(ps) > u64::MAX as int);
                    lemma_route_total_cap(ps);
                }
                return None;
            },
        }
        i += 1;
    }
    proof {
        assert(ps.subrange(0, ps.len() as int) =~= ps);
    }
    let cap = (total as u128) * 110 / 100;
    if cap <= u64::MAX as u128 {
        Some(total)
    } else {
        None
    }
}

/// Computes a route's total amount when it fits a `u64` and all paths are
/// nonempty.
pub fn route_total_summed(route: &Route) -> (r: Option<u64>)
    ensures
        match r {
            Some(t) => route_summable(route.paths@) && t == route_total(route.paths@),
            None => !route_summable(route.paths@),
        },
{
    let paths = &route.paths;
    let ghost ps = paths@;
    let mut total: u64 = 0;
    let mut i: usize = 0;
    proof {
        assert(ps.subrange(0, 0) =~= Seq::<Vec<RouteHop>>::empty());
    }
    while i < paths.len()
        invariant
            0 <= i <= ps.len(),
            ps == paths@,
            ps == route.paths@,
            total == route_total(ps.subrange(0, i as int)),
            forall|j: int| 0 <= j < i ==> (#[trigger] ps[j])@.len() > 0,
        decreases ps.len() - i,
    {
        let path: &Vec<RouteHop> = &paths[i];
        if path.len() == 0 {
            proof {
                assert(!all_paths_nonempty(ps)) by {
                    if all_paths_nonempty(ps) {
                        assert(ps[i as int]@.len() > 0);
                    }
                }
            }
            return None;
        }
        proof {
            assert(ps.subrange(0, i + 1).drop_last() =~= ps.subrange(0, i as int));
            assert(ps.subrange(0, i + 1).last() == ps[i as int]);
        }
        match total.checked_add(path[path.len() - 1].fee_msat) {
            Some(t) => {
                total = t;
            },
            None => {
                proof {
                    assert(route_total(ps.subrange(0, i + 1)) == total + path_amt(ps[i as int]@));
                    lemma_route_total_prefix(ps, i + 1, ps.len() as int);
                    assert(ps.subrange(0, ps.len() as int) =~= ps);
                    assert(route_total(ps) > u64::MAX as int);
                }
                return None;
            },
        }
        i += 1;
    }
    proof {
        assert(ps.subrange(0, ps.len() as int) =~= ps);
    }
    Some(total)
}

/// If the capped total fits a `u64`, so does the total itself.
proof fn lemma_route_total_cap(paths: Seq<Vec<RouteHop>>)
    ensures
        route_total(paths) * 110 / 100 <= u64::MAX as int ==> route_total(paths)
            <= u64::MAX as int,
{
    lemma_route_total_nonneg(paths);
    let t = route_total(paths);
    assert(t >= 0 && t * 110 / 100 <= u64::MAX as int ==> t <= u64::MAX as int) by (nonlinear_arith);
}

/// A nonnegative amount never exceeds itself plus the 10% allowance.
pub proof fn lemma_within_own_cap(t: int)
    requires
        t >= 0,
    ensures
        t <= t * 110 / 100,
{
    assert(t >= 0 ==> t <= t * 110 / 100) by (nonlinear_arith);
}

} // verus!
