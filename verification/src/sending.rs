//! Route validation, per-path dispatch, and the classification of its
//! outcomes into the send-family's result.

use vstd::prelude::*;

use crate::collaborators::{NodeSigner, PathSender, Router};
use crate::errors::{invalid_route_error, misuse_error};
use crate::payment_state::PendingOutboundPayment;
use crate::registry::OutboundPayments;
use crate::session_set::byte_views;
use crate::types::{
    all_paths_nonempty, lemma_path_amt_nonneg, lemma_route_total_nonneg, lemma_route_total_prefix,
    path_amt, route_summable, route_total, ApiError, NodeId, PaymentHash, PaymentId,
    PaymentParameters, PaymentPreimage, PaymentSecret, PaymentSendFailure, Route, RouteHop,
    RouteParameters,
};

verus! {

/// Whether one path's dispatch result is `MonitorUpdateInProgress`: an error
/// whose HTLC is nevertheless committed.
pub open spec fn res_is_monitor_err(r: Result<(), ApiError>) -> bool {
    r matches Err(ApiError::MonitorUpdateInProgress)
}

/// Whether some path committed: a plain success or a monitor-pending error.
pub open spec fn spec_has_ok(results: Seq<Result<(), ApiError>>) -> bool {
    exists|i: int|
        0 <= i < results.len() && ((#[trigger] results[i]) is Ok || res_is_monitor_err(results[i]))
}

/// Whether some path surfaced an error.
pub open spec fn spec_has_err(results: Seq<Result<(), ApiError>>) -> bool {
    exists|i: int| 0 <= i < results.len() && (#[trigger] results[i]) is Err
}

/// Whether path `i` failed without committing, so its session was removed.
pub open spec fn removed_at(results: Seq<Result<(), ApiError>>, i: int) -> bool {
    results[i] is Err && !res_is_monitor_err(results[i])
}

/// The total amount of the paths that failed without committing.
pub open spec fn unsent_amount(results: Seq<Result<(), ApiError>>, paths: Seq<Vec<RouteHop>>) -> int
    decreases results.len(),
{
    if results.len() == 0 || results.len() != paths.len() {
        0
    } else {
        unsent_amount(results.drop_last(), paths.drop_last()) + if removed_at(
            results,
            results.len() - 1,
        ) {
            path_amt(paths.last()@)
        } else {
            0
        }
    }
}

/// The largest final-hop CLTV delta among the paths that failed without
/// committing.
pub open spec fn max_unsent_cltv(
    results: Seq<Result<(), ApiError>>,
    paths: Seq<Vec<RouteHop>>,
) -> int
    decreases results.len(),
{
    if results.len() == 0 || results.len() != paths.len() {
        0
    } else {
        let rest = max_unsent_cltv(results.drop_last(), paths.drop_last());
        if removed_at(results, results.len() - 1) && paths.last()@.len() > 0 && paths.last()@.last().cltv_expiry_delta as int
            > rest {
            paths.last()@.last().cltv_expiry_delta as int
        } else {
            rest
        }
    }
}

/// The sessions of the paths that failed without committing, among the first
/// `k` results.
pub open spec fn removed_privs(
    privs: Seq<[u8; 32]>,
    results: Seq<Result<(), ApiError>>,
    k: int,
) -> Set<Seq<u8>> {
    Set::new(
        |sp: Seq<u8>|
            exists|i: int| 0 <= i < k && removed_at(results, i) && (#[trigger] privs[i])@ == sp,
    )
}

/// The intermediate fees of the paths that failed without committing.
pub open spec fn unsent_fees(results: Seq<Result<(), ApiError>>, paths: Seq<Vec<RouteHop>>) -> int
    decreases results.len(),
{
    if results.len() == 0 || results.len() != paths.len() {
        0
    } else {
        unsent_fees(results.drop_last(), paths.drop_last()) + if removed_at(
            results,
            results.len() - 1,
        ) {
            crate::types::path_fees(paths.last()@)
        } else {
            0
        }
    }
}

/// With no empty path, the fees of non-committed paths are never negative.
pub proof fn lemma_unsent_fees_nonneg(results: Seq<Result<(), ApiError>>, paths: Seq<Vec<RouteHop>>)
    requires
        results.len() == paths.len(),
        all_paths_nonempty(paths),
    ensures
        unsent_fees(results, paths) >= 0,
    decreases results.len(),
{
    if results.len() > 0 {
        assert(all_paths_nonempty(paths.drop_last())) by {
            assert forall|i: int|
                0 <= i < paths.len() - 1 implies (#[trigger] paths.drop_last()[i])@.len() > 0 by {
                assert(paths.drop_last()[i] == paths[i]);
            }
        }
        lemma_unsent_fees_nonneg(results.drop_last(), paths.drop_last());
        assert(paths.last()@.len() > 0) by {
            assert(paths[paths.len() - 1]@.len() > 0);
        }
        crate::types::lemma_path_fees_nonneg(paths.last()@);
    }
}

/// The amount of non-committed paths never exceeds the route's total.
pub proof fn lemma_unsent_le_total(results: Seq<Result<(), ApiError>>, paths: Seq<Vec<RouteHop>>)
    requires
        results.len() == paths.len(),
    ensures
        0 <= unsent_amount(results, paths) <= route_total(paths),
    decreases results.len(),
{
    if results.len() > 0 {
        lemma_unsent_le_total(results.drop_last(), paths.drop_last());
        lemma_path_amt_nonneg(paths.last()@);
    }
}

/// Whether `v` holds exactly the per-path validation verdicts of `paths`
/// against the node id `our`.
pub open spec fn path_verdicts_for(
    v: Seq<Result<(), ApiError>>,
    paths: Seq<Vec<RouteHop>>,
    our: Seq<u8>,
) -> bool {
    forall|i: int|
        0 <= i < v.len() ==> ((#[trigger] v[i]) is Ok <==> path_shape_ok(paths[i]@, our))
}

/// Whether one path passes validation against the local node's id: a length
/// within bounds, and no hop but the last through the local node.
pub open spec fn path_shape_ok(path: Seq<RouteHop>, our_node: Seq<u8>) -> bool {
    &&& 1 <= path.len() <= 20
    &&& forall|i: int| 0 <= i < path.len() - 1 ==> (#[trigger] path[i]).pubkey@ != our_node
}

/// Validates one path's shape, returning the per-path verdict.
fn check_path(path: &Vec<RouteHop>, our_node_id: &NodeId) -> (r: Result<(), ApiError>)
    ensures
        r is Ok <==> path_shape_ok(path@, our_node_id@),
        !(1 <= path@.len() <= 20) ==> (r matches Err(ApiError::InvalidRoute { err }) && err@
            == crate::errors::msg_bogus_path()),
        r matches Err(e) ==> (e matches ApiError::InvalidRoute { err } && (err@
            == crate::errors::msg_bogus_path() || err@ == crate::errors::msg_loop_path())),
{
    if path.len() < 1 || path.len() > 20 {
        return Err(invalid_route_error("Path didn't go anywhere/had bogus size"));
    }
    let mut i: usize = 0;
    while i < path.len() - 1
        invariant
            1 <= path@.len() <= 20,
            0 <= i < path@.len(),
            forall|j: int| 0 <= j < i ==> (#[trigger] path@[j]).pubkey@ != our_node_id@,
        decreases path@.len() - i,
    {
        if crate::bytes_eq(&path[i].pubkey.0, &our_node_id.0) {
            proof {
                assert(path@[i as int].pubkey@ =~= our_node_id@);
            }
            return Err(
                invalid_route_error("Path went through us but wasn't a simple rebalance loop to us"),
            );
        }
        proof {
            assert(path@[i as int].pubkey@ != our_node_id@) by {
                if path@[i as int].pubkey@ == our_node_id@ {
                    assert(path@[i as int].pubkey.0@ =~= our_node_id.0@);
                }
            }
        }
        i += 1;
    }
    Ok(())
}

/// Validates a route for dispatch and computes the amount it delivers.
/// A route with no paths, or several paths without a payment secret, is
/// rejected outright; a malformed path yields the per-path verdict list.
pub fn check_route(
    route: &Route,
    payment_secret: &Option<PaymentSecret>,
    our_node_id: &NodeId,
) -> (r: Result<u64, PaymentSendFailure>)
    requires
        route_summable(route.paths@),
    ensures
        route.paths@.len() == 0 ==> (r matches Err(PaymentSendFailure::ParameterError(e))
            && e matches ApiError::InvalidRoute { err } && err@
            == crate::errors::msg_need_one_path()),
        route.paths@.len() > 1 && payment_secret is None ==> (r matches Err(
            PaymentSendFailure::ParameterError(e),
        ) && e matches ApiError::APIMisuseError { err } && err@
            == crate::errors::msg_secret_required()),
        route.paths@.len() >= 1 && (route.paths@.len() == 1 || payment_secret is Some) ==> {
            if forall|i: int|
                0 <= i < route.paths@.len() ==> path_shape_ok(
                    (#[trigger] route.paths@[i])@,
                    our_node_id@,
                ) {
                r matches Ok(total) && total == route_total(route.paths@)
            } else {
                r matches Err(PaymentSendFailure::PathParameterError(v)) && v@.len()
                    == route.paths@.len() && (forall|i: int|
                    0 <= i < v@.len() ==> ((#[trigger] v@[i]) is Ok <==> path_shape_ok(
                        route.paths@[i]@,
                        our_node_id@,
                    ))) && (forall|i: int|
                    0 <= i < v@.len() ==> ((#[trigger] v@[i]) matches Err(e) ==> e is InvalidRoute))
            }
        },
        r is Ok ==> route.paths@.len() >= 1 && (route.paths@.len() == 1 || payment_secret is Some)
            && (r matches Ok(total) && total == route_total(route.paths@)),
        !(r == Err::<u64, PaymentSendFailure>(PaymentSendFailure::DuplicatePayment)),
        r matches Err(PaymentSendFailure::ParameterError(e)) ==> (e is InvalidRoute || (
        e matches ApiError::APIMisuseError { err } && err@ == crate::errors::msg_secret_required())),
        r matches Err(PaymentSendFailure::PathParameterError(v)) ==> v@.len()
            == route.paths@.len() && path_verdicts_for(v@, route.paths@, our_node_id@) && (
        forall|i: int|
            0 <= i < v@.len() ==> ((#[trigger] v@[i]) matches Err(e) ==> e is InvalidRoute)),
{
    if route.paths.len() < 1 {
        return Err(
            PaymentSendFailure::ParameterError(
                invalid_route_error("There must be at least one path to send over"),
            ),
        );
    }
    if payment_secret.is_none() && route.paths.len() > 1 {
        return Err(
            PaymentSendFailure::ParameterError(
                misuse_error("Payment secret is required for multi-path payments"),
            ),
        );
    }
    let mut path_errs: Vec<Result<(), ApiError>> = Vec::new();
    let mut any_err = false;
    let mut i: usize = 0;
    while i < route.paths.len()
        invariant
            0 <= i <= route.paths@.len(),
            path_errs@.len() == i,
            forall|j: int|
                0 <= j < i ==> ((#[trigger] path_errs@[j]) is Ok <==> path_shape_ok(
                    route.paths@[j]@,
                    our_node_id@,
                )),
            forall|j: int|
                0 <= j < i ==> ((#[trigger] path_errs@[j]) matches Err(e) ==> e is InvalidRoute),
            any_err <==> exists|j: int| 0 <= j < i && !((#[trigger] path_errs@[j]) is Ok),
        decreases route.paths@.len() - i,
    {
        let verdict = check_path(&route.paths[i], our_node_id);
        let ghost was_err = any_err;
        if verdict.is_err() {
            any_err = true;
        }
        let ghost before = path_errs@;
        path_errs.push(verdict);
        proof {
            assert(path_errs@[i as int] == verdict);
            assert forall|j: int| 0 <= j < i implies path_errs@[j] == before[j] by {}
            if was_err {
                let j = choose|j: int| 0 <= j < i && !((#[trigger] before[j]) is Ok);
                assert(!((path_errs@[j]) is Ok));
            }
        }
        i += 1;
    }
    proof {
        if !any_err {
            assert forall|idx: int| 0 <= idx < route.paths@.len() implies path_shape_ok(
                (#[trigger] route.paths@[idx])@,
                our_node_id@,
            ) by {
                assert(!(exists|j: int|
                    0 <= j < path_errs@.len() && !((#[trigger] path_errs@[j]) is Ok)));
                assert((path_errs@[idx]) is Ok);
            }
        }
    }
    if any_err {
        return Err(PaymentSendFailure::PathParameterError(path_errs));
    }
    let ghost ps = route.paths@;
    let mut total_value: u64 = 0;
    let mut t: usize = 0;
    proof {
        assert(ps.subrange(0, 0) =~= Seq::<Vec<RouteHop>>::empty());
    }
    while t < route.paths.len()
        invariant
            0 <= t <= ps.len(),
            ps == route.paths@,
            route_summable(ps),
            total_value == route_total(ps.subrange(0, t as int)),
        decreases ps.len() - t,
    {
        let path: &Vec<RouteHop> = &route.paths[t];
        proof {
            assert(ps[t as int]@.len() > 0);
            assert(ps.subrange(0, t + 1).drop_last() =~= ps.subrange(0, t as int));
            assert(ps.subrange(0, t + 1).last() == ps[t as int]);
            lemma_route_total_prefix(ps, t + 1, ps.len() as int);
            assert(ps.subrange(0, ps.len() as int) =~= ps);
            lemma_route_total_nonneg(ps.subrange(0, t + 1));
        }
        total_value = total_value + path[path.len() - 1].fee_msat;
        t += 1;
    }
    proof {
        assert(ps.subrange(0, ps.len() as int) =~= ps);
    }
    Ok(total_value)
}


impl OutboundPayments {
    /// Validates a route, dispatches one HTLC per path, and classifies the
    /// outcomes: success when every path committed, `PartialFailure` when
    /// only some did, `AllFailedResendSafe` when none did. Validation
    /// failures are synchronous and change nothing.
    pub fn pay_route_internal<NS: NodeSigner, SP: PathSender>(
        &mut self,
        route: &Route,
        payment_hash: PaymentHash,
        payment_secret: &Option<PaymentSecret>,
        keysend_preimage: Option<PaymentPreimage>,
        payment_id: PaymentId,
        recv_value_msat: Option<u64>,
        onion_session_privs: Vec<[u8; 32]>,
        node_signer: &NS,
        best_block_height: u32,
        send_payment_along_path: &SP,
    ) -> (r: Result<(), PaymentSendFailure>)
        requires
            old(self).wf(),
            route_summable(route.paths@),
            onion_session_privs@.len() == route.paths@.len(),
        ensures
            final(self).wf(),
            (r matches Err(PaymentSendFailure::ParameterError(_)) || r matches Err(
                PaymentSendFailure::PathParameterError(_),
            )) ==> *final(self) == *old(self),
            r is Ok ==> *final(self) == *old(self),
            !(r == Err::<(), PaymentSendFailure>(PaymentSendFailure::DuplicatePayment)),
            !old(self)@.contains_key(payment_id@) ==> *final(self) == *old(self),
            route.paths@.len() == 0 ==> (r matches Err(PaymentSendFailure::ParameterError(e))
                && e matches ApiError::InvalidRoute { err } && err@
                == crate::errors::msg_need_one_path()),
            route.paths@.len() > 1 && payment_secret is None ==> (r matches Err(
                PaymentSendFailure::ParameterError(e),
            ) && e matches ApiError::APIMisuseError { err } && err@
                == crate::errors::msg_secret_required()),
            r matches Err(PaymentSendFailure::ParameterError(e)) ==> (e is InvalidRoute || (
            e matches ApiError::APIMisuseError { err } && err@
                == crate::errors::msg_secret_required())),
            (r matches Err(PaymentSendFailure::PathParameterError(v)) ==> {
                &&& v@.len() == route.paths@.len()
                &&& exists|our: Seq<u8>| #[trigger] path_verdicts_for(v@, route.paths@, our)
                &&& forall|i: int|
                    0 <= i < v@.len() ==> ((#[trigger] v@[i]) matches Err(e) ==> e is InvalidRoute)
            }),
            (route.paths@.len() >= 1 && (route.paths@.len() == 1 || payment_secret is Some) && (
            exists|i: int|
                0 <= i < route.paths@.len() && !(1 <= (#[trigger] route.paths@[i])@.len()
                    <= 20))) ==> r matches Err(PaymentSendFailure::PathParameterError(_)),
            (r matches Err(PaymentSendFailure::PartialFailure {
                results,
                failed_paths_retry,
                payment_id: pid,
            }) ==> {
                &&& pid@ == payment_id@
                &&& results@.len() == route.paths@.len()
                &&& spec_has_ok(results@)
                &&& spec_has_err(results@)
                &&& crate::registry::dispatch_state(
                    old(self)@,
                    final(self)@,
                    payment_id@,
                    onion_session_privs@,
                    route.paths@,
                    results@,
                )
                &&& (match route.payment_params {
                    Some(pp) => {
                        if unsent_amount(results@, route.paths@) != 0 {
                            failed_paths_retry matches Some(rp) && rp.final_value_msat
                                == unsent_amount(results@, route.paths@)
                                && rp.payment_params.expiry_time == pp.expiry_time
                                && rp.payment_params.final_cltv_expiry_delta
                                == pp.final_cltv_expiry_delta
                                && rp.payment_params.previously_failed_channels@
                                == pp.previously_failed_channels@ && rp.final_cltv_expiry_delta as int
                                == (if pp.final_cltv_expiry_delta is Some {
                                pp.final_cltv_expiry_delta.unwrap() as int
                            } else {
                                max_unsent_cltv(results@, route.paths@)
                            })
                        } else {
                            failed_paths_retry is None
                        }
                    },
                    None => failed_paths_retry is None,
                })
            }),
            r matches Err(PaymentSendFailure::AllFailedResendSafe(_)) ==> ((old(self)@.contains_key(
                payment_id@,
            ) ==> final(self)@.dom() =~= old(self)@.dom() && (forall|x: Seq<u8>|
                old(self)@.contains_key(x) && x != payment_id@ ==> final(self)@[x] == #[trigger] old(self)@[x])) && (!old(self)@.contains_key(payment_id@) ==> *final(self) == *old(self))),
            (r matches Err(PaymentSendFailure::AllFailedResendSafe(errs)) ==> {
                &&& errs@.len() == route.paths@.len()
                &&& exists|results: Seq<Result<(), ApiError>>|
                    {
                        &&& results.len() == errs@.len()
                        &&& (forall|i: int|
                            0 <= i < results.len() ==> #[trigger] results[i] == Err::<
                                (),
                                ApiError,
                            >(errs@[i]))
                        &&& !spec_has_ok(results)
                        &&& crate::registry::dispatch_state(
                            old(self)@,
                            final(self)@,
                            payment_id@,
                            onion_session_privs@,
                            route.paths@,
                            results,
                        )
                    }
            }),
    {
        let our_node_id = node_signer.get_node_id();
        let total_route = match check_route(route, payment_secret, &our_node_id) {
            Ok(t) => t,
            Err(e) => {
                proof {
                    match &e {
                        PaymentSendFailure::PathParameterError(v) => {
                            assert(path_verdicts_for(v@, route.paths@, our_node_id@));
                        },
                        _ => {},
                    }
                }
                return Err(e);
            },
        };
        let mut total_value = total_route;
        if let Some(amt) = recv_value_msat {
            total_value = amt;
        }
        let cur_height = best_block_height.saturating_add(1);
        let results = self.dispatch_paths(
            route,
            payment_hash,
            payment_secret,
            keysend_preimage,
            payment_id,
            total_value,
            cur_height,
            &onion_session_privs,
            send_payment_along_path,
        );
        let ghost results_seq = results@;
        let ghost ps = route.paths@;
        let mut has_ok = false;
        let mut has_err = false;
        let mut pending_amt_unsent: u64 = 0;
        let mut max_unsent_cltv_delta: u32 = 0;
        let mut i: usize = 0;
        proof {
            assert(results_seq.subrange(0, 0) =~= Seq::<Result<(), ApiError>>::empty());
            assert(ps.subrange(0, 0) =~= Seq::<Vec<RouteHop>>::empty());
            lemma_route_total_nonneg(ps);
        }
        while i < results.len()
            invariant
                0 <= i <= results_seq.len(),
                results_seq == results@,
                ps == route.paths@,
                results_seq.len() == ps.len(),
                route_summable(ps),
                has_ok == spec_has_ok(results_seq.subrange(0, i as int)),
                has_err == spec_has_err(results_seq.subrange(0, i as int)),
                pending_amt_unsent == unsent_amount(
                    results_seq.subrange(0, i as int),
                    ps.subrange(0, i as int),
                ),
                max_unsent_cltv_delta == max_unsent_cltv(
                    results_seq.subrange(0, i as int),
                    ps.subrange(0, i as int),
                ),
            decreases results_seq.len() - i,
        {
            proof {
                assert(results_seq.subrange(0, i + 1).drop_last() =~= results_seq.subrange(
                    0,
                    i as int,
                ));
                assert(ps.subrange(0, i + 1).drop_last() =~= ps.subrange(0, i as int));
                assert(results_seq.subrange(0, i + 1).last() == results_seq[i as int]);
                assert(ps.subrange(0, i + 1).last() == ps[i as int]);
                lemma_unsent_le_total(results_seq.subrange(0, i + 1), ps.subrange(0, i + 1));
                lemma_route_total_prefix(ps, i + 1, ps.len() as int);
                assert(ps.subrange(0, ps.len() as int) =~= ps);
            }
            let ghost old_has_ok = has_ok;
            let ghost old_has_err = has_err;
            match &results[i] {
                Ok(_) => {
                    has_ok = true;
                },
                Err(ApiError::MonitorUpdateInProgress) => {
                    // A monitor-pending path is both committed and an error.
                    has_ok = true;
                    has_err = true;
                },
                Err(_) => {
                    has_err = true;
                    let path: &Vec<RouteHop> = &route.paths[i];
                    proof {
                        assert(ps[i as int]@.len() > 0);
                    }
                    let amt = path[path.len() - 1].fee_msat;
                    proof {
                        crate::types::lemma_path_amt_nonneg(ps[i as int]@);
                        lemma_unsent_le_total(
                            results_seq.subrange(0, i as int),
                            ps.subrange(0, i as int),
                        );
                    }
                    pending_amt_unsent = pending_amt_unsent + amt;
                    let delta = path[path.len() - 1].cltv_expiry_delta;
                    if delta > max_unsent_cltv_delta {
                        max_unsent_cltv_delta = delta;
                    }
                },
            }
            proof {
                let sub1 = results_seq.subrange(0, i + 1);
                let sub0 = results_seq.subrange(0, i as int);
                assert forall|j: int| 0 <= j < i + 1 implies sub1[j] == results_seq[j] by {}
                if spec_has_ok(sub1) && !old_has_ok {
                    let w = choose|w: int|
                        0 <= w < sub1.len() && ((#[trigger] sub1[w]) is Ok || res_is_monitor_err(
                            sub1[w],
                        ));
                    if w < i {
                        assert(sub0[w] == sub1[w]);
                        assert(spec_has_ok(sub0));
                    }
                }
                if has_ok {
                    assert(spec_has_ok(sub1)) by {
                        if old_has_ok {
                            let w = choose|w: int|
                                0 <= w < sub0.len() && ((#[trigger] sub0[w]) is Ok
                                    || res_is_monitor_err(sub0[w]));
                            assert(sub1[w] == sub0[w]);
                        } else {
                            assert(sub1[i as int] == results_seq[i as int]);
                        }
                    }
                }
                if has_err {
                    assert(spec_has_err(sub1)) by {
                        if old_has_err {
                            let w = choose|w: int|
                                0 <= w < sub0.len() && (#[trigger] sub0[w]) is Err;
                            assert(sub1[w] == sub0[w]);
                        } else {
                            assert(sub1[i as int] == results_seq[i as int]);
                        }
                    }
                }
                if spec_has_err(sub1) && !old_has_err {
                    let w = choose|w: int| 0 <= w < sub1.len() && (#[trigger] sub1[w]) is Err;
                    if w < i {
                        assert(sub0[w] == sub1[w]);
                    }
                }
            }
            i += 1;
        }
        proof {
            assert(results_seq.subrange(0, results_seq.len() as int) =~= results_seq);
            assert(ps.subrange(0, ps.len() as int) =~= ps);
        }
        if has_err && has_ok {
            let failed_paths_retry: Option<RouteParameters> = if pending_amt_unsent != 0 {
                match &route.payment_params {
                    Some(payment_params) => {
                        let delta = match payment_params.final_cltv_expiry_delta {
                            Some(d) => d,
                            None => max_unsent_cltv_delta,
                        };
                        Some(
                            RouteParameters {
                                payment_params: payment_params.duplicate(),
                                final_value_msat: pending_amt_unsent,
                                final_cltv_expiry_delta: delta,
                            },
                        )
                    },
                    None => None,
                }
            } else {
                None
            };
            Err(PaymentSendFailure::PartialFailure { results, payment_id, failed_paths_retry })
        } else if has_err {
            let mut errs: Vec<ApiError> = Vec::new();
            let mut rem = results;
            proof {
                assert(rem@ =~= results_seq.subrange(0, results_seq.len() as int));
            }
            while rem.len() > 0
                invariant
                    errs@.len() + rem@.len() == results_seq.len(),
                    rem@ =~= results_seq.subrange(
                        errs@.len() as int,
                        results_seq.len() as int,
                    ),
                    !spec_has_ok(results_seq),
                    forall|j: int|
                        0 <= j < errs@.len() ==> #[trigger] results_seq[j] == Err::<(), ApiError>(
                            errs@[j],
                        ),
                decreases rem@.len(),
            {
                let ghost n_done = errs@.len() as int;
                let item = rem.remove(0);
                proof {
                    assert(item == results_seq[n_done]);
                    assert(!((results_seq[n_done]) is Ok || res_is_monitor_err(
                        results_seq[n_done],
                    )));
                }
                match item {
                    Err(e) => {
                        errs.push(e);
                    },
                    Ok(_) => {
                        proof {
                            assert(false);
                        }
                    },
                }
                proof {
                    assert(rem@ =~= results_seq.subrange(
                        errs@.len() as int,
                        results_seq.len() as int,
                    ));
                }
            }
            proof {
                assert(errs@.len() == results_seq.len());
            }
            Err(PaymentSendFailure::AllFailedResendSafe(errs))
        } else {
            proof {
                assert forall|j: int| 0 <= j < results_seq.len() implies !removed_at(
                    results_seq,
                    j,
                ) by {
                    if results_seq[j] is Err && !res_is_monitor_err(results_seq[j]) {
                        assert(spec_has_err(results_seq));
                    }
                }
            }
            Ok(())
        }
    }
}



/// Why a retry could not begin.
#[derive(Clone, Copy, Debug, PartialEq, Eq)]
pub(crate) enum RetryRefusal {
    /// The payment id is unknown.
    NotFound,
    /// The payment predates retry support.
    LegacyPayment,
    /// The payment already completed.
    AlreadyFulfilled,
    /// The payment was abandoned.
    AlreadyAbandoned,
    /// The retry would push the pending amount over the 10% allowance.
    Overpay,
    /// The retry strategy permits no further attempt now.
    RetriesExhausted,
    /// The entropy source kept returning session keys already in use.
    EntropyFailure,
}

/// What a started retry changed: the payment's attempt counter ticked up,
/// the fresh sessions joined its set, and the route's amounts entered the
/// bookkeeping.
pub open spec fn retry_started(
    p: PendingOutboundPayment,
    q: PendingOutboundPayment,
    privs: Seq<[u8; 32]>,
    paths: Seq<Vec<RouteHop>>,
) -> bool {
    &&& q is Retryable
    &&& q.sessions() =~= p.sessions().union(byte_views(privs).to_set())
    &&& q.sessions().len() == p.sessions().len() + paths.len()
    &&& q.spec_attempts().count == if p.spec_attempts().count < usize::MAX {
        p.spec_attempts().count + 1
    } else {
        usize::MAX as int
    }
    &&& q.spec_attempts().first_attempted_at == p.spec_attempts().first_attempted_at
    &&& q.spec_pending_amt() == p.spec_pending_amt() + route_total(paths)
    &&& q.spec_pending_fee() == (match p.spec_pending_fee() {
        Some(f) => if f + crate::types::route_fees(paths) <= u64::MAX as int {
            Some((f + crate::types::route_fees(paths)) as u64)
        } else {
            None::<u64>
        },
        None => None::<u64>,
    })
    &&& q.spec_retry_strategy() == p.spec_retry_strategy()
    &&& q.spec_params() == p.spec_params()
    &&& q.spec_payment_hash() == p.spec_payment_hash()
    &&& q.spec_payment_secret() == p.spec_payment_secret()
    &&& q.spec_keysend_preimage() == p.spec_keysend_preimage()
    &&& q.spec_total() == p.spec_total()
    &&& q.spec_starting_block_height() == p.spec_starting_block_height()
}

impl OutboundPayments {
    /// Draws `n` fresh session secrets, none already used by `payment` and
    /// none repeated, allowing a few redraws per secret.
    fn fresh_retry_privs<ES: crate::collaborators::EntropySource>(
        payment: &PendingOutboundPayment,
        n: usize,
        entropy_source: &ES,
    ) -> (r: Option<Vec<[u8; 32]>>)
        ensures
            r matches Some(v) ==> {
                &&& v@.len() == n
                &&& byte_views(v@).no_duplicates()
                &&& forall|i: int|
                    0 <= i < n ==> !payment.sessions().contains((#[trigger] v@[i])@)
            },
    {
        let mut r: Vec<[u8; 32]> = Vec::new();
        let mut seen = crate::session_set::SessionSet::new();
        proof {
            assert(byte_views(r@) =~= Seq::<Seq<u8>>::empty());
            assert(seen@ =~= byte_views(r@).to_set());
        }
        let mut i: usize = 0;
        while i < n
            invariant
                seen.wf(),
                seen@ == byte_views(r@).to_set(),
                byte_views(r@).no_duplicates(),
                r@.len() == i,
                i <= n,
                forall|j: int|
                    0 <= j < i ==> !payment.sessions().contains((#[trigger] r@[j])@),
            decreases n - i,
        {
            let mut found = false;
            let mut tries: usize = 0;
            while tries < 64 && !found
                invariant
                    seen.wf(),
                    seen@ == byte_views(r@).to_set(),
                    byte_views(r@).no_duplicates(),
                    found ==> r@.len() == i + 1,
                    !found ==> r@.len() == i,
                    i < n,
                    forall|j: int|
                        0 <= j < r@.len() ==> !payment.sessions().contains((#[trigger] r@[j])@),
                decreases 64 - tries,
            {
                let sp = entropy_source.get_secure_random_bytes();
                if !payment.has_session(&sp) {
                    if seen.insert(sp) {
                        proof {
                            crate::session_set::lemma_byte_views_push(r@, sp);
                        }
                        r.push(sp);
                        found = true;
                    }
                }
                tries += 1;
            }
            if !found {
                return None;
            }
            i += 1;
        }
        Some(r)
    }

    /// Checks that a retry is permitted, charges the attempt, and registers
    /// one fresh session per path. On refusal nothing changes.
    pub(crate) fn start_retry<ES: crate::collaborators::EntropySource>(
        &mut self,
        route: &Route,
        payment_id: &PaymentId,
        entropy_source: &ES,
        now_ticks: u64,
    ) -> (r: Result<
        (Vec<[u8; 32]>, u64, PaymentHash, Option<PaymentSecret>, Option<PaymentPreimage>),
        RetryRefusal,
    >)
        requires
            old(self).wf(),
            route_summable(route.paths@),
        ensures
            final(self).wf(),
            r is Err ==> final(self)@ =~= old(self)@,
            r == Err::<(Vec<[u8; 32]>, u64, PaymentHash, Option<PaymentSecret>, Option<
                PaymentPreimage,
            >), RetryRefusal>(RetryRefusal::NotFound) <==> !old(self)@.contains_key(payment_id@),
            old(self)@.contains_key(payment_id@) ==> {
                let p = old(self)@[payment_id@];
                let over = route_total(route.paths@) + p.spec_pending_amt() > p.spec_total() * 110
                    / 100;
                &&& (r == Err::<(Vec<[u8; 32]>, u64, PaymentHash, Option<PaymentSecret>, Option<
                    PaymentPreimage,
                >), RetryRefusal>(RetryRefusal::LegacyPayment) <==> p is Legacy)
                &&& (r == Err::<(Vec<[u8; 32]>, u64, PaymentHash, Option<PaymentSecret>, Option<
                    PaymentPreimage,
                >), RetryRefusal>(RetryRefusal::AlreadyFulfilled) <==> p is Fulfilled)
                &&& (r == Err::<(Vec<[u8; 32]>, u64, PaymentHash, Option<PaymentSecret>, Option<
                    PaymentPreimage,
                >), RetryRefusal>(RetryRefusal::AlreadyAbandoned) <==> p is Abandoned)
                &&& (r == Err::<(Vec<[u8; 32]>, u64, PaymentHash, Option<PaymentSecret>, Option<
                    PaymentPreimage,
                >), RetryRefusal>(RetryRefusal::Overpay) <==> p is Retryable && over)
                &&& (r == Err::<(Vec<[u8; 32]>, u64, PaymentHash, Option<PaymentSecret>, Option<
                    PaymentPreimage,
                >), RetryRefusal>(RetryRefusal::RetriesExhausted) <==> p is Retryable && !over
                    && !p.manually_retryable(now_ticks))
                &&& (r matches Ok((privs, total_msat, payment_hash, payment_secret,
                keysend_preimage)) ==> {
                    &&& p is Retryable
                    &&& !over
                    &&& p.manually_retryable(now_ticks)
                    &&& privs@.len() == route.paths@.len()
                    &&& byte_views(privs@).no_duplicates()
                    &&& total_msat as int == p.spec_total()
                    &&& Some(payment_hash) == p.spec_payment_hash()
                    &&& payment_secret == p.spec_payment_secret()
                    &&& keysend_preimage == p.spec_keysend_preimage()
                    &&& final(self)@ =~= old(self)@.insert(payment_id@, final(self)@[payment_id@])
                    &&& final(self)@.contains_key(payment_id@)
                    &&& retry_started(p, final(self)@[payment_id@], privs@, route.paths@)
                })
            },
    {
        let ghost k = payment_id@;
        match self.take_payment(payment_id) {
            None => Err(RetryRefusal::NotFound),
            Some((id, mut payment)) => {
                let refusal: Option<RetryRefusal> = match &payment {
                    PendingOutboundPayment::Legacy { .. } => Some(RetryRefusal::LegacyPayment),
                    PendingOutboundPayment::Fulfilled { .. } => Some(RetryRefusal::AlreadyFulfilled),
                    PendingOutboundPayment::Abandoned { .. } => Some(RetryRefusal::AlreadyAbandoned),
                    PendingOutboundPayment::Retryable { .. } => None,
                };
                if let Some(refusal) = refusal {
                    self.put_payment(id, payment);
                    proof {
                        assert(old(self)@.remove(k).insert(k, old(self)@[k]) =~= old(self)@);
                    }
                    return Err(refusal);
                }
                let retry_amt_msat = match crate::types::route_total_summed(route) {
                    Some(t) => t,
                    None => {
                        proof {
                            assert(false);
                        }
                        0
                    },
                };
                let (total_msat, payment_hash, payment_secret, keysend_preimage, pending_amt) =
                    match &payment {
                    PendingOutboundPayment::Retryable {
                        total_msat,
                        payment_hash,
                        payment_secret,
                        keysend_preimage,
                        pending_amt_msat,
                        ..
                    } => (*total_msat, *payment_hash, *payment_secret, *keysend_preimage,
                    *pending_amt_msat),
                    _ => {
                        proof {
                            assert(false);
                        }
                        (0, PaymentHash([0u8; 32]), None, None, 0)
                    },
                };
                let over = (retry_amt_msat as u128) + (pending_amt as u128) > (
                total_msat as u128) * 110 / 100;
                if over {
                    self.put_payment(id, payment);
                    proof {
                        assert(old(self)@.remove(k).insert(k, old(self)@[k]) =~= old(self)@);
                    }
                    return Err(RetryRefusal::Overpay);
                }
                if !payment.is_retryable_now(now_ticks) {
                    self.put_payment(id, payment);
                    proof {
                        assert(old(self)@.remove(k).insert(k, old(self)@[k]) =~= old(self)@);
                    }
                    return Err(RetryRefusal::RetriesExhausted);
                }
                let n = route.paths.len();
                let onion_session_privs = match Self::fresh_retry_privs(
                    &payment,
                    n,
                    entropy_source,
                ) {
                    Some(privs) => privs,
                    None => {
                        self.put_payment(id, payment);
                        proof {
                            assert(old(self)@.remove(k).insert(k, old(self)@[k]) =~= old(self)@);
                        }
                        return Err(RetryRefusal::EntropyFailure);
                    },
                };
                let ghost p = payment;
                payment.increment_attempts();
                let ghost privs = onion_session_privs@;
                let ghost ps = route.paths@;
                let mut i: usize = 0;
                proof {
                    assert(ps.subrange(0, 0) =~= Seq::<Vec<RouteHop>>::empty());
                    assert(byte_views(privs.subrange(0, 0)) =~= Seq::<Seq<u8>>::empty());
                    assert(payment.sessions() =~= p.sessions().union(
                        byte_views(privs.subrange(0, 0)).to_set(),
                    ));
                    crate::types::lemma_route_total_nonneg(ps);
                }
                while i < n
                    invariant
                        0 <= i <= n,
                        n == ps.len(),
                        ps == route.paths@,
                        privs == onion_session_privs@,
                        privs.len() == n,
                        byte_views(privs).no_duplicates(),
                        forall|j: int|
                            0 <= j < n ==> !p.sessions().contains((#[trigger] privs[j])@),
                        route_summable(ps),
                        p.wf(),
                        p is Retryable,
                        retry_amt_msat == route_total(ps),
                        retry_amt_msat + p.spec_pending_amt() <= p.spec_total() * 110 / 100,
                        payment is Retryable,
                        payment.sessions_wf(),
                        payment.sessions() =~= p.sessions().union(
                            byte_views(privs.subrange(0, i as int)).to_set(),
                        ),
                        payment.sessions().len() == p.sessions().len() + i,
                        payment.spec_pending_amt() == p.spec_pending_amt() + route_total(
                            ps.subrange(0, i as int),
                        ),
                        payment.spec_pending_fee() == (match p.spec_pending_fee() {
                            Some(f) => if f + crate::types::route_fees(ps.subrange(0, i as int))
                                <= u64::MAX as int {
                                Some((f + crate::types::route_fees(ps.subrange(0, i as int))) as u64)
                            } else {
                                None::<u64>
                            },
                            None => None::<u64>,
                        }),
                        payment.spec_attempts().count == if p.spec_attempts().count < usize::MAX {
                            p.spec_attempts().count + 1
                        } else {
                            usize::MAX as int
                        },
                        payment.spec_attempts().first_attempted_at
                            == p.spec_attempts().first_attempted_at,
                        payment.spec_retry_strategy() == p.spec_retry_strategy(),
                        payment.spec_params() == p.spec_params(),
                        payment.spec_payment_hash() == p.spec_payment_hash(),
                        payment.spec_payment_secret() == p.spec_payment_secret(),
                        payment.spec_keysend_preimage() == p.spec_keysend_preimage(),
                        payment.spec_total() == p.spec_total(),
                        payment.spec_starting_block_height() == p.spec_starting_block_height(),
                    decreases n - i,
                {
                    proof {
                        assert(ps[i as int]@.len() > 0);
                        assert(ps.subrange(0, i + 1).drop_last() =~= ps.subrange(0, i as int));
                        assert(ps.subrange(0, i + 1).last() == ps[i as int]);
                        lemma_route_total_prefix(ps, i + 1, ps.len() as int);
                        assert(ps.subrange(0, ps.len() as int) =~= ps);
                        lemma_route_total_nonneg(ps.subrange(0, i as int));
                        crate::types::lemma_path_amt_nonneg(ps[i as int]@);
                        assert(payment.spec_pending_amt() + path_amt(ps[i as int]@)
                            <= u64::MAX as int);
                        assert(!payment.sessions().contains(privs[i as int]@)) by {
                            if byte_views(privs.subrange(0, i as int)).to_set().contains(
                                privs[i as int]@,
                            ) {
                                let j = choose|j: int|
                                    0 <= j < i && byte_views(privs.subrange(0, i as int))[j]
                                        == privs[i as int]@;
                                assert(byte_views(privs)[j] == byte_views(privs)[i as int]);
                            }
                        }
                    }
                    let inserted = payment.insert(onion_session_privs[i], &route.paths[i]);
                    proof {
                        assert(inserted);
                        crate::session_set::lemma_byte_views_push(
                            privs.subrange(0, i as int),
                            privs[i as int],
                        );
                        assert(privs.subrange(0, i + 1) =~= privs.subrange(0, i as int).push(
                            privs[i as int],
                        ));
                        assert(byte_views(privs.subrange(0, i + 1)) =~= byte_views(
                            privs.subrange(0, i as int),
                        ).push(privs[i as int]@));
                        assert(payment.sessions() =~= p.sessions().union(
                            byte_views(privs.subrange(0, i + 1)).to_set(),
                        ));
                        crate::types::lemma_path_fees_nonneg(ps[i as int]@);
                        assert(crate::types::route_fees(ps.subrange(0, i + 1))
                            == crate::types::route_fees(ps.subrange(0, i as int))
                            + crate::types::path_fees(ps[i as int]@));
                        assert(crate::types::all_paths_nonempty(ps.subrange(0, i + 1))) by {
                            assert forall|j: int|
                                0 <= j < i + 1 implies (#[trigger] ps.subrange(0, i + 1)[j])@.len()
                                > 0 by {
                                assert(ps.subrange(0, i + 1)[j] == ps[j]);
                            }
                        }
                        assert(crate::types::all_paths_nonempty(ps.subrange(0, i as int))) by {
                            assert forall|j: int|
                                0 <= j < i implies (#[trigger] ps.subrange(0, i as int)[j])@.len()
                                > 0 by {
                                assert(ps.subrange(0, i as int)[j] == ps[j]);
                            }
                        }
                        crate::types::lemma_route_fees_nonneg(ps.subrange(0, i as int));
                        crate::types::lemma_route_fees_nonneg(ps.subrange(0, i + 1));
                    }
                    i += 1;
                }
                proof {
                    assert(privs.subrange(0, n as int) =~= privs);
                    assert(ps.subrange(0, n as int) =~= ps);
                    assert(payment.amounts_ok());
                }
                self.put_payment(id, payment);
                proof {
                    assert(old(self)@.remove(k).insert(k, payment) =~= old(self)@.insert(
                        k,
                        payment,
                    ));
                }
                Ok((onion_session_privs, total_msat, payment_hash, payment_secret,
                keysend_preimage))
            },
        }
    }
}



/// How many failed rounds one send call will drive before giving up; the
/// retry strategy normally stops a payment well before this bound.
pub const MAX_RETRY_ROUNDS: usize = 64;

/// Whether the route's invoice lies in the past of the supplied wall clock.
pub open spec fn spec_has_expired(
    route_params: RouteParameters,
    now_unix_secs: Option<u64>,
) -> bool {
    &&& route_params.payment_params.expiry_time is Some
    &&& now_unix_secs is Some
    &&& now_unix_secs.unwrap() > route_params.payment_params.expiry_time.unwrap()
}

/// Returns whether the invoice behind `route_params` has expired; without a
/// wall clock nothing ever expires.
pub fn has_expired(route_params: &RouteParameters, now_unix_secs: Option<u64>) -> (r: bool)
    ensures
        r == spec_has_expired(*route_params, now_unix_secs),
{
    match (route_params.payment_params.expiry_time, now_unix_secs) {
        (Some(expiry), Some(now)) => now > expiry,
        _ => false,
    }
}

/// The error a retry refusal surfaces as.
fn refusal_error(refusal: RetryRefusal, payment_id: &PaymentId) -> (r: PaymentSendFailure)
    ensures
        r matches PaymentSendFailure::ParameterError(e) && (e matches ApiError::APIMisuseError {
            err,
        } && err@ == (match refusal {
            RetryRefusal::NotFound => crate::errors::msg_not_found(payment_id@),
            RetryRefusal::LegacyPayment => crate::errors::msg_legacy_retry(),
            RetryRefusal::AlreadyFulfilled => crate::errors::msg_already_completed(),
            RetryRefusal::AlreadyAbandoned => crate::errors::msg_already_abandoned(),
            RetryRefusal::Overpay => crate::errors::msg_overpay(),
            RetryRefusal::RetriesExhausted => crate::errors::msg_retries_exhausted() + crate::hashing::hex_of(payment_id@),
            RetryRefusal::EntropyFailure => crate::errors::msg_duplicate_session_keys(),
        })),
        r matches PaymentSendFailure::ParameterError(e) && (e matches ApiError::APIMisuseError {
            err,
        } && err@ != crate::errors::msg_invoice_expired() + crate::hashing::hex_of(payment_id@)),
{
    proof {
        reveal_strlit("Payment with ID ");
        reveal_strlit("Unable to retry payments that were initially sent on versions prior to 0.0.102");
        reveal_strlit("Payment already completed");
        reveal_strlit("Payment already abandoned (with some HTLCs still pending)");
        reveal_strlit("retry amount will put the pending amount more than 10% over the total payment amount");
        reveal_strlit("Retries exhausted for payment id ");
        reveal_strlit("Entropy source returned duplicate session keys");
        crate::errors::lemma_distinct_from_expired(
            crate::errors::msg_not_found(payment_id@),
            payment_id@,
        );
        crate::errors::lemma_distinct_from_expired(crate::errors::msg_legacy_retry(), payment_id@);
        crate::errors::lemma_distinct_from_expired(
            crate::errors::msg_already_completed(),
            payment_id@,
        );
        crate::errors::lemma_distinct_from_expired(
            crate::errors::msg_already_abandoned(),
            payment_id@,
        );
        crate::errors::lemma_distinct_from_expired(crate::errors::msg_overpay(), payment_id@);
        crate::errors::lemma_distinct_from_expired(
            crate::errors::msg_retries_exhausted() + crate::hashing::hex_of(payment_id@),
            payment_id@,
        );
        crate::errors::lemma_distinct_from_expired(
            crate::errors::msg_duplicate_session_keys(),
            payment_id@,
        );
    }
    match refusal {
        RetryRefusal::NotFound => crate::errors::not_found_error(payment_id),
        RetryRefusal::LegacyPayment => PaymentSendFailure::ParameterError(
            crate::errors::misuse_error(
                "Unable to retry payments that were initially sent on versions prior to 0.0.102",
            ),
        ),
        RetryRefusal::AlreadyFulfilled => PaymentSendFailure::ParameterError(
            crate::errors::misuse_error("Payment already completed"),
        ),
        RetryRefusal::AlreadyAbandoned => PaymentSendFailure::ParameterError(
            crate::errors::misuse_error("Payment already abandoned (with some HTLCs still pending)"),
        ),
        RetryRefusal::Overpay => PaymentSendFailure::ParameterError(
            crate::errors::misuse_error(
                "retry amount will put the pending amount more than 10% over the total payment amount",
            ),
        ),
        RetryRefusal::RetriesExhausted => PaymentSendFailure::ParameterError(
            crate::errors::misuse_error_with_id("Retries exhausted for payment id ", payment_id),
        ),
        RetryRefusal::EntropyFailure => PaymentSendFailure::ParameterError(
            crate::errors::misuse_error("Entropy source returned duplicate session keys"),
        ),
    }
}

impl OutboundPayments {
    /// Retries a payment over the given route with fresh sessions. The
    /// payment must exist, still be `Retryable`, within its retry strategy,
    /// and the route must not overpay the 10% allowance.
    pub fn retry_payment_with_route<ES: crate::collaborators::EntropySource, NS: NodeSigner, SP: PathSender>(
        &mut self,
        route: &Route,
        payment_id: PaymentId,
        entropy_source: &ES,
        node_signer: &NS,
        best_block_height: u32,
        now_ticks: u64,
        send_payment_along_path: &SP,
    ) -> (r: Result<(), PaymentSendFailure>)
        requires
            old(self).wf(),
        ensures
            final(self).wf(),
            (exists|i: int|
                0 <= i < route.paths@.len() && (#[trigger] route.paths@[i])@.len() == 0) ==> (r
                matches Err(PaymentSendFailure::ParameterError(e)) && (
            e matches ApiError::APIMisuseError { err } && err@ == crate::errors::msg_zero_len_path())
                && final(self)@ =~= old(self)@),
            all_paths_nonempty(route.paths@) ==> {
                let known = old(self)@.contains_key(payment_id@);
                &&& (!known ==> (r matches Err(PaymentSendFailure::ParameterError(e)) && (
                e matches ApiError::APIMisuseError { err } && err@ == crate::errors::msg_not_found(
                    payment_id@,
                )) && final(self)@ =~= old(self)@))
                &&& (known ==> {
                    let p = old(self)@[payment_id@];
                    let over = route_total(route.paths@) + p.spec_pending_amt() > p.spec_total()
                        * 110 / 100;
                    &&& (p is Legacy ==> (r matches Err(PaymentSendFailure::ParameterError(e)) && (
                    e matches ApiError::APIMisuseError { err } && err@
                        == crate::errors::msg_legacy_retry()) && final(self)@ =~= old(self)@))
                    &&& (p is Fulfilled ==> (r matches Err(PaymentSendFailure::ParameterError(e))
                        && (e matches ApiError::APIMisuseError { err } && err@
                        == crate::errors::msg_already_completed()) && final(self)@ =~= old(self)@))
                    &&& (p is Abandoned ==> (r matches Err(PaymentSendFailure::ParameterError(e))
                        && (e matches ApiError::APIMisuseError { err } && err@
                        == crate::errors::msg_already_abandoned()) && final(self)@ =~= old(self)@))
                    &&& (p is Retryable && over ==> (r matches Err(
                        PaymentSendFailure::ParameterError(e),
                    ) && (e matches ApiError::APIMisuseError { err } && err@
                        == crate::errors::msg_overpay()) && final(self)@ =~= old(self)@))
                    &&& (p is Retryable && !over && !p.manually_retryable(now_ticks) ==> (r
                        matches Err(PaymentSendFailure::ParameterError(e)) && (
                    e matches ApiError::APIMisuseError { err } && err@
                        == crate::errors::msg_retries_exhausted() + crate::hashing::hex_of(
                        payment_id@,
                    )) && final(self)@ =~= old(self)@))
                })
            },
    {
        let mut i: usize = 0;
        while i < route.paths.len()
            invariant
                *self == *old(self),
                self.wf(),
                0 <= i <= route.paths@.len(),
                forall|j: int| 0 <= j < i ==> (#[trigger] route.paths@[j])@.len() > 0,
            decreases route.paths@.len() - i,
        {
            if route.paths[i].len() == 0 {
                return Err(
                    PaymentSendFailure::ParameterError(
                        crate::errors::misuse_error("length-0 path in route"),
                    ),
                );
            }
            i += 1;
        }
        proof {
            assert(all_paths_nonempty(route.paths@));
        }
        match crate::types::route_total_summed(route) {
            Some(_) => {},
            None => {
                // The route's total cannot be represented, so it necessarily
                // overpays any representable cap; classify it as the caller
                // misusing the retry allowance.
                let refusal: RetryRefusal = match self.get(&payment_id) {
                    None => RetryRefusal::NotFound,
                    Some(p) => {
                        proof {
                            self.lemma_wf_payments();
                            crate::types::lemma_route_total_nonneg(route.paths@);
                        }
                        match p {
                            PendingOutboundPayment::Legacy { .. } => RetryRefusal::LegacyPayment,
                            PendingOutboundPayment::Fulfilled { .. } => RetryRefusal::AlreadyFulfilled,
                            PendingOutboundPayment::Abandoned { .. } => RetryRefusal::AlreadyAbandoned,
                            PendingOutboundPayment::Retryable { .. } => RetryRefusal::Overpay,
                        }
                    },
                };
                return Err(refusal_error(refusal, &payment_id));
            },
        }
        let started = self.start_retry(route, &payment_id, entropy_source, now_ticks);
        match started {
            Err(refusal) => Err(refusal_error(refusal, &payment_id)),
            Ok((onion_session_privs, total_msat, payment_hash, payment_secret, keysend_preimage)) => {
                self.pay_route_internal(
                    route,
                    payment_hash,
                    &payment_secret,
                    keysend_preimage,
                    payment_id,
                    Some(total_msat),
                    onion_session_privs,
                    node_signer,
                    best_block_height,
                    send_payment_along_path,
                )
            },
        }
    }
}



/// What one attempt's outcome means for the ongoing send.
pub struct RoundVerdict {
    /// The running result after this attempt.
    pub res: Result<(), PaymentSendFailure>,
    /// Whether the send is finished.
    pub done: bool,
    /// Whether this attempt committed some paths, fixing the final result
    /// to success.
    pub absorbed_partial: bool,
    /// Parameters for the next round, when this attempt asks to reroute the
    /// unsent balance.
    pub next_params: Option<RouteParameters>,
    /// Whether an attempt has had all of its paths fail harmlessly so far.
    pub have_all_failed: bool,
}

/// Decides what follows one attempt. An all-failed attempt is retried with
/// its error kept as the running result; a partial failure commits the
/// payment, so the result becomes success and only the unsent balance is
/// rerouted; a retries-exhausted refusal after an all-failed attempt keeps
/// that earlier, more informative error; anything else ends the send with
/// its own result.
pub fn arbitrate_attempt(
    attempt_res: Result<(), PaymentSendFailure>,
    retries_exhausted: bool,
    prior_res: Result<(), PaymentSendFailure>,
    have_all_failed: bool,
) -> (v: RoundVerdict)
    ensures
        attempt_res matches Err(PaymentSendFailure::AllFailedResendSafe(errs)) ==> v == (
        RoundVerdict {
            res: Err::<(), PaymentSendFailure>(PaymentSendFailure::AllFailedResendSafe(errs)),
            done: false,
            absorbed_partial: false,
            next_params: None::<RouteParameters>,
            have_all_failed: true,
        }),
        attempt_res matches Err(PaymentSendFailure::PartialFailure {
            results,
            failed_paths_retry: Some(rp),
            payment_id: pid,
        }) ==> v == (RoundVerdict {
            res: Ok::<(), PaymentSendFailure>(()),
            done: false,
            absorbed_partial: true,
            next_params: Some(rp),
            have_all_failed,
        }),
        attempt_res matches Err(PaymentSendFailure::PartialFailure {
            results,
            failed_paths_retry: None,
            payment_id: pid,
        }) ==> v == (RoundVerdict {
            res: Ok::<(), PaymentSendFailure>(()),
            done: true,
            absorbed_partial: false,
            next_params: None::<RouteParameters>,
            have_all_failed,
        }),
        attempt_res is Ok ==> v == (RoundVerdict {
            res: Ok::<(), PaymentSendFailure>(()),
            done: true,
            absorbed_partial: false,
            next_params: None::<RouteParameters>,
            have_all_failed,
        }),
        attempt_res matches Err(e) ==> ((!(e is AllFailedResendSafe) && !(e is PartialFailure))
            ==> v == (RoundVerdict {
            res: if retries_exhausted && have_all_failed {
                prior_res
            } else {
                Err::<(), PaymentSendFailure>(e)
            },
            done: true,
            absorbed_partial: false,
            next_params: None::<RouteParameters>,
            have_all_failed,
        })),
{
    match attempt_res {
        Err(PaymentSendFailure::AllFailedResendSafe(errs)) => RoundVerdict {
            res: Err(PaymentSendFailure::AllFailedResendSafe(errs)),
            done: false,
            absorbed_partial: false,
            next_params: None,
            have_all_failed: true,
        },
        Err(
            PaymentSendFailure::PartialFailure {
                results: _,
                failed_paths_retry: Some(retry),
                payment_id: _,
            },
        ) => RoundVerdict {
            res: Ok(()),
            done: false,
            absorbed_partial: true,
            next_params: Some(retry),
            have_all_failed,
        },
        Err(
            PaymentSendFailure::PartialFailure {
                results: _,
                failed_paths_retry: None,
                payment_id: _,
            },
        ) => RoundVerdict {
            res: Ok(()),
            done: true,
            absorbed_partial: false,
            next_params: None,
            have_all_failed,
        },
        Ok(()) => RoundVerdict {
            res: Ok(()),
            done: true,
            absorbed_partial: false,
            next_params: None,
            have_all_failed,
        },
        Err(other) => RoundVerdict {
            res: if retries_exhausted && have_all_failed {
                prior_res
            } else {
                Err(other)
            },
            done: true,
            absorbed_partial: false,
            next_params: None,
            have_all_failed,
        },
    }
}

/// What a freshly sent payment's record carries, so that retries find the
/// same hash, secret, preimage and strategy.
pub open spec fn send_record_matches(
    q: PendingOutboundPayment,
    payment_hash: PaymentHash,
    payment_secret: Option<PaymentSecret>,
    keysend_preimage: Option<PaymentPreimage>,
    retry_strategy: crate::types::Retry,
) -> bool {
    &&& q is Retryable
    &&& q.spec_payment_hash() == Some(payment_hash)
    &&& q.spec_payment_secret() == payment_secret
    &&& q.spec_keysend_preimage() == keysend_preimage
    &&& q.spec_retry_strategy() == Some(retry_strategy)
}

impl OutboundPayments {
    /// One attempt of `pay_internal`: the initial registration and dispatch,
    /// or a retry over a freshly found route. The second result says whether
    /// the attempt was refused because retries are exhausted.
    fn pay_attempt<ES: crate::collaborators::EntropySource, NS: NodeSigner, SP: PathSender>(
        &mut self,
        payment_id: PaymentId,
        initial_send_info: Option<(PaymentHash, Option<PaymentSecret>, Option<PaymentPreimage>, crate::types::Retry)>,
        payment_params: &PaymentParameters,
        route: &Route,
        entropy_source: &ES,
        node_signer: &NS,
        best_block_height: u32,
        now_ticks: u64,
        send_payment_along_path: &SP,
    ) -> (r: (Result<(), PaymentSendFailure>, bool))
        requires
            old(self).wf(),
        ensures
            final(self).wf(),
            r.0 == Err::<(), PaymentSendFailure>(PaymentSendFailure::DuplicatePayment) ==> old(self)@.contains_key(payment_id@) && final(self)@ =~= old(self)@,
            initial_send_info is None ==> !(r.0 == Err::<(), PaymentSendFailure>(
                PaymentSendFailure::DuplicatePayment,
            )),
            r.0 matches Err(PaymentSendFailure::ParameterError(e)) ==> (e is InvalidRoute || (
            e matches ApiError::APIMisuseError { err } && err@
                != crate::errors::msg_invoice_expired() + crate::hashing::hex_of(payment_id@))),
            initial_send_info matches Some(info) ==> ((!old(self)@.contains_key(payment_id@) && (
            r.0 is Ok || r.0 matches Err(PaymentSendFailure::PartialFailure { .. })
                || r.0 matches Err(PaymentSendFailure::AllFailedResendSafe(_)))) ==> final(self)@.contains_key(payment_id@) && send_record_matches(
                final(self)@[payment_id@],
                info.0,
                info.1,
                info.2,
                info.3,
            )),
            initial_send_info matches Some(info) ==> ((!old(self)@.contains_key(payment_id@)
                && final(self)@.contains_key(payment_id@)) ==> send_record_matches(
                final(self)@[payment_id@],
                info.0,
                info.1,
                info.2,
                info.3,
            )),
            old(self)@.contains_key(payment_id@) ==> final(self)@.contains_key(payment_id@)
                && final(self)@[payment_id@].spec_payment_hash() == old(self)@[payment_id@].spec_payment_hash() && final(self)@[payment_id@].spec_payment_secret()
                == old(self)@[payment_id@].spec_payment_secret()
                && final(self)@[payment_id@].spec_keysend_preimage() == old(self)@[payment_id@].spec_keysend_preimage()
                && final(self)@[payment_id@].spec_retry_strategy() == old(self)@[payment_id@].spec_retry_strategy() && ((final(self)@[payment_id@]) is Retryable
                <==> (old(self)@[payment_id@]) is Retryable),
    {
        match initial_send_info {
            Some((payment_hash, payment_secret, keysend_preimage, retry_strategy)) => {
                match crate::types::route_total_amount_checked(route) {
                    None => {
                        (
                            Err(
                                PaymentSendFailure::ParameterError(
                                    invalid_route_error(
                                        "Route amounts exceed what the payment bookkeeping can represent",
                                    ),
                                ),
                            ),
                            false,
                        )
                    },
                    Some(_) => {
                        match self.add_new_pending_payment(
                            payment_hash,
                            payment_secret,
                            payment_id,
                            keysend_preimage,
                            route,
                            Some(retry_strategy),
                            Some(payment_params.duplicate()),
                            entropy_source,
                            best_block_height,
                            now_ticks,
                        ) {
                            Err(e) => {
                                proof {
                                    reveal_strlit("Entropy source returned duplicate session keys");
                                    crate::errors::lemma_distinct_from_expired(
                                        crate::errors::msg_duplicate_session_keys(),
                                        payment_id@,
                                    );
                                }
                                (Err(e), false)
                            },
                            Ok(onion_session_privs) => {
                                let res = self.pay_route_internal(
                                    route,
                                    payment_hash,
                                    &payment_secret,
                                    None,
                                    payment_id,
                                    None,
                                    onion_session_privs,
                                    node_signer,
                                    best_block_height,
                                    send_payment_along_path,
                                );
                                proof {
                                    reveal_strlit(
                                        "Payment secret is required for multi-path payments",
                                    );
                                    crate::errors::lemma_distinct_from_expired(
                                        crate::errors::msg_secret_required(),
                                        payment_id@,
                                    );
                                }
                                (res, false)
                            },
                        }
                    },
                }
            },
            None => {
                match crate::types::route_total_summed(route) {
                    None => {
                        (
                            Err(
                                PaymentSendFailure::ParameterError(
                                    invalid_route_error(
                                        "Route amounts exceed what the payment bookkeeping can represent",
                                    ),
                                ),
                            ),
                            false,
                        )
                    },
                    Some(_) => {
                        match self.start_retry(route, &payment_id, entropy_source, now_ticks) {
                            Err(refusal) => {
                                let exhausted = match refusal {
                                    RetryRefusal::RetriesExhausted => true,
                                    _ => false,
                                };
                                (Err(refusal_error(refusal, &payment_id)), exhausted)
                            },
                            Ok(
                                (onion_session_privs, total_msat, payment_hash, payment_secret,
                                keysend_preimage),
                            ) => {
                                let res = self.pay_route_internal(
                                    route,
                                    payment_hash,
                                    &payment_secret,
                                    keysend_preimage,
                                    payment_id,
                                    Some(total_msat),
                                    onion_session_privs,
                                    node_signer,
                                    best_block_height,
                                    send_payment_along_path,
                                );
                                proof {
                                    reveal_strlit(
                                        "Payment secret is required for multi-path payments",
                                    );
                                    crate::errors::lemma_distinct_from_expired(
                                        crate::errors::msg_secret_required(),
                                        payment_id@,
                                    );
                                }
                                (res, false)
                            },
                        }
                    },
                }
            },
        }
    }

    /// Drives one payment to a conclusion: checks expiry, finds a route,
    /// dispatches, and keeps retrying within the strategy while every path
    /// fails harmlessly; a partial failure commits the payment, so its
    /// result becomes success and only the unsent balance is retried. For a
    /// send that created the payment, a parameter rejection leaves no entry
    /// behind, so the caller may resend under the same id.
    pub fn pay_internal<R: Router, ES: crate::collaborators::EntropySource, NS: NodeSigner, SP: PathSender>(
        &mut self,
        payment_id: PaymentId,
        initial_send_info: Option<(PaymentHash, Option<PaymentSecret>, Option<PaymentPreimage>, crate::types::Retry)>,
        route_params: RouteParameters,
        router: &R,
        entropy_source: &ES,
        node_signer: &NS,
        best_block_height: u32,
        now_ticks: u64,
        wall_clock_secs: Option<u64>,
        send_payment_along_path: &SP,
    ) -> (r: Result<(), PaymentSendFailure>)
        requires
            old(self).wf(),
        ensures
            final(self).wf(),
            spec_has_expired(route_params, wall_clock_secs) ==> (r matches Err(
                PaymentSendFailure::ParameterError(e),
            ) && (e matches ApiError::APIMisuseError { err } && err@
                == crate::errors::msg_invoice_expired() + crate::hashing::hex_of(payment_id@))
                && final(self)@ =~= old(self)@),
            (r matches Err(PaymentSendFailure::ParameterError(e)) ==> (
            e matches ApiError::APIMisuseError { err } && err@ == crate::errors::msg_invoice_expired()
                + crate::hashing::hex_of(payment_id@) ==> spec_has_expired(
                route_params,
                wall_clock_secs,
            ))),
            r == Err::<(), PaymentSendFailure>(PaymentSendFailure::DuplicatePayment) ==> old(self)@.contains_key(payment_id@) && final(self)@ =~= old(self)@,
            !(r matches Err(PaymentSendFailure::PartialFailure { .. })),
            initial_send_info matches Some(info) ==> ((!old(self)@.contains_key(payment_id@) && r
                is Ok) ==> final(self)@.contains_key(payment_id@) && send_record_matches(
                final(self)@[payment_id@],
                info.0,
                info.1,
                info.2,
                info.3,
            )),
            (initial_send_info is Some && !old(self)@.contains_key(payment_id@) && (r matches Err(
                PaymentSendFailure::ParameterError(_),
            ) || r matches Err(PaymentSendFailure::PathParameterError(_)))) ==> !final(self)@.contains_key(payment_id@),
    {
        let fresh_send = initial_send_info.is_some() && self.get(&payment_id).is_none();
        let mut cur_params = route_params;
        let mut info = initial_send_info;
        let mut absorbed_partial = false;
        let mut have_all_failed = false;
        let mut res: Result<(), PaymentSendFailure> = Ok(());
        let mut done = false;
        let mut rounds: usize = 0;
        while !done && rounds < MAX_RETRY_ROUNDS
            invariant
                self.wf(),
                fresh_send == (initial_send_info is Some && !old(self)@.contains_key(payment_id@)),
                rounds == 0 ==> !done && cur_params == route_params && self@ =~= old(self)@
                    && res is Ok && info == initial_send_info && !have_all_failed,
                spec_has_expired(route_params, wall_clock_secs) && rounds > 0 ==> done && (
                res matches Err(PaymentSendFailure::ParameterError(e)) && (
                e matches ApiError::APIMisuseError { err } && err@
                    == crate::errors::msg_invoice_expired() + crate::hashing::hex_of(payment_id@)))
                    && self@ =~= old(self)@,
                spec_has_expired(route_params, wall_clock_secs) ==> !absorbed_partial,
                res == Err::<(), PaymentSendFailure>(PaymentSendFailure::DuplicatePayment) ==> old(self)@.contains_key(payment_id@) && self@ =~= old(self)@,
                rounds > 0 ==> info is None,
                info is Some ==> info == initial_send_info,
                absorbed_partial ==> rounds > 0,
                !(res matches Err(PaymentSendFailure::PartialFailure { .. })),
                !absorbed_partial ==> cur_params == route_params,
                (!absorbed_partial && (res matches Err(PaymentSendFailure::ParameterError(e)) && (
                e matches ApiError::APIMisuseError { err } && err@
                    == crate::errors::msg_invoice_expired() + crate::hashing::hex_of(payment_id@))))
                    ==> spec_has_expired(route_params, wall_clock_secs),
                initial_send_info matches Some(info2) ==> (fresh_send && self@.contains_key(
                    payment_id@,
                ) ==> send_record_matches(
                    self@[payment_id@],
                    info2.0,
                    info2.1,
                    info2.2,
                    info2.3,
                )),
                fresh_send && rounds > 0 && (res is Ok || res matches Err(
                    PaymentSendFailure::AllFailedResendSafe(_),
                ) || absorbed_partial) ==> self@.contains_key(payment_id@),
                rounds > 0 && !done ==> (res matches Err(
                    PaymentSendFailure::AllFailedResendSafe(_),
                ) || (absorbed_partial && res is Ok)),
            decreases MAX_RETRY_ROUNDS - rounds,
        {
            rounds += 1;
            let this_info = info;
            info = None;
            if has_expired(&cur_params, wall_clock_secs) {
                res = Err(crate::errors::invoice_expired_error(&payment_id));
                done = true;
            } else {
                let our_node_id = node_signer.get_node_id();
                match router.find_route(&our_node_id, &cur_params) {
                    Err(e) => {
                        proof {
                            reveal_strlit("Failed to find a route for payment ");
                            crate::errors::lemma_distinct_from_expired(
                                crate::errors::msg_route_failed(payment_id@, e.err@),
                                payment_id@,
                            );
                        }
                        res = Err(crate::errors::route_failed_error(&payment_id, &e.err));
                        done = true;
                    },
                    Ok(route) => {
                        let ghost m_before = self@;
                        let ghost entered_absorbed = absorbed_partial;
                        let ghost entered_res = res;
                        let ghost entered_haf = have_all_failed;
                        let (attempt_res, exhausted) = self.pay_attempt(
                            payment_id,
                            this_info,
                            &cur_params.payment_params,
                            &route,
                            entropy_source,
                            node_signer,
                            best_block_height,
                            now_ticks,
                            send_payment_along_path,
                        );
                        let ghost ar = attempt_res;
                        let verdict = arbitrate_attempt(
                            attempt_res,
                            exhausted,
                            res,
                            have_all_failed,
                        );
                        res = verdict.res;
                        done = verdict.done;
                        have_all_failed = verdict.have_all_failed;
                        if verdict.absorbed_partial {
                            absorbed_partial = true;
                        }
                        if let Some(next) = verdict.next_params {
                            cur_params = next;
                        }
                        proof {
                            if fresh_send {
                                let info2 = initial_send_info.unwrap();
                                if self@.contains_key(payment_id@) {
                                    assert(send_record_matches(
                                        self@[payment_id@],
                                        info2.0,
                                        info2.1,
                                        info2.2,
                                        info2.3,
                                    )) by {
                                        if m_before.contains_key(payment_id@) {
                                            assert(send_record_matches(
                                                m_before[payment_id@],
                                                info2.0,
                                                info2.1,
                                                info2.2,
                                                info2.3,
                                            ));
                                        } else {
                                            assert(rounds == 1);
                                            assert(this_info == initial_send_info);
                                        }
                                    }
                                }
                                if res is Ok || res matches Err(
                                    PaymentSendFailure::AllFailedResendSafe(_),
                                ) || absorbed_partial {
                                    assert(self@.contains_key(payment_id@)) by {
                                        if !m_before.contains_key(payment_id@) {
                                            assert(rounds == 1);
                                            assert(this_info == initial_send_info);
                                            assert(!entered_absorbed);
                                            assert(entered_res is Ok);
                                            assert(!entered_haf);
                                            assert(ar is Ok || ar matches Err(
                                                PaymentSendFailure::PartialFailure { .. },
                                            ) || ar matches Err(
                                                PaymentSendFailure::AllFailedResendSafe(_),
                                            ));
                                        }
                                    }
                                }
                            }
                        }
                    },
                }
            }
        }
        let final_res = if absorbed_partial {
            Ok(())
        } else {
            res
        };
        if fresh_send {
            // A rejected parameter means nothing was sent; the entry this
            // call created (if any) is dropped so a corrected resend works.
            match &final_res {
                Err(PaymentSendFailure::ParameterError(_))
                | Err(PaymentSendFailure::PathParameterError(_)) => {
                    let _ = self.take_payment(&payment_id);
                },
                _ => {},
            }
        }
        final_res
    }
}



impl OutboundPayments {
    /// Drops the payment entry when every path failed harmlessly, so that
    /// the caller need not abandon it before re-sending.
    pub fn remove_outbound_if_all_failed(&mut self, payment_id: PaymentId, err: &PaymentSendFailure)
        requires
            old(self).wf(),
        ensures
            final(self).wf(),
            (err matches PaymentSendFailure::AllFailedResendSafe(_)) ==> final(self)@ =~= old(self)@.remove(payment_id@) && !final(self)@.contains_key(payment_id@),
            !(err matches PaymentSendFailure::AllFailedResendSafe(_)) ==> *final(self) == *old(self),
    {
        match err {
            PaymentSendFailure::AllFailedResendSafe(_) => {
                match self.take_payment(&payment_id) {
                    Some(_) => {
                    },
                    None => {
                        proof {
                            assert(old(self)@.remove(payment_id@) =~= old(self)@);
                        }
                    },
                }
            },
            _ => {
            },
        }
    }

    /// Forgets the entry a failed fresh send created: a fully failed
    /// dispatch and a rejected parameter both leave no state behind, so the
    /// caller may resend under the same id.
    fn reap_failed_send(&mut self, payment_id: PaymentId, err: &PaymentSendFailure)
        requires
            old(self).wf(),
        ensures
            final(self).wf(),
            (err matches PaymentSendFailure::AllFailedResendSafe(_) || err matches PaymentSendFailure::ParameterError(
                _,
            ) || err matches PaymentSendFailure::PathParameterError(_)) ==> final(self)@ =~= old(self)@.remove(payment_id@) && !final(self)@.contains_key(payment_id@),
            !(err matches PaymentSendFailure::AllFailedResendSafe(_) || err matches PaymentSendFailure::ParameterError(
                _,
            ) || err matches PaymentSendFailure::PathParameterError(_)) ==> *final(self) == *old(self),
    {
        match err {
            PaymentSendFailure::AllFailedResendSafe(_)
            | PaymentSendFailure::ParameterError(_)
            | PaymentSendFailure::PathParameterError(_) => {
                match self.take_payment(&payment_id) {
                    Some(_) => {
                    },
                    None => {
                        proof {
                            assert(old(self)@.remove(payment_id@) =~= old(self)@);
                        }
                    },
                }
            },
            _ => {
            },
        }
    }

    /// Sends a payment: finds a route for the given parameters, registers a
    /// `Retryable` payment under `payment_id`, dispatches every path, and
    /// retries within the strategy. An expired invoice, a failed route
    /// lookup, and a duplicate id are rejected before anything is sent.
    pub fn send_payment<R: Router, ES: crate::collaborators::EntropySource, NS: NodeSigner, SP: PathSender>(
        &mut self,
        payment_hash: PaymentHash,
        payment_secret: &Option<PaymentSecret>,
        payment_id: PaymentId,
        retry_strategy: crate::types::Retry,
        route_params: RouteParameters,
        router: &R,
        entropy_source: &ES,
        node_signer: &NS,
        best_block_height: u32,
        now_ticks: u64,
        wall_clock_secs: Option<u64>,
        send_payment_along_path: &SP,
    ) -> (r: Result<(), PaymentSendFailure>)
        requires
            old(self).wf(),
        ensures
            final(self).wf(),
            spec_has_expired(route_params, wall_clock_secs) ==> (r matches Err(
                PaymentSendFailure::ParameterError(e),
            ) && (e matches ApiError::APIMisuseError { err } && err@
                == crate::errors::msg_invoice_expired() + crate::hashing::hex_of(payment_id@))
                && final(self)@ =~= old(self)@),
            (r matches Err(PaymentSendFailure::ParameterError(e)) ==> (
            e matches ApiError::APIMisuseError { err } && err@ == crate::errors::msg_invoice_expired()
                + crate::hashing::hex_of(payment_id@) ==> spec_has_expired(
                route_params,
                wall_clock_secs,
            ))),
            r == Err::<(), PaymentSendFailure>(PaymentSendFailure::DuplicatePayment) ==> old(self)@.contains_key(payment_id@) && final(self)@ =~= old(self)@,
            (r matches Err(PaymentSendFailure::AllFailedResendSafe(_))) ==> !final(self)@.contains_key(payment_id@),
            !(r matches Err(PaymentSendFailure::PartialFailure { .. })),
            (!old(self)@.contains_key(payment_id@) && r is Ok) ==> final(self)@.contains_key(
                payment_id@,
            ) && send_record_matches(
                final(self)@[payment_id@],
                payment_hash,
                *payment_secret,
                None,
                retry_strategy,
            ),
            (!old(self)@.contains_key(payment_id@) && (r matches Err(
                PaymentSendFailure::ParameterError(_),
            ) || r matches Err(PaymentSendFailure::PathParameterError(_)))) ==> !final(self)@.contains_key(payment_id@),
    {
        let res = self.pay_internal(
            payment_id,
            Some((payment_hash, *payment_secret, None, retry_strategy)),
            route_params,
            router,
            entropy_source,
            node_signer,
            best_block_height,
            now_ticks,
            wall_clock_secs,
            send_payment_along_path,
        );
        match res {
            Err(e) => {
                self.remove_outbound_if_all_failed(payment_id, &e);
                Err(e)
            },
            Ok(()) => Ok(()),
        }
    }

    /// Sends a spontaneous (keysend) payment: the preimage is the given one
    /// or freshly drawn, and the payment hash its SHA-256 digest, so the
    /// recipient can claim without an invoice.
    pub fn send_spontaneous_payment<R: Router, ES: crate::collaborators::EntropySource, NS: NodeSigner, SP: PathSender>(
        &mut self,
        payment_preimage: Option<PaymentPreimage>,
        payment_id: PaymentId,
        retry_strategy: crate::types::Retry,
        route_params: RouteParameters,
        router: &R,
        entropy_source: &ES,
        node_signer: &NS,
        best_block_height: u32,
        now_ticks: u64,
        wall_clock_secs: Option<u64>,
        send_payment_along_path: &SP,
    ) -> (r: Result<PaymentHash, PaymentSendFailure>)
        requires
            old(self).wf(),
        ensures
            final(self).wf(),
            payment_preimage matches Some(preimage) ==> (r matches Ok(h) ==> h@
                == crate::hashing::hash_of_preimage(preimage@)),
            spec_has_expired(route_params, wall_clock_secs) ==> (r matches Err(
                PaymentSendFailure::ParameterError(e),
            ) && (e matches ApiError::APIMisuseError { err } && err@
                == crate::errors::msg_invoice_expired() + crate::hashing::hex_of(payment_id@))),
            (r matches Err(PaymentSendFailure::ParameterError(e)) ==> (
            e matches ApiError::APIMisuseError { err } && err@ == crate::errors::msg_invoice_expired()
                + crate::hashing::hex_of(payment_id@) ==> spec_has_expired(
                route_params,
                wall_clock_secs,
            ))),
            r == Err::<PaymentHash, PaymentSendFailure>(PaymentSendFailure::DuplicatePayment)
                ==> old(self)@.contains_key(payment_id@) && final(self)@ =~= old(self)@,
            !(r matches Err(PaymentSendFailure::PartialFailure { .. })),
            (r matches Err(PaymentSendFailure::AllFailedResendSafe(_))) ==> !final(self)@.contains_key(payment_id@),
            (!old(self)@.contains_key(payment_id@) && (r matches Err(
                PaymentSendFailure::ParameterError(_),
            ) || r matches Err(PaymentSendFailure::PathParameterError(_)))) ==> !final(self)@.contains_key(payment_id@),
            r matches Ok(h) ==> ((!old(self)@.contains_key(payment_id@)) ==> final(self)@.contains_key(payment_id@) && {
                let q = final(self)@[payment_id@];
                &&& q is Retryable
                &&& q.spec_retry_strategy() == Some(retry_strategy)
                &&& (q.spec_keysend_preimage() matches Some(pre) && q.spec_payment_hash()
                    == Some(h) && h@ == crate::hashing::hash_of_preimage(pre@))
                &&& (payment_preimage is Some ==> q.spec_keysend_preimage() == payment_preimage)
            }),
    {
        let preimage = match payment_preimage {
            Some(p) => p,
            None => PaymentPreimage(entropy_source.get_secure_random_bytes()),
        };
        let payment_hash = crate::hashing::payment_hash_for_preimage(&preimage);
        let res = self.pay_internal(
            payment_id,
            Some((payment_hash, None, Some(preimage), retry_strategy)),
            route_params,
            router,
            entropy_source,
            node_signer,
            best_block_height,
            now_ticks,
            wall_clock_secs,
            send_payment_along_path,
        );
        match res {
            Err(e) => {
                self.remove_outbound_if_all_failed(payment_id, &e);
                Err(e)
            },
            Ok(()) => Ok(payment_hash),
        }
    }

    /// Sends a payment over a route the caller already found, with no retry
    /// strategy: retries stay manual.
    pub fn send_payment_with_route<ES: crate::collaborators::EntropySource, NS: NodeSigner, SP: PathSender>(
        &mut self,
        route: &Route,
        payment_hash: PaymentHash,
        payment_secret: &Option<PaymentSecret>,
        payment_id: PaymentId,
        entropy_source: &ES,
        node_signer: &NS,
        best_block_height: u32,
        now_ticks: u64,
        send_payment_along_path: &SP,
    ) -> (r: Result<(), PaymentSendFailure>)
        requires
            old(self).wf(),
        ensures
            final(self).wf(),
            !crate::types::route_usable(route.paths@) ==> (r matches Err(
                PaymentSendFailure::ParameterError(e),
            ) && (e matches ApiError::InvalidRoute { err } && err@
                == crate::errors::msg_unusable_route()) && *final(self) == *old(self)),
            crate::types::route_usable(route.paths@) ==> (r == Err::<(), PaymentSendFailure>(
                PaymentSendFailure::DuplicatePayment,
            ) <==> old(self)@.contains_key(payment_id@) && crate::types::route_usable(
                route.paths@,
            )),
            (r matches Err(PaymentSendFailure::AllFailedResendSafe(_))) ==> !final(self)@.contains_key(payment_id@),
            (r matches Err(PaymentSendFailure::AllFailedResendSafe(_)) || r matches Err(
                PaymentSendFailure::ParameterError(_),
            ) || r matches Err(PaymentSendFailure::PathParameterError(_))) ==> final(self)@
                =~= old(self)@,
            r matches Err(PaymentSendFailure::PartialFailure { .. }) ==> final(self)@.contains_key(
                payment_id@,
            ),
            r is Ok ==> final(self)@.contains_key(payment_id@) && {
                let q = final(self)@[payment_id@];
                &&& q is Retryable
                &&& q.spec_payment_hash() == Some(payment_hash)
                &&& q.spec_payment_secret() == *payment_secret
                &&& q.spec_keysend_preimage() is None
                &&& q.spec_retry_strategy() is None
            },
    {
        match crate::types::route_total_amount_checked(route) {
            None => {
                return Err(
                    PaymentSendFailure::ParameterError(
                        invalid_route_error(
                            "Route amounts exceed what the payment bookkeeping can represent",
                        ),
                    ),
                );
            },
            Some(_) => {},
        }
        let onion_session_privs = match self.add_new_pending_payment(
            payment_hash,
            *payment_secret,
            payment_id,
            None,
            route,
            None,
            None,
            entropy_source,
            best_block_height,
            now_ticks,
        ) {
            Ok(privs) => privs,
            Err(e) => {
                return Err(e);
            },
        };
        let ghost m_add = self@;
        let res = self.pay_route_internal(
            route,
            payment_hash,
            payment_secret,
            None,
            payment_id,
            None,
            onion_session_privs,
            node_signer,
            best_block_height,
            send_payment_along_path,
        );
        let ghost m_disp = self@;
        match res {
            Err(e) => {
                self.reap_failed_send(payment_id, &e);
                proof {
                    if e matches PaymentSendFailure::AllFailedResendSafe(_)
                        || e matches PaymentSendFailure::ParameterError(_)
                        || e matches PaymentSendFailure::PathParameterError(_) {
                        assert(!old(self)@.contains_key(payment_id@));
                        assert(self@ =~= m_disp.remove(payment_id@));
                        assert forall|x: Seq<u8>| #[trigger]
                            old(self)@.contains_key(x) implies self@.contains_key(x) && self@[x]
                            == old(self)@[x] by {
                            assert(x != payment_id@);
                            assert(m_add.contains_key(x) && m_add[x] == old(self)@[x]);
                            assert(m_disp.contains_key(x) && m_disp[x] == m_add[x]);
                        }
                        assert forall|x: Seq<u8>| #[trigger]
                            self@.contains_key(x) implies old(self)@.contains_key(x) by {
                            assert(x != payment_id@);
                            assert(m_disp.contains_key(x));
                            assert(m_add.contains_key(x));
                        }
                        assert(self@ =~= old(self)@);
                    }
                }
                Err(e)
            },
            Ok(()) => Ok(()),
        }
    }

    /// Sends a spontaneous payment over a route the caller already found.
    pub fn send_spontaneous_payment_with_route<ES: crate::collaborators::EntropySource, NS: NodeSigner, SP: PathSender>(
        &mut self,
        route: &Route,
        payment_preimage: Option<PaymentPreimage>,
        payment_id: PaymentId,
        entropy_source: &ES,
        node_signer: &NS,
        best_block_height: u32,
        now_ticks: u64,
        send_payment_along_path: &SP,
    ) -> (r: Result<PaymentHash, PaymentSendFailure>)
        requires
            old(self).wf(),
        ensures
            final(self).wf(),
            payment_preimage matches Some(preimage) ==> (r matches Ok(h) ==> h@
                == crate::hashing::hash_of_preimage(preimage@)),
            r == Err::<PaymentHash, PaymentSendFailure>(PaymentSendFailure::DuplicatePayment)
                ==> old(self)@.contains_key(payment_id@),
            (r matches Err(PaymentSendFailure::AllFailedResendSafe(_)) || r matches Err(
                PaymentSendFailure::ParameterError(_),
            ) || r matches Err(PaymentSendFailure::PathParameterError(_))) ==> final(self)@
                =~= old(self)@,
            (!old(self)@.contains_key(payment_id@) && r matches Err(
                PaymentSendFailure::AllFailedResendSafe(_),
            )) ==> !final(self)@.contains_key(payment_id@),
            r matches Ok(h) ==> ((!old(self)@.contains_key(payment_id@)) ==> final(self)@.contains_key(payment_id@) && {
                let q = final(self)@[payment_id@];
                &&& q is Retryable
                &&& q.spec_retry_strategy() is None
                &&& (q.spec_keysend_preimage() matches Some(pre) && q.spec_payment_hash()
                    == Some(h) && h@ == crate::hashing::hash_of_preimage(pre@))
                &&& (payment_preimage is Some ==> q.spec_keysend_preimage() == payment_preimage)
            }),
    {
        let preimage = match payment_preimage {
            Some(p) => p,
            None => PaymentPreimage(entropy_source.get_secure_random_bytes()),
        };
        let payment_hash = crate::hashing::payment_hash_for_preimage(&preimage);
        match crate::types::route_total_amount_checked(route) {
            None => {
                return Err(
                    PaymentSendFailure::ParameterError(
                        invalid_route_error(
                            "Route amounts exceed what the payment bookkeeping can represent",
                        ),
                    ),
                );
            },
            Some(_) => {},
        }
        let onion_session_privs = match self.add_new_pending_payment(
            payment_hash,
            None,
            payment_id,
            Some(preimage),
            route,
            None,
            None,
            entropy_source,
            best_block_height,
            now_ticks,
        ) {
            Ok(privs) => privs,
            Err(e) => {
                return Err(e);
            },
        };
        let ghost m_add = self@;
        let res = self.pay_route_internal(
            route,
            payment_hash,
            &None,
            Some(preimage),
            payment_id,
            None,
            onion_session_privs,
            node_signer,
            best_block_height,
            send_payment_along_path,
        );
        let ghost m_disp = self@;
        match res {
            Err(e) => {
                self.reap_failed_send(payment_id, &e);
                proof {
                    if e matches PaymentSendFailure::AllFailedResendSafe(_)
                        || e matches PaymentSendFailure::ParameterError(_)
                        || e matches PaymentSendFailure::PathParameterError(_) {
                        assert(!old(self)@.contains_key(payment_id@));
                        assert(self@ =~= m_disp.remove(payment_id@));
                        assert forall|x: Seq<u8>| #[trigger]
                            old(self)@.contains_key(x) implies self@.contains_key(x) && self@[x]
                            == old(self)@[x] by {
                            assert(x != payment_id@);
                            assert(m_add.contains_key(x) && m_add[x] == old(self)@[x]);
                            assert(m_disp.contains_key(x) && m_disp[x] == m_add[x]);
                        }
                        assert forall|x: Seq<u8>| #[trigger]
                            self@.contains_key(x) implies old(self)@.contains_key(x) by {
                            assert(x != payment_id@);
                            assert(m_disp.contains_key(x));
                            assert(m_add.contains_key(x));
                        }
                        assert(self@ =~= old(self)@);
                    }
                }
                Err(e)
            },
            Ok(()) => Ok(payment_hash),
        }
    }

    /// Sends a payment probe over the given hops: a synthetic payment whose
    /// hash is the probing cookie of a fresh random id, so the recipient
    /// cannot claim it and the failure teaches us about route liquidity.
    pub fn send_probe<ES: crate::collaborators::EntropySource, NS: NodeSigner, SP: PathSender>(
        &mut self,
        hops: Vec<RouteHop>,
        probing_cookie_secret: [u8; 32],
        entropy_source: &ES,
        node_signer: &NS,
        best_block_height: u32,
        now_ticks: u64,
        send_payment_along_path: &SP,
    ) -> (r: Result<(PaymentHash, PaymentId), PaymentSendFailure>)
        requires
            old(self).wf(),
        ensures
            final(self).wf(),
            hops@.len() < 2 ==> (r matches Err(PaymentSendFailure::ParameterError(e)) && (
            e matches ApiError::APIMisuseError { err } && err@
                == crate::errors::msg_probe_too_short()) && *final(self) == *old(self)),
            r matches Ok(probe) ==> probe.0@ == crate::hashing::probing_cookie(
                probe.1@,
                probing_cookie_secret@,
            ),
            (r matches Err(PaymentSendFailure::AllFailedResendSafe(_)) || r matches Err(
                PaymentSendFailure::ParameterError(_),
            ) || r matches Err(PaymentSendFailure::PathParameterError(_))) ==> final(self)@
                =~= old(self)@,
            r matches Ok(probe) ==> final(self)@.contains_key(probe.1@) && {
                let q = final(self)@[probe.1@];
                &&& q is Retryable
                &&& q.spec_retry_strategy() is None
                &&& q.spec_params() is None
                &&& q.spec_payment_secret() is None
                &&& q.spec_keysend_preimage() is None
                &&& q.spec_payment_hash() == Some(probe.0)
                &&& q.sessions().len() == 1
                &&& q.spec_total() == path_amt(hops@)
                &&& q.spec_pending_amt() == path_amt(hops@)
            },
    {
        let payment_id = PaymentId(entropy_source.get_secure_random_bytes());
        let payment_hash = crate::hashing::probing_cookie_from_id(
            &payment_id,
            probing_cookie_secret,
        );
        if hops.len() < 2 {
            return Err(
                PaymentSendFailure::ParameterError(
                    crate::errors::misuse_error("No need probing a path with less than two hops"),
                ),
            );
        }
        let mut paths: Vec<Vec<RouteHop>> = Vec::new();
        paths.push(hops);
        let route = Route { paths, payment_params: None };
        proof {
            assert(route.paths@.len() == 1);
            assert(route.paths@[0] == hops);
            assert(route.paths@.last() == hops);
            assert(route.paths@.drop_last() =~= Seq::<Vec<RouteHop>>::empty());
            assert(crate::types::route_total(Seq::<Vec<RouteHop>>::empty()) == 0);
            assert(crate::types::route_total(route.paths@) == path_amt(hops@));
        }
        match crate::types::route_total_amount_checked(&route) {
            None => {
                return Err(
                    PaymentSendFailure::ParameterError(
                        invalid_route_error(
                            "Route amounts exceed what the payment bookkeeping can represent",
                        ),
                    ),
                );
            },
            Some(_) => {},
        }
        let onion_session_privs = match self.add_new_pending_payment(
            payment_hash,
            None,
            payment_id,
            None,
            &route,
            None,
            None,
            entropy_source,
            best_block_height,
            now_ticks,
        ) {
            Ok(privs) => privs,
            Err(e) => {
                return Err(e);
            },
        };
        let ghost m_add = self@;
        let res = self.pay_route_internal(
            &route,
            payment_hash,
            &None,
            None,
            payment_id,
            None,
            onion_session_privs,
            node_signer,
            best_block_height,
            send_payment_along_path,
        );
        let ghost m_disp = self@;
        match res {
            Err(e) => {
                self.reap_failed_send(payment_id, &e);
                proof {
                    if e matches PaymentSendFailure::AllFailedResendSafe(_)
                        || e matches PaymentSendFailure::ParameterError(_)
                        || e matches PaymentSendFailure::PathParameterError(_) {
                        assert(!old(self)@.contains_key(payment_id@));
                        assert(self@ =~= m_disp.remove(payment_id@));
                        assert forall|x: Seq<u8>| #[trigger]
                            old(self)@.contains_key(x) implies self@.contains_key(x) && self@[x]
                            == old(self)@[x] by {
                            assert(x != payment_id@);
                            assert(m_add.contains_key(x) && m_add[x] == old(self)@[x]);
                            assert(m_disp.contains_key(x) && m_disp[x] == m_add[x]);
                        }
                        assert forall|x: Seq<u8>| #[trigger]
                            self@.contains_key(x) implies old(self)@.contains_key(x) by {
                            assert(x != payment_id@);
                            assert(m_disp.contains_key(x));
                            assert(m_add.contains_key(x));
                        }
                        assert(self@ =~= old(self)@);
                    }
                }
                Err(e)
            },
            Ok(()) => Ok((payment_hash, payment_id)),
        }
    }

    /// Scans for payments due for an automatic retry and drives each through
    /// another attempt over a fresh route, until no candidate remains.
    pub fn check_retry_payments<R: Router, ES: crate::collaborators::EntropySource, NS: NodeSigner, SP: PathSender>(
        &mut self,
        router: &R,
        entropy_source: &ES,
        node_signer: &NS,
        best_block_height: u32,
        now_ticks: u64,
        wall_clock_secs: Option<u64>,
        send_payment_along_path: &SP,
    )
        requires
            old(self).wf(),
        ensures
            final(self).wf(),
            (forall|k: Seq<u8>| #[trigger]
                old(self)@.contains_key(k) ==> !crate::registry::auto_retry_candidate(
                    old(self)@[k],
                    now_ticks,
                )) ==> *final(self) == *old(self),
    {
        let ghost idle = forall|k: Seq<u8>| #[trigger]
            old(self)@.contains_key(k) ==> !crate::registry::auto_retry_candidate(
                old(self)@[k],
                now_ticks,
            );
        let mut rounds: usize = 0;
        while rounds < MAX_RETRY_ROUNDS
            invariant
                self.wf(),
                idle == (forall|k: Seq<u8>| #[trigger]
                    old(self)@.contains_key(k) ==> !crate::registry::auto_retry_candidate(
                        old(self)@[k],
                        now_ticks,
                    )),
                idle ==> *self == *old(self),
            decreases MAX_RETRY_ROUNDS - rounds,
        {
            rounds += 1;
            match self.find_auto_retry_candidate(now_ticks) {
                None => {
                    return ;
                },
                Some((payment_id, route_params)) => {
                    let retry_res = self.pay_internal(
                        payment_id,
                        None,
                        route_params,
                        router,
                        entropy_source,
                        node_signer,
                        best_block_height,
                        now_ticks,
                        wall_clock_secs,
                        send_payment_along_path,
                    );
                    if retry_res.is_err() {
                        // The scan repeats until no candidate remains or an
                        // error occurs.
                        return ;
                    }
                },
            }
        }
    }

    /// Registers a payment exactly as a send would, without dispatching:
    /// lets a caller drive dispatch and retries by hand.
    pub fn test_add_new_pending_payment<ES: crate::collaborators::EntropySource>(
        &mut self,
        payment_hash: PaymentHash,
        payment_secret: Option<PaymentSecret>,
        payment_id: PaymentId,
        route: &Route,
        retry_strategy: Option<crate::types::Retry>,
        entropy_source: &ES,
        best_block_height: u32,
        now_ticks: u64,
    ) -> (r: Result<Vec<[u8; 32]>, PaymentSendFailure>)
        requires
            old(self).wf(),
            crate::types::route_usable(route.paths@),
        ensures
            final(self).wf(),
            r == Err::<Vec<[u8; 32]>, PaymentSendFailure>(PaymentSendFailure::DuplicatePayment)
                <==> old(self)@.contains_key(payment_id@),
    {
        self.add_new_pending_payment(
            payment_hash,
            payment_secret,
            payment_id,
            None,
            route,
            retry_strategy,
            None,
            entropy_source,
            best_block_height,
            now_ticks,
        )
    }

    /// Dispatches over a route whose sessions are already registered,
    /// reaping the entry when every path fails harmlessly.
    pub fn test_send_payment_internal<NS: NodeSigner, SP: PathSender>(
        &mut self,
        route: &Route,
        payment_hash: PaymentHash,
        payment_secret: &Option<PaymentSecret>,
        keysend_preimage: Option<PaymentPreimage>,
        payment_id: PaymentId,
        recv_value_msat: Option<u64>,
        onion_session_privs: Vec<[u8; 32]>,
        node_signer: &NS,
        best_block_height: u32,
        send_payment_along_path: &SP,
    ) -> (r: Result<(), PaymentSendFailure>)
        requires
            old(self).wf(),
            crate::types::route_summable(route.paths@),
            onion_session_privs@.len() == route.paths@.len(),
        ensures
            final(self).wf(),
            (r matches Err(PaymentSendFailure::AllFailedResendSafe(_))) ==> !final(self)@.contains_key(payment_id@),
    {
        let res = self.pay_route_internal(
            route,
            payment_hash,
            payment_secret,
            keysend_preimage,
            payment_id,
            recv_value_msat,
            onion_session_privs,
            node_signer,
            best_block_height,
            send_payment_along_path,
        );
        match res {
            Err(e) => {
                self.remove_outbound_if_all_failed(payment_id, &e);
                Err(e)
            },
            Ok(()) => Ok(()),
        }
    }
}


} // verus!
