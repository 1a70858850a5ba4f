use crate::cluster::{
    await_read_model, cluster_wf, delegated_outcome, id_in_bounds, prim_outcome, sweep_records_model,
    sweep_stores_model, ClusterModel,
};
use crate::errors::Error;
use crate::prim::PrimFn;
use crate::scheduler::is_stale;
use crate::store::{release_model, store_inv, EntryModel, FutState, FutureId};
use crate::tasks::{inj_consume, inj_remaining, FaultPlan};
use crate::value::ValueModel;
use vstd::prelude::*;

verus! {

/// Boxing a resident value and awaiting it on the same worker yields that
/// value immediately, and the remote fetch counter does not move: no
/// network round trip is performed.
pub proof fn law_box_value_then_await(c: ClusterModel, w: usize, seq: usize, v: ValueModel)
    requires
        cluster_wf(c),
        (w as int) < c.stores.len(),
        c.stores[w as int].len() == seq,
    ensures
        ({
            let boxed = ClusterModel {
                stores: c.stores.update(
                    w as int,
                    c.stores[w as int].push(
                        EntryModel {
                            state: FutState::Ready,
                            outcome: Some(Ok(v)),
                            handles: 1,
                            pins: 0,
                        },
                    ),
                ),
                ..c
            };
            await_read_model(boxed, w as int, FutureId { owner: w, seq }, false) == (
                Ok::<ValueModel, Error>(v),
                c.remote_fetches,
            )
        }),
{
}

/// Sharing a ready future multiplies handles, not values: the original
/// and every handle produced by sharing await to the very same value,
/// before and after the count is raised.
pub proof fn law_share_yields_equal_awaits(c: ClusterModel, id: FutureId, n: u64, v: ValueModel)
    requires
        cluster_wf(c),
        id_in_bounds(c, id),
        c.stores[id.owner as int][id.seq as int].state is Ready,
        c.stores[id.owner as int][id.seq as int].outcome == Some(Ok::<ValueModel, Error>(v)),
        c.stores[id.owner as int][id.seq as int].handles + n <= u64::MAX,
    ensures
        ({
            let e = c.stores[id.owner as int][id.seq as int];
            let shared = ClusterModel {
                stores: c.stores.update(
                    id.owner as int,
                    c.stores[id.owner as int].update(
                        id.seq as int,
                        EntryModel {
                            state: e.state,
                            outcome: e.outcome,
                            handles: (e.handles + n) as u64,
                            pins: e.pins,
                        },
                    ),
                ),
                ..c
            };
            &&& await_read_model(c, id.owner as int, id, false).0 == Ok::<ValueModel, Error>(v)
            &&& await_read_model(shared, id.owner as int, id, false).0 == Ok::<ValueModel, Error>(
                v,
            )
        }),
{
}

/// Releasing one of several handles to a ready value leaves the value in
/// place for the remaining holders: awaiting through any other handle
/// still yields it. Only the release that brings the count to zero drops
/// the value, and even that waits for in-flight fetches to finish.
pub proof fn law_release_one_of_many(c: ClusterModel, id: FutureId, v: ValueModel)
    requires
        cluster_wf(c),
        id_in_bounds(c, id),
        c.stores[id.owner as int][id.seq as int].state is Ready,
        c.stores[id.owner as int][id.seq as int].outcome == Some(Ok::<ValueModel, Error>(v)),
        c.stores[id.owner as int][id.seq as int].handles >= 2,
    ensures
        ({
            let released = ClusterModel {
                stores: c.stores.update(
                    id.owner as int,
                    release_model(c.stores[id.owner as int], id.seq as int),
                ),
                ..c
            };
            &&& released.stores[id.owner as int][id.seq as int].state is Ready
            &&& released.stores[id.owner as int][id.seq as int].outcome == Some(Ok::<
                ValueModel,
                Error,
            >(v))
            &&& await_read_model(released, id.owner as int, id, false).0 == Ok::<
                ValueModel,
                Error,
            >(v)
        }),
{
}

/// The last release drops the value — unless a fetch is still in flight,
/// in which case physical deallocation is delayed until that fetch
/// completes.
pub proof fn law_last_release_drops_value(s: Seq<EntryModel>, seq: int)
    requires
        store_inv(s),
        0 <= seq < s.len(),
        s[seq].state is Ready,
        s[seq].handles == 1,
    ensures
        release_model(s, seq)[seq].state is Cancelled,
        s[seq].pins == 0 ==> release_model(s, seq)[seq].outcome is None,
        s[seq].pins > 0 ==> release_model(s, seq)[seq].outcome == s[seq].outcome,
{
}

/// After a worker has been silent past the liveness window, one sweep
/// marks it dead and every future it owns — pending or ready — is Lost:
/// a subsequent await on any of those ids fails with `Lost` at once,
/// whoever asks, rather than hanging.
pub proof fn law_silent_worker_futures_lost(
    c: ClusterModel,
    now: u64,
    w: usize,
    seq: usize,
    caller: int,
)
    requires
        cluster_wf(c),
        (w as int) < c.records.len(),
        is_stale(c.records[w as int], now, c.timeout),
        (seq as int) < c.stores[w as int].len(),
    ensures
        ({
            let swept = ClusterModel {
                records: sweep_records_model(c.records, now, c.timeout),
                stores: sweep_stores_model(c.stores, c.records, now, c.timeout),
                ..c
            };
            &&& !swept.records[w as int].alive
            &&& swept.stores[w as int][seq as int].state is Lost
            &&& await_read_model(swept, caller, FutureId { owner: w, seq }, false).0 == Err::<
                ValueModel,
                Error,
            >(Error::Lost)
        }),
{
}

/// One executor step never regresses a future: a settled slot keeps its
/// state, outcome and counts exactly, and a pending slot either stays
/// pending or becomes ready. Observers of any single future id therefore
/// see a monotonic progression — loss enters only through the sweep, and
/// cancellation only through a release.
pub proof fn law_step_never_regresses(c: ClusterModel, w: int, s: int)
    requires
        cluster_wf(c),
        0 <= w < c.stores.len(),
        0 <= s < c.stores[w].len(),
    ensures
        ({
            let e = c.stores[w][s];
            let e2 = crate::cluster::step_model(c).stores[w][s];
            &&& !(e.state is Pending) ==> e2 == e
            &&& e.state is Pending ==> e2 == e || (e2.state is Ready && e2.handles == e.handles
                && e2.pins == e.pins)
        }),
{
}

/// Consuming a planned fault leaves one fault fewer for that function.
pub proof fn lemma_consume_decrements(plans: Seq<FaultPlan>, f: PrimFn)
    requires
        inj_remaining(plans, f) > 0,
    ensures
        inj_remaining(inj_consume(plans, f), f) == inj_remaining(plans, f) - 1,
{
    lemma_consume_decrements_from(plans, f, 0);
}

proof fn lemma_consume_decrements_from(plans: Seq<FaultPlan>, f: PrimFn, k: int)
    requires
        0 <= k,
        crate::tasks::inj_remaining_from(plans, f, k) > 0,
    ensures
        crate::tasks::inj_remaining_from(crate::tasks::inj_consume_from(plans, f, k), f, k)
            == crate::tasks::inj_remaining_from(plans, f, k) - 1,
    decreases plans.len() - k,
{
    if k >= plans.len() {
    } else if plans[k].func == f {
        let post = plans.update(
            k,
            FaultPlan { func: f, remaining: (plans[k].remaining - 1) as u64 },
        );
        assert(crate::tasks::inj_remaining_from(post, f, k) == post[k].remaining);
    } else {
        lemma_consume_decrements_from(plans, f, k + 1);
        lemma_consume_preserves_prefix(plans, f, k + 1);
        let post = crate::tasks::inj_consume_from(plans, f, k + 1);
        assert(crate::tasks::inj_consume_from(plans, f, k) == post);
        assert(post[k] == plans[k]);
    }
}

/// Consuming a fault scanning from `m` never moves a plan before `m`.
proof fn lemma_consume_preserves_prefix(plans: Seq<FaultPlan>, f: PrimFn, m: int)
    requires
        0 <= m,
    ensures
        crate::tasks::inj_consume_from(plans, f, m).len() == plans.len(),
        forall|j: int|
            0 <= j < m && j < plans.len() ==> crate::tasks::inj_consume_from(plans, f, m)[j]
                == plans[j],
    decreases plans.len() - m,
{
    if m >= plans.len() {
    } else if plans[m].func == f {
    } else {
        lemma_consume_preserves_prefix(plans, f, m + 1);
    }
}

/// The registry's functions never signal a transient system fault of
/// their own: only the injector (standing for the system) does.
pub proof fn lemma_prim_outcome_not_system(f: PrimFn, vals: Seq<ValueModel>)
    ensures
        prim_outcome(f, vals) != Err::<ValueModel, Error>(Error::System),
{
}

/// A delegated call whose child is due to fail exactly once is replayed
/// exactly once by its parent frame — not zero times and not more — and
/// then settles with the function's own outcome: the caller above the
/// parent observes no fault, only added latency.
pub proof fn law_one_fault_one_replay(plans: Seq<FaultPlan>, f: PrimFn, vals: Seq<ValueModel>)
    requires
        inj_remaining(plans, f) == 1,
    ensures
        delegated_outcome(plans, f, vals).0 == prim_outcome(f, vals),
        delegated_outcome(plans, f, vals).2 == 2,
        inj_remaining(delegated_outcome(plans, f, vals).1, f) == 0,
{
    lemma_consume_decrements(plans, f);
    let p1 = inj_consume(plans, f);
    crate::cluster::lemma_consume_noop(p1, f);
    lemma_prim_outcome_not_system(f, vals);
}

/// A delegated call with no fault due runs its child once and settles
/// with the function's own outcome: replay happens only after a fault.
pub proof fn law_no_fault_no_replay(plans: Seq<FaultPlan>, f: PrimFn, vals: Seq<ValueModel>)
    requires
        inj_remaining(plans, f) == 0,
    ensures
        delegated_outcome(plans, f, vals).0 == prim_outcome(f, vals),
        delegated_outcome(plans, f, vals).2 == 1,
        delegated_outcome(plans, f, vals).1 == plans,
{
    crate::cluster::lemma_consume_noop(plans, f);
    lemma_prim_outcome_not_system(f, vals);
}

/// With two or more faults due, the single replay also fails and the
/// fault surfaces, terminally, to the frame above the parent: the
/// runtime never retries past its one-replay bound.
pub proof fn law_second_fault_is_terminal(plans: Seq<FaultPlan>, f: PrimFn, vals: Seq<ValueModel>)
    requires
        inj_remaining(plans, f) >= 2,
    ensures
        delegated_outcome(plans, f, vals).0 == Err::<ValueModel, Error>(Error::System),
        delegated_outcome(plans, f, vals).2 == 2,
{
    lemma_consume_decrements(plans, f);
}

} // verus!
