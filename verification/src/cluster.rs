use crate::errors::Error;
use crate::prim::{apply_prim, prim_result, vals_model, FunctionId, PrimFn};
use crate::scheduler::{is_stale, records_model, registry_wf, GlobalScheduler, RecordModel};
use crate::store::{
    lost_model, peek_model, release_model, store_inv, EntryModel, FutState, FutureId, Handle,
    ObjectStore, Outcome,
};
use crate::tasks::{
    args_model, dup_args, inj_consume, inj_remaining, vals_to_args, Arg, ArgModel, CallModel,
    CallRecord, Caller, FaultInjector, FaultPlan, Task, TaskModel,
};
use crate::value::{Value, ValueModel};
use vstd::prelude::*;

verus! {

/// The whole mesh in one place: the global scheduler, one object store
/// per worker (the store at index `w` belongs to the worker with id `w`),
/// the queue of accepted invocations, the fault-injection strategy, the
/// lineage log, and a count of fetches served across worker boundaries.
pub struct Cluster {
    pub sched: GlobalScheduler,
    pub stores: Vec<ObjectStore>,
    pub queue: Vec<Task>,
    pub injector: FaultInjector,
    pub lineage: Vec<CallRecord>,
    pub remote_fetches: u64,
}

/// The mathematical model of the whole mesh.
pub struct ClusterModel {
    pub timeout: u64,
    pub records: Seq<RecordModel>,
    pub stores: Seq<Seq<EntryModel>>,
    pub queue: Seq<TaskModel>,
    pub plans: Seq<FaultPlan>,
    pub calls: Seq<CallModel>,
    pub remote_fetches: u64,
}

/// The models of all stores.
pub open spec fn stores_model(s: Seq<ObjectStore>) -> Seq<Seq<EntryModel>> {
    s.map_values(|st: ObjectStore| st@)
}

impl View for Cluster {
    type V = ClusterModel;

    open spec fn view(&self) -> ClusterModel {
        ClusterModel {
            timeout: self.sched.heartbeat_timeout,
            records: records_model(self.sched.records@),
            stores: stores_model(self.stores@),
            queue: self.queue@.map_values(|t: Task| t@),
            plans: self.injector.plans@,
            calls: self.lineage@.map_values(|r: CallRecord| r@),
            remote_fetches: self.remote_fetches,
        }
    }
}

/// A queued task points into existing slots and an existing lineage
/// record.
pub open spec fn task_ok(c: ClusterModel, t: TaskModel) -> bool {
    &&& (t.target.owner as int) < c.stores.len()
    &&& (t.target.seq as int) < c.stores[t.target.owner as int].len()
    &&& (t.call as int) < c.calls.len()
}

/// Every queued task is well aimed.
pub open spec fn queue_ok(c: ClusterModel) -> bool {
    forall|k: int| 0 <= k < c.queue.len() ==> task_ok(c, #[trigger] c.queue[k])
}

/// The lineage discipline: no call's body ever runs more than twice —
/// one issue and at most one replay — a call still queued has not run at
/// all, and no two queued tasks share a lineage record.
pub open spec fn lineage_wf(queue: Seq<TaskModel>, calls: Seq<CallModel>) -> bool {
    &&& forall|i: int| 0 <= i < calls.len() ==> (#[trigger] calls[i]).attempts <= 2
    &&& forall|k: int| 0 <= k < queue.len() ==> calls[(#[trigger] queue[k]).call as int].attempts
        == 0
    &&& forall|k1: int, k2: int|
        0 <= k1 < k2 < queue.len() ==> (#[trigger] queue[k1]).call != (#[trigger] queue[k2]).call
}

/// The mesh invariant: one store per assigned worker id, every store
/// well formed, the registry well formed, every queued task aimed at
/// existing slots, and the one-replay bound on every call's lineage.
pub open spec fn cluster_wf(c: ClusterModel) -> bool {
    &&& c.records.len() == c.stores.len()
    &&& forall|w: int| 0 <= w < c.stores.len() ==> store_inv(#[trigger] c.stores[w])
    &&& registry_wf(c.records)
    &&& queue_ok(c)
    &&& lineage_wf(c.queue, c.calls)
}

/// Whether `id` names an existing slot of an existing store.
pub open spec fn id_in_bounds(c: ClusterModel, id: FutureId) -> bool {
    id.owner < c.stores.len() && id.seq < c.stores[id.owner as int].len()
}

/// Tasks stay well aimed across any change that keeps the queue, keeps
/// every store at least as long, and keeps the lineage at least as long.
pub proof fn lemma_tasks_still_ok(c1: ClusterModel, c2: ClusterModel)
    requires
        queue_ok(c1),
        c2.queue == c1.queue,
        c2.calls.len() >= c1.calls.len(),
        c2.stores.len() == c1.stores.len(),
        forall|w: int| 0 <= w < c1.stores.len() ==> #[trigger] c2.stores[w].len() >= c1.stores[w].len(),
    ensures
        queue_ok(c2),
{
    assert forall|k: int| 0 <= k < c2.queue.len() implies task_ok(c2, #[trigger] c2.queue[k]) by {
        assert(task_ok(c1, c1.queue[k]));
    }
}

/// Saturating add on the fetch counter.
pub open spec fn add_sat(a: u64, n: int) -> u64 {
    if a + n > u64::MAX {
        u64::MAX
    } else {
        (a + n) as u64
    }
}

/// One more body execution recorded in the call's lineage record.
pub open spec fn bump_attempts(calls: Seq<CallModel>, i: int) -> Seq<CallModel> {
    calls.update(
        i,
        CallModel {
            attempts: if calls[i].attempts < u64::MAX {
                (calls[i].attempts + 1) as u64
            } else {
                calls[i].attempts
            },
            ..calls[i]
        },
    )
}

/// The model of a settled outcome.
pub open spec fn settled_model(o: Outcome) -> Result<ValueModel, Error> {
    match o {
        Ok(v) => Ok(v@),
        Err(e) => Err(e),
    }
}

/// What resolving a task's arguments can come to.
pub enum ResolveKind {
    /// Every argument materialized: the values in order, with how many
    /// were served from another worker's store.
    Vals(Seq<ValueModel>, int),
    /// Some argument is still pending: the task waits its turn again.
    Wait,
    /// Some argument cannot be materialized: the call settles with this
    /// error without running.
    Fail(Error),
}

/// Resolution of the arguments from position `i` on. The leftmost
/// obstacle decides: a released handle or a dropped slot fails the call
/// with `NotFound`, a lost slot with `Lost`, a settled error propagates,
/// and a pending argument suspends only the consuming task.
pub open spec fn resolve_args_from(
    stores: Seq<Seq<EntryModel>>,
    w: int,
    args: Seq<ArgModel>,
    i: int,
) -> ResolveKind
    decreases args.len() - i,
{
    if i < 0 || i >= args.len() {
        ResolveKind::Vals(Seq::empty(), 0)
    } else {
        let rest = resolve_args_from(stores, w, args, i + 1);
        match args[i] {
            ArgModel::Val(v) => match rest {
                ResolveKind::Vals(vs, n) => ResolveKind::Vals(seq![v] + vs, n),
                _ => rest,
            },
            ArgModel::Fut(id, released) => {
                if released || !(id.owner < stores.len() && id.seq < stores[
                    id.owner as int
                ].len()) {
                    ResolveKind::Fail(Error::NotFound)
                } else {
                    match peek_model(stores[id.owner as int], id.seq as int) {
                        Ok(None) => ResolveKind::Wait,
                        Ok(Some(v)) => {
                            let inc: int = if id.owner as int != w {
                                1
                            } else {
                                0
                            };
                            match rest {
                                ResolveKind::Vals(vs, n) => ResolveKind::Vals(seq![v] + vs, n + inc),
                                _ => rest,
                            }
                        },
                        Err(e) => ResolveKind::Fail(e),
                    }
                }
            },
        }
    }
}

/// A dropped child future's slot: released as soon as the parent has read
/// it, leaving only a tombstone.
pub open spec fn tombstone() -> EntryModel {
    EntryModel { state: FutState::Cancelled, outcome: None, handles: 0, pins: 0 }
}

/// The stores after slot (`w`, `seq`) settles with `outcome`.
pub open spec fn settle_model(
    stores: Seq<Seq<EntryModel>>,
    w: int,
    seq: int,
    outcome: Result<ValueModel, Error>,
) -> Seq<Seq<EntryModel>> {
    stores.update(
        w,
        stores[w].update(
            seq,
            EntryModel {
                state: FutState::Ready,
                outcome: Some(outcome),
                handles: stores[w][seq].handles,
                pins: stores[w][seq].pins,
            },
        ),
    )
}

/// One execution of `f` under the fault plans: a planned fault fires, and
/// is consumed, before the body runs.
pub open spec fn injected_outcome(plans: Seq<FaultPlan>, f: PrimFn, vals: Seq<ValueModel>) -> (
    Result<ValueModel, Error>,
    Seq<FaultPlan>,
) {
    (
        if inj_remaining(plans, f) > 0 {
            Err(Error::System)
        } else {
            prim_outcome(f, vals)
        },
        inj_consume(plans, f),
    )
}

/// What a registry function settles to: its value, or its own
/// application error carried through opaquely.
pub open spec fn prim_outcome(f: PrimFn, vals: Seq<ValueModel>) -> Result<ValueModel, Error> {
    match prim_result(f, vals) {
        Ok(v) => Ok(v),
        Err(code) => Err(Error::App(code)),
    }
}

/// A delegated call as the parent frame runs it: issue the child; on a
/// transient system fault issue it exactly once more; a second fault is
/// terminal. Returns the parent's outcome, the remaining fault plans, and
/// how many times the child body was issued (one or two, never more).
pub open spec fn delegated_outcome(plans: Seq<FaultPlan>, f: PrimFn, vals: Seq<ValueModel>) -> (
    Result<ValueModel, Error>,
    Seq<FaultPlan>,
    int,
) {
    let first = injected_outcome(plans, f, vals);
    if first.0 == Err::<ValueModel, Error>(Error::System) {
        let second = injected_outcome(first.1, f, vals);
        (second.0, second.1, 2)
    } else {
        (first.0, first.1, 1)
    }
}

/// One executor step: run the first queued task to completion, rotate it
/// if it must wait, or drop it if its future is no longer pending.
pub open spec fn step_model(c: ClusterModel) -> ClusterModel {
    if c.queue.len() == 0 {
        c
    } else {
        let t = c.queue[0];
        let rest = c.queue.drop_first();
        let w = t.target.owner as int;
        let seq = t.target.seq as int;
        let e = c.stores[w][seq];
        if !(e.state is Pending) {
            ClusterModel { queue: rest, ..c }
        } else {
            match resolve_args_from(c.stores, w, t.args, 0) {
                ResolveKind::Wait => ClusterModel { queue: rest.push(t), ..c },
                ResolveKind::Fail(err) => ClusterModel {
                    stores: settle_model(c.stores, w, seq, Err(err)),
                    queue: rest,
                    ..c
                },
                ResolveKind::Vals(vals, n) => {
                    let remote2 = add_sat(c.remote_fetches, n);
                    let calls2 = bump_attempts(c.calls, t.call as int);
                    match t.func {
                        FunctionId::Prim(f) => {
                            let run = injected_outcome(c.plans, f, vals);
                            ClusterModel {
                                stores: settle_model(c.stores, w, seq, run.0),
                                queue: rest,
                                plans: run.1,
                                calls: calls2,
                                remote_fetches: remote2,
                                ..c
                            }
                        },
                        FunctionId::Delegated(f) => {
                            let run = delegated_outcome(c.plans, f, vals);
                            let grown = if run.2 == 2 {
                                c.stores[w].push(tombstone()).push(tombstone())
                            } else {
                                c.stores[w].push(tombstone())
                            };
                            let child = CallModel {
                                caller: Caller::Worker(t.target.owner),
                                func: FunctionId::Prim(f),
                                args: vals.map_values(|v: ValueModel| ArgModel::Val(v)),
                                parent: Some(t.call),
                                attempts: run.2 as u64,
                            };
                            ClusterModel {
                                stores: c.stores.update(
                                    w,
                                    grown.update(
                                        seq,
                                        EntryModel {
                                            state: FutState::Ready,
                                            outcome: Some(run.0),
                                            handles: e.handles,
                                            pins: e.pins,
                                        },
                                    ),
                                ),
                                queue: rest,
                                plans: run.1,
                                calls: calls2.push(child),
                                remote_fetches: remote2,
                                ..c
                            }
                        },
                    }
                },
            }
        }
    }
}

/// The executor driven for up to `fuel` steps, stopping when the queue
/// drains.
pub open spec fn run_model(c: ClusterModel, fuel: u64) -> ClusterModel
    decreases fuel,
{
    if fuel == 0 || c.queue.len() == 0 {
        c
    } else {
        run_model(step_model(c), (fuel - 1) as u64)
    }
}

/// Reading a future on behalf of `caller` (a worker id, or any other
/// number for a reader outside the mesh): the result, and the remote
/// fetch counter after the read. A read from the owner's own store is
/// free; any other read resolves the owner through the registry — a dead
/// owner is `Lost` — and counts one served fetch when a value crosses.
/// A still-pending future reads as a transient fault: the caller's
/// patience, not the runtime, gave up.
pub open spec fn await_read_model(c: ClusterModel, caller: int, id: FutureId, released: bool) -> (
    Result<ValueModel, Error>,
    u64,
) {
    if released {
        (Err(Error::NotFound), c.remote_fetches)
    } else if id.owner as int == caller {
        if !id_in_bounds(c, id) {
            (Err(Error::NotFound), c.remote_fetches)
        } else {
            match peek_model(c.stores[id.owner as int], id.seq as int) {
                Ok(Some(v)) => (Ok(v), c.remote_fetches),
                Ok(None) => (Err(Error::System), c.remote_fetches),
                Err(e) => (Err(e), c.remote_fetches),
            }
        }
    } else {
        if id.owner as int >= c.records.len() {
            (Err(Error::NotFound), c.remote_fetches)
        } else if !c.records[id.owner as int].alive {
            (Err(Error::Lost), c.remote_fetches)
        } else if !id_in_bounds(c, id) {
            (Err(Error::NotFound), c.remote_fetches)
        } else {
            match peek_model(c.stores[id.owner as int], id.seq as int) {
                Ok(Some(v)) => (Ok(v), add_sat(c.remote_fetches, 1)),
                Ok(None) => (Err(Error::System), c.remote_fetches),
                Err(e) => (Err(e), c.remote_fetches),
            }
        }
    }
}

/// The least living worker id at or after position `i`, if any.
pub open spec fn first_alive_from(rs: Seq<RecordModel>, i: int) -> Option<int>
    decreases rs.len() - i,
{
    if i < 0 || i >= rs.len() {
        None
    } else if rs[i].alive {
        Some(i)
    } else {
        first_alive_from(rs, i + 1)
    }
}

/// The least living worker id: where the scheduler routes a root call.
pub open spec fn first_alive(rs: Seq<RecordModel>) -> Option<int> {
    first_alive_from(rs, 0)
}

/// The registry after a sweep at `now`: every record silent past the
/// window flips to dead; nothing else moves.
pub open spec fn sweep_records_model(rs: Seq<RecordModel>, now: u64, timeout: u64) -> Seq<
    RecordModel,
> {
    Seq::new(
        rs.len(),
        |i: int|
            if is_stale(rs[i], now, timeout) {
                RecordModel {
                    address: rs[i].address,
                    last_heartbeat: rs[i].last_heartbeat,
                    alive: false,
                }
            } else {
                rs[i]
            },
    )
}

/// The stores after a sweep at `now`: a newly dead worker's store loses
/// every slot.
pub open spec fn sweep_stores_model(
    stores: Seq<Seq<EntryModel>>,
    rs: Seq<RecordModel>,
    now: u64,
    timeout: u64,
) -> Seq<Seq<EntryModel>> {
    Seq::new(
        stores.len(),
        |w: int|
            if is_stale(rs[w], now, timeout) {
                lost_model(stores[w])
            } else {
                stores[w]
            },
    )
}

/// With no fault planned for `f`, consuming changes nothing.
pub proof fn lemma_consume_noop(plans: Seq<FaultPlan>, f: PrimFn)
    requires
        inj_remaining(plans, f) == 0,
    ensures
        inj_consume(plans, f) == plans,
{
    lemma_consume_noop_from(plans, f, 0);
}

proof fn lemma_consume_noop_from(plans: Seq<FaultPlan>, f: PrimFn, k: int)
    requires
        0 <= k,
        crate::tasks::inj_remaining_from(plans, f, k) == 0,
    ensures
        crate::tasks::inj_consume_from(plans, f, k) == plans,
    decreases plans.len() - k,
{
    if k >= plans.len() {
    } else if plans[k].func == f {
    } else {
        lemma_consume_noop_from(plans, f, k + 1);
    }
}

/// Rebuilds an outcome around a copy of its value.
fn dup_outcome(o: &Outcome) -> (r: Outcome)
    ensures
        settled_model(r) == settled_model(*o),
{
    match o {
        Ok(v) => Ok(v.duplicate()),
        Err(e) => Err(*e),
    }
}

impl Cluster {
    pub open spec fn wf(&self) -> bool {
        cluster_wf(self@)
    }

    /// A fresh mesh with no workers, no futures and no faults planned.
    pub fn new(heartbeat_timeout: u64) -> (r: Cluster)
        ensures
            r.wf(),
            r@.records.len() == 0,
            r@.stores.len() == 0,
            r@.queue.len() == 0,
            r@.plans.len() == 0,
            r@.calls.len() == 0,
            r@.remote_fetches == 0,
            r@.timeout == heartbeat_timeout,
    {
        Cluster {
            sched: GlobalScheduler::new(heartbeat_timeout),
            stores: Vec::new(),
            queue: Vec::new(),
            injector: FaultInjector::new(),
            lineage: Vec::new(),
            remote_fetches: 0,
        }
    }

    /// Registers a worker and gives it an empty object store. Idempotent
    /// while the worker lives; after its death the same address gets a
    /// fresh id and a fresh store.
    pub fn add_worker(&mut self, address: String, now: u64) -> (id: usize)
        requires
            old(self).wf(),
        ensures
            final(self).wf(),
            id < final(self)@.records.len(),
            final(self)@.records[id as int].alive,
            final(self)@.records[id as int].address == address@,
            ({
                let c = old(self)@;
                if exists|i: int|
                    0 <= i < c.records.len() && c.records[i].alive && c.records[i].address
                        == address@ {
                    final(self)@ == c && c.records[id as int].alive && c.records[id as int].address
                        == address@
                } else {
                    &&& id == c.records.len()
                    &&& final(self)@ == (ClusterModel {
                        records: c.records.push(
                            RecordModel { address: address@, last_heartbeat: now, alive: true },
                        ),
                        stores: c.stores.push(Seq::empty()),
                        ..c
                    })
                }
            }),
    {
        let ghost c = self@;
        let id = self.sched.register(address, now);
        if id == self.stores.len() {
            self.stores.push(ObjectStore::new());
            proof {
                assert(stores_model(self.stores@) =~~= c.stores.push(Seq::empty()));
                assert(self@.records =~= c.records.push(self@.records[id as int]));
            }
        }
        proof {
            if id < c.stores.len() {
                assert(self@.records =~= c.records);
                assert(self@ == c);
            }
        }
        id
    }

    /// Resolves a future to its owner's address: the lookup another node
    /// makes before fetching. An unknown owner is `NotFound`; a dead one
    /// is `Lost` — the value is unreachable unless an ancestor replays.
    pub fn resolve_owner(&self, id: FutureId) -> (r: Result<&String, Error>)
        ensures
            (id.owner as int) >= self@.records.len() ==> r == Err::<&String, Error>(
                Error::NotFound,
            ),
            (id.owner as int) < self@.records.len() && !self@.records[id.owner as int].alive ==> r
                == Err::<&String, Error>(Error::Lost),
            (id.owner as int) < self@.records.len() && self@.records[id.owner as int].alive ==> ({
                &&& r is Ok
                &&& r->Ok_0@ == self@.records[id.owner as int].address
            }),
    {
        proof {
            if (id.owner as int) < self@.records.len() {
                assert(self@.records[id.owner as int] == self.sched.records@[id.owner as int]@);
            }
        }
        self.sched.resolve_worker(id.owner)
    }

    /// Passes worker `w`'s heartbeat at tick `at` to the scheduler.
    pub fn heartbeat(&mut self, w: usize, at: u64) -> (r: Result<(), Error>)
        requires
            old(self).wf(),
        ensures
            final(self).wf(),
            ({
                let c = old(self)@;
                if w >= c.records.len() {
                    r == Err::<(), Error>(Error::NotFound) && final(self)@ == c
                } else if !c.records[w as int].alive {
                    r == Err::<(), Error>(Error::Lost) && final(self)@ == c
                } else {
                    r == Ok::<(), Error>(()) && final(self)@ == (ClusterModel {
                        records: c.records.update(
                            w as int,
                            RecordModel {
                                address: c.records[w as int].address,
                                last_heartbeat: at,
                                alive: true,
                            },
                        ),
                        ..c
                    })
                }
            }),
    {
        let r = self.sched.heartbeat(w, at);
        proof {
            let c = old(self)@;
            if w < c.records.len() && c.records[w as int].alive {
                assert(self@.records =~= c.records.update(
                    w as int,
                    RecordModel {
                        address: c.records[w as int].address,
                        last_heartbeat: at,
                        alive: true,
                    },
                ));
            }
        }
        r
    }

    /// Plans the next `n` executions of `f` to fail with a transient
    /// system fault: the deterministic fault-injection hook.
    pub fn inject_faults(&mut self, f: PrimFn, n: u64)
        requires
            old(self).wf(),
        ensures
            final(self).wf(),
            final(self)@ == (ClusterModel { plans: final(self)@.plans, ..old(self)@ }),
            inj_remaining(final(self)@.plans, f) == n,
            forall|g: PrimFn|
                g != f ==> inj_remaining(final(self)@.plans, g) == inj_remaining(
                    old(self)@.plans,
                    g,
                ),
    {
        set_plan(&mut self.injector, f, n);
    }

    /// Wraps an already resident value as a ready future in worker `w`'s
    /// own store: no task runs and no remote call is made, so the remote
    /// fetch count is untouched.
    pub fn box_value(&mut self, w: usize, v: Value) -> (h: Handle)
        requires
            old(self).wf(),
            w < old(self)@.stores.len(),
            old(self)@.records[w as int].alive,
        ensures
            final(self).wf(),
            h.id.owner == w,
            h.id.seq == old(self)@.stores[w as int].len(),
            !h.released,
            final(self)@ == (ClusterModel {
                stores: old(self)@.stores.update(
                    w as int,
                    old(self)@.stores[w as int].push(
                        EntryModel {
                            state: FutState::Ready,
                            outcome: Some(Ok(v@)),
                            handles: 1,
                            pins: 0,
                        },
                    ),
                ),
                ..old(self)@
            }),
    {
        let ghost c = old(self)@;
        let ghost vm = v@;
        proof {
            assert(c.stores[w as int] == self.stores@[w as int]@);
        }
        let seq = self.stores[w].alloc_ready(Ok(v));
        proof {
            assert(stores_model(self.stores@) =~= c.stores.update(
                w as int,
                c.stores[w as int].push(
                    EntryModel {
                        state: FutState::Ready,
                        outcome: Some(Ok(vm)),
                        handles: 1,
                        pins: 0,
                    },
                ),
            ));
        }
        Handle { id: FutureId { owner: w, seq }, released: false }
    }

    /// Produces `n` fresh handles to the same stored value, raising its
    /// reference count by `n`: the stored value is not copied and not
    /// re-fetched. Each returned handle is released independently.
    #[verifier::loop_isolation(false)]
    pub fn share_n(&mut self, h: &Handle, n: u64) -> (r: Result<Vec<Handle>, Error>)
        requires
            old(self).wf(),
        ensures
            final(self).wf(),
            ({
                let c = old(self)@;
                if h.released || !id_in_bounds(c, h.id) {
                    r is Err && r->Err_0 == Error::NotFound && final(self)@ == c
                } else {
                    let e = c.stores[h.id.owner as int][h.id.seq as int];
                    match e.state {
                        FutState::Cancelled => r is Err && r->Err_0 == Error::NotFound && final(self)@
                            == c,
                        FutState::Lost => r is Err && r->Err_0 == Error::Lost && final(self)@ == c,
                        _ => {
                            if e.handles + n > u64::MAX {
                                r is Err && r->Err_0 == Error::System && final(self)@ == c
                            } else {
                                &&& r is Ok
                                &&& r->Ok_0@.len() == n
                                &&& forall|i: int|
                                    0 <= i < n ==> (#[trigger] r->Ok_0@[i]).id == h.id
                                        && !r->Ok_0@[i].released
                                &&& final(self)@ == (ClusterModel {
                                    stores: c.stores.update(
                                        h.id.owner as int,
                                        c.stores[h.id.owner as int].update(
                                            h.id.seq as int,
                                            EntryModel {
                                                state: e.state,
                                                outcome: e.outcome,
                                                handles: (e.handles + n) as u64,
                                                pins: e.pins,
                                            },
                                        ),
                                    ),
                                    ..c
                                })
                            }
                        },
                    }
                }
            }),
    {
        let ghost c = old(self)@;
        if h.released || h.id.owner >= self.stores.len() {
            return Err(Error::NotFound);
        }
        let owner = h.id.owner;
        proof {
            assert(c.stores[owner as int] == self.stores@[owner as int]@);
        }
        if h.id.seq >= self.stores[owner].slot_count() {
            return Err(Error::NotFound);
        }
        let seq = h.id.seq;
        let state = self.stores[owner].entries[seq].state;
        let handles = self.stores[owner].entries[seq].handles;
        proof {
            assert(c.stores[owner as int][seq as int] == self.stores@[owner as int].entries@[
                seq as int
            ]@);
        }
        match state {
            FutState::Cancelled => Err(Error::NotFound),
            FutState::Lost => Err(Error::Lost),
            _ => {
                if n > u64::MAX - handles {
                    return Err(Error::System);
                }
                self.stores[owner].add_handles(seq, n);
                proof {
                    let e = c.stores[owner as int][seq as int];
                    assert(stores_model(self.stores@) =~= c.stores.update(
                        owner as int,
                        c.stores[owner as int].update(
                            seq as int,
                            EntryModel {
                                state: e.state,
                                outcome: e.outcome,
                                handles: (e.handles + n) as u64,
                                pins: e.pins,
                            },
                        ),
                    ));
                }
                let mut out: Vec<Handle> = Vec::new();
                let mut i: u64 = 0;
                while i < n
                    invariant
                        i <= n,
                        out@.len() == i,
                        forall|j: int|
                            0 <= j < i ==> (#[trigger] out@[j]).id == h.id && !out@[j].released,
                    decreases n - i,
                {
                    out.push(Handle { id: FutureId { owner, seq }, released: false });
                    i = i + 1;
                }
                Ok(out)
            },
        }
    }

    /// Releases the holder's claim on a future. Releasing an already
    /// released handle is a no-op — release is idempotent per handle —
    /// and releasing one of several handles to the same value leaves the
    /// others intact: the value is dropped only when the count reaches
    /// zero and no fetch is in flight.
    pub fn cancel(&mut self, h: &mut Handle)
        requires
            old(self).wf(),
        ensures
            final(self).wf(),
            final(h).id == old(h).id,
            final(h).released,
            old(h).released ==> final(self)@ == old(self)@ && *final(h) == *old(h),
            !old(h).released && !id_in_bounds(old(self)@, old(h).id) ==> final(self)@ == old(
                self,
            )@,
            !old(h).released && id_in_bounds(old(self)@, old(h).id) ==> final(self)@
                == (ClusterModel {
                stores: old(self)@.stores.update(
                    old(h).id.owner as int,
                    release_model(
                        old(self)@.stores[old(h).id.owner as int],
                        old(h).id.seq as int,
                    ),
                ),
                ..old(self)@
            }),
    {
        let ghost c = old(self)@;
        if h.released {
            return ;
        }
        h.released = true;
        if h.id.owner >= self.stores.len() {
            return ;
        }
        let owner = h.id.owner;
        proof {
            assert(c.stores[owner as int] == self.stores@[owner as int]@);
        }
        if h.id.seq >= self.stores[owner].slot_count() {
            return ;
        }
        self.stores[owner].release_one(h.id.seq);
        proof {
            assert(stores_model(self.stores@) =~= c.stores.update(
                owner as int,
                release_model(c.stores[owner as int], h.id.seq as int),
            ));
        }
    }
    /// Accepts an invocation on worker `w`: opens a pending future in
    /// `w`'s store, queues the task, and appends the call's lineage
    /// record. A dead or unknown worker cannot accept work.
    pub fn invoke(
        &mut self,
        w: usize,
        caller: Caller,
        parent: Option<usize>,
        func: FunctionId,
        args: Vec<Arg>,
    ) -> (r: Result<Handle, Error>)
        requires
            old(self).wf(),
        ensures
            final(self).wf(),
            ({
                let c = old(self)@;
                if !(w < c.records.len() && c.records[w as int].alive) {
                    r is Err && r->Err_0 == Error::Lost && final(self)@ == c
                } else {
                    &&& r is Ok
                    &&& r->Ok_0.id.owner == w
                    &&& r->Ok_0.id.seq == c.stores[w as int].len()
                    &&& !r->Ok_0.released
                    &&& final(self)@ == (ClusterModel {
                        stores: c.stores.update(
                            w as int,
                            c.stores[w as int].push(
                                EntryModel {
                                    state: FutState::Pending,
                                    outcome: None,
                                    handles: 1,
                                    pins: 0,
                                },
                            ),
                        ),
                        queue: c.queue.push(
                            TaskModel {
                                target: FutureId { owner: w, seq: c.stores[w as int].len() as usize },
                                func,
                                args: args_model(args@),
                                call: c.calls.len() as usize,
                            },
                        ),
                        calls: c.calls.push(
                            CallModel {
                                caller,
                                func,
                                args: args_model(args@),
                                parent,
                                attempts: 0,
                            },
                        ),
                        ..c
                    })
                }
            }),
    {
        let ghost c = old(self)@;
        if !self.sched.is_alive(w) {
            return Err(Error::Lost);
        }
        proof {
            assert(c.stores[w as int] == self.stores@[w as int]@);
        }
        let record_args = dup_args(&args);
        let seq = self.stores[w].alloc_pending();
        let call = self.lineage.len();
        self.lineage.push(
            CallRecord { caller, func, args: record_args, parent, attempts: 0 },
        );
        let target = FutureId { owner: w, seq };
        self.queue.push(Task { target, func, args, call });
        proof {
            assert(stores_model(self.stores@) =~= c.stores.update(
                w as int,
                c.stores[w as int].push(
                    EntryModel { state: FutState::Pending, outcome: None, handles: 1, pins: 0 },
                ),
            ));
            assert(self@.queue =~= c.queue.push(self.queue@[c.queue.len() as int]@));
            assert(self@.calls =~= c.calls.push(self.lineage@[c.calls.len() as int]@));
        }
        Ok(Handle { id: target, released: false })
    }

    /// Resolves the arguments from position `i` on: inline values stand as
    /// they are; handles read the referenced slot. The leftmost obstacle
    /// decides: a pending argument makes the task wait, a dead or dropped
    /// one fails the call. Returns the values with a count of how many
    /// were served from another worker's store.
    fn resolve_args_rec(&self, w: usize, args: &Vec<Arg>, i: usize) -> (r: Result<
        Option<(Vec<Value>, usize)>,
        Error,
    >)
        requires
            self.wf(),
            i <= args@.len(),
        ensures
            ({
                let rk = resolve_args_from(self@.stores, w as int, args_model(args@), i as int);
                match r {
                    Ok(Some((vals, n))) => rk == ResolveKind::Vals(vals_model(vals@), n as int)
                        && n <= args@.len() - i,
                    Ok(None) => rk is Wait,
                    Err(e) => rk == ResolveKind::Fail(e),
                }
            }),
        decreases args@.len() - i,
    {
        if i >= args.len() {
            proof {
                assert(vals_model(Seq::<Value>::empty()) =~= Seq::<ValueModel>::empty());
            }
            return Ok(Some((Vec::new(), 0)));
        }
        match &args[i] {
            Arg::Val(v) => {
                match self.resolve_args_rec(w, args, i + 1) {
                    Ok(Some((mut vals, n))) => {
                        let ghost rest_vals = vals_model(vals@);
                        vals.insert(0, v.duplicate());
                        proof {
                            assert(vals_model(vals@) =~= seq![v@] + rest_vals);
                        }
                        Ok(Some((vals, n)))
                    },
                    Ok(None) => Ok(None),
                    Err(e) => Err(e),
                }
            },
            Arg::Fut(h) => {
                if h.released || h.id.owner >= self.stores.len() {
                    return Err(Error::NotFound);
                }
                let owner = h.id.owner;
                proof {
                    assert(self@.stores[owner as int] == self.stores@[owner as int]@);
                }
                if h.id.seq >= self.stores[owner].slot_count() {
                    return Err(Error::NotFound);
                }
                match self.stores[owner].peek(h.id.seq) {
                    Ok(None) => Ok(None),
                    Err(e) => Err(e),
                    Ok(Some(v)) => {
                        match self.resolve_args_rec(w, args, i + 1) {
                            Ok(Some((mut vals, n))) => {
                                let ghost rest_vals = vals_model(vals@);
                                let ghost vm = v@;
                                vals.insert(0, v);
                                proof {
                                    assert(vals_model(vals@) =~= seq![vm] + rest_vals);
                                }
                                let n2 = if owner != w {
                                    n + 1
                                } else {
                                    n
                                };
                                Ok(Some((vals, n2)))
                            },
                            Ok(None) => Ok(None),
                            Err(e) => Err(e),
                        }
                    },
                }
            },
        }
    }

    /// Runs the first queued task to completion, or rotates it to the back
    /// of the queue if an argument it awaits is still pending. A task
    /// whose future was cancelled or lost in the meantime is dropped
    /// unrun. A delegated call issues its child inline, replaying it
    /// exactly once on a transient fault.
    pub fn step(&mut self) -> (progressed: bool)
        requires
            old(self).wf(),
        ensures
            final(self).wf(),
            final(self)@ == step_model(old(self)@),
            progressed == (old(self)@.queue.len() > 0),
    {
        let ghost c = old(self)@;
        if self.queue.len() == 0 {
            return false;
        }
        let t = self.queue.remove(0);
        proof {
            assert(t@ == c.queue[0]);
            assert(self@.queue =~= c.queue.drop_first());
            assert(task_ok(c, c.queue[0]));
        }
        let w = t.target.owner;
        let seq = t.target.seq;
        proof {
            assert(c.stores[w as int] == self.stores@[w as int]@);
            assert(c.stores[w as int][seq as int] == self.stores@[w as int].entries@[seq as int]@);
        }
        let pending = matches!(self.stores[w].entries[seq].state, FutState::Pending);
        if !pending {
            proof {
                assert(final(self)@ == step_model(c));
            }
            return true;
        }
        match self.resolve_args_rec(w, &t.args, 0) {
            Ok(None) => {
                self.queue.push(t);
                proof {
                    assert(self@.queue =~= c.queue.drop_first().push(c.queue[0]));
                }
                true
            },
            Err(err) => {
                self.stores[w].settle(seq, Err(err));
                proof {
                    assert(stores_model(self.stores@) =~= settle_model(
                        c.stores,
                        w as int,
                        seq as int,
                        Err(err),
                    ));
                }
                true
            },
            Ok(Some((vals, n))) => {
                self.count_remote(n);
                self.bump_attempt(t.call);
                let ghost c1 = self@;
                match t.func {
                    FunctionId::Prim(f) => {
                        let faulted = self.injector.consume(f);
                        let o: Outcome = if faulted {
                            Err(Error::System)
                        } else {
                            match apply_prim(f, &vals) {
                                Ok(v) => Ok(v),
                                Err(code) => Err(Error::App(code)),
                            }
                        };
                        proof {
                            assert(settled_model(o) == injected_outcome(
                                c.plans,
                                f,
                                vals_model(vals@),
                            ).0);
                        }
                        self.stores[w].settle(seq, o);
                        proof {
                            assert(stores_model(self.stores@) =~~= settle_model(
                                c.stores,
                                w as int,
                                seq as int,
                                injected_outcome(c.plans, f, vals_model(vals@)).0,
                            ));
                            assert(final(self)@ == step_model(c));
                        }
                        true
                    },
                    FunctionId::Delegated(f) => {
                        let ghost base = self@.stores[w as int];
                        // First issue of the child call.
                        let child1 = self.stores[w].alloc_pending();
                        let faulted1 = self.injector.consume(f);
                        let o1: Outcome = if faulted1 {
                            Err(Error::System)
                        } else {
                            match apply_prim(f, &vals) {
                                Ok(v) => Ok(v),
                                Err(code) => Err(Error::App(code)),
                            }
                        };
                        let parent_o: Outcome;
                        let k: u64;
                        if faulted1 {
                            self.stores[w].settle(child1, Err(Error::System));
                            self.stores[w].release_one(child1);
                            // The parent frame holds the inputs: replay the
                            // child exactly once under a fresh future id.
                            let child2 = self.stores[w].alloc_pending();
                            let faulted2 = self.injector.consume(f);
                            let o2: Outcome = if faulted2 {
                                Err(Error::System)
                            } else {
                                match apply_prim(f, &vals) {
                                    Ok(v) => Ok(v),
                                    Err(code) => Err(Error::App(code)),
                                }
                            };
                            parent_o = dup_outcome(&o2);
                            self.stores[w].settle(child2, o2);
                            self.stores[w].release_one(child2);
                            k = 2;
                        } else {
                            parent_o = dup_outcome(&o1);
                            self.stores[w].settle(child1, o1);
                            self.stores[w].release_one(child1);
                            k = 1;
                        }
                        self.stores[w].settle(seq, parent_o);
                        let record_args = vals_to_args(&vals);
                        self.lineage.push(
                            CallRecord {
                                caller: Caller::Worker(w),
                                func: FunctionId::Prim(f),
                                args: record_args,
                                parent: Some(t.call),
                                attempts: k,
                            },
                        );
                        proof {
                            let d = delegated_outcome(c.plans, f, vals_model(vals@));
                            let e = c.stores[w as int][seq as int];
                            let grown = if d.2 == 2 {
                                base.push(tombstone()).push(tombstone())
                            } else {
                                base.push(tombstone())
                            };
                            assert(stores_model(self.stores@) =~~= c.stores.update(
                                w as int,
                                grown.update(
                                    seq as int,
                                    EntryModel {
                                        state: FutState::Ready,
                                        outcome: Some(d.0),
                                        handles: e.handles,
                                        pins: e.pins,
                                    },
                                ),
                            ));
                            assert(self@.calls =~= c1.calls.push(
                                self.lineage@[c1.calls.len() as int]@,
                            ));
                            assert(final(self)@ == step_model(c));
                        }
                        true
                    },
                }
            },
        }
    }

    /// Drives the executor: up to `fuel` steps, stopping early when the
    /// queue drains. The fuel is the caller's patience — the model's
    /// stand-in for a wait timeout.
    #[verifier::loop_isolation(false)]
    pub fn run(&mut self, fuel: u64)
        requires
            old(self).wf(),
        ensures
            final(self).wf(),
            final(self)@ == run_model(old(self)@, fuel),
    {
        let mut remaining: u64 = fuel;
        while remaining > 0 && self.queue.len() > 0
            invariant
                self.wf(),
                run_model(old(self)@, fuel) == run_model(self@, remaining),
            decreases remaining,
        {
            self.step();
            remaining = remaining - 1;
        }
    }

    /// Blocks on a future on behalf of worker `caller`: drives the
    /// executor with the given patience, then reads the slot. A value
    /// resident in the caller's own store comes back with no remote
    /// fetch; any other owner is resolved through the scheduler and the
    /// fetch is counted. A still-pending future after the patience runs
    /// out surfaces as a transient fault rather than hanging; a lost
    /// future fails with `Lost` — its id can never produce a value again.
    /// The read itself is atomic here, so it takes no pin; a caller that
    /// must hold a fetch open across other operations uses the two-phase
    /// `fetch_begin` and `fetch_end` pair instead.
    pub fn d_await(&mut self, caller: usize, h: &Handle, fuel: u64) -> (r: Result<Value, Error>)
        requires
            old(self).wf(),
        ensures
            final(self).wf(),
            ({
                let c1 = run_model(old(self)@, fuel);
                let read = await_read_model(c1, caller as int, h.id, h.released);
                &&& final(self)@ == (ClusterModel { remote_fetches: read.1, ..c1 })
                &&& match r {
                    Ok(v) => read.0 == Ok::<ValueModel, Error>(v@),
                    Err(e) => read.0 == Err::<ValueModel, Error>(e),
                }
            }),
    {
        self.run(fuel);
        let ghost c1 = self@;
        if h.released {
            return Err(Error::NotFound);
        }
        let owner = h.id.owner;
        if owner == caller {
            if owner >= self.stores.len() {
                return Err(Error::NotFound);
            }
            proof {
                assert(c1.stores[owner as int] == self.stores@[owner as int]@);
            }
            if h.id.seq >= self.stores[owner].slot_count() {
                return Err(Error::NotFound);
            }
            match self.stores[owner].peek(h.id.seq) {
                Ok(Some(v)) => Ok(v),
                Ok(None) => Err(Error::System),
                Err(e) => Err(e),
            }
        } else {
            if owner >= self.sched.worker_count() {
                return Err(Error::NotFound);
            }
            if !self.sched.is_alive(owner) {
                return Err(Error::Lost);
            }
            proof {
                assert(c1.stores[owner as int] == self.stores@[owner as int]@);
            }
            if h.id.seq >= self.stores[owner].slot_count() {
                return Err(Error::NotFound);
            }
            match self.stores[owner].peek(h.id.seq) {
                Ok(Some(v)) => {
                    self.count_remote(1);
                    Ok(v)
                },
                Ok(None) => Err(Error::System),
                Err(e) => Err(e),
            }
        }
    }

    /// Declares every worker dead whose heartbeat is older than the
    /// liveness window at `now`, and loses every future such a worker
    /// owned. Dependents discover the loss when they next resolve or
    /// fetch: pending and ready slots alike are gone.
    #[verifier::loop_isolation(false)]
    pub fn sweep(&mut self, now: u64)
        requires
            old(self).wf(),
        ensures
            final(self).wf(),
            final(self)@ == (ClusterModel {
                records: sweep_records_model(old(self)@.records, now, old(self)@.timeout),
                stores: sweep_stores_model(
                    old(self)@.stores,
                    old(self)@.records,
                    now,
                    old(self)@.timeout,
                ),
                ..old(self)@
            }),
    {
        let ghost c = old(self)@;
        let mut w: usize = 0;
        let count = self.sched.worker_count();
        while w < count
            invariant
                count == c.records.len(),
                c.records.len() == c.stores.len(),
                w <= count,
                self.sched.wf(),
                self@.timeout == c.timeout,
                self@.queue == c.queue,
                self@.plans == c.plans,
                self@.calls == c.calls,
                self@.remote_fetches == c.remote_fetches,
                self@.records.len() == c.records.len(),
                self@.stores.len() == c.stores.len(),
                forall|i: int|
                    0 <= i < c.records.len() ==> #[trigger] self@.records[i] == (if i < w
                        && is_stale(c.records[i], now, c.timeout) {
                        RecordModel {
                            address: c.records[i].address,
                            last_heartbeat: c.records[i].last_heartbeat,
                            alive: false,
                        }
                    } else {
                        c.records[i]
                    }),
                forall|i: int|
                    0 <= i < c.stores.len() ==> #[trigger] self@.stores[i] == (if i < w
                        && is_stale(c.records[i], now, c.timeout) {
                        crate::store::lost_model(c.stores[i])
                    } else {
                        c.stores[i]
                    }),
                forall|i: int|
                    0 <= i < c.stores.len() ==> store_inv(#[trigger] self@.stores[i]),
            decreases count - w,
        {
            let ghost pre_records = self@.records;
            let ghost pre_stores = self@.stores;
            if self.sched.stale_at(w, now) {
                self.sched.mark_dead(w);
                proof {
                    assert(self@.records =~= pre_records.update(
                        w as int,
                        RecordModel {
                            address: pre_records[w as int].address,
                            last_heartbeat: pre_records[w as int].last_heartbeat,
                            alive: false,
                        },
                    ));
                    assert(self@.stores[w as int] == self.stores@[w as int]@);
                    assert(self@.stores[w as int] == c.stores[w as int]);
                }
                self.stores[w].mark_all_lost();
                proof {
                    assert(self@.stores =~~= pre_stores.update(
                        w as int,
                        crate::store::lost_model(pre_stores[w as int]),
                    ));
                }
            }
            w = w + 1;
        }
        proof {
            assert(self@.records =~= sweep_records_model(c.records, now, c.timeout));
            assert(self@.stores =~~= sweep_stores_model(c.stores, c.records, now, c.timeout));
            lemma_tasks_still_ok(c, self@);
        }
    }

    /// Submits a root call on behalf of an external client. The scheduler
    /// routes it to the first living worker; with no living worker the
    /// mesh cannot take work and the call fails with `Lost`. A root call
    /// has no parent frame, so the runtime never replays it: its failure
    /// surfaces to the client as it is.
    #[verifier::loop_isolation(false)]
    pub fn client_call(&mut self, client: &Client, func: FunctionId, args: Vec<Arg>) -> (r: Result<
        Handle,
        Error,
    >)
        requires
            old(self).wf(),
        ensures
            final(self).wf(),
            ({
                let c = old(self)@;
                match first_alive(c.records) {
                    None => r is Err && r->Err_0 == Error::Lost && final(self)@ == c,
                    Some(w) => {
                        &&& r is Ok
                        &&& r->Ok_0.id.owner as int == w
                        &&& r->Ok_0.id.seq == c.stores[w].len()
                        &&& !r->Ok_0.released
                        &&& final(self)@ == (ClusterModel {
                            stores: c.stores.update(
                                w,
                                c.stores[w].push(
                                    EntryModel {
                                        state: FutState::Pending,
                                        outcome: None,
                                        handles: 1,
                                        pins: 0,
                                    },
                                ),
                            ),
                            queue: c.queue.push(
                                TaskModel {
                                    target: r->Ok_0.id,
                                    func,
                                    args: args_model(args@),
                                    call: c.calls.len() as usize,
                                },
                            ),
                            calls: c.calls.push(
                                CallModel {
                                    caller: Caller::Client(client.consumer),
                                    func,
                                    args: args_model(args@),
                                    parent: None,
                                    attempts: 0,
                                },
                            ),
                            ..c
                        })
                    },
                }
            }),
    {
        let ghost c = old(self)@;
        let count = self.sched.worker_count();
        let mut w: usize = 0;
        while w < count
            invariant
                *self == *old(self),
                w <= count,
                count == c.records.len(),
                forall|j: int| 0 <= j < w ==> !c.records[j].alive,
                first_alive(c.records) == first_alive_from(c.records, w as int),
            decreases count - w,
        {
            proof {
                assert(c.records[w as int] == self.sched.records@[w as int]@);
            }
            if self.sched.is_alive(w) {
                proof {
                    assert(first_alive(c.records) == Some(w as int));
                }
                return self.invoke(w, Caller::Client(client.consumer), None, func, args);
            }
            proof {
                assert(first_alive_from(c.records, w as int) == first_alive_from(
                    c.records,
                    w + 1,
                ));
            }
            w = w + 1;
        }
        Err(Error::Lost)
    }

    /// Blocks on a future on behalf of an external client: drives the
    /// executor with the given patience, then fetches from the owner —
    /// always across the mesh boundary, since a client is no worker.
    #[allow(unused_variables)]
    pub fn client_resolve(&mut self, client: &Client, h: &Handle, fuel: u64) -> (r: Result<
        Value,
        Error,
    >)
        requires
            old(self).wf(),
        ensures
            final(self).wf(),
            ({
                let c1 = run_model(old(self)@, fuel);
                let read = await_read_model(c1, -1, h.id, h.released);
                &&& final(self)@ == (ClusterModel { remote_fetches: read.1, ..c1 })
                &&& match r {
                    Ok(v) => read.0 == Ok::<ValueModel, Error>(v@),
                    Err(e) => read.0 == Err::<ValueModel, Error>(e),
                }
            }),
    {
        self.run(fuel);
        let ghost c1 = self@;
        if h.released {
            return Err(Error::NotFound);
        }
        let owner = h.id.owner;
        if owner >= self.sched.worker_count() {
            return Err(Error::NotFound);
        }
        if !self.sched.is_alive(owner) {
            return Err(Error::Lost);
        }
        proof {
            assert(c1.stores[owner as int] == self.stores@[owner as int]@);
        }
        if h.id.seq >= self.stores[owner].slot_count() {
            return Err(Error::NotFound);
        }
        match self.stores[owner].peek(h.id.seq) {
            Ok(Some(v)) => {
                self.count_remote(1);
                Ok(v)
            },
            Ok(None) => Err(Error::System),
            Err(e) => Err(e),
        }
    }

    /// Begins serving a remote node's fetch of a future: the first half
    /// of the two-phase fetch protocol. A delivered value pins the slot —
    /// physical deallocation waits — until the matching `fetch_end`.
    pub fn fetch_begin(&mut self, id: FutureId) -> (r: Result<Option<Value>, Error>)
        requires
            old(self).wf(),
        ensures
            final(self).wf(),
            ({
                let c = old(self)@;
                if !id_in_bounds(c, id) {
                    r is Err && r->Err_0 == Error::NotFound && final(self)@ == c
                } else {
                    let e = c.stores[id.owner as int][id.seq as int];
                    match e.state {
                        FutState::Pending => r == Ok::<Option<Value>, Error>(None) && final(self)@
                            == c,
                        FutState::Ready => match e.outcome {
                            Some(Ok(v)) => if e.pins == u64::MAX {
                                r is Err && r->Err_0 == Error::System && final(self)@ == c
                            } else {
                                &&& r is Ok
                                &&& r->Ok_0 is Some
                                &&& r->Ok_0->0@ == v
                                &&& final(self)@ == (ClusterModel {
                                    stores: c.stores.update(
                                        id.owner as int,
                                        c.stores[id.owner as int].update(
                                            id.seq as int,
                                            EntryModel {
                                                state: e.state,
                                                outcome: e.outcome,
                                                handles: e.handles,
                                                pins: (e.pins + 1) as u64,
                                            },
                                        ),
                                    ),
                                    remote_fetches: add_sat(c.remote_fetches, 1),
                                    ..c
                                })
                            },
                            Some(Err(err)) => r is Err && r->Err_0 == err && final(self)@ == c,
                            None => false,
                        },
                        FutState::Cancelled => r is Err && r->Err_0 == Error::NotFound && final(self)@
                            == c,
                        FutState::Lost => r is Err && r->Err_0 == Error::Lost && final(self)@ == c,
                    }
                }
            }),
    {
        let ghost c = old(self)@;
        if id.owner >= self.stores.len() {
            return Err(Error::NotFound);
        }
        proof {
            assert(c.stores[id.owner as int] == self.stores@[id.owner as int]@);
        }
        if id.seq >= self.stores[id.owner].slot_count() {
            return Err(Error::NotFound);
        }
        let r = self.stores[id.owner].fetch_start(id.seq);
        proof {
            let e = c.stores[id.owner as int][id.seq as int];
            if e.state is Ready && e.outcome is Some && e.outcome->0 is Ok && e.pins < u64::MAX {
                assert(stores_model(self.stores@) =~~= c.stores.update(
                    id.owner as int,
                    c.stores[id.owner as int].update(
                        id.seq as int,
                        EntryModel {
                            state: e.state,
                            outcome: e.outcome,
                            handles: e.handles,
                            pins: (e.pins + 1) as u64,
                        },
                    ),
                ));
            } else {
                assert(stores_model(self.stores@) =~~= c.stores);
            }
        }
        match r {
            Ok(Some(v)) => {
                self.count_remote(1);
                Ok(Some(v))
            },
            other => other,
        }
    }

    /// Finishes one remote fetch: unpins the slot and physically drops a
    /// value whose future was cancelled while the fetch was in flight. A
    /// finish with no matching begin changes nothing.
    pub fn fetch_end(&mut self, id: FutureId)
        requires
            old(self).wf(),
        ensures
            final(self).wf(),
            ({
                let c = old(self)@;
                if id_in_bounds(c, id) && c.stores[id.owner as int][id.seq as int].pins >= 1 {
                    final(self)@ == (ClusterModel {
                        stores: c.stores.update(
                            id.owner as int,
                            crate::store::fetch_done_model(
                                c.stores[id.owner as int],
                                id.seq as int,
                            ),
                        ),
                        ..c
                    })
                } else {
                    final(self)@ == c
                }
            }),
    {
        let ghost c = old(self)@;
        if id.owner >= self.stores.len() {
            return ;
        }
        proof {
            assert(c.stores[id.owner as int] == self.stores@[id.owner as int]@);
        }
        if id.seq >= self.stores[id.owner].slot_count() {
            return ;
        }
        proof {
            assert(c.stores[id.owner as int][id.seq as int] == self.stores@[
                id.owner as int
            ].entries@[id.seq as int]@);
        }
        if self.stores[id.owner].entries[id.seq].pins == 0 {
            return ;
        }
        self.stores[id.owner].fetch_done(id.seq);
        proof {
            assert(stores_model(self.stores@) =~~= c.stores.update(
                id.owner as int,
                crate::store::fetch_done_model(c.stores[id.owner as int], id.seq as int),
            ));
        }
    }

    /// Fans a partitioned collection out over the mesh: boxes each
    /// partition as a ready future on worker `w`, hands each to an
    /// independent downstream task running `f`, and gathers the outputs
    /// in partition order. The gathered outputs equal applying `f` to
    /// each original partition directly; the first partition on which `f`
    /// fails aborts the gather with that function's own error.
    #[verifier::loop_isolation(false)]
    pub fn scatter_gather(&mut self, w: usize, f: PrimFn, parts: &Vec<Value>) -> (r: Result<
        Vec<Value>,
        Error,
    >)
        requires
            old(self).wf(),
            w < old(self)@.stores.len(),
            old(self)@.records[w as int].alive,
            old(self)@.queue.len() == 0,
            inj_remaining(old(self)@.plans, f) == 0,
        ensures
            final(self).wf(),
            r is Ok <==> (forall|i: int|
                0 <= i < parts@.len() ==> prim_outcome(f, seq![#[trigger] parts@[i]@]) is Ok),
            r is Ok ==> r->Ok_0@.len() == parts@.len() && (forall|i: int|
                0 <= i < parts@.len() ==> prim_outcome(f, seq![parts@[i]@]) == Ok::<
                    ValueModel,
                    Error,
                >(#[trigger] r->Ok_0@[i]@)),
            r is Err ==> exists|i: int|
                0 <= i < parts@.len() && prim_outcome(f, seq![#[trigger] parts@[i]@]) == Err::<
                    ValueModel,
                    Error,
                >(r->Err_0),
    {
        let ghost c0 = old(self)@;
        let mut outs: Vec<Value> = Vec::new();
        let mut i: usize = 0;
        while i < parts.len()
            invariant
                self.wf(),
                i <= parts@.len(),
                self@.queue.len() == 0,
                self@.records == c0.records,
                self@.plans == c0.plans,
                w < self@.stores.len(),
                outs@.len() == i,
                forall|j: int|
                    0 <= j < i ==> prim_outcome(f, seq![parts@[j]@]) == Ok::<ValueModel, Error>(
                        #[trigger] outs@[j]@,
                    ),
            decreases parts@.len() - i,
        {
            let ghost c = self@;
            let p = parts[i].duplicate();
            let ghost pm = p@;
            let bh = self.box_value(w, p);
            let ghost c_boxed = self@;
            let mut call_args: Vec<Arg> = Vec::new();
            call_args.push(Arg::Fut(bh));
            let fh = match self.invoke(w, Caller::Worker(w), None, FunctionId::Prim(f), call_args) {
                Ok(h) => h,
                Err(_) => {
                    proof {
                        assert(false);
                    }
                    return Err(Error::System);
                },
            };
            let ghost c_invoked = self@;
            self.step();
            proof {
                let boxed_seq = c.stores[w as int].len();
                assert(c_invoked.queue[0].args =~= seq![
                    ArgModel::Fut(FutureId { owner: w, seq: boxed_seq as usize }, false),
                ]);
                assert(c_invoked.stores[w as int][boxed_seq as int] == (EntryModel {
                    state: FutState::Ready,
                    outcome: Some(Ok(pm)),
                    handles: 1,
                    pins: 0,
                }));
                assert(resolve_args_from(
                    c_invoked.stores,
                    w as int,
                    c_invoked.queue[0].args,
                    1,
                ) == ResolveKind::Vals(Seq::<ValueModel>::empty(), 0));
                assert(resolve_args_from(
                    c_invoked.stores,
                    w as int,
                    c_invoked.queue[0].args,
                    0,
                ) == ResolveKind::Vals(seq![pm] + Seq::<ValueModel>::empty(), 0));
                assert(seq![pm] + Seq::<ValueModel>::empty() =~= seq![pm]);
                lemma_consume_noop(c_invoked.plans, f);
                assert(self@.plans == c.plans);
                assert(self@.queue =~= Seq::<TaskModel>::empty());
                assert(self@.stores[w as int][fh.id.seq as int].outcome == Some(
                    prim_outcome(f, seq![pm]),
                ));
            }
            let got = self.d_await(w, &fh, 0);
            proof {
                assert(run_model(self@, 0) == self@);
            }
            match got {
                Ok(v) => {
                    proof {
                        assert(prim_outcome(f, seq![parts@[i as int]@]) == Ok::<ValueModel, Error>(
                            v@,
                        ));
                    }
                    outs.push(v);
                },
                Err(e) => {
                    proof {
                        assert(prim_outcome(f, seq![parts@[i as int]@]) == Err::<ValueModel, Error>(
                            e,
                        ));
                    }
                    return Err(e);
                },
            }
            i = i + 1;
        }
        proof {
            assert forall|k: int|
                0 <= k < parts@.len() implies prim_outcome(
                f,
                seq![#[trigger] parts@[k]@],
            ) is Ok by {
                assert(prim_outcome(f, seq![parts@[k]@]) == Ok::<ValueModel, Error>(outs@[k]@));
            }
        }
        Ok(outs)
    }

    /// Adds `n` served cross-worker fetches to the counter, saturating.
    fn count_remote(&mut self, n: usize)
        ensures
            final(self)@ == (ClusterModel {
                remote_fetches: add_sat(old(self)@.remote_fetches, n as int),
                ..old(self)@
            }),
    {
        if n as u64 > u64::MAX - self.remote_fetches {
            self.remote_fetches = u64::MAX;
        } else {
            self.remote_fetches = self.remote_fetches + n as u64;
        }
    }

    /// Records one more execution of the call's body in its lineage
    /// record.
    fn bump_attempt(&mut self, call: usize)
        requires
            call < old(self)@.calls.len(),
        ensures
            final(self)@ == (ClusterModel {
                calls: bump_attempts(old(self)@.calls, call as int),
                ..old(self)@
            }),
    {
        let ghost c = old(self)@;
        let a = self.lineage[call].attempts;
        let a2 = if a < u64::MAX {
            a + 1
        } else {
            a
        };
        self.lineage[call].attempts = a2;
        proof {
            assert(self@.calls =~= bump_attempts(c.calls, call as int));
        }
    }

}

/// A consumer identity outside the worker mesh. A client submits root
/// calls and blocks on their resolution; it never retries a failed call —
/// replay belongs to parent call frames inside the mesh.
#[derive(Clone, Copy, Debug, PartialEq, Eq, Structural)]
pub struct Client {
    pub consumer: u64,
}

/// Binds a client to one external consumer identity.
pub fn new_client(consumer: u64) -> (r: Client)
    ensures
        r.consumer == consumer,
{
    Client { consumer }
}

/// Installs or overwrites the plan for `f`, leaving other plans alone.
fn set_plan(inj: &mut FaultInjector, f: PrimFn, n: u64)
    ensures
        inj_remaining(final(inj).plans@, f) == n,
        forall|g: PrimFn|
            g != f ==> inj_remaining(final(inj).plans@, g) == inj_remaining(old(inj).plans@, g),
{
    let mut i: usize = 0;
    while i < inj.plans.len()
        invariant
            *inj == *old(inj),
            i <= inj.plans@.len(),
            forall|j: int| 0 <= j < i ==> inj.plans@[j].func != f,
        decreases inj.plans@.len() - i,
    {
        if inj.plans[i].func == f {
            inj.plans[i] = FaultPlan { func: f, remaining: n };
            proof {
                lemma_inj_remaining_update(old(inj).plans@, final(inj).plans@, f, n, i as int);
            }
            return ;
        }
        i = i + 1;
    }
    inj.plans.push(FaultPlan { func: f, remaining: n });
    proof {
        lemma_inj_remaining_push(old(inj).plans@, f, n);
    }
}

/// After overwriting the first plan for `f` at index `i`, `f` maps to the
/// new count and other functions are unaffected.
proof fn lemma_inj_remaining_update(
    pre: Seq<FaultPlan>,
    post: Seq<FaultPlan>,
    f: PrimFn,
    n: u64,
    i: int,
)
    requires
        0 <= i < pre.len(),
        pre[i].func == f,
        forall|j: int| 0 <= j < i ==> pre[j].func != f,
        post == pre.update(i, FaultPlan { func: f, remaining: n }),
    ensures
        inj_remaining(post, f) == n,
        forall|g: PrimFn| g != f ==> inj_remaining(post, g) == inj_remaining(pre, g),
{
    lemma_inj_remaining_from_update(pre, post, f, n, i, 0);
    assert forall|g: PrimFn| g != f implies inj_remaining(post, g) == inj_remaining(pre, g) by {
        lemma_inj_remaining_from_other(pre, post, f, g, n, i, 0);
    }
}

proof fn lemma_inj_remaining_from_update(
    pre: Seq<FaultPlan>,
    post: Seq<FaultPlan>,
    f: PrimFn,
    n: u64,
    i: int,
    k: int,
)
    requires
        0 <= k <= i < pre.len(),
        pre[i].func == f,
        forall|j: int| 0 <= j < i ==> pre[j].func != f,
        post == pre.update(i, FaultPlan { func: f, remaining: n }),
    ensures
        crate::tasks::inj_remaining_from(post, f, k) == n,
    decreases i - k,
{
    if k == i {
    } else {
        lemma_inj_remaining_from_update(pre, post, f, n, i, k + 1);
    }
}

proof fn lemma_inj_remaining_from_other(
    pre: Seq<FaultPlan>,
    post: Seq<FaultPlan>,
    f: PrimFn,
    g: PrimFn,
    n: u64,
    i: int,
    k: int,
)
    requires
        0 <= k,
        0 <= i < pre.len(),
        g != f,
        pre[i].func == f,
        post == pre.update(i, FaultPlan { func: f, remaining: n }),
    ensures
        crate::tasks::inj_remaining_from(post, g, k) == crate::tasks::inj_remaining_from(
            pre,
            g,
            k,
        ),
    decreases pre.len() - k,
{
    if k >= pre.len() {
    } else {
        lemma_inj_remaining_from_other(pre, post, f, g, n, i, k + 1);
    }
}

/// After appending a plan for `f` to plans that name `f` nowhere, `f`
/// maps to the new count and other functions are unaffected.
proof fn lemma_inj_remaining_push(pre: Seq<FaultPlan>, f: PrimFn, n: u64)
    requires
        forall|j: int| 0 <= j < pre.len() ==> pre[j].func != f,
    ensures
        inj_remaining(pre.push(FaultPlan { func: f, remaining: n }), f) == n,
        forall|g: PrimFn|
            g != f ==> inj_remaining(pre.push(FaultPlan { func: f, remaining: n }), g)
                == inj_remaining(pre, g),
{
    lemma_inj_remaining_from_push(pre, f, n, 0);
    assert forall|g: PrimFn|
        g != f implies inj_remaining(pre.push(FaultPlan { func: f, remaining: n }), g)
        == inj_remaining(pre, g) by {
        lemma_inj_remaining_from_push_other(pre, f, g, n, 0);
    }
}

proof fn lemma_inj_remaining_from_push(pre: Seq<FaultPlan>, f: PrimFn, n: u64, k: int)
    requires
        0 <= k <= pre.len(),
        forall|j: int| 0 <= j < pre.len() ==> pre[j].func != f,
    ensures
        crate::tasks::inj_remaining_from(pre.push(FaultPlan { func: f, remaining: n }), f, k) == n,
    decreases pre.len() - k,
{
    if k == pre.len() {
    } else {
        lemma_inj_remaining_from_push(pre, f, n, k + 1);
    }
}

proof fn lemma_inj_remaining_from_push_other(
    pre: Seq<FaultPlan>,
    f: PrimFn,
    g: PrimFn,
    n: u64,
    k: int,
)
    requires
        0 <= k,
        g != f,
    ensures
        crate::tasks::inj_remaining_from(pre.push(FaultPlan { func: f, remaining: n }), g, k)
            == crate::tasks::inj_remaining_from(pre, g, k),
    decreases pre.len() + 1 - k,
{
    if k >= pre.len() + 1 {
    } else {
        lemma_inj_remaining_from_push_other(pre, f, g, n, k + 1);
    }
}

} // verus!
