use crate::prim::{FunctionId, PrimFn};
use crate::store::{FutureId, Handle};
use crate::value::{Value, ValueModel};
use vstd::prelude::*;

verus! {

/// One argument of an invocation: an inline value, or a handle to a
/// future whose value the executor resolves before the body runs.
#[derive(Debug)]
pub enum Arg {
    Val(Value),
    Fut(Handle),
}

/// The model of an argument: a handle is its identifier plus whether the
/// holder had already released it.
pub enum ArgModel {
    Val(ValueModel),
    Fut(FutureId, bool),
}

impl View for Arg {
    type V = ArgModel;

    open spec fn view(&self) -> ArgModel {
        match self {
            Arg::Val(v) => ArgModel::Val(v@),
            Arg::Fut(h) => ArgModel::Fut(h.id, h.released),
        }
    }
}

/// The models of a sequence of arguments.
pub open spec fn args_model(args: Seq<Arg>) -> Seq<ArgModel> {
    args.map_values(|a: Arg| a@)
}

/// Who issued a call: a worker node, or an external client by its
/// consumer id. A client is never retried into: replay stops at workers.
#[derive(Clone, Copy, Debug, PartialEq, Eq, Structural)]
pub enum Caller {
    Client(u64),
    Worker(usize),
}

/// One accepted invocation, waiting to run: the future it will settle
/// (owned by the executing worker), what to run, the arguments, and the
/// index of its lineage record.
#[derive(Debug)]
pub struct Task {
    pub target: FutureId,
    pub func: FunctionId,
    pub args: Vec<Arg>,
    pub call: usize,
}

/// The model of one queued task.
pub struct TaskModel {
    pub target: FutureId,
    pub func: FunctionId,
    pub args: Seq<ArgModel>,
    pub call: usize,
}

impl View for Task {
    type V = TaskModel;

    open spec fn view(&self) -> TaskModel {
        TaskModel { target: self.target, func: self.func, args: args_model(self.args@), call: self.call }
    }
}

/// The lineage record of one call: who issued it, what it named, the
/// inputs needed to replay it, the call whose body issued it (none for a
/// root call), and how many times its body has run. Retries are bounded:
/// the parent frame replays a transiently failed call exactly once, so
/// the count never passes two.
#[derive(Debug)]
pub struct CallRecord {
    pub caller: Caller,
    pub func: FunctionId,
    pub args: Vec<Arg>,
    pub parent: Option<usize>,
    pub attempts: u64,
}

/// The model of one lineage record.
pub struct CallModel {
    pub caller: Caller,
    pub func: FunctionId,
    pub args: Seq<ArgModel>,
    pub parent: Option<usize>,
    pub attempts: u64,
}

impl View for CallRecord {
    type V = CallModel;

    open spec fn view(&self) -> CallModel {
        CallModel {
            caller: self.caller,
            func: self.func,
            args: args_model(self.args@),
            parent: self.parent,
            attempts: self.attempts,
        }
    }
}

/// One deterministic fault plan: the next `remaining` executions of
/// `func` fail with a transient system fault before their body runs.
#[derive(Clone, Copy, Debug, PartialEq, Eq, Structural)]
pub struct FaultPlan {
    pub func: PrimFn,
    pub remaining: u64,
}

/// The injectable fault strategy handed to the executor, so tests control
/// failure timing deterministically instead of relying on ambient shared
/// state. At most one plan per function.
#[derive(Debug)]
pub struct FaultInjector {
    pub plans: Vec<FaultPlan>,
}

/// How many more executions of `f` will fault, scanning plans from `i`.
pub open spec fn inj_remaining_from(plans: Seq<FaultPlan>, f: PrimFn, i: int) -> u64
    decreases plans.len() - i,
{
    if i < 0 || i >= plans.len() {
        0
    } else if plans[i].func == f {
        plans[i].remaining
    } else {
        inj_remaining_from(plans, f, i + 1)
    }
}

/// How many more executions of `f` will fault.
pub open spec fn inj_remaining(plans: Seq<FaultPlan>, f: PrimFn) -> u64 {
    inj_remaining_from(plans, f, 0)
}

/// The plans after one execution of `f` consumed a fault, scanning from
/// `i`: the first matching plan with faults left loses one.
pub open spec fn inj_consume_from(plans: Seq<FaultPlan>, f: PrimFn, i: int) -> Seq<FaultPlan>
    decreases plans.len() - i,
{
    if i < 0 || i >= plans.len() {
        plans
    } else if plans[i].func == f {
        if plans[i].remaining > 0 {
            plans.update(i, FaultPlan { func: f, remaining: (plans[i].remaining - 1) as u64 })
        } else {
            plans
        }
    } else {
        inj_consume_from(plans, f, i + 1)
    }
}

/// The plans after one execution of `f` consumed a fault, if one was due.
pub open spec fn inj_consume(plans: Seq<FaultPlan>, f: PrimFn) -> Seq<FaultPlan> {
    inj_consume_from(plans, f, 0)
}

impl FaultInjector {
    pub fn new() -> (r: FaultInjector)
        ensures
            r.plans@.len() == 0,
    {
        FaultInjector { plans: Vec::new() }
    }

    /// Decides whether this execution of `f` faults, and uses the fault
    /// up if so.
    pub fn consume(&mut self, f: PrimFn) -> (faulted: bool)
        ensures
            faulted == (inj_remaining(old(self).plans@, f) > 0),
            final(self).plans@ == inj_consume(old(self).plans@, f),
    {
        let mut i: usize = 0;
        while i < self.plans.len()
            invariant
                *self == *old(self),
                i <= self.plans@.len(),
                forall|j: int| 0 <= j < i ==> self.plans@[j].func != f,
                inj_remaining(self.plans@, f) == inj_remaining_from(self.plans@, f, i as int),
                inj_consume(self.plans@, f) == inj_consume_from(self.plans@, f, i as int),
            decreases self.plans@.len() - i,
        {
            if self.plans[i].func == f {
                if self.plans[i].remaining > 0 {
                    let remaining = self.plans[i].remaining - 1;
                    self.plans[i] = FaultPlan { func: f, remaining };
                    return true;
                }
                return false;
            }
            i = i + 1;
        }
        false
    }
}

/// Copies one argument, so the lineage can retain a call's inputs while
/// the task consumes them.
pub fn dup_arg(a: &Arg) -> (r: Arg)
    ensures
        r@ == a@,
{
    match a {
        Arg::Val(v) => Arg::Val(v.duplicate()),
        Arg::Fut(h) => Arg::Fut(Handle { id: h.id, released: h.released }),
    }
}

/// Copies an argument list element by element.
pub fn dup_args(args: &Vec<Arg>) -> (r: Vec<Arg>)
    ensures
        args_model(r@) == args_model(args@),
{
    let mut r: Vec<Arg> = Vec::new();
    let mut i: usize = 0;
    while i < args.len()
        invariant
            i <= args@.len(),
            r@.len() == i,
            forall|j: int| 0 <= j < i ==> #[trigger] r@[j]@ == args@[j]@,
        decreases args@.len() - i,
    {
        r.push(dup_arg(&args[i]));
        i = i + 1;
    }
    proof {
        assert(args_model(r@) =~= args_model(args@));
    }
    r
}

/// Wraps materialized values as inline arguments, the shape in which a
/// parent frame retains what it passed to a child call.
pub fn vals_to_args(vals: &Vec<Value>) -> (r: Vec<Arg>)
    ensures
        args_model(r@) == crate::prim::vals_model(vals@).map_values(|v: ValueModel| ArgModel::Val(v)),
{
    let mut r: Vec<Arg> = Vec::new();
    let mut i: usize = 0;
    while i < vals.len()
        invariant
            i <= vals@.len(),
            r@.len() == i,
            forall|j: int| 0 <= j < i ==> #[trigger] r@[j]@ == ArgModel::Val(vals@[j]@),
        decreases vals@.len() - i,
    {
        r.push(Arg::Val(vals[i].duplicate()));
        i = i + 1;
    }
    proof {
        assert(args_model(r@) =~= crate::prim::vals_model(vals@).map_values(
            |v: ValueModel| ArgModel::Val(v),
        ));
    }
    r
}

} // verus!
