use dfut_core::cluster::{new_client, Cluster};
use dfut_core::errors::{Error, ERR_OVERFLOW};
use dfut_core::prim::{FunctionId, PrimFn};
use dfut_core::store::FutState;
use dfut_core::tasks::Arg;
use dfut_core::value::Value;

fn one_worker() -> Cluster {
    let mut c = Cluster::new(10);
    let id = c.add_worker(String::from("http://127.0.0.1:8121"), 0);
    assert_eq!(id, 0);
    c
}

#[test]
fn box_then_await_returns_value_with_no_remote_fetch() {
    let mut c = one_worker();
    let h = c.box_value(0, Value::Int(7));
    let got = c.d_await(0, &h, 0);
    assert_eq!(got, Ok(Value::Int(7)));
    assert_eq!(c.remote_fetches, 0);
}

#[test]
fn box_then_await_bytes_round_trip() {
    let mut c = one_worker();
    let h = c.box_value(0, Value::Bytes(vec![1, 2, 3]));
    assert_eq!(c.d_await(0, &h, 0), Ok(Value::Bytes(vec![1, 2, 3])));
    assert_eq!(c.remote_fetches, 0);
}

#[test]
fn share_yields_equal_awaits() {
    let mut c = one_worker();
    let h = c.box_value(0, Value::List(vec![4, 5, 6]));
    let want = c.d_await(0, &h, 0).unwrap();
    let hs = c.share_n(&h, 3).unwrap();
    assert_eq!(hs.len(), 3);
    for hi in &hs {
        assert_eq!(c.d_await(0, hi, 0), Ok(want.duplicate()));
    }
    assert_eq!(c.d_await(0, &h, 0), Ok(want));
}

#[test]
fn shared_value_survives_until_every_handle_released() {
    let mut c = one_worker();
    let mut h = c.box_value(0, Value::Int(9));
    let hs = c.share_n(&h, 2).unwrap();
    let mut it = hs.into_iter();
    let mut h1 = it.next().unwrap();
    let mut h2 = it.next().unwrap();
    c.cancel(&mut h);
    assert_eq!(c.d_await(0, &h1, 0), Ok(Value::Int(9)));
    c.cancel(&mut h1);
    assert_eq!(c.d_await(0, &h2, 0), Ok(Value::Int(9)));
    c.cancel(&mut h2);
    // Every handle is gone: the value has been dropped.
    assert!(matches!(c.stores[0].entries[0].state, FutState::Cancelled));
    assert!(c.stores[0].entries[0].outcome.is_none());
}

#[test]
fn cancel_twice_is_noop_second_time() {
    let mut c = one_worker();
    let mut h = c.box_value(0, Value::Int(1));
    let hs = c.share_n(&h, 1).unwrap();
    let mut h1 = hs.into_iter().next().unwrap();
    c.cancel(&mut h1);
    // A second release through the same handle must not steal the
    // remaining holder's claim.
    c.cancel(&mut h1);
    assert_eq!(c.stores[0].entries[0].handles, 1);
    assert_eq!(c.d_await(0, &h, 0), Ok(Value::Int(1)));
}

#[test]
fn cancelling_one_shared_handle_keeps_the_others_valid() {
    let mut c = one_worker();
    let h = c.box_value(0, Value::Int(5));
    let hs = c.share_n(&h, 2).unwrap();
    let mut it = hs.into_iter();
    let mut h1 = it.next().unwrap();
    let h2 = it.next().unwrap();
    c.cancel(&mut h1);
    assert_eq!(c.d_await(0, &h2, 0), Ok(Value::Int(5)));
    assert_eq!(c.d_await(0, &h, 0), Ok(Value::Int(5)));
}

#[test]
fn awaiting_a_released_handle_is_not_found() {
    let mut c = one_worker();
    let mut h = c.box_value(0, Value::Int(2));
    c.cancel(&mut h);
    assert_eq!(c.d_await(0, &h, 0), Err(Error::NotFound));
}

#[test]
fn silent_worker_futures_become_lost() {
    let mut c = Cluster::new(10);
    let w0 = c.add_worker(String::from("http://127.0.0.1:8121"), 0);
    let w1 = c.add_worker(String::from("http://127.0.0.1:8122"), 0);
    let h = c.box_value(w0, Value::Int(3));
    c.heartbeat(w0, 2).unwrap();
    c.heartbeat(w1, 15).unwrap();
    // Worker 0 has been silent past the window at tick 20; worker 1 not.
    c.sweep(20);
    assert!(matches!(c.stores[w0].entries[0].state, FutState::Lost));
    // Awaiting the lost id fails with Lost instead of hanging.
    assert_eq!(c.d_await(w1, &h, 10), Err(Error::Lost));
    let client = new_client(7);
    assert_eq!(c.client_resolve(&client, &h, 10), Err(Error::Lost));
    // Address resolution reports the owner as gone.
    assert_eq!(c.resolve_owner(h.id), Err(Error::Lost));
    // The dead worker must re-register under a new id.
    assert_eq!(c.heartbeat(w0, 21), Err(Error::Lost));
    let w2 = c.add_worker(String::from("http://127.0.0.1:8121"), 21);
    assert_eq!(w2, 2);
}

#[test]
fn one_fault_is_replayed_by_the_parent_exactly_once() {
    let mut c = one_worker();
    // The call fails on its first global invocation and succeeds after.
    c.inject_faults(PrimFn::Double, 1);
    let client = new_client(1);
    let h = c
        .client_call(&client, FunctionId::Delegated(PrimFn::Double), vec![Arg::Val(Value::Int(21))])
        .unwrap();
    // The root caller observes no error, only the replayed result.
    assert_eq!(c.client_resolve(&client, &h, 10), Ok(Value::Int(42)));
    // Lineage: the child call ran exactly twice — one fault, one replay.
    assert_eq!(c.lineage.len(), 2);
    assert_eq!(c.lineage[1].attempts, 2);
    assert_eq!(c.lineage[1].parent, Some(0));
    assert_eq!(c.lineage[0].attempts, 1);
}

#[test]
fn no_fault_means_no_replay() {
    let mut c = one_worker();
    let client = new_client(1);
    let h = c
        .client_call(&client, FunctionId::Delegated(PrimFn::Double), vec![Arg::Val(Value::Int(8))])
        .unwrap();
    assert_eq!(c.client_resolve(&client, &h, 10), Ok(Value::Int(16)));
    assert_eq!(c.lineage[1].attempts, 1);
}

#[test]
fn second_fault_is_terminal() {
    let mut c = one_worker();
    c.inject_faults(PrimFn::Double, 2);
    let client = new_client(1);
    let h = c
        .client_call(&client, FunctionId::Delegated(PrimFn::Double), vec![Arg::Val(Value::Int(21))])
        .unwrap();
    // The replay also failed: the fault surfaces terminally; no third try.
    assert_eq!(c.client_resolve(&client, &h, 10), Err(Error::System));
    assert_eq!(c.lineage[1].attempts, 2);
}

#[test]
fn root_calls_are_never_retried_by_the_runtime() {
    let mut c = one_worker();
    c.inject_faults(PrimFn::Double, 1);
    let client = new_client(1);
    // A direct (non-delegated) root call has no parent frame to replay it.
    let h = c
        .client_call(&client, FunctionId::Prim(PrimFn::Double), vec![Arg::Val(Value::Int(21))])
        .unwrap();
    assert_eq!(c.client_resolve(&client, &h, 10), Err(Error::System));
}

#[test]
fn fan_out_matches_direct_application_in_order() {
    let mut c = one_worker();
    let parts = vec![Value::Int(1), Value::Int(2), Value::Int(3)];
    let outs = c.scatter_gather(0, PrimFn::Double, &parts).unwrap();
    assert_eq!(outs, vec![Value::Int(2), Value::Int(4), Value::Int(6)]);
}

#[test]
fn fan_out_over_list_partitions() {
    let mut c = one_worker();
    let parts = vec![
        Value::List(vec![3, 1, 2]),
        Value::List(vec![9, 8]),
        Value::List(vec![]),
    ];
    let outs = c.scatter_gather(0, PrimFn::Sort, &parts).unwrap();
    assert_eq!(
        outs,
        vec![
            Value::List(vec![1, 2, 3]),
            Value::List(vec![8, 9]),
            Value::List(vec![]),
        ]
    );
}

#[test]
fn fan_out_of_byte_payloads() {
    let mut c = one_worker();
    let parts = vec![Value::Int(2), Value::Int(4)];
    let outs = c.scatter_gather(0, PrimFn::Fill, &parts).unwrap();
    assert_eq!(
        outs,
        vec![Value::Bytes(vec![42, 42]), Value::Bytes(vec![42, 42, 42, 42])]
    );
}

#[test]
fn sharing_a_dropped_or_lost_future_fails_cleanly() {
    let mut c = Cluster::new(10);
    let w0 = c.add_worker(String::from("http://127.0.0.1:8121"), 0);
    let mut h = c.box_value(w0, Value::Int(1));
    let hs = c.share_n(&h, 1).unwrap();
    let h1 = hs.into_iter().next().unwrap();
    c.cancel(&mut h);
    // One handle remains: sharing through it still works.
    assert!(c.share_n(&h1, 1).is_ok());
    // The worker dies: its futures are Lost, and sharing reports so.
    c.sweep(20);
    assert_eq!(c.share_n(&h1, 1).map(|_| ()), Err(Error::Lost));
    // A released handle shares nothing.
    assert_eq!(c.share_n(&h, 1).map(|_| ()), Err(Error::NotFound));
}

#[test]
fn fan_out_surfaces_the_functions_own_error() {
    let mut c = one_worker();
    let parts = vec![Value::Int(1), Value::Int(u64::MAX)];
    assert_eq!(
        c.scatter_gather(0, PrimFn::Double, &parts),
        Err(Error::App(ERR_OVERFLOW))
    );
}

#[test]
fn application_error_passes_through_unretried() {
    let mut c = one_worker();
    let client = new_client(1);
    let h = c
        .client_call(
            &client,
            FunctionId::Delegated(PrimFn::Double),
            vec![Arg::Val(Value::Int(u64::MAX))],
        )
        .unwrap();
    assert_eq!(c.client_resolve(&client, &h, 10), Err(Error::App(ERR_OVERFLOW)));
    // An application error is the function's own: it is never replayed.
    assert_eq!(c.lineage[1].attempts, 1);
}

#[test]
fn pipelined_calls_resolve_each_other() {
    let mut c = one_worker();
    let h1 = c
        .invoke(
            0,
            dfut_core::tasks::Caller::Worker(0),
            None,
            FunctionId::Prim(PrimFn::Double),
            vec![Arg::Val(Value::Int(5))],
        )
        .unwrap();
    let h1b = c.share_n(&h1, 1).unwrap().into_iter().next().unwrap();
    let h2 = c
        .invoke(
            0,
            dfut_core::tasks::Caller::Worker(0),
            None,
            FunctionId::Prim(PrimFn::Double),
            vec![Arg::Fut(h1b)],
        )
        .unwrap();
    let got = c.d_await(0, &h2, 10);
    assert_eq!(got, Ok(Value::Int(20)));
    assert_eq!(c.remote_fetches, 0);
}

#[test]
fn a_waiting_task_rotates_without_blocking_the_queue() {
    let mut c = Cluster::new(10);
    let w0 = c.add_worker(String::from("http://127.0.0.1:8121"), 0);
    let w1 = c.add_worker(String::from("http://127.0.0.1:8122"), 0);
    let h1 = c
        .invoke(
            w0,
            dfut_core::tasks::Caller::Worker(w0),
            None,
            FunctionId::Prim(PrimFn::Double),
            vec![Arg::Val(Value::Int(4))],
        )
        .unwrap();
    let h1b = c.share_n(&h1, 1).unwrap().into_iter().next().unwrap();
    let h2 = c
        .invoke(
            w1,
            dfut_core::tasks::Caller::Worker(w1),
            None,
            FunctionId::Prim(PrimFn::Echo),
            vec![Arg::Fut(h1b)],
        )
        .unwrap();
    // Make the consumer run before its producer: it must step aside, not
    // deadlock the node.
    c.queue.swap(0, 1);
    let got = c.d_await(w1, &h2, 10);
    assert_eq!(got, Ok(Value::Int(8)));
    // The value crossed from worker 0 to worker 1 exactly once.
    assert_eq!(c.remote_fetches, 1);
}

#[test]
fn client_call_with_no_living_worker_is_lost() {
    let mut c = Cluster::new(10);
    let client = new_client(3);
    let r = c.client_call(&client, FunctionId::Prim(PrimFn::Echo), vec![Arg::Val(Value::Unit)]);
    assert_eq!(r.map(|_| ()), Err(Error::Lost));
}

#[test]
fn awaiting_with_no_patience_times_out_as_transient() {
    let mut c = one_worker();
    let client = new_client(1);
    let h = c
        .client_call(&client, FunctionId::Prim(PrimFn::Echo), vec![Arg::Val(Value::Unit)])
        .unwrap();
    // No fuel: the future is still pending, and the wait is interrupted
    // instead of hanging.
    assert_eq!(c.client_resolve(&client, &h, 0), Err(Error::System));
    // With patience the same future resolves.
    assert_eq!(c.client_resolve(&client, &h, 10), Ok(Value::Unit));
}

#[test]
fn in_flight_fetch_outlives_cancellation() {
    let mut c = one_worker();
    let mut h = c.box_value(0, Value::Int(11));
    let id = h.id;
    // A remote node starts fetching, pinning the slot.
    let got = c.fetch_begin(id).unwrap();
    assert_eq!(got, Some(Value::Int(11)));
    assert_eq!(c.remote_fetches, 1);
    // The last handle is released mid-fetch: the slot is logically
    // cancelled but the value is not freed under the reader.
    c.cancel(&mut h);
    assert!(matches!(c.stores[0].entries[0].state, FutState::Cancelled));
    assert!(c.stores[0].entries[0].outcome.is_some());
    // Once the fetch completes, the value is physically dropped.
    c.fetch_end(id);
    assert!(c.stores[0].entries[0].outcome.is_none());
    // A late fetch of the cancelled id fails cleanly.
    assert_eq!(c.fetch_begin(id), Err(Error::NotFound));
}
