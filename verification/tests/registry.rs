use dfut_core::errors::{Error, ERR_ARITY, ERR_OVERFLOW, ERR_SIZE, ERR_TYPE};
use dfut_core::prim::{apply_prim, PrimFn, FILL_BYTE, MAX_FILL};
use dfut_core::scheduler::GlobalScheduler;
use dfut_core::sort::{insertion_sort, local_quick_sort, partition};
use dfut_core::value::Value;

#[test]
fn echo_returns_its_argument() {
    let args = vec![Value::List(vec![1, 2])];
    assert_eq!(apply_prim(PrimFn::Echo, &args), Ok(Value::List(vec![1, 2])));
}

#[test]
fn fill_builds_the_byte_payload() {
    let args = vec![Value::Int(3)];
    assert_eq!(
        apply_prim(PrimFn::Fill, &args),
        Ok(Value::Bytes(vec![FILL_BYTE, FILL_BYTE, FILL_BYTE]))
    );
}

#[test]
fn fill_refuses_an_oversized_payload() {
    let args = vec![Value::Int(MAX_FILL + 1)];
    assert_eq!(apply_prim(PrimFn::Fill, &args), Err(ERR_SIZE));
}

#[test]
fn double_doubles() {
    assert_eq!(apply_prim(PrimFn::Double, &vec![Value::Int(21)]), Ok(Value::Int(42)));
}

#[test]
fn double_reports_overflow() {
    assert_eq!(apply_prim(PrimFn::Double, &vec![Value::Int(u64::MAX)]), Err(ERR_OVERFLOW));
}

#[test]
fn scale_multiplies() {
    assert_eq!(
        apply_prim(PrimFn::Scale, &vec![Value::Int(6), Value::Int(7)]),
        Ok(Value::Int(42))
    );
}

#[test]
fn scale_reports_overflow() {
    assert_eq!(
        apply_prim(PrimFn::Scale, &vec![Value::Int(u64::MAX), Value::Int(2)]),
        Err(ERR_OVERFLOW)
    );
}

#[test]
fn scale_by_zero_is_zero() {
    assert_eq!(
        apply_prim(PrimFn::Scale, &vec![Value::Int(u64::MAX), Value::Int(0)]),
        Ok(Value::Int(0))
    );
}

#[test]
fn sum_adds_the_list() {
    assert_eq!(
        apply_prim(PrimFn::Sum, &vec![Value::List(vec![1, 2, 3])]),
        Ok(Value::Int(6))
    );
}

#[test]
fn sum_of_empty_list_is_zero() {
    assert_eq!(apply_prim(PrimFn::Sum, &vec![Value::List(vec![])]), Ok(Value::Int(0)));
}

#[test]
fn sum_reports_overflow() {
    assert_eq!(
        apply_prim(PrimFn::Sum, &vec![Value::List(vec![u64::MAX, 1])]),
        Err(ERR_OVERFLOW)
    );
}

#[test]
fn sort_sorts() {
    assert_eq!(
        apply_prim(PrimFn::Sort, &vec![Value::List(vec![3, 1, 2])]),
        Ok(Value::List(vec![1, 2, 3]))
    );
}

#[test]
fn wrong_arity_is_its_own_error() {
    assert_eq!(apply_prim(PrimFn::Scale, &vec![Value::Int(1)]), Err(ERR_ARITY));
    assert_eq!(apply_prim(PrimFn::Echo, &vec![]), Err(ERR_ARITY));
}

#[test]
fn wrong_payload_is_its_own_error() {
    assert_eq!(apply_prim(PrimFn::Double, &vec![Value::List(vec![1])]), Err(ERR_TYPE));
    assert_eq!(apply_prim(PrimFn::Sum, &vec![Value::Int(1)]), Err(ERR_TYPE));
}

#[test]
fn partition_splits_around_the_last_element() {
    let (l, p, g) = partition(vec![2, 7, 1, 4]);
    assert_eq!(p, 4);
    assert_eq!(l, vec![2, 1]);
    assert_eq!(g, vec![7]);
}

#[test]
fn partition_with_duplicates_keeps_equal_keys_left() {
    let (l, p, g) = partition(vec![5, 3, 5, 8, 5]);
    assert_eq!(p, 5);
    assert_eq!(l, vec![5, 3, 5]);
    assert_eq!(g, vec![8]);
}

#[test]
fn quick_sort_sorts() {
    assert_eq!(local_quick_sort(vec![5, 3, 8, 1, 9, 2]), vec![1, 2, 3, 5, 8, 9]);
}

#[test]
fn quick_sort_of_empty_and_singleton() {
    assert_eq!(local_quick_sort(vec![]), Vec::<u64>::new());
    assert_eq!(local_quick_sort(vec![7]), vec![7]);
}

#[test]
fn quick_sort_with_equal_keys() {
    assert_eq!(local_quick_sort(vec![2, 2, 1, 2]), vec![1, 2, 2, 2]);
}

#[test]
fn insertion_sort_agrees_with_quick_sort() {
    let v = vec![9, 4, 6, 4, 0, 11, 4];
    assert_eq!(insertion_sort(v.clone()), local_quick_sort(v));
}

#[test]
fn values_compare_by_content() {
    assert_eq!(Value::Int(1), Value::Int(1));
    assert_ne!(Value::Int(1), Value::Int(2));
    assert_eq!(Value::Bytes(vec![1, 2]), Value::Bytes(vec![1, 2]));
    assert_ne!(Value::Bytes(vec![1, 2]), Value::Bytes(vec![1]));
    assert_ne!(Value::Int(1), Value::Unit);
    assert_eq!(Value::List(vec![]), Value::List(vec![]));
}

#[test]
fn registration_is_idempotent_while_alive() {
    let mut s = GlobalScheduler::new(10);
    let a = s.register(String::from("http://127.0.0.1:8121"), 0);
    let b = s.register(String::from("http://127.0.0.1:8121"), 5);
    assert_eq!(a, b);
    let c = s.register(String::from("http://127.0.0.1:8122"), 5);
    assert_ne!(a, c);
}

#[test]
fn a_dead_worker_id_is_never_reused() {
    let mut s = GlobalScheduler::new(10);
    let a = s.register(String::from("http://127.0.0.1:8121"), 0);
    s.mark_dead(a);
    let b = s.register(String::from("http://127.0.0.1:8121"), 1);
    assert_ne!(a, b);
    assert_eq!(s.worker_count(), 2);
}

#[test]
fn resolving_owners_through_the_registry() {
    let mut s = GlobalScheduler::new(10);
    let a = s.register(String::from("http://127.0.0.1:8121"), 0);
    assert_eq!(s.resolve_worker(a), Ok(&String::from("http://127.0.0.1:8121")));
    assert_eq!(s.resolve_worker(a + 1), Err(Error::NotFound));
    s.mark_dead(a);
    assert_eq!(s.resolve_worker(a), Err(Error::Lost));
}

#[test]
fn heartbeats_keep_a_worker_alive_past_the_window() {
    let mut s = GlobalScheduler::new(10);
    let a = s.register(String::from("http://127.0.0.1:8121"), 0);
    s.heartbeat(a, 8).unwrap();
    assert!(!s.stale_at(a, 18));
    assert!(s.stale_at(a, 19));
    assert!(s.is_alive(a));
}
