use crate::errors::{ERR_ARITY, ERR_OVERFLOW, ERR_SIZE, ERR_TYPE};
use crate::sort::{local_quick_sort, sort_model};
use crate::value::{copy_vec, Value, ValueModel};
use vstd::prelude::*;

verus! {

/// A function of the built-in registry: a closed set of tagged variants
/// dispatched by tag, never by open-ended reflection.
#[derive(Clone, Copy, Debug, PartialEq, Eq, Structural)]
pub enum PrimFn {
    /// Returns its single argument unchanged.
    Echo,
    /// Turns `Int(n)` into `Bytes` holding `n` filler bytes.
    Fill,
    /// Turns `Int(v)` into `Int(2 * v)`.
    Double,
    /// Turns `Int(k), Int(x)` into `Int(k * x)`.
    Scale,
    /// Turns `List(xs)` into `Int` holding the sum of `xs`.
    Sum,
    /// Turns `List(xs)` into the sorted `List`.
    Sort,
}

/// What an invocation names: a registry function run directly, or run
/// behind a delegating parent frame that replays it once on a transient
/// fault.
#[derive(Clone, Copy, Debug, PartialEq, Eq, Structural)]
pub enum FunctionId {
    Prim(PrimFn),
    Delegated(PrimFn),
}

/// The byte that `Fill` replicates.
pub const FILL_BYTE: u8 = 42;

/// The largest byte payload `Fill` agrees to allocate.
pub const MAX_FILL: u64 = 1048576;

/// How many arguments each registry function expects.
pub open spec fn prim_arity(f: PrimFn) -> nat {
    match f {
        PrimFn::Scale => 2,
        _ => 1,
    }
}

/// The sum of a sequence of words, as an unbounded integer.
pub open spec fn seq_sum(s: Seq<u64>) -> int
    decreases s.len(),
{
    if s.len() == 0 {
        0
    } else {
        seq_sum(s.drop_last()) + s.last()
    }
}

/// Every prefix sum is bounded by the whole sum.
proof fn lemma_seq_sum_prefix(s: Seq<u64>, k: int)
    requires
        0 <= k <= s.len(),
    ensures
        seq_sum(s.take(k)) <= seq_sum(s),
    decreases s.len() - k,
{
    if k == s.len() {
        assert(s.take(k) =~= s);
    } else {
        assert(s.take(k + 1).drop_last() =~= s.take(k));
        assert(s.take(k + 1).last() == s[k]);
        lemma_seq_sum_prefix(s, k + 1);
    }
}

/// The models of a sequence of values.
pub open spec fn vals_model(args: Seq<Value>) -> Seq<ValueModel> {
    args.map_values(|v: Value| v@)
}

/// What each registry function returns: a value, or an application error
/// code. This is the executor's single source of truth for the registry.
pub open spec fn prim_result(f: PrimFn, args: Seq<ValueModel>) -> Result<ValueModel, u64> {
    if args.len() != prim_arity(f) {
        Err(ERR_ARITY)
    } else {
        match f {
            PrimFn::Echo => Ok(args[0]),
            PrimFn::Fill => match args[0] {
                ValueModel::Int(n) => if n <= MAX_FILL {
                    Ok(ValueModel::Bytes(Seq::new(n as nat, |i: int| FILL_BYTE)))
                } else {
                    Err(ERR_SIZE)
                },
                _ => Err(ERR_TYPE),
            },
            PrimFn::Double => match args[0] {
                ValueModel::Int(v) => if v <= u64::MAX / 2 {
                    Ok(ValueModel::Int((2 * v) as u64))
                } else {
                    Err(ERR_OVERFLOW)
                },
                _ => Err(ERR_TYPE),
            },
            PrimFn::Scale => match (args[0], args[1]) {
                (ValueModel::Int(k), ValueModel::Int(x)) => if k * x <= u64::MAX {
                    Ok(ValueModel::Int((k * x) as u64))
                } else {
                    Err(ERR_OVERFLOW)
                },
                _ => Err(ERR_TYPE),
            },
            PrimFn::Sum => match args[0] {
                ValueModel::List(xs) => if seq_sum(xs) <= u64::MAX {
                    Ok(ValueModel::Int(seq_sum(xs) as u64))
                } else {
                    Err(ERR_OVERFLOW)
                },
                _ => Err(ERR_TYPE),
            },
            PrimFn::Sort => match args[0] {
                ValueModel::List(xs) => Ok(ValueModel::List(sort_model(xs))),
                _ => Err(ERR_TYPE),
            },
        }
    }
}

/// Builds `Fill`'s payload.
fn fill_bytes(n: u64) -> (r: Vec<u8>)
    requires
        n <= MAX_FILL,
    ensures
        r@ =~= Seq::new(n as nat, |i: int| FILL_BYTE),
{
    let mut r: Vec<u8> = Vec::new();
    let mut i: u64 = 0;
    while i < n
        invariant
            i <= n,
            r@.len() == i,
            forall|k: int| 0 <= k < i ==> r@[k] == FILL_BYTE,
        decreases n - i,
    {
        r.push(FILL_BYTE);
        i = i + 1;
    }
    r
}

/// Sums a list of words, reporting overflow exactly when the mathematical
/// sum does not fit in 64 bits.
fn sum_words(xs: &Vec<u64>) -> (r: Result<u64, u64>)
    ensures
        seq_sum(xs@) <= u64::MAX ==> r == Ok::<u64, u64>((seq_sum(xs@) as u64)),
        seq_sum(xs@) > u64::MAX ==> r == Err::<u64, u64>(ERR_OVERFLOW),
{
    let mut acc: u64 = 0;
    let mut i: usize = 0;
    while i < xs.len()
        invariant
            i <= xs@.len(),
            acc == seq_sum(xs@.take(i as int)),
        decreases xs@.len() - i,
    {
        proof {
            assert(xs@.take(i + 1 as int).drop_last() =~= xs@.take(i as int));
            assert(xs@.take(i + 1 as int).last() == xs@[i as int]);
        }
        if xs[i] > u64::MAX - acc {
            proof {
                lemma_seq_sum_prefix(xs@, i + 1 as int);
            }
            return Err(ERR_OVERFLOW);
        }
        acc = acc + xs[i];
        i = i + 1;
    }
    proof {
        assert(xs@.take(xs@.len() as int) =~= xs@);
    }
    Ok(acc)
}

/// Multiplies two words, reporting overflow exactly when the product does
/// not fit in 64 bits.
fn mul_words(k: u64, x: u64) -> (r: Result<u64, u64>)
    ensures
        k * x <= u64::MAX ==> r == Ok::<u64, u64>(((k * x) as u64)),
        k * x > u64::MAX ==> r == Err::<u64, u64>(ERR_OVERFLOW),
{
    if x == 0 {
        return Ok(0);
    }
    let q = u64::MAX / x;
    if k > q {
        proof {
            assert(k * x > u64::MAX) by (nonlinear_arith)
                requires
                    x > 0,
                    k > u64::MAX / x,
                    q == u64::MAX / x,
            ;
        }
        return Err(ERR_OVERFLOW);
    }
    proof {
        assert(k * x <= u64::MAX) by (nonlinear_arith)
            requires
                x > 0,
                k <= u64::MAX / x,
        ;
    }
    Ok(k * x)
}

/// Runs one registry function on fully materialized arguments. This is the
/// task executor's dispatch table: the returned error code is the
/// function's own application-level error, opaque to the runtime.
pub fn apply_prim(f: PrimFn, args: &Vec<Value>) -> (r: Result<Value, u64>)
    ensures
        ({
            let pr = prim_result(f, vals_model(args@));
            match r {
                Ok(v) => pr == Ok::<ValueModel, u64>(v@),
                Err(c) => pr == Err::<ValueModel, u64>(c),
            }
        }),
{
    let arity: usize = match f {
        PrimFn::Scale => 2,
        _ => 1,
    };
    if args.len() != arity {
        return Err(ERR_ARITY);
    }
    match f {
        PrimFn::Echo => Ok(args[0].duplicate()),
        PrimFn::Fill => match &args[0] {
            Value::Int(n) => {
                if *n <= MAX_FILL {
                    Ok(Value::Bytes(fill_bytes(*n)))
                } else {
                    Err(ERR_SIZE)
                }
            },
            _ => Err(ERR_TYPE),
        },
        PrimFn::Double => match &args[0] {
            Value::Int(v) => {
                if *v <= u64::MAX / 2 {
                    Ok(Value::Int(2 * *v))
                } else {
                    Err(ERR_OVERFLOW)
                }
            },
            _ => Err(ERR_TYPE),
        },
        PrimFn::Scale => match (&args[0], &args[1]) {
            (Value::Int(k), Value::Int(x)) => match mul_words(*k, *x) {
                Ok(p) => Ok(Value::Int(p)),
                Err(c) => Err(c),
            },
            _ => Err(ERR_TYPE),
        },
        PrimFn::Sum => match &args[0] {
            Value::List(xs) => match sum_words(xs) {
                Ok(s) => Ok(Value::Int(s)),
                Err(c) => Err(c),
            },
            _ => Err(ERR_TYPE),
        },
        PrimFn::Sort => match &args[0] {
            Value::List(xs) => Ok(Value::List(local_quick_sort(copy_vec(xs)))),
            _ => Err(ERR_TYPE),
        },
    }
}

} // verus!
