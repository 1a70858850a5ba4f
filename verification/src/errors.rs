use vstd::prelude::*;

verus! {

/// The closed set of errors the runtime surfaces to callers.
#[derive(Clone, Copy, Debug, PartialEq, Eq, Structural)]
pub enum Error {
    /// A transient, recoverable system-level fault. The lineage layer may
    /// replay the failed call once from its parent call frame.
    System,
    /// The requested future identifier is unknown, or the handle used to
    /// reach it was already released.
    NotFound,
    /// The owner of the future died before the value was durably available;
    /// the identifier's backing value is gone and only replay from a live
    /// ancestor can recover it.
    Lost,
    /// An application-level error declared by the invoked function itself;
    /// passed through unchanged, never retried by the runtime.
    App(u64),
}

/// Application error code: a call was handed the wrong number of arguments.
pub const ERR_ARITY: u64 = 1;

/// Application error code: an argument had the wrong payload variant.
pub const ERR_TYPE: u64 = 2;

/// Application error code: an arithmetic result does not fit in 64 bits.
pub const ERR_OVERFLOW: u64 = 3;

/// Application error code: a requested allocation exceeds the registry's
/// size bound.
pub const ERR_SIZE: u64 = 4;

} // verus!
