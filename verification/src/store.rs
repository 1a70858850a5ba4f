use crate::errors::Error;
use crate::value::{Value, ValueModel};
use vstd::prelude::*;

verus! {

/// One future's lifecycle, as its owning object store sees it. `Ready` is
/// terminal for the content: values are immutable once materialized. The
/// progression never regresses: `Pending` to `Ready` to (`Cancelled` or
/// `Lost`), with `Lost` reachable from either live state only through the
/// owner's death.
#[derive(Clone, Copy, Debug, PartialEq, Eq, Structural)]
pub enum FutState {
    /// The computation is in flight; no value exists yet.
    Pending,
    /// The outcome is materialized in the owner's store.
    Ready,
    /// Every handle was released; the store may drop the value.
    Cancelled,
    /// The owner died before the value was durably available.
    Lost,
}

/// A future identifier: globally unique as the pair of the owning worker's
/// id and a sequence number inside that worker's arena. Remote references
/// are always this plain pair, never a pointer.
#[derive(Clone, Copy, Debug, PartialEq, Eq, Structural)]
pub struct FutureId {
    pub owner: usize,
    pub seq: usize,
}

/// A capability to one future, held by one consumer. Each holder releases
/// its own handle independently; releasing twice is a no-op the second
/// time, so the flag travels with the handle.
#[derive(Debug)]
pub struct Handle {
    pub id: FutureId,
    pub released: bool,
}

/// What a settled future resolved to: a value, or the error its call
/// produced.
pub type Outcome = Result<Value, Error>;

/// One arena slot of the object store.
pub struct Entry {
    pub state: FutState,
    /// The materialized outcome, present exactly while the state keeps the
    /// value alive.
    pub outcome: Option<Outcome>,
    /// Logical reference count: live handles referring to this future.
    pub handles: u64,
    /// In-flight fetch count: readers currently being served. Physical
    /// deallocation is delayed until this returns to zero.
    pub pins: u64,
}

/// The model of an outcome.
pub open spec fn outcome_model(o: Option<Outcome>) -> Option<Result<ValueModel, Error>> {
    match o {
        None => None,
        Some(Ok(v)) => Some(Ok(v@)),
        Some(Err(e)) => Some(Err(e)),
    }
}

/// The mathematical model of one arena slot.
pub struct EntryModel {
    pub state: FutState,
    pub outcome: Option<Result<ValueModel, Error>>,
    pub handles: u64,
    pub pins: u64,
}

impl View for Entry {
    type V = EntryModel;

    open spec fn view(&self) -> EntryModel {
        EntryModel {
            state: self.state,
            outcome: outcome_model(self.outcome),
            handles: self.handles,
            pins: self.pins,
        }
    }
}

/// The slot invariant: a pending future has no outcome yet; a ready future
/// holds one and is still referenced; a lost future's value is gone; a
/// cancelled future's value is dropped as soon as no fetch is in flight.
pub open spec fn entry_inv(e: EntryModel) -> bool {
    &&& (e.state is Pending ==> e.outcome is None && e.handles >= 1)
    &&& (e.state is Ready ==> e.outcome is Some && e.handles >= 1)
    &&& (e.state is Lost ==> e.outcome is None)
    &&& (e.state is Cancelled ==> e.handles == 0 && (e.pins == 0 ==> e.outcome is None))
}

/// A worker's object store: an arena of its own futures, keyed by the
/// sequence number. Slots are never removed, so sequence numbers are never
/// reused; a dropped value leaves its slot behind as a tombstone.
pub struct ObjectStore {
    pub entries: Vec<Entry>,
}

/// The model of a store: the slot's sequence number is the index.
pub open spec fn store_model(entries: Seq<Entry>) -> Seq<EntryModel> {
    entries.map_values(|e: Entry| e@)
}

impl View for ObjectStore {
    type V = Seq<EntryModel>;

    open spec fn view(&self) -> Seq<EntryModel> {
        store_model(self.entries@)
    }
}

/// Every slot of a store model satisfies the slot invariant.
pub open spec fn store_inv(s: Seq<EntryModel>) -> bool {
    forall|i: int| 0 <= i < s.len() ==> entry_inv(#[trigger] s[i])
}

impl ObjectStore {
    /// Every slot satisfies the slot invariant.
    pub open spec fn wf(&self) -> bool {
        store_inv(self@)
    }

    pub fn new() -> (r: ObjectStore)
        ensures
            r.wf(),
            r@.len() == 0,
    {
        ObjectStore { entries: Vec::new() }
    }

    /// Opens a fresh pending slot for a call whose computation is in
    /// flight, held by one handle (the submitter's).
    pub fn alloc_pending(&mut self) -> (seq: usize)
        requires
            old(self).wf(),
        ensures
            final(self).wf(),
            seq == old(self)@.len(),
            final(self)@ == old(self)@.push(
                EntryModel { state: FutState::Pending, outcome: None, handles: 1, pins: 0 },
            ),
    {
        let seq = self.entries.len();
        self.entries.push(
            Entry { state: FutState::Pending, outcome: None, handles: 1, pins: 0 },
        );
        proof {
            assert(final(self)@ =~= old(self)@.push(
                EntryModel { state: FutState::Pending, outcome: None, handles: 1, pins: 0 },
            ));
        }
        seq
    }

    /// Stores an already materialized outcome as a fresh ready slot, held
    /// by one handle. This is how a resident value is boxed without any
    /// remote call.
    pub fn alloc_ready(&mut self, outcome: Outcome) -> (seq: usize)
        requires
            old(self).wf(),
        ensures
            final(self).wf(),
            seq == old(self)@.len(),
            final(self)@ == old(self)@.push(
                EntryModel {
                    state: FutState::Ready,
                    outcome: outcome_model(Some(outcome)),
                    handles: 1,
                    pins: 0,
                },
            ),
    {
        let ghost om = outcome_model(Some(outcome));
        let seq = self.entries.len();
        self.entries.push(Entry { state: FutState::Ready, outcome: Some(outcome), handles: 1, pins: 0 });
        proof {
            assert(final(self)@ =~= old(self)@.push(
                EntryModel { state: FutState::Ready, outcome: om, handles: 1, pins: 0 },
            ));
        }
        seq
    }

    /// Materializes a pending future's outcome: the single write a slot
    /// ever receives.
    pub fn settle(&mut self, seq: usize, outcome: Outcome)
        requires
            old(self).wf(),
            seq < old(self)@.len(),
            old(self)@[seq as int].state is Pending,
        ensures
            final(self).wf(),
            final(self)@ == old(self)@.update(
                seq as int,
                EntryModel {
                    state: FutState::Ready,
                    outcome: outcome_model(Some(outcome)),
                    handles: old(self)@[seq as int].handles,
                    pins: old(self)@[seq as int].pins,
                },
            ),
    {
        let ghost om = outcome_model(Some(outcome));
        let handles = self.entries[seq].handles;
        let pins = self.entries[seq].pins;
        self.entries[seq] = Entry { state: FutState::Ready, outcome: Some(outcome), handles, pins };
        proof {
            assert(final(self)@ =~= old(self)@.update(
                seq as int,
                EntryModel {
                    state: FutState::Ready,
                    outcome: om,
                    handles: old(self)@[seq as int].handles,
                    pins: old(self)@[seq as int].pins,
                },
            ));
        }
    }

    /// Grants `n` more handles to a live slot: the heart of sharing. The
    /// stored value is not copied; only the reference count grows.
    pub fn add_handles(&mut self, seq: usize, n: u64)
        requires
            old(self).wf(),
            seq < old(self)@.len(),
            old(self)@[seq as int].state is Pending || old(self)@[seq as int].state is Ready,
            old(self)@[seq as int].handles + n <= u64::MAX,
        ensures
            final(self).wf(),
            final(self)@ == old(self)@.update(
                seq as int,
                EntryModel {
                    state: old(self)@[seq as int].state,
                    outcome: old(self)@[seq as int].outcome,
                    handles: (old(self)@[seq as int].handles + n) as u64,
                    pins: old(self)@[seq as int].pins,
                },
            ),
    {
        let e = &self.entries[seq];
        let state = e.state;
        let handles = e.handles;
        let pins = e.pins;
        let outcome = take_outcome_copy(&self.entries[seq].outcome);
        self.entries[seq] = Entry { state, outcome, handles: handles + n, pins };
        proof {
            assert(final(self)@ =~= old(self)@.update(
                seq as int,
                EntryModel {
                    state: old(self)@[seq as int].state,
                    outcome: old(self)@[seq as int].outcome,
                    handles: (old(self)@[seq as int].handles + n) as u64,
                    pins: old(self)@[seq as int].pins,
                },
            ));
        }
    }

    /// Releases one handle. When the logical count reaches zero on a live
    /// slot, the slot is cancelled; the value is physically dropped only
    /// once no fetch is in flight. Releasing a slot that no handle holds
    /// changes nothing.
    pub fn release_one(&mut self, seq: usize)
        requires
            old(self).wf(),
            seq < old(self)@.len(),
        ensures
            final(self).wf(),
            final(self)@ == release_model(old(self)@, seq as int),
    {
        let e = &self.entries[seq];
        if e.handles == 0 {
            proof {
                assert(final(self)@ =~= release_model(old(self)@, seq as int));
            }
            return ;
        }
        let state = e.state;
        let handles = e.handles - 1;
        let pins = e.pins;
        if handles == 0 && (matches!(state, FutState::Pending) || matches!(state, FutState::Ready)) {
            let outcome = if pins == 0 {
                None
            } else {
                take_outcome_copy(&self.entries[seq].outcome)
            };
            self.entries[seq] = Entry { state: FutState::Cancelled, outcome, handles, pins };
        } else {
            let outcome = take_outcome_copy(&self.entries[seq].outcome);
            self.entries[seq] = Entry { state, outcome, handles, pins };
        }
        proof {
            assert(final(self)@ =~= release_model(old(self)@, seq as int));
        }
    }

    /// Reads a slot in place, without pinning it: the owner's own tasks
    /// read their resident values this way. A ready value comes back as a
    /// copy; a ready error propagates as that error; a pending slot yields
    /// nothing yet; a cancelled slot is gone and a lost slot is
    /// unrecoverable.
    pub fn peek(&self, seq: usize) -> (r: Result<Option<Value>, Error>)
        requires
            self.wf(),
            seq < self@.len(),
        ensures
            read_result_model(r) == peek_model(self@, seq as int),
    {
        proof {
            assert(self@[seq as int] == self.entries@[seq as int]@);
        }
        let e = &self.entries[seq];
        match e.state {
            FutState::Pending => Ok(None),
            FutState::Cancelled => Err(Error::NotFound),
            FutState::Lost => Err(Error::Lost),
            FutState::Ready => {
                match &e.outcome {
                    Some(Ok(v)) => Ok(Some(v.duplicate())),
                    Some(Err(err)) => Err(*err),
                    None => {
                        proof {
                            assert(false);
                        }
                        Err(Error::NotFound)
                    },
                }
            },
        }
    }

    /// Begins serving one fetch of a settled slot. A ready value comes
    /// back as a copy and the slot is pinned until `fetch_done`; a ready
    /// error propagates as that error; a pending slot yields nothing yet;
    /// a cancelled slot is gone and a lost slot is unrecoverable.
    pub fn fetch_start(&mut self, seq: usize) -> (r: Result<Option<Value>, Error>)
        requires
            old(self).wf(),
            seq < old(self)@.len(),
        ensures
            final(self).wf(),
            ({
                let e = old(self)@[seq as int];
                match e.state {
                    FutState::Pending => r == Ok::<Option<Value>, Error>(None) && final(self)@
                        == old(self)@,
                    FutState::Ready => match e.outcome {
                        Some(Ok(v)) => if e.pins == u64::MAX {
                            r == Err::<Option<Value>, Error>(Error::System) && final(self)@ == old(
                                self,
                            )@
                        } else {
                            &&& r is Ok
                            &&& r->Ok_0 is Some
                            &&& r->Ok_0->0@ == v
                            &&& final(self)@ == old(self)@.update(
                                seq as int,
                                EntryModel {
                                    state: e.state,
                                    outcome: e.outcome,
                                    handles: e.handles,
                                    pins: (e.pins + 1) as u64,
                                },
                            )
                        },
                        Some(Err(err)) => r == Err::<Option<Value>, Error>(err) && final(self)@
                            == old(self)@,
                        None => false,
                    },
                    FutState::Cancelled => r == Err::<Option<Value>, Error>(Error::NotFound)
                        && final(self)@ == old(self)@,
                    FutState::Lost => r == Err::<Option<Value>, Error>(Error::Lost) && final(self)@
                        == old(self)@,
                }
            }),
    {
        proof {
            assert(self@[seq as int] == self.entries@[seq as int]@);
        }
        let e = &self.entries[seq];
        match e.state {
            FutState::Pending => Ok(None),
            FutState::Cancelled => Err(Error::NotFound),
            FutState::Lost => Err(Error::Lost),
            FutState::Ready => {
                match &e.outcome {
                    Some(Ok(v)) => {
                        if e.pins == u64::MAX {
                            return Err(Error::System);
                        }
                        let copy = v.duplicate();
                        let state = e.state;
                        let handles = e.handles;
                        let pins = e.pins + 1;
                        let outcome = take_outcome_copy(&self.entries[seq].outcome);
                        self.entries[seq] = Entry { state, outcome, handles, pins };
                        proof {
                            assert(final(self)@ =~= old(self)@.update(
                                seq as int,
                                EntryModel {
                                    state: old(self)@[seq as int].state,
                                    outcome: old(self)@[seq as int].outcome,
                                    handles: old(self)@[seq as int].handles,
                                    pins: (old(self)@[seq as int].pins + 1) as u64,
                                },
                            ));
                        }
                        Ok(Some(copy))
                    },
                    Some(Err(err)) => Err(*err),
                    None => {
                        proof {
                            assert(false);
                        }
                        Err(Error::NotFound)
                    },
                }
            },
        }
    }

    /// Finishes one fetch: unpins the slot, and physically drops the value
    /// of a slot that was cancelled while the fetch was in flight.
    pub fn fetch_done(&mut self, seq: usize)
        requires
            old(self).wf(),
            seq < old(self)@.len(),
            old(self)@[seq as int].pins >= 1,
        ensures
            final(self).wf(),
            final(self)@ == fetch_done_model(old(self)@, seq as int),
    {
        let e = &self.entries[seq];
        let state = e.state;
        let handles = e.handles;
        let pins = e.pins - 1;
        let drop_now = pins == 0 && matches!(state, FutState::Cancelled);
        let outcome = if drop_now {
            None
        } else {
            take_outcome_copy(&self.entries[seq].outcome)
        };
        self.entries[seq] = Entry { state, outcome, handles, pins };
        proof {
            assert(final(self)@ =~= fetch_done_model(old(self)@, seq as int));
        }
    }

    /// The owner died: every slot's value is gone, whatever its state was.
    /// Reference counts remain so releases stay no-ops or decrements.
    pub fn mark_all_lost(&mut self)
        requires
            old(self).wf(),
        ensures
            final(self).wf(),
            final(self)@ == lost_model(old(self)@),
    {
        let mut i: usize = 0;
        while i < self.entries.len()
            invariant
                i <= self.entries@.len(),
                self@.len() == old(self)@.len(),
                forall|j: int| i <= j < self@.len() ==> #[trigger] self@[j] == old(self)@[j],
                forall|j: int|
                    0 <= j < i ==> #[trigger] self@[j] == (EntryModel {
                        state: FutState::Lost,
                        outcome: None,
                        handles: old(self)@[j].handles,
                        pins: old(self)@[j].pins,
                    }),
            decreases self.entries@.len() - i,
        {
            let ghost pre = self@;
            let handles = self.entries[i].handles;
            let pins = self.entries[i].pins;
            proof {
                assert(self@[i as int] == self.entries@[i as int]@);
                assert(handles == old(self)@[i as int].handles);
                assert(pins == old(self)@[i as int].pins);
            }
            self.entries[i] = Entry { state: FutState::Lost, outcome: None, handles, pins };
            proof {
                assert(self@ =~= pre.update(
                    i as int,
                    EntryModel { state: FutState::Lost, outcome: None, handles, pins },
                ));
                assert(self@[i as int] == (EntryModel {
                    state: FutState::Lost,
                    outcome: None,
                    handles: old(self)@[i as int].handles,
                    pins: old(self)@[i as int].pins,
                }));
            }
            i = i + 1;
        }
        proof {
            assert(final(self)@ =~= lost_model(old(self)@));
        }
    }

    /// How many slots this store has ever opened.
    pub fn slot_count(&self) -> (n: usize)
        ensures
            n == self@.len(),
    {
        self.entries.len()
    }
}

/// The model of a read result: what an in-place read or a fetch hands
/// back, with values abstracted.
pub open spec fn read_result_model(r: Result<Option<Value>, Error>) -> Result<
    Option<ValueModel>,
    Error,
> {
    match r {
        Ok(None) => Ok(None),
        Ok(Some(v)) => Ok(Some(v@)),
        Err(e) => Err(e),
    }
}

/// The model of reading slot `seq` in place: a pending slot yields nothing
/// yet, a settled one yields its outcome, a dropped one is `NotFound` and
/// a lost one is `Lost`.
pub open spec fn peek_model(s: Seq<EntryModel>, seq: int) -> Result<Option<ValueModel>, Error> {
    let e = s[seq];
    match e.state {
        FutState::Pending => Ok(None),
        FutState::Cancelled => Err(Error::NotFound),
        FutState::Lost => Err(Error::Lost),
        FutState::Ready => match e.outcome {
            Some(Ok(v)) => Ok(Some(v)),
            Some(Err(err)) => Err(err),
            None => Err(Error::NotFound),
        },
    }
}

/// The model of releasing one handle of slot `seq`.
pub open spec fn release_model(s: Seq<EntryModel>, seq: int) -> Seq<EntryModel> {
    let e = s[seq];
    if e.handles == 0 {
        s
    } else {
        let handles = (e.handles - 1) as u64;
        if handles == 0 && (e.state is Pending || e.state is Ready) {
            s.update(
                seq,
                EntryModel {
                    state: FutState::Cancelled,
                    outcome: if e.pins == 0 {
                        None
                    } else {
                        e.outcome
                    },
                    handles,
                    pins: e.pins,
                },
            )
        } else {
            s.update(seq, EntryModel { state: e.state, outcome: e.outcome, handles, pins: e.pins })
        }
    }
}

/// The model of finishing one fetch of slot `seq`.
pub open spec fn fetch_done_model(s: Seq<EntryModel>, seq: int) -> Seq<EntryModel> {
    let e = s[seq];
    let pins = (e.pins - 1) as u64;
    s.update(
        seq,
        EntryModel {
            state: e.state,
            outcome: if pins == 0 && e.state is Cancelled {
                None
            } else {
                e.outcome
            },
            handles: e.handles,
            pins,
        },
    )
}

/// The model of the owner's death: every slot loses its value.
pub open spec fn lost_model(s: Seq<EntryModel>) -> Seq<EntryModel> {
    Seq::new(
        s.len(),
        |i: int|
            EntryModel {
                state: FutState::Lost,
                outcome: None,
                handles: s[i].handles,
                pins: s[i].pins,
            },
    )
}

/// Rebuilds an outcome by copying the value inside, so a slot can be
/// rewritten around it.
fn take_outcome_copy(o: &Option<Outcome>) -> (r: Option<Outcome>)
    ensures
        outcome_model(r) == outcome_model(*o),
{
    match o {
        None => None,
        Some(Ok(v)) => Some(Ok(v.duplicate())),
        Some(Err(e)) => Some(Err(*e)),
    }
}

} // verus!
