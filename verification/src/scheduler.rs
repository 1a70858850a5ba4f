use crate::errors::Error;
use vstd::prelude::*;

verus! {

/// Liveness of a worker, as the global scheduler sees it. The transition
/// is one-way: once a worker is declared dead its id is never reused and
/// its record never returns to life.
#[derive(Clone, Copy, Debug, PartialEq, Eq, Structural)]
pub enum WorkerStatus {
    Alive,
    Dead,
}

/// The global scheduler's record of one registered worker.
pub struct WorkerRecord {
    /// The worker's network endpoint, as given at registration.
    pub address: String,
    /// When the most recent heartbeat arrived, in scheduler ticks.
    pub last_heartbeat: u64,
    pub status: WorkerStatus,
}

/// The mathematical model of one worker record.
pub struct RecordModel {
    pub address: Seq<char>,
    pub last_heartbeat: u64,
    pub alive: bool,
}

impl View for WorkerRecord {
    type V = RecordModel;

    open spec fn view(&self) -> RecordModel {
        RecordModel {
            address: self.address@,
            last_heartbeat: self.last_heartbeat,
            alive: self.status is Alive,
        }
    }
}

/// The model of the whole registry: the worker id is the index.
pub open spec fn records_model(records: Seq<WorkerRecord>) -> Seq<RecordModel> {
    records.map_values(|r: WorkerRecord| r@)
}

/// A record is stale at `now` when it is alive but its last heartbeat is
/// older than the liveness window.
pub open spec fn is_stale(r: RecordModel, now: u64, timeout: u64) -> bool {
    r.alive && now > r.last_heartbeat + timeout
}

/// The process-wide membership registry: assigns worker ids, receives
/// heartbeats, declares silent workers dead, and answers which address
/// owns a future.
pub struct GlobalScheduler {
    /// The liveness window: a worker whose last heartbeat is more than
    /// this many ticks old is declared dead on the next sweep.
    pub heartbeat_timeout: u64,
    /// One record per assigned worker id; the id is the index. Dead
    /// records stay in place so ids are never reused.
    pub records: Vec<WorkerRecord>,
}

/// No two living workers share an address, so registration can be
/// idempotent per address.
pub open spec fn registry_wf(rs: Seq<RecordModel>) -> bool {
    forall|i: int, j: int|
        0 <= i < j < rs.len() && rs[i].alive && rs[j].alive ==> rs[i].address != rs[j].address
}

impl GlobalScheduler {
    /// The scheduler's records form a well-formed registry.
    pub open spec fn wf(&self) -> bool {
        registry_wf(records_model(self.records@))
    }

    pub fn new(heartbeat_timeout: u64) -> (r: GlobalScheduler)
        ensures
            r.wf(),
            r.heartbeat_timeout == heartbeat_timeout,
            r.records@.len() == 0,
    {
        GlobalScheduler { heartbeat_timeout, records: Vec::new() }
    }

    /// How many worker ids have ever been assigned.
    pub fn worker_count(&self) -> (n: usize)
        ensures
            n == self.records@.len(),
    {
        self.records.len()
    }

    /// Registers a worker endpoint and returns its id. Idempotent while
    /// the worker lives: a second registration of a living address returns
    /// the same id unchanged. A dead worker's address gets a fresh id —
    /// dead ids are never reused.
    pub fn register(&mut self, address: String, now: u64) -> (id: usize)
        requires
            old(self).wf(),
        ensures
            final(self).wf(),
            final(self).heartbeat_timeout == old(self).heartbeat_timeout,
            id < final(self).records@.len(),
            final(self).records@[id as int]@.alive,
            final(self).records@[id as int]@.address == address@,
            ({
                if exists|i: int|
                    0 <= i < old(self).records@.len() && old(self).records@[i]@.alive && old(
                        self,
                    ).records@[i]@.address == address@ {
                    &&& final(self).records@ == old(self).records@
                    &&& old(self).records@[id as int]@.alive
                    &&& old(self).records@[id as int]@.address == address@
                } else {
                    &&& id == old(self).records@.len()
                    &&& final(self).records@.len() == old(self).records@.len() + 1
                    &&& forall|i: int|
                        0 <= i < old(self).records@.len() ==> final(self).records@[i] == old(
                            self,
                        ).records@[i]
                    &&& final(self).records@[id as int]@.last_heartbeat == now
                }
            }),
    {
        let mut i: usize = 0;
        while i < self.records.len()
            invariant
                *self == *old(self),
                old(self).wf(),
                i <= self.records@.len(),
                forall|j: int|
                    0 <= j < i ==> !(self.records@[j]@.alive && self.records@[j]@.address
                        == address@),
            decreases self.records@.len() - i,
        {
            let alive = match self.records[i].status {
                WorkerStatus::Alive => true,
                WorkerStatus::Dead => false,
            };
            if alive && self.records[i].address == address {
                return i;
            }
            i = i + 1;
        }
        let id = self.records.len();
        self.records.push(
            WorkerRecord { address, last_heartbeat: now, status: WorkerStatus::Alive },
        );
        proof {
            assert(records_model(self.records@) =~= records_model(old(self).records@).push(
                self.records@[id as int]@,
            ));
        }
        id
    }

    /// Records a heartbeat from worker `w` arriving at tick `at`. A dead
    /// worker's heartbeat is refused with `Lost`: it must re-register
    /// under a new id. An unknown id is refused with `NotFound`.
    pub fn heartbeat(&mut self, w: usize, at: u64) -> (r: Result<(), Error>)
        requires
            old(self).wf(),
        ensures
            final(self).wf(),
            final(self).heartbeat_timeout == old(self).heartbeat_timeout,
            w >= old(self).records@.len() ==> r == Err::<(), Error>(Error::NotFound) && *final(self)
                == *old(self),
            w < old(self).records@.len() && !old(self).records@[w as int]@.alive ==> r == Err::<
                (),
                Error,
            >(Error::Lost) && *final(self) == *old(self),
            w < old(self).records@.len() && old(self).records@[w as int]@.alive ==> r == Ok::<
                (),
                Error,
            >(()) && final(self).records@ == old(self).records@.update(
                w as int,
                WorkerRecord {
                    address: old(self).records@[w as int].address,
                    last_heartbeat: at,
                    status: WorkerStatus::Alive,
                },
            ),
    {
        if w >= self.records.len() {
            return Err(Error::NotFound);
        }
        match self.records[w].status {
            WorkerStatus::Dead => Err(Error::Lost),
            WorkerStatus::Alive => {
                let address = self.records[w].address.clone();
                self.records[w] = WorkerRecord {
                    address,
                    last_heartbeat: at,
                    status: WorkerStatus::Alive,
                };
                proof {
                    assert(final(self).records@[w as int]@.address == old(
                        self,
                    ).records@[w as int]@.address);
                    assert(records_model(self.records@) =~= records_model(
                        old(self).records@,
                    ).update(w as int, self.records@[w as int]@));
                    let rm_old = records_model(old(self).records@);
                    let rm_new = records_model(self.records@);
                    assert forall|k: int| 0 <= k < rm_new.len() implies rm_new[k].address
                        == rm_old[k].address && rm_new[k].alive == rm_old[k].alive by {
                        if k != w {
                            assert(rm_new[k] == rm_old[k]);
                        }
                    }
                }
                Ok(())
            },
        }
    }

    /// Whether worker `w` is currently believed alive.
    pub fn is_alive(&self, w: usize) -> (r: bool)
        ensures
            r <==> (w < self.records@.len() && self.records@[w as int]@.alive),
    {
        if w >= self.records.len() {
            return false;
        }
        match self.records[w].status {
            WorkerStatus::Alive => true,
            WorkerStatus::Dead => false,
        }
    }

    /// Whether worker `w` has been silent past the liveness window.
    pub fn stale_at(&self, w: usize, now: u64) -> (r: bool)
        requires
            w < self.records@.len(),
        ensures
            r == is_stale(self.records@[w as int]@, now, self.heartbeat_timeout),
    {
        let rec = &self.records[w];
        let alive = match rec.status {
            WorkerStatus::Alive => true,
            WorkerStatus::Dead => false,
        };
        alive && rec.last_heartbeat <= u64::MAX - self.heartbeat_timeout && now
            > rec.last_heartbeat + self.heartbeat_timeout
    }

    /// Declares worker `w` dead. The record stays so the id is never
    /// reused; only the status changes.
    pub fn mark_dead(&mut self, w: usize)
        requires
            old(self).wf(),
            w < old(self).records@.len(),
        ensures
            final(self).wf(),
            final(self).heartbeat_timeout == old(self).heartbeat_timeout,
            final(self).records@ == old(self).records@.update(
                w as int,
                WorkerRecord {
                    address: old(self).records@[w as int].address,
                    last_heartbeat: old(self).records@[w as int].last_heartbeat,
                    status: WorkerStatus::Dead,
                },
            ),
    {
        let address = self.records[w].address.clone();
        let last_heartbeat = self.records[w].last_heartbeat;
        self.records[w] = WorkerRecord { address, last_heartbeat, status: WorkerStatus::Dead };
        proof {
            assert(records_model(self.records@) =~= records_model(old(self).records@).update(
                w as int,
                self.records@[w as int]@,
            ));
        }
    }

    /// Resolves the owner id of a future to the owner's address: the
    /// address-resolution authority other nodes query. An unknown id is
    /// `NotFound`; a dead owner is `Lost` — the value is unreachable
    /// unless an ancestor replays the call.
    pub fn resolve_worker(&self, w: usize) -> (r: Result<&String, Error>)
        ensures
            w >= self.records@.len() ==> r == Err::<&String, Error>(Error::NotFound),
            w < self.records@.len() && !self.records@[w as int]@.alive ==> r == Err::<
                &String,
                Error,
            >(Error::Lost),
            w < self.records@.len() && self.records@[w as int]@.alive ==> ({
                &&& r is Ok
                &&& r->Ok_0@ == self.records@[w as int]@.address
            }),
    {
        if w >= self.records.len() {
            return Err(Error::NotFound);
        }
        match self.records[w].status {
            WorkerStatus::Dead => Err(Error::Lost),
            WorkerStatus::Alive => Ok(&self.records[w].address),
        }
    }
}

} // verus!
