//! The job table shared by every connection.
//!
//! A [`JobStore`] holds one record per live job, keyed by the job's id, and the
//! counter from which ids are drawn. Its contracts are stated over
//! [`StoreView`], a mathematical map from ids to [`JobView`] records, on which
//! the four operations are plain spec functions. The laws at the end of the
//! file are proved about those spec functions and therefore hold of every
//! sequence of calls on a well-formed store.
use std::collections::HashMap;
use vstd::prelude::*;

verus! {

broadcast use vstd::std_specs::hash::group_hash_axioms;

/// Where a live job stands in its lifecycle. A deleted job has no state: it is
/// removed from the table.
#[derive(Clone, Copy, Debug, PartialEq, Eq, Structural)]
pub enum JobState {
    /// Available for reservation.
    Ready,
    /// Claimed by a consumer, neither deleted nor released yet.
    Reserved,
    /// Set aside; never offered by `reserve` and never released.
    Buried,
}

/// What the contracts say of one job.
pub struct JobView {
    pub id: nat,
    pub priority: u32,
    pub delay: u32,
    pub ttr: u32,
    pub payload: Seq<u8>,
    pub state: JobState,
}

/// One record of the table.
pub struct Job {
    /// Unique, assigned at submission, never reused.
    pub id: u64,
    /// Lower values are served first.
    pub priority: u32,
    /// Carried for the client; the store does not act on it.
    pub delay: u32,
    /// Carried for the client; the store does not act on it.
    pub ttr: u32,
    /// The work itself, opaque to the store.
    pub payload: Vec<u8>,
    pub state: JobState,
}

impl View for Job {
    type V = JobView;

    open spec fn view(&self) -> JobView {
        JobView {
            id: self.id as nat,
            priority: self.priority,
            delay: self.delay,
            ttr: self.ttr,
            payload: self.payload@,
            state: self.state,
        }
    }
}

/// The mathematical content of a store: the live jobs by id, and the last id
/// that was handed out (0 before the first submission).
pub struct StoreView {
    pub jobs: Map<nat, JobView>,
    pub next_id: nat,
}

/// One operation on a store, as a value, so that laws can speak of histories.
pub enum StoreOp {
    Submit { priority: u32, delay: u32, ttr: u32, payload: Seq<u8> },
    Reserve,
    Delete { id: nat },
    Release { id: nat },
}

/// `a` is served no later than `b`: lower priority value first, and among equal
/// priorities the lower id, which is the earlier submission.
pub open spec fn served_before(a: JobView, b: JobView) -> bool {
    a.priority < b.priority || (a.priority == b.priority && a.id <= b.id)
}

impl StoreView {
    /// The store before anything was submitted.
    pub open spec fn empty() -> StoreView {
        StoreView { jobs: Map::empty(), next_id: 0 }
    }

    /// Every record sits under its own id, and every id was handed out by the
    /// counter.
    pub open spec fn wf(self) -> bool {
        forall|id: nat| #[trigger]
            self.jobs.contains_key(id) ==> 1 <= id <= self.next_id && self.jobs[id].id == id
    }

    /// Job `id` is in the table and `Ready`.
    pub open spec fn is_ready(self, id: nat) -> bool {
        self.jobs.contains_key(id) && self.jobs[id].state == JobState::Ready
    }

    /// Job `id` is in the table and `Reserved`.
    pub open spec fn is_reserved(self, id: nat) -> bool {
        self.jobs.contains_key(id) && self.jobs[id].state == JobState::Reserved
    }

    /// Some job is `Ready`.
    pub open spec fn has_ready(self) -> bool {
        exists|id: nat| self.is_ready(id)
    }

    /// `id` is the `Ready` job that every other `Ready` job is served after.
    pub open spec fn is_first_ready(self, id: nat) -> bool {
        &&& self.is_ready(id)
        &&& forall|other: nat| #[trigger]
            self.is_ready(other) ==> served_before(self.jobs[id], self.jobs[other])
    }

    /// The job that `reserve` hands out, if there is one.
    pub open spec fn next_ready(self) -> Option<nat> {
        if exists|id: nat| self.is_first_ready(id) {
            Some(choose|id: nat| self.is_first_ready(id))
        } else {
            None
        }
    }

    /// The same store with job `id` in state `state`.
    pub open spec fn with_state(self, id: nat, state: JobState) -> StoreView {
        StoreView {
            jobs: self.jobs.insert(id, JobView { state, ..self.jobs[id] }),
            next_id: self.next_id,
        }
    }

    /// The id that the next submission receives.
    pub open spec fn fresh_id(self) -> nat {
        self.next_id + 1
    }

    /// The store with a new `Ready` job under the next id.
    pub open spec fn submit(self, priority: u32, delay: u32, ttr: u32, payload: Seq<u8>) -> StoreView {
        StoreView {
            jobs: self.jobs.insert(
                self.fresh_id(),
                JobView {
                    id: self.fresh_id(),
                    priority,
                    delay,
                    ttr,
                    payload,
                    state: JobState::Ready,
                },
            ),
            next_id: self.fresh_id(),
        }
    }

    /// The store with the job that is served first marked `Reserved`; the same
    /// store where no job is `Ready`.
    pub open spec fn reserve(self) -> StoreView {
        match self.next_ready() {
            Some(id) => self.with_state(id, JobState::Reserved),
            None => self,
        }
    }

    /// The store without job `id`; the same store where it has no such job.
    pub open spec fn delete(self, id: nat) -> StoreView {
        if self.jobs.contains_key(id) {
            StoreView { jobs: self.jobs.remove(id), next_id: self.next_id }
        } else {
            self
        }
    }

    /// The store with job `id` back to `Ready`; the same store where job `id`
    /// is not `Reserved`.
    pub open spec fn release(self, id: nat) -> StoreView {
        if self.is_reserved(id) {
            self.with_state(id, JobState::Ready)
        } else {
            self
        }
    }

    /// The store after one operation.
    pub open spec fn step(self, op: StoreOp) -> StoreView {
        match op {
            StoreOp::Submit { priority, delay, ttr, payload } => self.submit(
                priority,
                delay,
                ttr,
                payload,
            ),
            StoreOp::Reserve => self.reserve(),
            StoreOp::Delete { id } => self.delete(id),
            StoreOp::Release { id } => self.release(id),
        }
    }

    /// The store after a history of operations, oldest first.
    pub open spec fn run(self, ops: Seq<StoreOp>) -> StoreView
        decreases ops.len(),
    {
        if ops.len() == 0 {
            self
        } else {
            self.run(ops.drop_last()).step(ops.last())
        }
    }
}

/// The job table with its id counter.
pub struct JobStore {
    jobs: HashMap<u64, Job>,
    next_id: u64,
}

impl View for JobStore {
    type V = StoreView;

    closed spec fn view(&self) -> StoreView {
        StoreView {
            jobs: Map::new(
                |id: nat| id <= u64::MAX && self.jobs@.contains_key(id as u64),
                |id: nat| self.jobs@[id as u64]@,
            ),
            next_id: self.next_id as nat,
        }
    }
}

impl JobStore {
    /// The invariant of the table, stated on its view.
    pub open spec fn wf(&self) -> bool {
        self@.wf()
    }

    /// An empty store whose first job will get id 1.
    pub fn new() -> (store: JobStore)
        ensures
            store.wf(),
            store@ == StoreView::empty(),
    {
        let store = JobStore { jobs: HashMap::new(), next_id: 0 };
        assert(store@.jobs =~= Map::<nat, JobView>::empty());
        store
    }

    /// Whether the counter can still hand out an id.
    pub fn has_capacity(&self) -> (r: bool)
        ensures
            r == (self@.next_id < u64::MAX),
    {
        self.next_id < u64::MAX
    }

    /// Stores a new `Ready` job under the next id and returns that id.
    pub fn submit(&mut self, priority: u32, delay: u32, ttr: u32, payload: Vec<u8>) -> (id: u64)
        requires
            old(self).wf(),
            old(self)@.next_id < u64::MAX,
        ensures
            final(self).wf(),
            id == old(self)@.fresh_id(),
            final(self)@ == old(self)@.submit(priority, delay, ttr, payload@),
    {
        let id: u64 = self.next_id + 1;
        self.next_id = id;
        let job = Job { id, priority, delay, ttr, payload, state: JobState::Ready };
        self.jobs.insert(id, job);
        assert(final(self)@.jobs =~= old(self)@.submit(priority, delay, ttr, payload@).jobs);
        id
    }

    /// The id of the `Ready` job that is served first, if any job is `Ready`.
    fn first_ready(&self) -> (r: Option<u64>)
        requires
            self.wf(),
        ensures
            match r {
                Some(id) => self@.is_first_ready(id as nat),
                None => !self@.has_ready(),
            },
    {
        let mut best: Option<(u32, u64)> = None;
        for key in it: self.jobs.keys()
            invariant
                match best {
                    Some((priority, id)) => {
                        &&& self.jobs@.contains_key(id)
                        &&& self.jobs@[id].state == JobState::Ready
                        &&& self.jobs@[id].priority == priority
                        &&& forall|j: int|
                            0 <= j < it.index() && self.jobs@[*it.seq()[j]].state == JobState::Ready
                                ==> priority < self.jobs@[*it.seq()[j]].priority || (priority
                                == self.jobs@[*it.seq()[j]].priority && id <= *it.seq()[j])
                    },
                    None => forall|j: int|
                        0 <= j < it.index() ==> self.jobs@[*it.seq()[j]].state != JobState::Ready,
                },
        {
            let job = self.jobs.get(key).unwrap();
            if job.state == JobState::Ready {
                match best {
                    None => {
                        best = Some((job.priority, *key));
                    },
                    Some((priority, id)) => {
                        if job.priority < priority || (job.priority == priority && *key < id) {
                            best = Some((job.priority, *key));
                        }
                    },
                }
            }
        }
        match best {
            Some((priority, id)) => {
                assert forall|k: u64|
                    self.jobs@.contains_key(k) && self.jobs@[k].state
                        == JobState::Ready implies priority < self.jobs@[k].priority || (priority
                    == self.jobs@[k].priority && id <= k) by {}
                assert forall|other: nat| #[trigger] self@.is_ready(other) implies served_before(
                    self@.jobs[id as nat],
                    self@.jobs[other],
                ) by {
                    assert(self.jobs@.contains_key(other as u64));
                    assert(self@.jobs.contains_key(other));
                    assert(self@.jobs.contains_key(id as nat));
                }
                Some(id)
            },
            None => {
                assert forall|k: u64| self.jobs@.contains_key(k) implies self.jobs@[k].state
                    != JobState::Ready by {}
                assert forall|other: nat| !self@.is_ready(other) by {
                    if self@.is_ready(other) {
                        assert(self.jobs@.contains_key(other as u64));
                    }
                }
                None
            },
        }
    }

    /// Hands out the `Ready` job with the lowest priority value, the lowest id
    /// among equals, and marks it `Reserved`. Returns `None`, and changes
    /// nothing, when no job is `Ready`.
    pub fn reserve(&mut self) -> (r: Option<(u64, Vec<u8>)>)
        requires
            old(self).wf(),
        ensures
            final(self).wf(),
            final(self)@ == old(self)@.reserve(),
            r is Some <==> old(self)@.has_ready(),
            match r {
                Some((id, payload)) => {
                    &&& old(self)@.next_ready() == Some(id as nat)
                    &&& old(self)@.is_first_ready(id as nat)
                    &&& payload@ == old(self)@.jobs[id as nat].payload
                },
                None => old(self)@.next_ready() is None,
            },
    {
        match self.first_ready() {
            None => None,
            Some(id) => {
                proof {
                    lemma_first_ready_is_next(old(self)@, id as nat);
                }
                let mut job = self.jobs.remove(&id).unwrap();
                job.state = JobState::Reserved;
                let payload = job.payload.clone();
                self.jobs.insert(id, job);
                assert(final(self)@.jobs =~= old(self)@.reserve().jobs);
                Some((id, payload))
            },
        }
    }

    /// Removes job `id` whatever its state, and says whether it was there.
    pub fn delete(&mut self, id: u64) -> (existed: bool)
        requires
            old(self).wf(),
        ensures
            final(self).wf(),
            existed == old(self)@.jobs.contains_key(id as nat),
            final(self)@ == old(self)@.delete(id as nat),
            !existed ==> final(self)@ == old(self)@,
    {
        let removed = self.jobs.remove(&id);
        assert(final(self)@.jobs =~= old(self)@.delete(id as nat).jobs);
        removed.is_some()
    }

    /// Puts a `Reserved` job back to `Ready`, and says whether it did. A job
    /// that is absent or not `Reserved` is left as it is.
    pub fn release(&mut self, id: u64) -> (released: bool)
        requires
            old(self).wf(),
        ensures
            final(self).wf(),
            released == old(self)@.is_reserved(id as nat),
            final(self)@ == old(self)@.release(id as nat),
    {
        let reserved = match self.jobs.get(&id) {
            Some(job) => job.state == JobState::Reserved,
            None => false,
        };
        if reserved {
            let mut job = self.jobs.remove(&id).unwrap();
            job.state = JobState::Ready;
            self.jobs.insert(id, job);
            assert(final(self)@.jobs =~= old(self)@.release(id as nat).jobs);
        }
        reserved
    }

    /// Whether job `id` is in the table.
    pub fn contains(&self, id: u64) -> (r: bool)
        ensures
            r == self@.jobs.contains_key(id as nat),
    {
        self.jobs.contains_key(&id)
    }

    /// The record of job `id`, or `None` where the table has no such job.
    pub fn get(&self, id: u64) -> (r: Option<&Job>)
        ensures
            r is Some <==> self@.jobs.contains_key(id as nat),
            r matches Some(job) ==> job@ == self@.jobs[id as nat],
    {
        self.jobs.get(&id)
    }

    /// The state of job `id`, or `None` where the table has no such job.
    pub fn state_of(&self, id: u64) -> (r: Option<JobState>)
        ensures
            r == if self@.jobs.contains_key(id as nat) {
                Some(self@.jobs[id as nat].state)
            } else {
                None
            },
    {
        match self.jobs.get(&id) {
            Some(job) => Some(job.state),
            None => None,
        }
    }

    /// The id handed out last, 0 before the first submission.
    pub fn last_id(&self) -> (r: u64)
        ensures
            r == self@.next_id,
    {
        self.next_id
    }

    /// The number of jobs in the table, whatever their state.
    pub fn len(&self) -> (r: usize)
        ensures
            self@.jobs.dom().finite(),
            r == self@.jobs.len(),
    {
        proof {
            let widen = |k: u64| k as nat;
            assert(self.jobs@.dom().map(widen) =~= self@.jobs.dom()) by {
                assert forall|id: nat| self@.jobs.dom().contains(id) implies self.jobs@.dom().map(
                    widen,
                ).contains(id) by {
                    assert(self.jobs@.dom().contains(id as u64) && widen(id as u64) == id);
                }
            }
            vstd::set_lib::lemma_map_size(self.jobs@.dom(), self@.jobs.dom(), widen);
        }
        self.jobs.len()
    }
}

/// In a well-formed store at most one job is served first, so `next_ready` is
/// that job.
pub proof fn lemma_first_ready_is_next(s: StoreView, id: nat)
    requires
        s.wf(),
        s.is_first_ready(id),
    ensures
        s.next_ready() == Some(id),
{
    let chosen = choose|c: nat| s.is_first_ready(c);
    assert(s.is_ready(chosen));
    assert(s.is_ready(id));
    assert(served_before(s.jobs[id], s.jobs[chosen]));
    assert(served_before(s.jobs[chosen], s.jobs[id]));
    assert(s.jobs.contains_key(id));
    assert(s.jobs.contains_key(chosen));
}

} // verus!
