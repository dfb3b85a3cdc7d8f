//! Laws of the job table, proved over [`StoreView`] and so true of every
//! history of operations that starts from a well-formed store.
use crate::store::{served_before, JobState, JobView, StoreOp, StoreView};
use vstd::prelude::*;

verus! {

/// Every operation keeps the table well formed.
pub proof fn lemma_step_preserves_wf(s: StoreView, op: StoreOp)
    requires
        s.wf(),
    ensures
        s.step(op).wf(),
{
    let t = s.step(op);
    assert forall|id: nat| #[trigger] t.jobs.contains_key(id) implies 1 <= id <= t.next_id
        && t.jobs[id].id == id by {
        if s.jobs.contains_key(id) {
        }
        match op {
            StoreOp::Reserve => {
                if let Some(picked) = s.next_ready() {
                    assert(s.is_first_ready(picked));
                    assert(s.jobs.contains_key(picked));
                }
            },
            StoreOp::Release { id: released } => {
                if s.is_reserved(released) {
                    assert(s.jobs.contains_key(released));
                }
            },
            _ => {},
        }
    }
}

/// Every history keeps the table well formed.
pub proof fn lemma_run_preserves_wf(s: StoreView, ops: Seq<StoreOp>)
    requires
        s.wf(),
    ensures
        s.run(ops).wf(),
    decreases ops.len(),
{
    if ops.len() > 0 {
        lemma_run_preserves_wf(s, ops.drop_last());
        lemma_step_preserves_wf(s.run(ops.drop_last()), ops.last());
    }
}

/// The id counter never goes back: after a longer prefix of a history it is at
/// least what it was after a shorter one.
pub proof fn lemma_counter_never_decreases(s: StoreView, ops: Seq<StoreOp>, i: int, j: int)
    requires
        0 <= i <= j <= ops.len(),
    ensures
        s.run(ops.take(i)).next_id <= s.run(ops.take(j)).next_id,
    decreases j - i,
{
    if i < j {
        lemma_counter_never_decreases(s, ops, i, j - 1);
        assert(ops.take(j).drop_last() =~= ops.take(j - 1));
    }
}

/// Ids are unique and strictly increasing: of two submissions in one history,
/// the later one receives the larger id, whatever happens in between.
pub proof fn lemma_ids_strictly_increase(s: StoreView, ops: Seq<StoreOp>, i: int, j: int)
    requires
        0 <= i < j < ops.len(),
        ops[i] is Submit,
        ops[j] is Submit,
    ensures
        s.run(ops.take(i)).fresh_id() < s.run(ops.take(j)).fresh_id(),
{
    assert(ops.take(i + 1).drop_last() =~= ops.take(i));
    assert(ops.take(i + 1).last() == ops[i]);
    lemma_counter_never_decreases(s, ops, i + 1, j);
}

/// The id of a new job is not the id of any job in the table.
pub proof fn lemma_fresh_id_is_unused(s: StoreView)
    requires
        s.wf(),
    ensures
        !s.jobs.contains_key(s.fresh_id()),
{
}

/// A job that is neither `Ready` nor still to be submitted stays out of reach
/// of `reserve` for as long as nobody releases it.
pub proof fn lemma_unready_stays_unready(s: StoreView, id: nat, ops: Seq<StoreOp>)
    requires
        s.wf(),
        id <= s.next_id,
        !s.is_ready(id),
        forall|k: int| 0 <= k < ops.len() ==> ops[k] != (StoreOp::Release { id }),
    ensures
        id <= s.run(ops).next_id,
        !s.run(ops).is_ready(id),
    decreases ops.len(),
{
    if ops.len() > 0 {
        let before = s.run(ops.drop_last());
        lemma_unready_stays_unready(s, id, ops.drop_last());
        lemma_run_preserves_wf(s, ops.drop_last());
        match ops.last() {
            StoreOp::Reserve => {
                if let Some(picked) = before.next_ready() {
                    assert(before.is_first_ready(picked));
                }
            },
            StoreOp::Release { id: released } => {
                assert(ops[ops.len() - 1] != (StoreOp::Release { id }));
                assert(released != id);
            },
            _ => {},
        }
    }
}

/// Reservation is exclusive: once `reserve` has handed a job out, no later
/// `reserve` hands out the same job unless a `release` of it came in between.
pub proof fn lemma_reservation_exclusive(s: StoreView, ops: Seq<StoreOp>, i: int, j: int)
    requires
        s.wf(),
        0 <= i < j < ops.len(),
        ops[i] is Reserve,
        ops[j] is Reserve,
        s.run(ops.take(i)).next_ready() is Some,
        forall|k: int|
            i < k < j ==> ops[k] != (StoreOp::Release {
                id: s.run(ops.take(i)).next_ready().unwrap(),
            }),
    ensures
        s.run(ops.take(j)).next_ready() != s.run(ops.take(i)).next_ready(),
{
    let before = s.run(ops.take(i));
    let id = before.next_ready().unwrap();
    let after = s.run(ops.take(i + 1));
    lemma_run_preserves_wf(s, ops.take(i));
    lemma_run_preserves_wf(s, ops.take(i + 1));
    assert(ops.take(i + 1).drop_last() =~= ops.take(i));
    assert(ops.take(i + 1).last() == ops[i]);
    assert(before.is_first_ready(id));
    assert(before.jobs.contains_key(id));
    assert(after == before.with_state(id, JobState::Reserved));
    let between = ops.subrange(i + 1, j);
    lemma_run_append(s, ops.take(i + 1), between);
    assert(ops.take(i + 1) + between =~= ops.take(j));
    lemma_unready_stays_unready(after, id, between);
    let at_j = s.run(ops.take(j));
    if let Some(again) = at_j.next_ready() {
        assert(at_j.is_first_ready(again));
    }
}

/// Running one history after another is running their concatenation.
pub proof fn lemma_run_append(s: StoreView, first: Seq<StoreOp>, second: Seq<StoreOp>)
    ensures
        s.run(first + second) == s.run(first).run(second),
    decreases second.len(),
{
    if second.len() == 0 {
        assert(first + second =~= first);
    } else {
        lemma_run_append(s, first, second.drop_last());
        assert((first + second).drop_last() =~= first + second.drop_last());
        assert((first + second).last() == second.last());
    }
}

/// Release undoes reserve: releasing the job that `reserve` just handed out
/// gives back the store as it was, so the next `reserve` hands out the same
/// job again.
pub proof fn lemma_release_undoes_reserve(s: StoreView, id: nat)
    requires
        s.wf(),
        s.next_ready() == Some(id),
    ensures
        s.reserve().is_reserved(id),
        s.reserve().release(id) == s,
        s.reserve().release(id).next_ready() == Some(id),
{
    assert(s.is_first_ready(id));
    let back = s.reserve().release(id);
    assert(back.jobs =~= s.jobs);
}

/// A job submitted to a store in which nothing is `Ready` is the one that
/// `reserve` hands out.
pub proof fn lemma_lone_submission_is_next(
    s: StoreView,
    priority: u32,
    delay: u32,
    ttr: u32,
    payload: Seq<u8>,
)
    requires
        s.wf(),
        !s.has_ready(),
    ensures
        s.submit(priority, delay, ttr, payload).next_ready() == Some(s.fresh_id()),
{
    let t = s.submit(priority, delay, ttr, payload);
    let id = s.fresh_id();
    lemma_step_preserves_wf(s, StoreOp::Submit { priority, delay, ttr, payload });
    assert(t.is_ready(id));
    assert forall|other: nat| #[trigger] t.is_ready(other) implies served_before(
        t.jobs[id],
        t.jobs[other],
    ) by {
        if other != id {
            assert(s.is_ready(other));
        }
    }
    crate::store::lemma_first_ready_is_next(t, id);
}

/// Jobs leave in order: of two jobs that consecutive calls of `reserve` hand
/// out, the first has the lower priority value, or the same and the lower id.
pub proof fn lemma_reserve_order(s: StoreView, first: nat, second: nat)
    requires
        s.wf(),
        s.next_ready() == Some(first),
        s.reserve().next_ready() == Some(second),
    ensures
        first != second,
        s.is_ready(second),
        served_before(s.jobs[first], s.jobs[second]),
{
    assert(s.is_first_ready(first));
    assert(s.reserve().is_first_ready(second));
    assert(s.reserve().is_ready(second));
    assert(s.is_ready(second));
}

/// Not finding a job is no change: deleting a job that is not in the table,
/// or releasing one that is not `Reserved`, leaves the store as it is.
pub proof fn lemma_not_found_changes_nothing(s: StoreView, id: nat)
    ensures
        !s.jobs.contains_key(id) ==> s.delete(id) == s && s.release(id) == s,
        !s.is_reserved(id) ==> s.release(id) == s,
{
}

/// Delete is final: a job that was deleted, whatever its state was, is never
/// handed out by a later `reserve`, and no later submission brings its id back.
pub proof fn lemma_deleted_is_never_reserved(s: StoreView, id: nat, ops: Seq<StoreOp>)
    requires
        s.wf(),
        s.jobs.contains_key(id),
    ensures
        !s.delete(id).run(ops).jobs.contains_key(id),
        s.delete(id).run(ops).next_ready() != Some(id),
    decreases ops.len(),
{
    lemma_absent_stays_absent(s.delete(id), id, ops);
    let end = s.delete(id).run(ops);
    if let Some(picked) = end.next_ready() {
        assert(end.is_first_ready(picked));
    }
}

/// An id that was handed out and is no longer in the table never comes back.
pub proof fn lemma_absent_stays_absent(s: StoreView, id: nat, ops: Seq<StoreOp>)
    requires
        id <= s.next_id,
        !s.jobs.contains_key(id),
    ensures
        id <= s.run(ops).next_id,
        !s.run(ops).jobs.contains_key(id),
    decreases ops.len(),
{
    if ops.len() > 0 {
        let before = s.run(ops.drop_last());
        lemma_absent_stays_absent(s, id, ops.drop_last());
        match ops.last() {
            StoreOp::Reserve => {
                if let Some(picked) = before.next_ready() {
                    assert(before.is_first_ready(picked));
                }
            },
            _ => {},
        }
    }
}

/// The life of a job, step by step. A job comes into being `Ready`, by the
/// submission that gets its id. `reserve` takes a `Ready` job to `Reserved`,
/// and only the one that is served first; `release` takes a `Reserved` job
/// back to `Ready`; `delete` removes a job from any state. Nothing else
/// changes a job's state: a `Buried` job stays `Buried` until it is deleted,
/// and a removed job stays removed.
pub proof fn lemma_job_lifecycle(s: StoreView, op: StoreOp, id: nat)
    requires
        s.wf(),
    ensures
        ({
            let t = s.step(op);
            if !s.jobs.contains_key(id) {
                if t.jobs.contains_key(id) {
                    op is Submit && id == s.fresh_id() && t.jobs[id].state == JobState::Ready
                } else {
                    true
                }
            } else if !t.jobs.contains_key(id) {
                op == (StoreOp::Delete { id })
            } else {
                match (s.jobs[id].state, t.jobs[id].state) {
                    (JobState::Ready, JobState::Ready) => true,
                    (JobState::Ready, JobState::Reserved) => op is Reserve && s.next_ready() == Some(
                        id,
                    ),
                    (JobState::Reserved, JobState::Reserved) => true,
                    (JobState::Reserved, JobState::Ready) => op == (StoreOp::Release { id }),
                    (JobState::Buried, JobState::Buried) => true,
                    _ => false,
                }
            }
        }),
{
    if let Some(picked) = s.next_ready() {
        assert(s.is_first_ready(picked));
    }
}

/// What a job carries does not change while the job lives: whatever happens
/// to the store, a job that is still there has the id, priority, delay, time
/// to run and payload that it was submitted with.
pub proof fn lemma_job_content_is_kept(s: StoreView, ops: Seq<StoreOp>, id: nat)
    requires
        s.wf(),
        s.jobs.contains_key(id),
        s.run(ops).jobs.contains_key(id),
    ensures
        s.run(ops).jobs[id] == (JobView { state: s.run(ops).jobs[id].state, ..s.jobs[id] }),
    decreases ops.len(),
{
    if ops.len() > 0 {
        let before = s.run(ops.drop_last());
        lemma_run_preserves_wf(s, ops.drop_last());
        assert(s.jobs.contains_key(id) ==> id <= s.next_id);
        if before.jobs.contains_key(id) {
            lemma_job_content_is_kept(s, ops.drop_last(), id);
            if let Some(picked) = before.next_ready() {
                assert(before.is_first_ready(picked));
            }
        } else {
            let earlier = ops.drop_last();
            lemma_counter_never_decreases(s, earlier, 0, earlier.len() as int);
            assert(earlier.take(0) =~= Seq::<StoreOp>::empty());
            assert(earlier.take(earlier.len() as int) =~= earlier);
            assert(id <= before.next_id);
            let last = seq![ops.last()];
            assert(last.drop_last() =~= Seq::<StoreOp>::empty());
            lemma_absent_stays_absent(before, id, last);
        }
    }
}

/// Among the `Ready` jobs with an id up to `bound`, one is served before all
/// the others.
proof fn lemma_first_ready_up_to(s: StoreView, bound: nat) -> (first: nat)
    requires
        s.wf(),
        exists|id: nat| id <= bound && s.is_ready(id),
    ensures
        first <= bound,
        s.is_ready(first),
        forall|other: nat|
            other <= bound && #[trigger] s.is_ready(other) ==> served_before(
                s.jobs[first],
                s.jobs[other],
            ),
    decreases bound,
{
    if exists|id: nat| id < bound && s.is_ready(id) {
        let witness = choose|id: nat| id < bound && s.is_ready(id);
        assert(witness <= (bound - 1) as nat && s.is_ready(witness));
        let below = lemma_first_ready_up_to(s, (bound - 1) as nat);
        assert(s.jobs.contains_key(below));
        if s.is_ready(bound) && !served_before(s.jobs[below], s.jobs[bound]) {
            assert(s.jobs.contains_key(bound));
            assert forall|other: nat| other <= bound && #[trigger] s.is_ready(other) implies served_before(
                s.jobs[bound],
                s.jobs[other],
            ) by {
                assert(s.jobs.contains_key(other));
                if other < bound {
                    assert(served_before(s.jobs[below], s.jobs[other]));
                }
            }
            bound
        } else {
            below
        }
    } else {
        let witness = choose|id: nat| id <= bound && s.is_ready(id);
        assert(witness == bound);
        assert(s.jobs.contains_key(bound));
        bound
    }
}

/// `reserve` finds a job whenever one is `Ready`: it comes back empty-handed
/// exactly when no job is `Ready`.
pub proof fn lemma_next_ready_exists(s: StoreView)
    requires
        s.wf(),
    ensures
        s.next_ready() is Some <==> s.has_ready(),
{
    if s.has_ready() {
        let witness = choose|id: nat| s.is_ready(id);
        assert(s.jobs.contains_key(witness));
        let first = lemma_first_ready_up_to(s, s.next_id);
        assert forall|other: nat| #[trigger] s.is_ready(other) implies served_before(
            s.jobs[first],
            s.jobs[other],
        ) by {
            assert(s.jobs.contains_key(other));
        }
        assert(s.is_first_ready(first));
    } else {
        if let Some(picked) = s.next_ready() {
            assert(s.is_first_ready(picked));
            assert(s.is_ready(picked));
        }
    }
}

} // verus!
