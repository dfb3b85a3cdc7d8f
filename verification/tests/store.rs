use job_broker::store::{JobState, JobStore};

#[test]
fn new_store_is_empty() {
    let mut store = JobStore::new();
    assert_eq!(store.last_id(), 0);
    assert!(!store.contains(1));
    assert_eq!(store.state_of(1), None);
    assert_eq!(store.reserve(), None);
    assert!(store.has_capacity());
}

#[test]
fn ids_start_at_one_and_increase() {
    let mut store = JobStore::new();
    let mut last = 0u64;
    for round in 0..50u32 {
        let id = store.submit(round % 7, 0, 0, vec![round as u8]);
        assert!(id > last);
        assert_eq!(id, last + 1);
        assert_eq!(store.last_id(), id);
        last = id;
    }
    assert_eq!(last, 50);
}

#[test]
fn ids_are_not_reused_after_delete() {
    let mut store = JobStore::new();
    let a = store.submit(1, 0, 0, vec![1]);
    let b = store.submit(1, 0, 0, vec![2]);
    assert!(store.delete(a));
    assert!(store.delete(b));
    let c = store.submit(1, 0, 0, vec![3]);
    assert_eq!((a, b, c), (1, 2, 3));
    assert!(!store.contains(a));
    assert!(store.contains(c));
}

#[test]
fn submit_stores_a_ready_job() {
    let mut store = JobStore::new();
    let id = store.submit(9, 2, 3, b"payload".to_vec());
    assert!(store.contains(id));
    assert_eq!(store.state_of(id), Some(JobState::Ready));
}

#[test]
fn reserve_follows_priority_order() {
    let mut store = JobStore::new();
    let first = store.submit(5, 0, 0, b"five".to_vec());
    let second = store.submit(1, 0, 0, b"one".to_vec());
    let third = store.submit(3, 0, 0, b"three".to_vec());
    assert_eq!(store.reserve(), Some((second, b"one".to_vec())));
    assert_eq!(store.reserve(), Some((third, b"three".to_vec())));
    assert_eq!(store.reserve(), Some((first, b"five".to_vec())));
    assert_eq!(store.reserve(), None);
}

#[test]
fn reserve_breaks_ties_by_id() {
    let mut store = JobStore::new();
    let a = store.submit(4, 0, 0, b"a".to_vec());
    let b = store.submit(4, 0, 0, b"b".to_vec());
    let c = store.submit(4, 0, 0, b"c".to_vec());
    assert_eq!(store.reserve(), Some((a, b"a".to_vec())));
    assert_eq!(store.reserve(), Some((b, b"b".to_vec())));
    assert_eq!(store.reserve(), Some((c, b"c".to_vec())));
}

#[test]
fn reserve_breaks_ties_by_id_among_many() {
    let mut store = JobStore::new();
    for _ in 0..200 {
        store.submit(7, 0, 0, Vec::new());
    }
    for expected in 1..=200u64 {
        let (id, payload) = store.reserve().unwrap();
        assert_eq!(id, expected);
        assert!(payload.is_empty());
    }
    assert_eq!(store.reserve(), None);
}

#[test]
fn reserve_marks_the_job_reserved() {
    let mut store = JobStore::new();
    let id = store.submit(1, 0, 0, b"x".to_vec());
    assert_eq!(store.reserve(), Some((id, b"x".to_vec())));
    assert_eq!(store.state_of(id), Some(JobState::Reserved));
    assert!(store.contains(id));
}

#[test]
fn reserve_never_hands_out_a_job_twice() {
    let mut store = JobStore::new();
    for n in 0..20u8 {
        store.submit((n % 3) as u32, 0, 0, vec![n]);
    }
    let mut seen: Vec<u64> = Vec::new();
    while let Some((id, _)) = store.reserve() {
        assert!(!seen.contains(&id));
        seen.push(id);
    }
    assert_eq!(seen.len(), 20);
}

#[test]
fn reserve_on_empty_store_is_none() {
    let mut store = JobStore::new();
    assert_eq!(store.reserve(), None);
    assert_eq!(store.last_id(), 0);
}

#[test]
fn reserve_is_none_when_all_jobs_are_reserved() {
    let mut store = JobStore::new();
    store.submit(1, 0, 0, Vec::new());
    assert!(store.reserve().is_some());
    assert_eq!(store.reserve(), None);
}

#[test]
fn release_round_trip_returns_the_same_job() {
    let mut store = JobStore::new();
    let id = store.submit(2, 0, 0, b"again".to_vec());
    assert_eq!(store.reserve(), Some((id, b"again".to_vec())));
    assert!(store.release(id));
    assert_eq!(store.state_of(id), Some(JobState::Ready));
    assert_eq!(store.reserve(), Some((id, b"again".to_vec())));
}

#[test]
fn release_of_a_ready_job_is_refused() {
    let mut store = JobStore::new();
    let id = store.submit(2, 0, 0, Vec::new());
    assert!(!store.release(id));
    assert_eq!(store.state_of(id), Some(JobState::Ready));
}

#[test]
fn release_of_an_absent_job_is_refused() {
    let mut store = JobStore::new();
    assert!(!store.release(1));
    assert!(!store.contains(1));
    assert_eq!(store.last_id(), 0);
}

#[test]
fn release_twice_applies_once() {
    let mut store = JobStore::new();
    let id = store.submit(2, 0, 0, Vec::new());
    store.reserve();
    assert!(store.release(id));
    assert!(!store.release(id));
}

#[test]
fn released_job_keeps_its_place_in_the_order() {
    let mut store = JobStore::new();
    let low = store.submit(1, 0, 0, b"low".to_vec());
    let high = store.submit(9, 0, 0, b"high".to_vec());
    assert_eq!(store.reserve().unwrap().0, low);
    assert!(store.release(low));
    assert_eq!(store.reserve().unwrap().0, low);
    assert_eq!(store.reserve().unwrap().0, high);
}

#[test]
fn delete_without_reserving_removes_the_job() {
    let mut store = JobStore::new();
    let id = store.submit(1, 0, 0, b"P".to_vec());
    assert!(store.delete(id));
    assert!(!store.contains(id));
    assert_eq!(store.reserve(), None);
}

#[test]
fn delete_of_a_reserved_job_is_permitted() {
    let mut store = JobStore::new();
    let id = store.submit(1, 0, 0, b"P".to_vec());
    assert!(store.reserve().is_some());
    assert!(store.delete(id));
    assert_eq!(store.state_of(id), None);
    assert!(!store.release(id));
    assert_eq!(store.reserve(), None);
}

#[test]
fn delete_on_empty_store_is_not_found() {
    let mut store = JobStore::new();
    assert!(!store.delete(999));
    assert_eq!(store.last_id(), 0);
    assert!(!store.contains(999));
    assert_eq!(store.reserve(), None);
    assert_eq!(store.submit(1, 0, 0, Vec::new()), 1);
}

#[test]
fn delete_of_an_absent_job_leaves_the_others() {
    let mut store = JobStore::new();
    let a = store.submit(3, 0, 0, b"a".to_vec());
    let b = store.submit(2, 0, 0, b"b".to_vec());
    store.reserve();
    assert!(!store.delete(999));
    assert_eq!(store.state_of(a), Some(JobState::Ready));
    assert_eq!(store.state_of(b), Some(JobState::Reserved));
    assert_eq!(store.last_id(), 2);
}

#[test]
fn delete_twice_finds_the_job_once() {
    let mut store = JobStore::new();
    let id = store.submit(1, 0, 0, Vec::new());
    assert!(store.delete(id));
    assert!(!store.delete(id));
}

#[test]
fn deleted_job_is_skipped_by_reserve() {
    let mut store = JobStore::new();
    let a = store.submit(1, 0, 0, b"a".to_vec());
    let b = store.submit(2, 0, 0, b"b".to_vec());
    assert!(store.delete(a));
    assert_eq!(store.reserve(), Some((b, b"b".to_vec())));
    assert_eq!(store.reserve(), None);
}

#[test]
fn payload_is_handed_out_unchanged() {
    let mut store = JobStore::new();
    let payload: Vec<u8> = (0..=255u8).collect();
    let id = store.submit(0, 0, 0, payload.clone());
    assert_eq!(store.reserve(), Some((id, payload)));
}

#[test]
fn get_returns_the_record_as_submitted() {
    let mut store = JobStore::new();
    store.submit(1, 1, 1, b"first".to_vec());
    let id = store.submit(10, 20, 30, b"second".to_vec());
    let job = store.get(id).unwrap();
    assert_eq!(job.id, 2);
    assert_eq!(job.priority, 10);
    assert_eq!(job.delay, 20);
    assert_eq!(job.ttr, 30);
    assert_eq!(job.payload, b"second".to_vec());
    assert_eq!(job.state, JobState::Ready);
    assert!(store.get(3).is_none());
    assert!(store.get(0).is_none());
}

#[test]
fn get_shows_the_state_after_each_transition() {
    let mut store = JobStore::new();
    let id = store.submit(4, 5, 6, b"w".to_vec());
    store.reserve();
    assert_eq!(store.get(id).unwrap().state, JobState::Reserved);
    assert_eq!(store.get(id).unwrap().payload, b"w".to_vec());
    assert_eq!(store.get(id).unwrap().priority, 4);
    store.release(id);
    assert_eq!(store.get(id).unwrap().state, JobState::Ready);
    store.delete(id);
    assert!(store.get(id).is_none());
}

#[test]
fn len_counts_live_jobs() {
    let mut store = JobStore::new();
    assert_eq!(store.len(), 0);
    let a = store.submit(1, 0, 0, Vec::new());
    store.submit(1, 0, 0, Vec::new());
    assert_eq!(store.len(), 2);
    store.reserve();
    assert_eq!(store.len(), 2);
    store.delete(a);
    assert_eq!(store.len(), 1);
    store.delete(a);
    assert_eq!(store.len(), 1);
}
