use retrieve_state::{
    ByteCounter, Digest, FetchAndStoreResult, SyncStateInner, TrieRaw, TriesAwaitingChildren,
    REPORT_INTERVAL_MILLIS,
};

fn digest(byte: u8) -> Digest {
    Digest { bytes: [byte; 32] }
}

fn digests(bytes: &[u8]) -> Vec<Digest> {
    bytes.iter().map(|byte| digest(*byte)).collect()
}

fn keys(digests: Vec<Digest>) -> Vec<u8> {
    let mut keys: Vec<u8> = digests.iter().map(|digest| digest.bytes[0]).collect();
    keys.sort();
    keys
}

fn missing(state: &mut SyncStateInner, key: u8, bytes: &[u8], children: &[u8]) {
    state.handle_missing_children(digest(key), TrieRaw::new(bytes.to_vec()), digests(children));
}

fn drain(state: &mut SyncStateInner) -> Vec<u8> {
    let mut jobs = Vec::new();
    while let Some(job) = state.next_job() {
        jobs.push(job.bytes[0]);
    }
    jobs
}

#[test]
fn digests_are_equal_byte_by_byte() {
    let mut other = digest(3);
    assert!(other == digest(3));
    other.bytes[31] = 4;
    assert!(other != digest(3));
    other = digest(3);
    other.bytes[0] = 4;
    assert!(other != digest(3));
}

#[test]
fn trie_raw_keeps_its_bytes() {
    assert_eq!(TrieRaw::new(vec![1, 2, 3]).into_inner(), vec![1, 2, 3]);
}

#[test]
fn missing_children_are_returned_as_given() {
    let mut tries = TriesAwaitingChildren::new();
    let children = tries.handle_missing_children(
        digest(1),
        TrieRaw::new(vec![9]),
        digests(&[3, 2, 3]),
    );
    assert_eq!(children, digests(&[3, 2, 3]));
    assert_eq!(tries.get(&digest(1)), Some(&vec![9]));
    assert_eq!(tries.get(&digest(2)), None);
    assert!(tries.tries_with_no_dependencies().is_empty());
    // One removal strikes off a child that was listed twice.
    tries.remove_dependency(&digest(3));
    assert!(tries.tries_with_no_dependencies().is_empty());
    tries.remove_dependency(&digest(2));
    assert_eq!(tries.tries_with_no_dependencies(), digests(&[1]));
}

#[test]
fn written_trie_frees_those_that_wait_for_it() {
    let mut tries = TriesAwaitingChildren::new();
    tries.handle_missing_children(digest(1), TrieRaw::new(vec![1]), digests(&[4]));
    tries.handle_missing_children(digest(2), TrieRaw::new(vec![2]), digests(&[4, 5]));
    tries.handle_missing_children(digest(3), TrieRaw::new(vec![3]), digests(&[5]));
    assert_eq!(keys(tries.handle_written(digest(4))), vec![1]);
    assert_eq!(keys(tries.handle_written(digest(5))), vec![1, 2, 3]);
    assert_eq!(keys(tries.handle_written(digest(2))), vec![1, 3]);
    assert_eq!(tries.get(&digest(2)), None);
    assert_eq!(tries.get(&digest(3)), Some(&vec![3]));
    // A trie that nothing waits for changes nothing.
    assert_eq!(keys(tries.handle_written(digest(77))), vec![1, 3]);
}

#[test]
fn waiting_trie_is_replaced() {
    let mut tries = TriesAwaitingChildren::new();
    tries.handle_missing_children(digest(1), TrieRaw::new(vec![1]), digests(&[4]));
    tries.handle_missing_children(digest(1), TrieRaw::new(vec![2]), digests(&[5]));
    assert_eq!(tries.get(&digest(1)), Some(&vec![2]));
    assert!(tries.handle_written(digest(4)).is_empty());
    assert_eq!(tries.handle_written(digest(5)), digests(&[1]));
}

#[test]
fn trie_without_missing_children_is_ready() {
    let mut tries = TriesAwaitingChildren::new();
    tries.handle_missing_children(digest(1), TrieRaw::new(vec![]), vec![]);
    assert_eq!(tries.tries_with_no_dependencies(), digests(&[1]));
    assert_eq!(tries.get(&digest(1)), Some(&vec![]));
}

#[test]
fn queue_is_last_in_first_out() {
    let mut state = SyncStateInner::new();
    assert_eq!(state.next_job(), None);
    state.push_job(digest(1));
    state.push_job(digest(2));
    state.push_job(digest(1));
    assert_eq!(drain(&mut state), vec![1, 2, 1]);
    assert_eq!(state.next_job(), None);
}

#[test]
fn missing_children_are_queued_behind_other_jobs() {
    let mut state = SyncStateInner::new();
    state.push_job(digest(9));
    missing(&mut state, 1, &[7, 7], &[2, 3]);
    assert_eq!(state.get_awaiting(&digest(1)), Some(vec![7, 7]));
    assert_eq!(state.get_awaiting(&digest(2)), None);
    assert_eq!(drain(&mut state), vec![3, 2, 9]);
    assert_eq!(state.get_awaiting(&digest(1)), Some(vec![7, 7]));
}

#[test]
fn written_children_queue_their_parent_again() {
    let mut state = SyncStateInner::new();
    missing(&mut state, 1, &[1], &[2, 3]);
    assert_eq!(drain(&mut state), vec![3, 2]);
    state.handle_written(digest(3));
    assert_eq!(drain(&mut state), Vec::<u8>::new());
    state.handle_written(digest(2));
    assert_eq!(drain(&mut state), vec![1]);
    state.handle_written(digest(1));
    assert_eq!(drain(&mut state), Vec::<u8>::new());
    assert_eq!(state.get_awaiting(&digest(1)), None);
}

#[test]
fn every_write_queues_all_that_is_ready() {
    let mut state = SyncStateInner::new();
    missing(&mut state, 1, &[1], &[2]);
    drain(&mut state);
    state.handle_written(digest(2));
    // The trie stays ready until it is written, and is queued anew.
    state.handle_written(digest(5));
    assert_eq!(drain(&mut state), vec![1, 1]);
}

#[test]
fn jobs_are_handed_out_as_often_as_they_are_queued() {
    let mut state = SyncStateInner::new();
    let mut handed_out: Vec<u8> = Vec::new();
    let mut take = |state: &mut SyncStateInner| {
        if let Some(job) = state.next_job() {
            handed_out.push(job.bytes[0]);
        }
    };
    state.push_job(digest(1));
    take(&mut state);
    take(&mut state);
    missing(&mut state, 1, &[10], &[2, 3, 2]);
    take(&mut state);
    state.push_job(digest(2));
    state.handle_written(digest(2));
    // The trie 1 waits for nothing any more, and is queued by each of these.
    state.handle_written(digest(3));
    state.handle_written(digest(4));
    take(&mut state);
    let mut all = drain(&mut state);
    all.extend(handed_out);
    all.sort();
    assert_eq!(all, vec![1, 1, 1, 2, 2, 2, 3]);
}

#[test]
fn results_are_recorded() {
    let mut state = SyncStateInner::new();
    let missing_children = FetchAndStoreResult::MissingChildren {
        trie_raw: TrieRaw::new(vec![4]),
        missing_children: digests(&[2]),
    };
    assert!(state.record_result(digest(1), missing_children));
    assert_eq!(state.get_awaiting(&digest(1)), Some(vec![4]));
    assert_eq!(drain(&mut state), vec![2]);
    assert!(!state.record_result(digest(2), FetchAndStoreResult::NoBytes));
    assert_eq!(drain(&mut state), vec![2]);
    assert!(state.record_result(digest(2), FetchAndStoreResult::Written(digest(2))));
    assert_eq!(drain(&mut state), vec![1]);
    assert!(state.record_result(digest(1), FetchAndStoreResult::Written(digest(1))));
    assert_eq!(state.get_awaiting(&digest(1)), None);
    assert_eq!(state.next_job(), None);
}

#[test]
fn bytes_are_counted_between_reports() {
    let mut counter = ByteCounter::new();
    assert_eq!(counter.take_report(999), None);
    counter.count(10);
    counter.count(32);
    assert_eq!(counter.take_report(0), None);
    assert_eq!(REPORT_INTERVAL_MILLIS, 1000);
    assert_eq!(counter.take_report(1000), Some(42));
    assert_eq!(counter.take_report(5000), Some(0));
    assert!(counter.has_room(usize::MAX));
    counter.count(1);
    assert!(!counter.has_room(usize::MAX));
    assert!(counter.has_room(usize::MAX - 1));
}
