use retrieve_state::{
    address_to_url, check_peers_for_get_trie_endpoint, probe_params, sync_result, sync_trie_store,
    Digest, FetchAndStoreResult, GetTrieParams, StoreReply, SyncStateInner, TrieRaw, WorkerAction,
    WorkerError, WorkerEvent, WorkerState, PEER_TIMEOUT_SECS,
};

fn digest(byte: u8) -> Digest {
    Digest { bytes: [byte; 32] }
}

fn job(byte: u8) -> WorkerEvent<&'static str> {
    WorkerEvent::JobTaken {
        job: Some(digest(byte)),
        another_failed: false,
    }
}

/// A worker that has requested the trie of the job from its peer.
fn fetching(byte: u8) -> WorkerState {
    let (worker, action) = WorkerState::start::<&'static str>();
    assert!(matches!(action, WorkerAction::TakeJob));
    let (worker, action) = worker.step(job(byte));
    assert!(matches!(action, WorkerAction::LookUp { job } if job == digest(byte)));
    let (worker, action) = worker.step::<&'static str>(WorkerEvent::LookedUp(None));
    assert!(matches!(
        action,
        WorkerAction::GetTrie { params } if params == GetTrieParams { trie_key: digest(byte) }
    ));
    worker
}

/// A worker that has handed the bytes to the trie store.
fn storing(byte: u8, bytes: &[u8]) -> WorkerState {
    let (worker, action) =
        fetching(byte).step::<&'static str>(WorkerEvent::TrieReceived(Ok(Some(bytes.to_vec()))));
    match action {
        WorkerAction::StoreTrie {
            trie_bytes,
            downloaded,
        } => {
            assert_eq!(trie_bytes, bytes.to_vec());
            assert_eq!(downloaded, bytes.len());
        }
        _ => panic!("the trie is not stored"),
    }
    worker
}

/// Lets workers take turns on a tree of tries until all of them have stopped, and returns what the
/// store holds then, in the order in which it was written. The trie `n` has the children that
/// `children(n)` lists; the store takes a trie only if it holds those. The root is the trie 1, and
/// no trie is requested but the root, which comes first, and those that the store has named.
fn run_workers(
    mut state: SyncStateInner,
    worker_count: usize,
    mut stored: Vec<u8>,
    children: impl Fn(u8) -> Vec<u8>,
) -> Vec<u8> {
    let mut called_for: Vec<Digest> = vec![digest(1)];
    let mut workers = Vec::new();
    for _ in 0..worker_count {
        workers.push(WorkerState::start::<&'static str>());
    }
    while !workers.is_empty() {
        let (worker, action) = workers.remove(0);
        let event = match action {
            WorkerAction::TakeJob => WorkerEvent::JobTaken {
                job: state.next_job(),
                another_failed: false,
            },
            WorkerAction::LookUp { job } => WorkerEvent::LookedUp(state.get_awaiting(&job)),
            WorkerAction::GetTrie { params } => {
                assert!(called_for.contains(&params.trie_key));
                WorkerEvent::TrieReceived(Ok(Some(vec![params.trie_key.bytes[0]])))
            }
            WorkerAction::StoreTrie { trie_bytes, .. } => {
                let trie = trie_bytes[0];
                let missing: Vec<Digest> = children(trie)
                    .into_iter()
                    .filter(|child| !stored.contains(child))
                    .map(digest)
                    .collect();
                WorkerEvent::Stored(if missing.is_empty() {
                    if !stored.contains(&trie) {
                        stored.push(trie);
                    }
                    StoreReply::Written(digest(trie))
                } else {
                    called_for.extend(missing.iter().copied());
                    StoreReply::MissingChildren(missing)
                })
            }
            WorkerAction::Record { job, result } => WorkerEvent::Recorded {
                go_on: state.record_result(job, result),
            },
            WorkerAction::ReportError(_) => panic!("no error is expected"),
            WorkerAction::Stop => continue,
        };
        assert!(worker.accepts(&event));
        workers.push(worker.step(event));
    }
    assert_eq!(state.next_job(), None);
    stored
}

#[test]
fn worker_stops_on_empty_queue() {
    let (worker, _) = WorkerState::start::<&'static str>();
    let (worker, action) = worker.step::<&'static str>(WorkerEvent::JobTaken {
        job: None,
        another_failed: false,
    });
    assert!(matches!(action, WorkerAction::Stop));
    assert!(matches!(worker, WorkerState::Stopped));
    assert!(!worker.accepts(&job(1)));
}

#[test]
fn worker_stops_when_another_failed() {
    let (worker, _) = WorkerState::start::<&'static str>();
    let (worker, action) = worker.step::<&'static str>(WorkerEvent::JobTaken {
        job: Some(digest(1)),
        another_failed: true,
    });
    assert!(matches!(action, WorkerAction::Stop));
    assert!(matches!(worker, WorkerState::Stopped));
}

#[test]
fn waiting_trie_is_not_fetched_again() {
    let (worker, _) = WorkerState::start::<&'static str>();
    let (worker, _) = worker.step(job(1));
    let (worker, action) = worker.step::<&'static str>(WorkerEvent::LookedUp(Some(vec![8, 9])));
    assert!(matches!(
        action,
        WorkerAction::StoreTrie { trie_bytes, downloaded: 0 } if trie_bytes == vec![8, 9]
    ));
    let (_, action) = worker.step::<&'static str>(WorkerEvent::Stored(
        StoreReply::MissingChildren(vec![digest(5)]),
    ));
    match action {
        WorkerAction::Record {
            job,
            result:
                FetchAndStoreResult::MissingChildren {
                    trie_raw,
                    missing_children,
                },
        } => {
            assert_eq!(job, digest(1));
            assert_eq!(trie_raw, TrieRaw::new(vec![8, 9]));
            assert_eq!(missing_children, vec![digest(5)]);
        }
        _ => panic!("the missing children are not recorded"),
    }
}

#[test]
fn peer_without_bytes_ends_the_worker() {
    let (worker, action) = fetching(2).step::<&'static str>(WorkerEvent::TrieReceived(Ok(None)));
    assert!(matches!(
        action,
        WorkerAction::Record { job, result: FetchAndStoreResult::NoBytes } if job == digest(2)
    ));
    let (worker, action) = worker.step::<&'static str>(WorkerEvent::Recorded { go_on: false });
    assert!(matches!(action, WorkerAction::Stop));
    assert!(matches!(worker, WorkerState::Stopped));
}

#[test]
fn failed_request_is_reported() {
    let (worker, action) = fetching(2)
        .step::<&'static str>(WorkerEvent::TrieReceived(Err("Timeout { .. }".to_string())));
    assert!(matches!(
        action,
        WorkerAction::ReportError(WorkerError::GetTrie { message })
            if message == "error in get_trie Timeout { .. }"
    ));
    assert!(matches!(worker, WorkerState::Stopped));
}

#[test]
fn written_trie_is_recorded_and_the_worker_goes_on() {
    let (worker, action) = storing(3, &[1, 2, 3])
        .step::<&'static str>(WorkerEvent::Stored(StoreReply::Written(digest(3))));
    assert!(matches!(
        action,
        WorkerAction::Record { job, result: FetchAndStoreResult::Written(trie) }
            if job == digest(3) && trie == digest(3)
    ));
    let (worker, action) = worker.step::<&'static str>(WorkerEvent::Recorded { go_on: true });
    assert!(matches!(action, WorkerAction::TakeJob));
    assert!(worker.accepts(&job(4)));
}

#[test]
fn failed_store_is_reported() {
    let (worker, action) = storing(3, &[]).step(WorkerEvent::Stored(StoreReply::Failed("disk")));
    assert!(matches!(
        action,
        WorkerAction::ReportError(WorkerError::Store("disk"))
    ));
    assert!(matches!(worker, WorkerState::Stopped));
}

#[test]
fn worker_accepts_only_what_it_waits_for() {
    let worker = fetching(1);
    assert!(!worker.accepts(&job(1)));
    assert!(!worker.accepts::<&'static str>(&WorkerEvent::LookedUp(None)));
    assert!(!worker.accepts::<&'static str>(&WorkerEvent::Recorded { go_on: true }));
    assert!(worker.accepts::<&'static str>(&WorkerEvent::TrieReceived(Ok(None))));
}

#[test]
fn children_are_written_before_their_parents() {
    let start = sync_trie_store(digest(1), &[()], 1);
    // A tree in which 4 is a child of both 2 and 3.
    let children = |trie: u8| match trie {
        1 => vec![2, 3],
        2 => vec![4, 5],
        3 => vec![4],
        _ => vec![],
    };
    let written = run_workers(start.state, 1, vec![], children);
    assert_eq!(written.len(), 5);
    assert_eq!(written.last(), Some(&1));
    for (i, trie) in written.iter().enumerate() {
        for child in children(*trie) {
            assert!(written[..i].contains(&child));
        }
    }
}

#[test]
fn single_leaf_is_downloaded() {
    let start = sync_trie_store(digest(1), &["peer"], 3);
    assert_eq!(run_workers(start.state, 1, vec![], |_| vec![]), vec![1]);
}

#[test]
fn undisturbed_download_stores_the_whole_trie() {
    let children = |trie: u8| match trie {
        1 => vec![2, 3],
        2 => vec![4, 5],
        3 => vec![5, 6],
        5 => vec![7],
        6 => vec![8],
        _ => vec![],
    };
    for worker_count in 1..4 {
        for stored in [vec![], vec![7], vec![8, 6], vec![9]] {
            let start = sync_trie_store(digest(1), &[(), (), ()], worker_count);
            let after = run_workers(start.state, worker_count, stored.clone(), children);
            for trie in 1..9 {
                assert!(after.contains(&trie));
            }
            assert!(after.starts_with(&stored));
        }
    }
}

#[test]
fn workers_are_set_on_the_first_peers() {
    let peers = ["a", "b", "c"];
    assert_eq!(sync_trie_store(digest(1), &peers, 2).workers, vec!["a", "b"]);
    assert_eq!(sync_trie_store(digest(1), &peers, 3).workers, vec!["a", "b", "c"]);
    assert_eq!(sync_trie_store(digest(1), &peers, 9).workers, vec!["a", "b", "c"]);
    assert!(sync_trie_store(digest(1), &peers, 0).workers.is_empty());
    let none: [&str; 0] = [];
    let mut start = sync_trie_store(digest(7), &none, 4);
    assert!(start.workers.is_empty());
    assert_eq!(start.state.next_job(), Some(digest(7)));
    assert_eq!(start.state.next_job(), None);
}

#[test]
fn first_error_is_the_result() {
    assert_eq!(sync_result(Some("error")), Err("error"));
    assert_eq!(sync_result::<&str>(None), Ok(()));
}

#[test]
fn peers_are_picked_by_their_replies() {
    let peers = [10, 20, 30, 40];
    let replies: Vec<Result<Result<u8, &str>, ()>> =
        vec![Ok(Ok(1)), Ok(Err("refused")), Err(()), Ok(Ok(0))];
    assert_eq!(
        check_peers_for_get_trie_endpoint(&peers, &replies),
        vec![10, 40]
    );
    let none: [u8; 0] = [];
    let no_replies: Vec<Result<Result<(), ()>, ()>> = vec![];
    assert!(check_peers_for_get_trie_endpoint(&none, &no_replies).is_empty());
}

#[test]
fn peers_are_asked_for_the_state_root() {
    assert_eq!(
        probe_params(digest(6)),
        GetTrieParams {
            trie_key: digest(6)
        }
    );
    assert_eq!(PEER_TIMEOUT_SECS, 1);
}

#[test]
fn url_holds_address_and_port() {
    assert_eq!(address_to_url("127.0.0.1", 7777), "http://127.0.0.1:7777/rpc");
    assert_eq!(address_to_url("10.0.0.1", 0), "http://10.0.0.1:0/rpc");
    assert_eq!(address_to_url("10.0.0.1", 10), "http://10.0.0.1:10/rpc");
    assert_eq!(address_to_url("::1", 65535), "http://::1:65535/rpc");
    assert_eq!(address_to_url("10.0.0.1", 9086), "http://10.0.0.1:9086/rpc");
}
