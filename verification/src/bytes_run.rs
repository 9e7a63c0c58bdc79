//! Laws of a trie download that speak of the bytes of the tries.
//!
//! The key of a trie is a digest of its bytes. As long as the peers send the tries that they are
//! asked for, the store is offered no bytes but those of the trie that the job is for.
use crate::sync_state::FetchAndStoreResult;
use crate::types::Digest;
use crate::worker::{WorkerAction, WorkerEvent, WorkerState};
use crate::workers_run::{step_keeps_consistency, Download, Worker};
use vstd::prelude::*;

verus! {

/// Whether the event is not one by which a peer sends other bytes than those of the trie that it
/// was asked for. `key_of` gives the key of a trie by its bytes.
pub open spec fn is_honest<E>(
    key_of: spec_fn(Seq<u8>) -> Digest,
    worker: Worker<E>,
    event: WorkerEvent<E>,
) -> bool {
    match (worker.action, event) {
        (WorkerAction::GetTrie { params }, WorkerEvent::TrieReceived(Ok(Some(bytes)))) => key_of(
            bytes@,
        ) == params.trie_key,
        _ => true,
    }
}

/// Whether one worker makes one step, by which no peer is dishonest.
pub open spec fn moves_honestly<E>(
    key_of: spec_fn(Seq<u8>) -> Digest,
    before: Download<E>,
    after: Download<E>,
) -> bool {
    exists|worker: int, event: WorkerEvent<E>| #[trigger]
        before.steps(worker, event, after) && is_honest(key_of, before.workers[worker], event)
}

/// Whether `moments` are those of one download by `worker_count` workers, one step apart, from
/// peers that send the tries that they are asked for.
pub open spec fn is_honest_run<E>(
    key_of: spec_fn(Seq<u8>) -> Digest,
    root: Digest,
    worker_count: nat,
    moments: Seq<Download<E>>,
) -> bool {
    &&& moments.len() > 0
    &&& moments[0] == Download::<E>::start(root, worker_count)
    &&& forall|i: int|
        0 <= i < moments.len() - 1 ==> moves_honestly(
            key_of,
            #[trigger] moments[i],
            moments[i + 1],
        )
}

/// At every moment the bytes that are about to be offered to the store, those that a worker has
/// offered for its job or is about to record for it, and those that wait under a key, are of the
/// trie with that key.
pub proof fn bytes_are_of_their_trie<E>(
    key_of: spec_fn(Seq<u8>) -> Digest,
    root: Digest,
    worker_count: nat,
    moments: Seq<Download<E>>,
    i: int,
)
    requires
        is_honest_run(key_of, root, worker_count, moments),
        0 <= i < moments.len(),
    ensures
        moments[i].is_consistent(),
        forall|trie: Digest| #[trigger]
            moments[i].state.awaiting.contains_key(trie) ==> key_of(
                moments[i].state.awaiting[trie].trie_bytes,
            ) == trie,
        forall|w: int|
            0 <= w < moments[i].workers.len() ==> {
                let worker = #[trigger] moments[i].workers[w];
                &&& worker.state matches WorkerState::Storing { job, trie_bytes } ==> key_of(
                    trie_bytes@,
                ) == job
                &&& worker.action matches WorkerAction::StoreTrie { trie_bytes, .. } ==> (
                worker.state matches WorkerState::Storing { job, .. } && key_of(trie_bytes@) == job)
                &&& worker.action matches WorkerAction::Record {
                    job,
                    result: FetchAndStoreResult::MissingChildren { trie_raw, .. },
                } ==> key_of(trie_raw@) == job
            },
    decreases i,
{
    if i > 0 {
        bytes_are_of_their_trie(key_of, root, worker_count, moments, i - 1);
        let (before, after) = (moments[i - 1], moments[i]);
        assert(moves_honestly(key_of, moments[i - 1], moments[i - 1 + 1]));
        let (worker, event) = choose|worker: int, event: WorkerEvent<E>| #[trigger]
            before.steps(worker, event, after) && is_honest(key_of, before.workers[worker], event);
        assert(before.moves(after));
        step_keeps_consistency(before, after);
        assert(before.workers[worker].is_consistent());
        assert forall|w: int| 0 <= w < after.workers.len() && w != worker implies (
        #[trigger] after.workers[w]) == before.workers[w] by {}
        assert forall|trie: Digest| #[trigger] after.state.awaiting.contains_key(
            trie,
        ) implies key_of(after.state.awaiting[trie].trie_bytes) == trie by {
            match before.workers[worker].action {
                WorkerAction::Record {
                    job,
                    result: FetchAndStoreResult::MissingChildren { .. },
                } if job == trie => {},
                _ => {
                    assert(before.state.awaiting.contains_key(trie));
                },
            }
        }
    }
}

/// A worker offers to the store just the trie that its job is for, whether the trie was fetched or
/// had been waiting: a store that writes what it is offered under the key of its bytes writes it
/// under the key of the job.
pub proof fn store_is_offered_the_trie_of_the_job<E>(
    key_of: spec_fn(Seq<u8>) -> Digest,
    root: Digest,
    worker_count: nat,
    moments: Seq<Download<E>>,
    i: int,
    worker: int,
    trie_bytes: Vec<u8>,
    downloaded: usize,
)
    requires
        is_honest_run(key_of, root, worker_count, moments),
        0 <= i < moments.len(),
        0 <= worker < moments[i].workers.len(),
        moments[i].workers[worker].action == (WorkerAction::<E>::StoreTrie {
            trie_bytes,
            downloaded,
        }),
    ensures
        moments[i].workers[worker].state matches WorkerState::Storing { job, .. } && key_of(
            trie_bytes@,
        ) == job,
{
    bytes_are_of_their_trie(key_of, root, worker_count, moments, i);
}

} // verus!
