//! Laws of the workers of a trie download, taken together with the state that they share.
//!
//! A [`Download`] is a trie download at one moment, down to what each worker is about to do. Seen
//! from afar it is a [`SyncRun`], in which a worker merely has a job in hand.
use crate::sync_run::{
    download_at_rest_is_complete, is_download, ranks_children_below, SyncRun,
};
use crate::sync_state::{FetchAndStoreResult, SyncStateView};
use crate::types::Digest;
use crate::worker::{
    worker_transition, StoreReply, WorkerAction, WorkerError, WorkerEvent, WorkerState,
};
use vstd::prelude::*;

verus! {

/// A worker that is about to do `action`, and then waits for what answers it.
pub struct Worker<E> {
    pub state: WorkerState,
    pub action: WorkerAction<E>,
}

impl<E> Worker<E> {
    /// A worker at the start.
    pub open spec fn start() -> Worker<E> {
        Worker { state: WorkerState::Idle, action: WorkerAction::TakeJob }
    }

    /// The job that the worker has taken and whose outcome is not recorded yet.
    pub open spec fn in_hand(self) -> Option<Digest> {
        match self.action {
            WorkerAction::Record { job, .. } => Some(job),
            _ => self.state.job(),
        }
    }

    /// Whether the worker has run into an error.
    pub open spec fn has_failed(self) -> bool {
        self.action is ReportError
    }

    /// Whether what the worker is about to do is what it waits for the answer to.
    pub open spec fn is_consistent(self) -> bool {
        match self.action {
            WorkerAction::TakeJob => self.state is Idle,
            WorkerAction::LookUp { job } => self.state == (WorkerState::LookingUp { job }),
            WorkerAction::GetTrie { params } => self.state == (WorkerState::Fetching {
                job: params.trie_key,
            }),
            WorkerAction::StoreTrie { .. } => self.state is Storing,
            WorkerAction::Record { .. } => self.state is Recording,
            WorkerAction::ReportError(_) => self.state is Stopped,
            WorkerAction::Stop => self.state is Stopped,
        }
    }
}

/// A trie download at one moment.
pub struct Download<E> {
    /// The trie whose download was asked for.
    pub root: Digest,
    /// What the workers share.
    pub state: SyncStateView,
    pub workers: Seq<Worker<E>>,
    /// The tries that have been written.
    pub written: Set<Digest>,
    /// The children that were missing when the trie under a key was last offered to the store.
    pub missing: Map<Digest, Set<Digest>>,
}

impl<E> Download<E> {
    /// A download of the trie `root` before any of the workers has taken a job.
    pub open spec fn start(root: Digest, worker_count: nat) -> Download<E> {
        Download {
            root,
            state: SyncStateView::empty().with_job(root),
            workers: Seq::new(worker_count, |worker: int| Worker::start()),
            written: Set::empty(),
            missing: Map::empty(),
        }
    }

    /// Whether some worker has run into an error.
    pub open spec fn has_failed(self) -> bool {
        exists|worker: int|
            0 <= worker < self.workers.len() && (#[trigger] self.workers[worker]).has_failed()
    }

    /// Whether every worker has stopped.
    pub open spec fn has_ended(self) -> bool {
        forall|worker: int|
            0 <= worker < self.workers.len() ==> (#[trigger] self.workers[worker]).state is Stopped
    }

    /// Whether doing what the worker is about to do can bring about the event, and change the
    /// shared state to `state`.
    /// The peer may reply anything; a store that writes a trie writes the one that was asked for,
    /// and one that does not names some missing child.
    pub open spec fn brings_about(
        self,
        worker: Worker<E>,
        event: WorkerEvent<E>,
        state: SyncStateView,
    ) -> bool {
        match (worker.action, event) {
            (WorkerAction::TakeJob, WorkerEvent::JobTaken { job, another_failed }) => {
                &&& job == self.state.upcoming_job()
                &&& another_failed ==> self.has_failed()
                &&& state == self.state.without_next_job()
            },
            (WorkerAction::LookUp { job }, WorkerEvent::LookedUp(waiting)) => {
                &&& match waiting {
                    Some(bytes) => self.state.awaiting.contains_key(job) && bytes@
                        == self.state.awaiting[job].trie_bytes,
                    None => !self.state.awaiting.contains_key(job),
                }
                &&& state == self.state
            },
            (WorkerAction::GetTrie { .. }, WorkerEvent::TrieReceived(_)) => state == self.state,
            (WorkerAction::StoreTrie { .. }, WorkerEvent::Stored(reply)) => {
                &&& reply matches StoreReply::Written(written_trie) ==> worker.in_hand() == Some(
                    written_trie,
                )
                &&& reply matches StoreReply::MissingChildren(missing_children)
                    ==> missing_children@.len() > 0
                &&& state == self.state
            },
            (WorkerAction::Record { job, result }, WorkerEvent::Recorded { go_on }) => {
                &&& self.state.job_recorded(job, result, state)
                &&& go_on == !(result is NoBytes)
            },
            _ => false,
        }
    }

    /// Whether the worker does what it is about to do, and decides what it does next.
    pub open spec fn steps(self, worker: int, event: WorkerEvent<E>, after: Download<E>) -> bool {
        let before_worker = self.workers[worker];
        let after_worker = after.workers[worker];
        &&& 0 <= worker < self.workers.len()
        &&& self.brings_about(before_worker, event, after.state)
        &&& worker_transition(before_worker.state, event, after_worker.state, after_worker.action)
        &&& after.workers == self.workers.update(worker, after_worker)
        &&& after.root == self.root
        &&& after.written == match before_worker.action {
            WorkerAction::Record { result: FetchAndStoreResult::Written(written_trie), .. } =>
                self.written.insert(written_trie),
            _ => self.written,
        }
        &&& after.missing == match before_worker.action {
            WorkerAction::Record {
                job,
                result: FetchAndStoreResult::MissingChildren { missing_children, .. },
            } => self.missing.insert(job, missing_children@.to_set()),
            _ => self.missing,
        }
    }

    /// Whether one worker makes one step.
    pub open spec fn moves(self, after: Download<E>) -> bool {
        exists|worker: int, event: WorkerEvent<E>| #[trigger] self.steps(worker, event, after)
    }

    /// The download seen from afar.
    pub open spec fn abstraction(self) -> SyncRun {
        SyncRun {
            root: self.root,
            state: self.state,
            in_hand: Map::new(
                |worker: nat|
                    worker < self.workers.len() && self.workers[worker as int].in_hand() is Some,
                |worker: nat| self.workers[worker as int].in_hand()->0,
            ),
            written: self.written,
            missing: self.missing,
        }
    }

    /// Whether what each worker is about to do fits its state, and what it is about to record is
    /// faithful.
    pub open spec fn is_consistent(self) -> bool {
        forall|worker: int|
            0 <= worker < self.workers.len() ==> {
                &&& (#[trigger] self.workers[worker]).is_consistent()
                &&& self.workers[worker].action matches WorkerAction::Record { job, result }
                    ==> SyncRun::is_faithful(job, result)
            }
    }
}

/// Whether `moments` are those of one download by `worker_count` workers, one step apart.
pub open spec fn is_run<E>(root: Digest, worker_count: nat, moments: Seq<Download<E>>) -> bool {
    &&& moments.len() > 0
    &&& moments[0] == Download::<E>::start(root, worker_count)
    &&& forall|i: int| 0 <= i < moments.len() - 1 ==> (#[trigger] moments[i]).moves(moments[i + 1])
}

/// A failed worker makes no further step.
proof fn lemma_failure_stays<E>(before: Download<E>, after: Download<E>)
    requires
        before.moves(after),
        before.has_failed(),
    ensures
        after.has_failed(),
{
    let (worker, event) = choose|worker: int, event: WorkerEvent<E>| #[trigger]
        before.steps(worker, event, after);
    let failed = choose|failed: int|
        0 <= failed < before.workers.len() && (#[trigger] before.workers[failed]).has_failed();
    assert(failed != worker);
    assert(after.workers[failed] == before.workers[failed]);
}

/// A step of a worker keeps what each worker is about to do in accord with its state.
pub proof fn step_keeps_consistency<E>(before: Download<E>, after: Download<E>)
    requires
        before.moves(after),
        before.is_consistent(),
    ensures
        after.is_consistent(),
{
    let (worker, event) = choose|worker: int, event: WorkerEvent<E>| #[trigger]
        before.steps(worker, event, after);
    assert(before.workers[worker].is_consistent());
    assert(after.workers[worker].is_consistent());
    assert forall|w: int| 0 <= w < after.workers.len() && w != worker implies (
    #[trigger] after.workers[w]) == before.workers[w] by {}
}

/// Seen from afar, a step of a worker is a move, or nothing changes, unless a worker has failed.
proof fn lemma_step_is_move<E>(before: Download<E>, after: Download<E>)
    requires
        before.moves(after),
        before.is_consistent(),
        !after.has_failed(),
    ensures
        after.is_consistent(),
        before.abstraction().moves(after.abstraction()) || before.abstraction()
            == after.abstraction(),
{
    let (worker, event) = choose|worker: int, event: WorkerEvent<E>| #[trigger]
        before.steps(worker, event, after);
    if before.has_failed() {
        lemma_failure_stays(before, after);
    }
    let before_worker = before.workers[worker];
    let after_worker = after.workers[worker];
    step_keeps_consistency(before, after);
    assert(before_worker.is_consistent());
    assert(!after_worker.has_failed());
    assert(after_worker.is_consistent());
    let (a, b) = (before.abstraction(), after.abstraction());
    match before_worker.action {
        WorkerAction::TakeJob => {
            match before.state.upcoming_job() {
                Some(job) => {
                    assert(b.in_hand =~= a.in_hand.insert(worker as nat, job));
                    assert(a.takes_job(worker as nat, b));
                },
                None => {
                    assert(b.in_hand =~= a.in_hand);
                },
            }
        },
        WorkerAction::Record { job, result } => {
            assert(b.in_hand =~= a.in_hand.remove(worker as nat));
            assert(a.records_result(worker as nat, result, b));
        },
        _ => {
            assert(b.in_hand =~= a.in_hand);
        },
    }
}

/// The moments of a run up to `i`, seen from afar, without repetitions.
proof fn lemma_run_is_download<E>(
    root: Digest,
    worker_count: nat,
    moments: Seq<Download<E>>,
    i: int,
) -> (runs: Seq<SyncRun>)
    requires
        is_run(root, worker_count, moments),
        0 <= i < moments.len(),
        !moments[i].has_failed(),
    ensures
        is_download(root, runs),
        runs.last() == moments[i].abstraction(),
        moments[i].is_consistent(),
    decreases i,
{
    if i == 0 {
        let start = moments[0].abstraction();
        assert(start.in_hand =~= SyncRun::start(root).in_hand);
        seq![start]
    } else {
        let (before, after) = (moments[i - 1], moments[i]);
        assert(before.moves(moments[i - 1 + 1]));
        if before.has_failed() {
            lemma_failure_stays(before, after);
        }
        let runs = lemma_run_is_download(root, worker_count, moments, i - 1);
        lemma_step_is_move(before, after);
        if before.abstraction() == after.abstraction() {
            runs
        } else {
            let longer = runs.push(after.abstraction());
            assert forall|j: int| 0 <= j < longer.len() - 1 implies (#[trigger] longer[j]).moves(
                longer[j + 1],
            ) by {
                if j < runs.len() - 1 {
                    assert(runs[j].moves(runs[j + 1]));
                }
            }
            longer
        }
    }
}

/// A download whose workers have all stopped, none of them for an error, and that has left nothing
/// on the queue, is complete: its root has been written and no trie is left waiting for its
/// children.
pub proof fn ended_download_is_complete<E>(
    root: Digest,
    worker_count: nat,
    moments: Seq<Download<E>>,
    rank: spec_fn(Digest) -> nat,
)
    requires
        is_run(root, worker_count, moments),
        moments.last().has_ended(),
        !moments.last().has_failed(),
        moments.last().state.queue.len() == 0,
        ranks_children_below(moments.last().state.awaiting, rank),
    ensures
        moments.last().written.contains(root),
        forall|trie: Digest| !moments.last().state.awaiting.contains_key(trie),
{
    let last = moments.last();
    let runs = lemma_run_is_download(root, worker_count, moments, moments.len() - 1);
    assert forall|worker: nat| !runs.last().in_hand.contains_key(worker) by {
        if worker < last.workers.len() {
            assert(last.workers[worker as int].is_consistent());
            assert(last.workers[worker as int].state is Stopped);
        }
    }
    download_at_rest_is_complete(root, runs, rank);
}

/// No job is lost without an error: at every moment before a worker fails, the root has been
/// written, or is queued, in the hands of a worker, or waiting for its children; and so is every
/// child that a trie waits for.
pub proof fn no_job_is_lost<E>(
    root: Digest,
    worker_count: nat,
    moments: Seq<Download<E>>,
    i: int,
)
    requires
        is_run(root, worker_count, moments),
        0 <= i < moments.len(),
        !moments[i].has_failed(),
    ensures
        moments[i].abstraction().invariant_holds(),
{
    let runs = lemma_run_is_download(root, worker_count, moments, i);
    crate::sync_run::invariant_holds_throughout(root, runs, runs.len() - 1);
}

impl<E> Worker<E> {
    /// Whether the worker has just learnt from the store that it lacks the child, which it is
    /// about to record.
    pub open spec fn found_missing(self, child: Digest) -> bool {
        self.action matches WorkerAction::Record {
            result: FetchAndStoreResult::MissingChildren { missing_children, .. },
            ..
        } && missing_children@.contains(child)
    }
}

/// Whether the trie is the root or a child that the store was found to lack before the moment `i`.
pub open spec fn is_called_for<E>(
    root: Digest,
    moments: Seq<Download<E>>,
    i: int,
    trie: Digest,
) -> bool {
    ||| trie == root
    ||| exists|j: int, worker: int|
        0 <= j < i && 0 <= worker < moments[j].workers.len() && (
        #[trigger] moments[j].workers[worker]).found_missing(trie)
}

/// What is queued, waits or is in the hands of a worker is called for.
spec fn all_are_called_for<E>(root: Digest, moments: Seq<Download<E>>, i: int) -> bool {
    let download = moments[i];
    &&& forall|job: Digest| #[trigger]
        download.state.queue.contains(job) ==> is_called_for(root, moments, i, job)
    &&& forall|trie: Digest| #[trigger]
        download.state.awaiting.contains_key(trie) ==> is_called_for(root, moments, i, trie)
    &&& forall|worker: int|
        0 <= worker < download.workers.len() ==> {
            let w = #[trigger] download.workers[worker];
            &&& w.in_hand() matches Some(job) ==> is_called_for(root, moments, i, job)
            &&& w.state.job() matches Some(job) ==> is_called_for(root, moments, i, job)
            &&& w.action matches WorkerAction::GetTrie { params } ==> is_called_for(
                root,
                moments,
                i,
                params.trie_key,
            )
        }
}

proof fn lemma_all_are_called_for<E>(
    root: Digest,
    worker_count: nat,
    moments: Seq<Download<E>>,
    i: int,
)
    requires
        is_run(root, worker_count, moments),
        0 <= i < moments.len(),
    ensures
        all_are_called_for(root, moments, i),
    decreases i,
{
    if i > 0 {
        lemma_all_are_called_for(root, worker_count, moments, i - 1);
        let (before, after) = (moments[i - 1], moments[i]);
        assert(before.moves(moments[i - 1 + 1]));
        let (worker, event) = choose|worker: int, event: WorkerEvent<E>| #[trigger]
            before.steps(worker, event, after);
        let before_worker = before.workers[worker];
        let after_worker = after.workers[worker];
        assert forall|trie: Digest|
            is_called_for(root, moments, i - 1, trie) implies #[trigger] is_called_for(
            root,
            moments,
            i,
            trie,
        ) by {
            if trie != root {
                let (j, w) = choose|j: int, w: int|
                    0 <= j < i - 1 && 0 <= w < moments[j].workers.len() && (
                    #[trigger] moments[j].workers[w]).found_missing(trie);
                assert(moments[j].workers[w].found_missing(trie));
            }
        }
        assert forall|trie: Digest|
            before_worker.found_missing(trie) implies #[trigger] is_called_for(
            root,
            moments,
            i,
            trie,
        ) by {
            assert(moments[i - 1].workers[worker].found_missing(trie));
        }
        assert forall|trie: Digest| #[trigger] after.state.awaiting.contains_key(
            trie,
        ) implies is_called_for(root, moments, i, trie) by {
            assert(before.state.awaiting.contains_key(trie) || before_worker.in_hand() == Some(
                trie,
            ));
            assert(is_called_for(root, moments, i - 1, trie));
        }
        assert forall|job: Digest| #[trigger] after.state.queue.contains(
            job,
        ) implies is_called_for(root, moments, i, job) by {
            let k = choose|k: int|
                0 <= k < after.state.queue.len() && after.state.queue[k] == job;
            let n = before.state.queue.len() as int;
            if k < n {
                match before_worker.action {
                    WorkerAction::Record {
                        result: FetchAndStoreResult::Written(_),
                        ..
                    } => {
                        assert(after.state.queue.take(n)[k] == job);
                    },
                    _ => {},
                }
                assert(before.state.queue[k] == job);
                assert(before.state.queue.contains(job));
            } else {
                match before_worker.action {
                    WorkerAction::Record { job: recorded, result } => match result {
                        FetchAndStoreResult::Written(_) => {
                            let tail = after.state.queue.skip(n);
                            assert(tail[k - n] == job);
                            assert(tail.contains(job));
                            assert(after.state.awaiting.contains_key(job));
                        },
                        FetchAndStoreResult::MissingChildren { missing_children, .. } => {
                            assert(missing_children@[k - n] == job);
                            assert(before_worker.found_missing(job));
                        },
                        FetchAndStoreResult::NoBytes => {
                            assert(job == recorded);
                            assert(before_worker.in_hand() == Some(job));
                        },
                    },
                    _ => {},
                }
            }
        }
        assert forall|w: int| 0 <= w < after.workers.len() implies {
            let other = #[trigger] after.workers[w];
            &&& other.in_hand() matches Some(job) ==> is_called_for(root, moments, i, job)
            &&& other.state.job() matches Some(job) ==> is_called_for(root, moments, i, job)
            &&& other.action matches WorkerAction::GetTrie { params } ==> is_called_for(
                root,
                moments,
                i,
                params.trie_key,
            )
        } by {
            if w != worker {
                assert(after.workers[w] == before.workers[w]);
            } else if before_worker.state is Idle {
                match before.state.upcoming_job() {
                    Some(job) => {
                        assert(before.state.queue[before.state.queue.len() - 1] == job);
                        assert(before.state.queue.contains(job));
                    },
                    None => {},
                }
            }
        }
    } else {
        let download = moments[0];
        assert forall|job: Digest| #[trigger] download.state.queue.contains(
            job,
        ) implies job == root by {}
    }
}

/// Only what is called for is fetched: every trie that a worker requests from its peer is the root
/// or a child that the store was found to lack before.
pub proof fn fetched_trie_is_called_for<E>(
    root: Digest,
    worker_count: nat,
    moments: Seq<Download<E>>,
    i: int,
    worker: int,
)
    requires
        is_run(root, worker_count, moments),
        0 <= i < moments.len(),
        0 <= worker < moments[i].workers.len(),
        moments[i].workers[worker].action is GetTrie,
    ensures
        is_called_for(
            root,
            moments,
            i,
            moments[i].workers[worker].action->GetTrie_params.trie_key,
        ),
{
    lemma_all_are_called_for(root, worker_count, moments, i);
}

/// Before the first trie is requested, no trie waits, and none has been offered to the store.
proof fn lemma_nothing_offered<E>(
    root: Digest,
    worker_count: nat,
    moments: Seq<Download<E>>,
    i: int,
)
    requires
        is_run(root, worker_count, moments),
        0 <= i < moments.len(),
        forall|j: int, w: int|
            0 <= j <= i && 0 <= w < moments[j].workers.len() ==> !((
            #[trigger] moments[j].workers[w]).action is GetTrie),
    ensures
        forall|trie: Digest| !moments[i].state.awaiting.contains_key(trie),
        forall|w: int|
            0 <= w < moments[i].workers.len() ==> {
                let worker = #[trigger] moments[i].workers[w];
                &&& worker.state is Idle || worker.state is LookingUp || worker.state is Stopped
                &&& worker.action is TakeJob || worker.action is LookUp || worker.action is Stop
            },
    decreases i,
{
    if i > 0 {
        lemma_nothing_offered(root, worker_count, moments, i - 1);
        let (before, after) = (moments[i - 1], moments[i]);
        assert(before.moves(moments[i - 1 + 1]));
        let (worker, event) = choose|worker: int, event: WorkerEvent<E>| #[trigger]
            before.steps(worker, event, after);
        assert(!(after.workers[worker].action is GetTrie));
        assert forall|w: int| 0 <= w < after.workers.len() implies {
            let other = #[trigger] after.workers[w];
            &&& other.state is Idle || other.state is LookingUp || other.state is Stopped
            &&& other.action is TakeJob || other.action is LookUp || other.action is Stop
        } by {
            if w != worker {
                assert(after.workers[w] == before.workers[w]);
            }
        }
    }
}

/// The first trie that is requested from a peer is the root.
pub proof fn root_is_fetched_first<E>(
    root: Digest,
    worker_count: nat,
    moments: Seq<Download<E>>,
    i: int,
    worker: int,
)
    requires
        is_run(root, worker_count, moments),
        0 <= i < moments.len(),
        0 <= worker < moments[i].workers.len(),
        moments[i].workers[worker].action is GetTrie,
        forall|j: int, w: int|
            0 <= j < i && 0 <= w < moments[j].workers.len() ==> !((
            #[trigger] moments[j].workers[w]).action is GetTrie),
    ensures
        moments[i].workers[worker].action->GetTrie_params.trie_key == root,
{
    let trie = moments[i].workers[worker].action->GetTrie_params.trie_key;
    fetched_trie_is_called_for(root, worker_count, moments, i, worker);
    if trie != root {
        let (j, w) = choose|j: int, w: int|
            0 <= j < i && 0 <= w < moments[j].workers.len() && (
            #[trigger] moments[j].workers[w]).found_missing(trie);
        lemma_nothing_offered(root, worker_count, moments, j);
        assert(!(moments[j].workers[w].action is Record));
    }
}

/// A worker that has stopped does nothing more.
proof fn lemma_stopped_stays<E>(
    root: Digest,
    worker_count: nat,
    moments: Seq<Download<E>>,
    i: int,
    j: int,
    worker: int,
)
    requires
        is_run(root, worker_count, moments),
        0 <= i <= j < moments.len(),
        0 <= worker < moments[i].workers.len(),
        moments[i].workers[worker].state is Stopped,
    ensures
        worker < moments[j].workers.len(),
        moments[j].workers[worker] == moments[i].workers[worker],
    decreases j,
{
    if i < j {
        lemma_stopped_stays(root, worker_count, moments, i, j - 1, worker);
        assert(moments[j - 1].moves(moments[j - 1 + 1]));
    }
}

/// A store that fails makes the download fail: from that moment on, the worker that met the error
/// reports it, and it does nothing else.
pub proof fn failed_store_fails_the_download<E>(
    root: Digest,
    worker_count: nat,
    moments: Seq<Download<E>>,
    i: int,
    j: int,
    worker: int,
    error: E,
)
    requires
        is_run(root, worker_count, moments),
        0 <= i < j < moments.len(),
        moments[i].steps(worker, WorkerEvent::Stored(StoreReply::Failed(error)), moments[i + 1]),
    ensures
        moments[j].has_failed(),
        moments[j].workers[worker].action == WorkerAction::ReportError(WorkerError::Store(error)),
        moments[j].workers[worker].state is Stopped,
{
    lemma_stopped_stays(root, worker_count, moments, i + 1, j, worker);
    assert(moments[j].workers[worker].has_failed());
}

/// A request that fails makes the download fail: from that moment on, the worker that met the error
/// reports it, with its text, and it does nothing else.
pub proof fn failed_request_fails_the_download<E>(
    root: Digest,
    worker_count: nat,
    moments: Seq<Download<E>>,
    i: int,
    j: int,
    worker: int,
    text: String,
)
    requires
        is_run(root, worker_count, moments),
        0 <= i < j < moments.len(),
        moments[i].steps(worker, WorkerEvent::TrieReceived(Err(text)), moments[i + 1]),
    ensures
        moments[j].has_failed(),
        moments[j].workers[worker].action matches WorkerAction::ReportError(
            WorkerError::GetTrie { message },
        ) && message@ == "error in get_trie "@ + text@,
        moments[j].workers[worker].state is Stopped,
{
    lemma_stopped_stays(root, worker_count, moments, i + 1, j, worker);
    assert(moments[j].workers[worker].has_failed());
}

/// A download has not failed unless the store or a request has: a worker comes to report an error
/// only by the step in which it meets it.
pub proof fn download_fails_only_by_an_error<E>(
    root: Digest,
    worker_count: nat,
    moments: Seq<Download<E>>,
    j: int,
    worker: int,
)
    requires
        is_run(root, worker_count, moments),
        0 <= j < moments.len(),
        0 <= worker < moments[j].workers.len(),
        moments[j].workers[worker].action is ReportError,
    ensures
        exists|i: int, event: WorkerEvent<E>|
            0 <= i < j && #[trigger] moments[i].steps(worker, event, moments[i + 1]) && (
            event matches WorkerEvent::TrieReceived(Err(_)) || event matches WorkerEvent::Stored(
                StoreReply::Failed(_),
            )),
    decreases j,
{
    if j > 0 {
        let (before, after) = (moments[j - 1], moments[j]);
        assert(before.moves(moments[j - 1 + 1]));
        let (w, event) = choose|w: int, event: WorkerEvent<E>| #[trigger]
            before.steps(w, event, after);
        if w != worker || before.workers[worker].action is ReportError {
            assert(before.workers[worker].action is ReportError);
            download_fails_only_by_an_error(root, worker_count, moments, j - 1, worker);
            let (i, e) = choose|i: int, e: WorkerEvent<E>|
                0 <= i < j - 1 && #[trigger] moments[i].steps(worker, e, moments[i + 1]) && (
                e matches WorkerEvent::TrieReceived(Err(_)) || e matches WorkerEvent::Stored(
                    StoreReply::Failed(_),
                ));
            assert(moments[i].steps(worker, e, moments[i + 1]));
        } else {
            assert(moments[j - 1].steps(worker, event, moments[j - 1 + 1]));
        }
    }
}

} // verus!
