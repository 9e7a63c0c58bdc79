//! Laws of a trie download as a whole.
//!
//! A [`SyncRun`] is what a download consists of between two changes of the shared state: the
//! shared state, the job that each worker has in hand, and the history that the laws speak of.
use crate::sync_state::{FetchAndStoreResult, SyncStateView};
use crate::tries::{dependency_removed, is_ready, lists_ready, trie_written, AwaitingTrie};
use crate::types::Digest;
use vstd::prelude::*;

verus! {

/// A trie download at one moment.
pub struct SyncRun {
    /// The trie whose download was asked for.
    pub root: Digest,
    /// What the workers share.
    pub state: SyncStateView,
    /// The job that each busy worker has in hand.
    pub in_hand: Map<nat, Digest>,
    /// The tries that have been written.
    pub written: Set<Digest>,
    /// The children that were missing when the trie under a key was last offered to the store.
    pub missing: Map<Digest, Set<Digest>>,
}

impl SyncRun {
    /// A download of the trie `root` before any worker has taken a job.
    pub open spec fn start(root: Digest) -> SyncRun {
        SyncRun {
            root,
            state: SyncStateView::empty().with_job(root),
            in_hand: Map::empty(),
            written: Set::empty(),
            missing: Map::empty(),
        }
    }

    /// Whether some worker has the job in hand.
    pub open spec fn has_in_hand(self, job: Digest) -> bool {
        exists|worker: nat|
            #[trigger] self.in_hand.contains_key(worker) && self.in_hand[worker] == job
    }

    /// Whether the job is queued or in the hands of a worker.
    pub open spec fn is_active(self, job: Digest) -> bool {
        self.state.queue.contains(job) || self.has_in_hand(job)
    }

    /// Whether the trie is queued, in the hands of a worker, or waiting for its children.
    pub open spec fn is_pending(self, trie: Digest) -> bool {
        self.is_active(trie) || self.state.awaiting.contains_key(trie)
    }

    /// Whether a worker without a job takes the next one.
    pub open spec fn takes_job(self, worker: nat, after: SyncRun) -> bool {
        &&& !self.in_hand.contains_key(worker)
        &&& self.state.upcoming_job() matches Some(job) && after == (SyncRun {
            state: self.state.without_next_job(),
            in_hand: self.in_hand.insert(worker, job),
            ..self
        })
    }

    /// Whether a worker records what came of the job that it has in hand.
    pub open spec fn records_result(
        self,
        worker: nat,
        result: FetchAndStoreResult,
        after: SyncRun,
    ) -> bool {
        let job = self.in_hand[worker];
        &&& self.in_hand.contains_key(worker)
        &&& self.state.job_recorded(job, result, after.state)
        &&& after.root == self.root
        &&& after.in_hand == self.in_hand.remove(worker)
        &&& after.written == match result {
            FetchAndStoreResult::Written(written_trie) => self.written.insert(written_trie),
            _ => self.written,
        }
        &&& after.missing == match result {
            FetchAndStoreResult::MissingChildren { missing_children, .. } => self.missing.insert(
                job,
                missing_children@.to_set(),
            ),
            _ => self.missing,
        }
    }

    /// Whether the outcome of a job is one that a faithful store and peer bring about: the trie
    /// that was written is the one that was asked for, and a trie that could not be written misses
    /// some child.
    pub open spec fn is_faithful(job: Digest, result: FetchAndStoreResult) -> bool {
        match result {
            FetchAndStoreResult::Written(written_trie) => written_trie == job,
            FetchAndStoreResult::MissingChildren { missing_children, .. } => missing_children@.len()
                > 0,
            FetchAndStoreResult::NoBytes => true,
        }
    }

    /// Whether one worker makes one move.
    pub open spec fn moves(self, after: SyncRun) -> bool {
        ||| exists|worker: nat| #[trigger] self.takes_job(worker, after)
        ||| exists|worker: nat, result: FetchAndStoreResult| #[trigger]
            self.records_result(worker, result, after) && Self::is_faithful(
                self.in_hand[worker],
                result,
            )
    }

    /// What holds at every moment of a download:
    /// the root is written or pending;
    /// a child that a trie waits for is pending;
    /// a trie that waits for no child is queued or in the hands of a worker;
    /// a child that was missing is still waited for or has been written.
    pub open spec fn invariant_holds(self) -> bool {
        &&& self.written.contains(self.root) || self.is_pending(self.root)
        &&& forall|trie: Digest, child: Digest|
            self.state.awaiting.contains_key(trie)
                && #[trigger] self.state.awaiting[trie].dependencies.contains(child)
                ==> self.is_pending(child)
        &&& forall|trie: Digest| #[trigger]
            is_ready(self.state.awaiting, trie) ==> self.is_active(trie)
        &&& forall|trie: Digest| #[trigger]
            self.state.awaiting.contains_key(trie) ==> self.missing.contains_key(trie)
        &&& forall|trie: Digest, child: Digest|
            self.state.awaiting.contains_key(trie) && #[trigger] self.missing[trie].contains(child)
                ==> self.state.awaiting[trie].dependencies.contains(child) || self.written.contains(
                child,
            )
    }
}

/// The invariant holds at the start of a download.
pub proof fn invariant_holds_at_start(root: Digest)
    ensures
        SyncRun::start(root).invariant_holds(),
{
    let run = SyncRun::start(root);
    assert(run.state.queue[0] == root);
}

/// Taking a job keeps the invariant.
pub proof fn taking_a_job_keeps_invariant(before: SyncRun, worker: nat, after: SyncRun)
    requires
        before.invariant_holds(),
        before.takes_job(worker, after),
    ensures
        after.invariant_holds(),
{
    assert forall|d: Digest| before.is_active(d) implies #[trigger] after.is_active(d) by {
        if before.state.queue.contains(d) {
            let i = choose|i: int| 0 <= i < before.state.queue.len() && before.state.queue[i] == d;
            if i == before.state.queue.len() - 1 {
                assert(after.in_hand.contains_key(worker) && after.in_hand[worker] == d);
            } else {
                assert(after.state.queue[i] == d);
            }
        } else {
            let w = choose|w: nat| #[trigger]
                before.in_hand.contains_key(w) && before.in_hand[w] == d;
            assert(after.in_hand.contains_key(w) && after.in_hand[w] == d);
        }
    }
    assert forall|trie: Digest, child: Digest|
        after.state.awaiting.contains_key(trie)
            && #[trigger] after.state.awaiting[trie].dependencies.contains(
            child,
        ) implies after.is_pending(child) by {
        assert(before.is_pending(child));
    }
    assert forall|trie: Digest| #[trigger] is_ready(
        after.state.awaiting,
        trie,
    ) implies after.is_active(trie) by {
        assert(before.is_active(trie));
    }
    assert(before.is_pending(before.root) ==> after.is_pending(after.root));
}

/// Recording a faithful outcome keeps the invariant.
pub proof fn recording_keeps_invariant(
    before: SyncRun,
    worker: nat,
    result: FetchAndStoreResult,
    after: SyncRun,
)
    requires
        before.invariant_holds(),
        before.records_result(worker, result, after),
        SyncRun::is_faithful(before.in_hand[worker], result),
    ensures
        after.invariant_holds(),
{
    let job = before.in_hand[worker];
    assert forall|d: Digest| before.is_active(d) && d != job implies #[trigger] after.is_active(
        d,
    ) by {
        if before.state.queue.contains(d) {
            let i = choose|i: int| 0 <= i < before.state.queue.len() && before.state.queue[i] == d;
            let head = after.state.queue.take(before.state.queue.len() as int);
            assert(head =~= before.state.queue);
            assert(head[i] == after.state.queue[i]);
        } else {
            let w = choose|w: nat| #[trigger]
                before.in_hand.contains_key(w) && before.in_hand[w] == d;
            assert(after.in_hand.contains_key(w) && after.in_hand[w] == d);
        }
    }
    match result {
        FetchAndStoreResult::Written(written_trie) => {
            let n = before.state.queue.len() as int;
            assert forall|trie: Digest| #[trigger] is_ready(
                after.state.awaiting,
                trie,
            ) implies after.is_active(trie) by {
                let tail = after.state.queue.skip(n);
                assert(tail.contains(trie));
                let i = choose|i: int| 0 <= i < tail.len() && tail[i] == trie;
                assert(after.state.queue[n + i] == trie);
            }
            assert forall|trie: Digest, child: Digest|
                after.state.awaiting.contains_key(trie)
                    && #[trigger] after.state.awaiting[trie].dependencies.contains(
                    child,
                ) implies after.is_pending(child) by {
                assert(before.state.awaiting[trie].dependencies.contains(child));
                assert(before.is_pending(child));
            }
            assert forall|trie: Digest| #[trigger] after.state.awaiting.contains_key(
                trie,
            ) implies after.missing.contains_key(trie) by {
                assert(before.state.awaiting.contains_key(trie));
            }
            assert forall|trie: Digest, child: Digest|
                after.state.awaiting.contains_key(trie)
                    && #[trigger] after.missing[trie].contains(
                    child,
                ) implies after.state.awaiting[trie].dependencies.contains(child)
                || after.written.contains(child) by {
                assert(before.state.awaiting.contains_key(trie));
            }
        },
        FetchAndStoreResult::MissingChildren { trie_raw, missing_children } => {
            let n = before.state.queue.len() as int;
            assert forall|d: Digest|
                missing_children@.contains(d) implies #[trigger] after.is_active(d) by {
                let i = choose|i: int|
                    0 <= i < missing_children@.len() && missing_children@[i] == d;
                assert(after.state.queue[n + i] == d);
            }
            assert(missing_children@.to_set().contains(missing_children@[0]));
            assert forall|trie: Digest| #[trigger] is_ready(
                after.state.awaiting,
                trie,
            ) implies after.is_active(trie) by {
                if trie != job {
                    assert(is_ready(before.state.awaiting, trie));
                }
            }
        },
        FetchAndStoreResult::NoBytes => {
            assert(after.state.queue.last() == job);
            assert(after.is_active(job));
            assert forall|trie: Digest| #[trigger] is_ready(
                after.state.awaiting,
                trie,
            ) implies after.is_active(trie) by {
                assert(is_ready(before.state.awaiting, trie));
            }
        },
    }
}

/// Whether `runs` are the moments of one download of the trie `root`, one move apart.
pub open spec fn is_download(root: Digest, runs: Seq<SyncRun>) -> bool {
    &&& runs.len() > 0
    &&& runs[0] == SyncRun::start(root)
    &&& forall|i: int| 0 <= i < runs.len() - 1 ==> (#[trigger] runs[i]).moves(runs[i + 1])
}

/// The invariant holds at every moment of a download.
pub proof fn invariant_holds_throughout(root: Digest, runs: Seq<SyncRun>, i: int)
    requires
        is_download(root, runs),
        0 <= i < runs.len(),
    ensures
        runs[i].invariant_holds(),
        runs[i].root == root,
    decreases i,
{
    if i == 0 {
        invariant_holds_at_start(root);
    } else {
        invariant_holds_throughout(root, runs, i - 1);
        let (before, after) = (runs[i - 1], runs[i]);
        assert(before.moves(after));
        if exists|worker: nat| #[trigger] before.takes_job(worker, after) {
            let worker = choose|worker: nat| #[trigger] before.takes_job(worker, after);
            taking_a_job_keeps_invariant(before, worker, after);
        } else {
            let (worker, result) = choose|worker: nat, result: FetchAndStoreResult| #[trigger]
                before.records_result(worker, result, after) && SyncRun::is_faithful(
                    before.in_hand[worker],
                    result,
                );
            recording_keeps_invariant(before, worker, result, after);
        }
    }
}

/// Whether `rank` witnesses that no trie waits, through others, for itself: a child ranks below
/// the tries that wait for it.
pub open spec fn ranks_children_below(
    awaiting: Map<Digest, AwaitingTrie>,
    rank: spec_fn(Digest) -> nat,
) -> bool {
    forall|trie: Digest, child: Digest|
        awaiting.contains_key(trie) && #[trigger] awaiting[trie].dependencies.contains(child)
            ==> rank(child) < rank(trie)
}

/// With nothing queued and nothing in hand, no trie of any rank waits.
proof fn lemma_nothing_waits(run: SyncRun, rank: spec_fn(Digest) -> nat, trie: Digest)
    requires
        run.invariant_holds(),
        forall|job: Digest| !run.is_active(job),
        ranks_children_below(run.state.awaiting, rank),
    ensures
        !run.state.awaiting.contains_key(trie),
    decreases rank(trie),
{
    if run.state.awaiting.contains_key(trie) {
        let dependencies = run.state.awaiting[trie].dependencies;
        assert(!is_ready(run.state.awaiting, trie));
        let child = choose|child: Digest| dependencies.contains(child);
        assert(dependencies.contains(child));
        lemma_nothing_waits(run, rank, child);
    }
}

/// A download that comes to rest is complete: once nothing is queued and no worker has a job in
/// hand, the root has been written and no trie is left waiting for its children.
pub proof fn download_at_rest_is_complete(
    root: Digest,
    runs: Seq<SyncRun>,
    rank: spec_fn(Digest) -> nat,
)
    requires
        is_download(root, runs),
        runs.last().state.queue.len() == 0,
        forall|worker: nat| !runs.last().in_hand.contains_key(worker),
        ranks_children_below(runs.last().state.awaiting, rank),
    ensures
        runs.last().written.contains(root),
        forall|trie: Digest| !runs.last().state.awaiting.contains_key(trie),
{
    let run = runs.last();
    invariant_holds_throughout(root, runs, runs.len() - 1);
    assert forall|trie: Digest| !run.state.awaiting.contains_key(trie) by {
        lemma_nothing_waits(run, rank, trie);
    }
}

/// Children come first: a trie that waits for no child, and is therefore queued to be stored, was
/// last found to miss only children that have been written.
pub proof fn children_are_written_first(root: Digest, runs: Seq<SyncRun>, trie: Digest)
    requires
        is_download(root, runs),
        is_ready(runs.last().state.awaiting, trie),
    ensures
        runs.last().missing[trie].subset_of(runs.last().written),
{
    invariant_holds_throughout(root, runs, runs.len() - 1);
}

/// A trie that was left waiting is handed out byte for byte until it is written or offered to the
/// store again: neither the queue nor the write of another trie changes its bytes.
pub proof fn waiting_trie_keeps_its_bytes(
    before: SyncStateView,
    job: Digest,
    result: FetchAndStoreResult,
    after: SyncStateView,
    trie: Digest,
)
    requires
        before.awaiting.contains_key(trie),
        before.job_recorded(job, result, after),
        result matches FetchAndStoreResult::Written(written_trie) ==> written_trie != trie,
        result is MissingChildren ==> job != trie,
    ensures
        after.awaiting.contains_key(trie),
        after.awaiting[trie].trie_bytes == before.awaiting[trie].trie_bytes,
{
}

/// A trie that has been written waits no more, and no trie waits for it.
pub proof fn written_trie_is_waited_for_no_more(
    before: SyncStateView,
    written_trie: Digest,
    after: SyncStateView,
    trie: Digest,
)
    requires
        before.trie_written_to(written_trie, after),
    ensures
        !after.awaiting.contains_key(written_trie),
        after.awaiting.contains_key(trie) ==> !after.awaiting[trie].dependencies.contains(
            written_trie,
        ),
{
}

/// The queue hands out last in, first out: a job that was just queued is taken next, and leaves
/// the queue as it was.
pub proof fn queued_job_is_taken_next(state: SyncStateView, job: Digest)
    ensures
        state.with_job(job).upcoming_job() == Some(job),
        state.with_job(job).without_next_job() == state,
{
    assert(state.queue.push(job).drop_last() =~= state.queue);
}

/// What is recorded of a trie with missing children can be read back: its bytes, and that it waits
/// for just those children, the last of which is taken next.
pub proof fn missing_children_are_remembered(
    state: SyncStateView,
    trie_key: Digest,
    trie_bytes: Seq<u8>,
    missing_children: Seq<Digest>,
)
    ensures
        ({
            let after = state.with_missing_children(trie_key, trie_bytes, missing_children);
            &&& after.awaiting.contains_key(trie_key)
            &&& after.awaiting[trie_key].trie_bytes == trie_bytes
            &&& after.awaiting[trie_key].dependencies == missing_children.to_set()
            &&& missing_children.len() > 0 ==> after.upcoming_job() == Some(missing_children.last())
        }),
{
}

/// At the start nothing is queued and nothing waits.
pub proof fn nothing_to_do_at_start()
    ensures
        SyncStateView::empty().queue.len() == 0,
        forall|trie: Digest| !SyncStateView::empty().awaiting.contains_key(trie),
{
}

/// Queueing a job puts it behind all others and changes nothing else.
pub proof fn job_is_queued_last(state: SyncStateView, job: Digest)
    ensures
        state.with_job(job).queue.len() == state.queue.len() + 1,
        state.with_job(job).queue[state.queue.len() as int] == job,
        forall|i: int|
            0 <= i < state.queue.len() ==> #[trigger] state.with_job(job).queue[i]
                == state.queue[i],
        state.with_job(job).awaiting == state.awaiting,
{
}

/// The job that was queued last is taken, and it alone leaves the queue; an empty queue gives none.
pub proof fn last_job_is_taken(state: SyncStateView)
    ensures
        state.queue.len() == 0 ==> state.upcoming_job() is None && state.without_next_job()
            == state,
        state.queue.len() > 0 ==> {
            &&& state.upcoming_job() matches Some(job) && job == state.queue[state.queue.len() - 1]
            &&& state.without_next_job().queue.len() == state.queue.len() - 1
            &&& forall|i: int|
                0 <= i < state.queue.len() - 1 ==> #[trigger] state.without_next_job().queue[i]
                    == state.queue[i]
        },
        state.without_next_job().awaiting == state.awaiting,
{
}

/// The write of a trie strikes it off the children that each trie waits for, and off the tries that
/// wait, and changes nothing else of those.
pub proof fn write_strikes_off_one_child(
    before: SyncStateView,
    written_trie: Digest,
    after: SyncStateView,
    trie: Digest,
    child: Digest,
)
    requires
        before.trie_written_to(written_trie, after),
    ensures
        after.awaiting.contains_key(trie) <==> before.awaiting.contains_key(trie) && trie
            != written_trie,
        after.awaiting.contains_key(trie) ==> {
            &&& after.awaiting[trie].trie_bytes == before.awaiting[trie].trie_bytes
            &&& after.awaiting[trie].dependencies.contains(child)
                <==> before.awaiting[trie].dependencies.contains(child) && child != written_trie
        },
{
}

/// The write of a trie queues, behind what was queued before, every trie that waits for no child
/// any more: each of them once, and no other.
pub proof fn write_queues_what_waits_for_nothing(
    before: SyncStateView,
    written_trie: Digest,
    after: SyncStateView,
)
    requires
        before.trie_written_to(written_trie, after),
    ensures
        before.queue.len() <= after.queue.len(),
        forall|i: int| 0 <= i < before.queue.len() ==> #[trigger] after.queue[i] == before.queue[i],
        forall|i: int|
            before.queue.len() <= i < after.queue.len() ==> {
                &&& after.awaiting.contains_key(#[trigger] after.queue[i])
                &&& forall|child: Digest| !after.awaiting[after.queue[i]].dependencies.contains(
                    child,
                )
            },
        forall|i: int, j: int|
            before.queue.len() <= i < j < after.queue.len() ==> after.queue[i] != after.queue[j],
        forall|trie: Digest|
            after.awaiting.contains_key(trie) && (forall|child: Digest|
                !after.awaiting[trie].dependencies.contains(child)) ==> exists|i: int|
                before.queue.len() <= i < after.queue.len() && #[trigger] after.queue[i] == trie,
{
    let n = before.queue.len() as int;
    let tail = after.queue.skip(n);
    assert forall|i: int| 0 <= i < n implies #[trigger] after.queue[i] == before.queue[i] by {
        assert(after.queue.take(n)[i] == before.queue[i]);
    }
    assert forall|i: int| n <= i < after.queue.len() implies {
        &&& after.awaiting.contains_key(#[trigger] after.queue[i])
        &&& forall|child: Digest| !after.awaiting[after.queue[i]].dependencies.contains(child)
    } by {
        assert(tail[i - n] == after.queue[i]);
        assert(tail.contains(after.queue[i]));
    }
    assert forall|i: int, j: int| n <= i < j < after.queue.len() implies after.queue[i]
        != after.queue[j] by {
        assert(tail[i - n] != tail[j - n]);
    }
    assert forall|trie: Digest|
        after.awaiting.contains_key(trie) && (forall|child: Digest|
            !after.awaiting[trie].dependencies.contains(child)) implies exists|i: int|
        n <= i < after.queue.len() && #[trigger] after.queue[i] == trie by {
        assert(after.awaiting[trie].dependencies =~= Set::empty());
        assert(tail.contains(trie));
        let i = choose|i: int| 0 <= i < tail.len() && tail[i] == trie;
        assert(after.queue[n + i] == trie);
    }
}

/// A trie that lacks children waits under its key with its bytes, for just those children, all of
/// which are queued behind what was queued before, in the order in which they were named. The other
/// tries wait as before.
pub proof fn missing_children_are_waited_for_and_queued(
    state: SyncStateView,
    trie_key: Digest,
    trie_bytes: Seq<u8>,
    missing_children: Seq<Digest>,
    other: Digest,
)
    ensures
        ({
            let after = state.with_missing_children(trie_key, trie_bytes, missing_children);
            &&& after.awaiting.contains_key(trie_key)
            &&& after.awaiting[trie_key].trie_bytes == trie_bytes
            &&& after.awaiting[trie_key].dependencies.contains(other) <==> exists|i: int|
                0 <= i < missing_children.len() && #[trigger] missing_children[i] == other
            &&& other != trie_key ==> {
                &&& after.awaiting.contains_key(other) <==> state.awaiting.contains_key(other)
                &&& after.awaiting.contains_key(other) ==> after.awaiting[other]
                    == state.awaiting[other]
            }
            &&& after.queue.len() == state.queue.len() + missing_children.len()
            &&& forall|i: int|
                0 <= i < state.queue.len() ==> #[trigger] after.queue[i] == state.queue[i]
            &&& forall|i: int|
                state.queue.len() <= i < after.queue.len() ==> #[trigger] after.queue[i]
                    == missing_children[i - state.queue.len()]
        }),
{
}

/// The outcome of a job changes the shared state as the write of that trie, or the children that it
/// lacks, do; a job for which the peer had no bytes is queued again, and nothing else changes.
pub proof fn outcome_is_recorded_as_it_is(
    before: SyncStateView,
    job: Digest,
    result: FetchAndStoreResult,
    after: SyncStateView,
)
    requires
        before.job_recorded(job, result, after),
    ensures
        match result {
            FetchAndStoreResult::Written(written_trie) => before.trie_written_to(
                written_trie,
                after,
            ),
            FetchAndStoreResult::MissingChildren { trie_raw, missing_children } => after
                == before.with_missing_children(job, trie_raw@, missing_children@),
            FetchAndStoreResult::NoBytes => {
                &&& after.queue == before.queue.push(job)
                &&& after.awaiting == before.awaiting
            },
        },
{
}

/// A trie is listed as ready if and only if it waits and waits for no child, and is listed once.
pub proof fn ready_tries_are_listed_once(
    awaiting: Map<Digest, AwaitingTrie>,
    keys: Seq<Digest>,
    trie: Digest,
)
    requires
        lists_ready(awaiting, keys),
    ensures
        (exists|i: int| 0 <= i < keys.len() && #[trigger] keys[i] == trie) <==> {
            &&& awaiting.contains_key(trie)
            &&& forall|child: Digest| !awaiting[trie].dependencies.contains(child)
        },
        forall|i: int, j: int| 0 <= i < j < keys.len() ==> keys[i] != keys[j],
{
    if awaiting.contains_key(trie) && (forall|child: Digest|
        !awaiting[trie].dependencies.contains(child)) {
        assert(awaiting[trie].dependencies =~= Set::empty());
        assert(keys.contains(trie));
    }
    if exists|i: int| 0 <= i < keys.len() && #[trigger] keys[i] == trie {
        assert(keys.contains(trie));
    }
}

/// Striking a child off changes what the tries wait for by that child alone.
pub proof fn one_child_is_struck_off(
    awaiting: Map<Digest, AwaitingTrie>,
    dependency: Digest,
    trie: Digest,
    child: Digest,
)
    ensures
        dependency_removed(awaiting, dependency).contains_key(trie) <==> awaiting.contains_key(
            trie,
        ),
        awaiting.contains_key(trie) ==> {
            let after = dependency_removed(awaiting, dependency)[trie];
            &&& after.trie_bytes == awaiting[trie].trie_bytes
            &&& after.dependencies.contains(child) <==> awaiting[trie].dependencies.contains(child)
                && child != dependency
        },
{
}

/// Once a trie is written it no longer waits, no trie waits for it, and all else stays.
pub proof fn written_trie_is_struck_off(
    awaiting: Map<Digest, AwaitingTrie>,
    written_trie: Digest,
    trie: Digest,
    child: Digest,
)
    ensures
        trie_written(awaiting, written_trie).contains_key(trie) <==> awaiting.contains_key(trie)
            && trie != written_trie,
        awaiting.contains_key(trie) && trie != written_trie ==> {
            let after = trie_written(awaiting, written_trie)[trie];
            &&& after.trie_bytes == awaiting[trie].trie_bytes
            &&& after.dependencies.contains(child) <==> awaiting[trie].dependencies.contains(child)
                && child != written_trie
        },
{
}

} // verus!
