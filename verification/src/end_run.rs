//! That a trie download comes to an end.
//!
//! Every step of a worker brings the download closer to its end, by a measure of what is left to be
//! done. No assumption is made on which worker makes the next step.
use crate::store_run::{
    is_closed, is_reachable, is_stored_run, ranks_by_descent, step_keeps_store_invariant,
    undisturbed_download_has_stored_all, StoredDownload,
};
use crate::sync_state::FetchAndStoreResult;
use crate::tries::{is_ready, trie_written, AwaitingTrie};
use crate::types::Digest;
use crate::worker::{StoreReply, WorkerAction, WorkerEvent, WorkerState};
use crate::workers_run::{step_keeps_consistency, Download, Worker};
use vstd::prelude::*;

verus! {

/// The weights of the items, added up.
spec fn total<A>(items: Seq<A>, weight: spec_fn(A) -> nat) -> nat
    decreases items.len(),
{
    if items.len() == 0 {
        0
    } else {
        total(items.drop_last(), weight) + weight(items.last())
    }
}

proof fn lemma_total_update<A>(items: Seq<A>, i: int, item: A, weight: spec_fn(A) -> nat)
    requires
        0 <= i < items.len(),
    ensures
        total(items.update(i, item), weight) + weight(items[i]) == total(items, weight) + weight(
            item,
        ),
    decreases items.len(),
{
    let updated = items.update(i, item);
    if i == items.len() - 1 {
        assert(updated.drop_last() =~= items.drop_last());
    } else {
        lemma_total_update(items.drop_last(), i, item, weight);
        assert(updated.drop_last() =~= items.drop_last().update(i, item));
    }
}

proof fn lemma_total_at_most<A>(items: Seq<A>, less: spec_fn(A) -> nat, more: spec_fn(A) -> nat)
    requires
        forall|i: int| 0 <= i < items.len() ==> less(#[trigger] items[i]) <= more(items[i]),
    ensures
        total(items, less) <= total(items, more),
    decreases items.len(),
{
    if items.len() > 0 {
        let front = items.drop_last();
        assert forall|i: int| 0 <= i < front.len() implies less(#[trigger] front[i]) <= more(
            front[i],
        ) by {
            assert(front[i] == items[i]);
        }
        lemma_total_at_most(front, less, more);
        assert(items[items.len() - 1] == items.last());
    }
}

proof fn lemma_total_add<A>(first: Seq<A>, second: Seq<A>, weight: spec_fn(A) -> nat)
    ensures
        total(first + second, weight) == total(first, weight) + total(second, weight),
    decreases second.len(),
{
    if second.len() == 0 {
        assert(first + second =~= first);
    } else {
        lemma_total_add(first, second.drop_last(), weight);
        assert((first + second).drop_last() =~= first + second.drop_last());
    }
}

proof fn lemma_total_bounded<A>(items: Seq<A>, weight: spec_fn(A) -> nat, bound: nat)
    requires
        forall|i: int| 0 <= i < items.len() ==> weight(#[trigger] items[i]) <= bound,
    ensures
        total(items, weight) <= items.len() * bound,
    decreases items.len(),
{
    if items.len() > 0 {
        let front = items.drop_last();
        assert forall|i: int| 0 <= i < front.len() implies weight(#[trigger] front[i]) <= bound by {
            assert(front[i] == items[i]);
        }
        lemma_total_bounded(front, weight, bound);
        assert(items[items.len() - 1] == items.last());
        assert(items.len() * bound == (items.len() - 1) * bound + bound) by (nonlinear_arith);
    }
}

/// How often a trie of the rank, and what is reached from it, can be found to lack children for
/// one job.
spec fn load(width: nat, rank: nat) -> nat
    decreases rank,
{
    if rank == 0 {
        1
    } else {
        1 + width * load(width, (rank - 1) as nat)
    }
}

proof fn lemma_load_grows(width: nat, low: nat, high: nat)
    requires
        low <= high,
    ensures
        load(width, low) <= load(width, high),
    decreases high,
{
    if low < high {
        lemma_load_grows(width, low, (high - 1) as nat);
        if high == 1 {
            assert(width * load(width, 0) >= 0) by (nonlinear_arith);
        } else {
            let (a, b) = (load(width, (high - 2) as nat), load(width, (high - 1) as nat));
            lemma_load_grows(width, (high - 2) as nat, (high - 1) as nat);
            assert(width * a <= width * b) by (nonlinear_arith)
                requires
                    a <= b,
            ;
        }
    }
}

/// What a job may still lead to: nothing, once all children of its trie are stored.
spec fn job_load(
    children: spec_fn(Digest) -> Set<Digest>,
    stored: Set<Digest>,
    rank: spec_fn(Digest) -> nat,
    width: nat,
) -> spec_fn(Digest) -> nat {
    |job: Digest|
        if children(job).subset_of(stored) {
            0
        } else {
            load(width, rank(job))
        }
}

/// What the job in the hands of a worker may still lead to.
spec fn worker_load<E>(
    children: spec_fn(Digest) -> Set<Digest>,
    stored: Set<Digest>,
    rank: spec_fn(Digest) -> nat,
    width: nat,
) -> spec_fn(Worker<E>) -> nat {
    |worker: Worker<E>|
        match worker.action {
            WorkerAction::Record {
                job,
                result: FetchAndStoreResult::MissingChildren { .. },
            } => load(width, rank(job)),
            _ => match worker.in_hand() {
                Some(job) => job_load(children, stored, rank, width)(job),
                None => 0,
            },
        }
}

/// Counts a job whose trie does not wait.
spec fn job_is_astray(awaiting: Map<Digest, AwaitingTrie>) -> spec_fn(Digest) -> nat {
    |job: Digest|
        if awaiting.contains_key(job) {
            0
        } else {
            1
        }
}

spec fn worker_is_astray<E>(awaiting: Map<Digest, AwaitingTrie>) -> spec_fn(Worker<E>) -> nat {
    |worker: Worker<E>|
        match worker.in_hand() {
            Some(job) => job_is_astray(awaiting)(job),
            None => 0,
        }
}

/// Counts a worker that has not stopped.
spec fn worker_runs<E>() -> spec_fn(Worker<E>) -> nat {
    |worker: Worker<E>|
        if worker.state is Stopped {
            0
        } else {
            1
        }
}

/// How many steps a worker is away from having recorded the outcome of its job.
spec fn worker_steps<E>() -> spec_fn(Worker<E>) -> nat {
    |worker: Worker<E>|
        match worker.state {
            WorkerState::LookingUp { .. } => 4,
            WorkerState::Fetching { .. } => 3,
            WorkerState::Storing { .. } => 2,
            WorkerState::Recording => 1,
            _ => 0,
        }
}

impl<E> StoredDownload<E> {
    /// Whether the store, where it was found to lack children, named no more than `width` of them.
    pub open spec fn names_at_most(self, width: nat) -> bool {
        forall|worker: int|
            0 <= worker < self.download.workers.len() ==> ((
            #[trigger] self.download.workers[worker]).action matches WorkerAction::Record {
                result: FetchAndStoreResult::MissingChildren { missing_children, .. },
                ..
            } ==> missing_children@.len() <= width)
    }

    /// What holds at every moment, besides the invariant of the store: finitely many tries wait;
    /// and what a trie does not wait for, or is not about to, is stored.
    spec fn is_sound(self, children: spec_fn(Digest) -> Set<Digest>) -> bool {
        &&& self.invariant_holds(children)
        &&& self.download.is_consistent()
        &&& self.download.state.awaiting.dom().finite()
        &&& forall|trie: Digest, child: Digest|
            self.download.state.awaiting.contains_key(trie) && #[trigger] children(trie).contains(
                child,
            ) ==> self.download.state.awaiting[trie].dependencies.contains(child)
                || self.stored.contains(child)
        &&& forall|worker: int|
            0 <= worker < self.download.workers.len() ==> ((
            #[trigger] self.download.workers[worker]).action matches WorkerAction::Record {
                job,
                result: FetchAndStoreResult::MissingChildren { missing_children, .. },
            } ==> forall|child: Digest| #[trigger]
                children(job).contains(child) ==> missing_children@.contains(child)
                    || self.stored.contains(child))
    }

    /// How many workers have not stopped.
    spec fn running(self) -> nat {
        total(self.download.workers, worker_runs())
    }

    /// What all jobs may still lead to.
    spec fn load(
        self,
        children: spec_fn(Digest) -> Set<Digest>,
        rank: spec_fn(Digest) -> nat,
        width: nat,
    ) -> nat {
        total(self.download.state.queue, job_load(children, self.stored, rank, width)) + total(
            self.download.workers,
            worker_load(children, self.stored, rank, width),
        )
    }

    /// How many tries wait.
    spec fn waiting(self) -> nat {
        self.download.state.awaiting.dom().len()
    }

    /// How many jobs are for tries that do not wait.
    spec fn astray(self) -> nat {
        total(self.download.state.queue, job_is_astray(self.download.state.awaiting)) + total(
            self.download.workers,
            worker_is_astray(self.download.state.awaiting),
        )
    }

    /// How many steps the workers are away from having recorded the outcomes of their jobs.
    spec fn steps_left(self) -> nat {
        total(self.download.workers, worker_steps())
    }

    /// Whether less is left to be done than in `before`.
    spec fn is_closer_to_end(
        self,
        children: spec_fn(Digest) -> Set<Digest>,
        rank: spec_fn(Digest) -> nat,
        width: nat,
        before: StoredDownload<E>,
    ) -> bool {
        ||| self.running() < before.running()
        ||| {
            &&& self.running() == before.running()
            &&& {
                ||| self.load(children, rank, width) < before.load(children, rank, width)
                ||| {
                    &&& self.load(children, rank, width) == before.load(children, rank, width)
                    &&& {
                        ||| self.waiting() < before.waiting()
                        ||| {
                            &&& self.waiting() == before.waiting()
                            &&& {
                                ||| self.astray() < before.astray()
                                ||| {
                                    &&& self.astray() == before.astray()
                                    &&& {
                                        ||| self.download.state.queue.len()
                                            < before.download.state.queue.len()
                                        ||| {
                                            &&& self.download.state.queue.len()
                                                == before.download.state.queue.len()
                                            &&& self.steps_left() < before.steps_left()
                                        }
                                    }
                                }
                            }
                        }
                    }
                }
            }
        }
    }
}

/// Writing a trie leaves finitely many waiting, and none new.
proof fn lemma_written_dom(awaiting: Map<Digest, AwaitingTrie>, written_trie: Digest)
    requires
        awaiting.dom().finite(),
    ensures
        trie_written(awaiting, written_trie).dom() == awaiting.dom().remove(written_trie),
        trie_written(awaiting, written_trie).dom().finite(),
{
    assert(trie_written(awaiting, written_trie).dom() =~= awaiting.dom().remove(written_trie));
}

proof fn lemma_step_is_sound<E>(
    children: spec_fn(Digest) -> Set<Digest>,
    before: StoredDownload<E>,
    after: StoredDownload<E>,
)
    requires
        before.moves(children, after),
        before.is_sound(children),
    ensures
        after.is_sound(children),
{
    step_keeps_store_invariant(children, before, after);
    let (worker, event) = choose|worker: int, event: WorkerEvent<E>| #[trigger]
        before.steps(children, worker, event, after);
    let (b, a) = (before.download, after.download);
    assert(b.steps(worker, event, a));
    step_keeps_consistency(b, a);
    assert(b.workers[worker].is_consistent());
    assert forall|w: int| 0 <= w < a.workers.len() && w != worker implies (#[trigger] a.workers[w])
        == b.workers[w] by {}
    match b.workers[worker].action {
        WorkerAction::Record { job, result: FetchAndStoreResult::Written(written_trie) } => {
            lemma_written_dom(b.state.awaiting, written_trie);
            assert forall|trie: Digest, child: Digest|
                a.state.awaiting.contains_key(trie) && #[trigger] children(trie).contains(
                    child,
                ) implies a.state.awaiting[trie].dependencies.contains(child)
                || after.stored.contains(child) by {
                assert(b.state.awaiting.contains_key(trie));
                assert(before.stored.contains(written_trie));
            }
        },
        WorkerAction::Record {
            job,
            result: FetchAndStoreResult::MissingChildren { missing_children, .. },
        } => {
            assert(a.state.awaiting.dom() =~= b.state.awaiting.dom().insert(job));
            assert forall|trie: Digest, child: Digest|
                a.state.awaiting.contains_key(trie) && #[trigger] children(trie).contains(
                    child,
                ) implies a.state.awaiting[trie].dependencies.contains(child)
                || after.stored.contains(child) by {
                if trie == job {
                    assert(missing_children@.contains(child) || before.stored.contains(child));
                } else {
                    assert(b.state.awaiting.contains_key(trie));
                }
            }
        },
        _ => {
            assert(a.state.awaiting == b.state.awaiting);
        },
    }
    assert forall|w: int| 0 <= w < a.workers.len() implies ((
    #[trigger] a.workers[w]).action matches WorkerAction::Record {
        job,
        result: FetchAndStoreResult::MissingChildren { missing_children, .. },
    } ==> forall|child: Digest| #[trigger]
        children(job).contains(child) ==> missing_children@.contains(child)
            || after.stored.contains(child)) by {
        if w == worker {
            match (a.workers[w].action, event) {
                (
                    WorkerAction::Record {
                        job,
                        result: FetchAndStoreResult::MissingChildren { missing_children, .. },
                    },
                    WorkerEvent::Stored(StoreReply::MissingChildren(named)),
                ) => {
                    assert forall|child: Digest| #[trigger] children(job).contains(
                        child,
                    ) implies missing_children@.contains(child) || after.stored.contains(child) by {
                        assert(named@.to_set().contains(child) || before.stored.contains(child));
                    }
                },
                _ => {},
            }
        }
    }
}

/// A step that changes neither the queue nor the tries that wait.
proof fn lemma_work_is_done<E>(
    children: spec_fn(Digest) -> Set<Digest>,
    rank: spec_fn(Digest) -> nat,
    width: nat,
    before: StoredDownload<E>,
    worker: int,
    event: WorkerEvent<E>,
    after: StoredDownload<E>,
)
    requires
        before.steps(children, worker, event, after),
        before.is_sound(children),
        after.is_sound(children),
        !(after.download.workers[worker].state is Stopped),
        !(before.download.workers[worker].action is Record),
        !(before.download.workers[worker].action is TakeJob),
    ensures
        after.is_closer_to_end(children, rank, width, before),
{
    let (b, a) = (before.download, after.download);
    let (bw, aw) = (b.workers[worker], a.workers[worker]);
    assert(bw.is_consistent() && aw.is_consistent());
    lemma_total_update(b.workers, worker, aw, worker_runs());
    lemma_total_update(b.workers, worker, aw, worker_steps());
    lemma_total_update(b.workers, worker, aw, worker_is_astray(b.state.awaiting));
    lemma_total_update(
        b.workers,
        worker,
        aw,
        worker_load(children, before.stored, rank, width),
    );
    assert(before.stored.subset_of(after.stored));
    let old_load = job_load(children, before.stored, rank, width);
    let new_load = job_load(children, after.stored, rank, width);
    assert forall|job: Digest| #[trigger] new_load(job) <= old_load(job) by {}
    lemma_total_at_most(b.state.queue, new_load, old_load);
    let old_worker_load = worker_load::<E>(children, before.stored, rank, width);
    let new_worker_load = worker_load::<E>(children, after.stored, rank, width);
    assert forall|w: Worker<E>| #[trigger] new_worker_load(w) <= old_worker_load(w) by {
        match w.in_hand() {
            Some(job) => {
                assert(new_load(job) <= old_load(job));
            },
            None => {},
        }
    }
    lemma_total_at_most(a.workers, new_worker_load, old_worker_load);
    assert(old_worker_load(aw) <= old_worker_load(bw)) by {
        match event {
            WorkerEvent::Stored(StoreReply::MissingChildren(missing_children)) => {
                let job = bw.in_hand()->0;
                assert(missing_children@.to_set().contains(missing_children@[0]));
                assert(children(job).contains(missing_children@[0]));
                assert(!before.stored.contains(missing_children@[0]));
                assert(!children(job).subset_of(before.stored));
            },
            _ => {},
        }
    }
}

/// A step that takes a job.
proof fn lemma_job_is_taken<E>(
    children: spec_fn(Digest) -> Set<Digest>,
    rank: spec_fn(Digest) -> nat,
    width: nat,
    before: StoredDownload<E>,
    worker: int,
    event: WorkerEvent<E>,
    after: StoredDownload<E>,
)
    requires
        before.steps(children, worker, event, after),
        before.is_sound(children),
        after.is_sound(children),
        !(after.download.workers[worker].state is Stopped),
        before.download.workers[worker].action is TakeJob,
    ensures
        after.is_closer_to_end(children, rank, width, before),
{
    let (b, a) = (before.download, after.download);
    let (bw, aw) = (b.workers[worker], a.workers[worker]);
    assert(bw.is_consistent() && aw.is_consistent());
    lemma_total_update(b.workers, worker, aw, worker_runs());
    lemma_total_update(b.workers, worker, aw, worker_is_astray(b.state.awaiting));
    lemma_total_update(
        b.workers,
        worker,
        aw,
        worker_load(children, before.stored, rank, width),
    );
    assert(b.state.queue.len() > 0);
    assert(a.state.queue == b.state.queue.drop_last());
}

/// A step that records that a trie was written.
proof fn lemma_write_is_recorded<E>(
    children: spec_fn(Digest) -> Set<Digest>,
    rank: spec_fn(Digest) -> nat,
    width: nat,
    before: StoredDownload<E>,
    worker: int,
    event: WorkerEvent<E>,
    after: StoredDownload<E>,
)
    requires
        before.steps(children, worker, event, after),
        before.is_sound(children),
        after.is_sound(children),
        !(after.download.workers[worker].state is Stopped),
        before.download.workers[worker].action matches WorkerAction::Record {
            result: FetchAndStoreResult::Written(_),
            ..
        },
    ensures
        after.is_closer_to_end(children, rank, width, before),
{
    let (b, a) = (before.download, after.download);
    let (bw, aw) = (b.workers[worker], a.workers[worker]);
    assert(bw.is_consistent() && aw.is_consistent());
    let written_trie = bw.action->Record_result->Written_0;
    let job = bw.action->Record_job;
    assert(job == written_trie);
    assert(before.stored == after.stored);
    lemma_total_update(b.workers, worker, aw, worker_runs());
    lemma_total_update(
        b.workers,
        worker,
        aw,
        worker_load(children, before.stored, rank, width),
    );
    lemma_total_update(b.workers, worker, aw, worker_is_astray(b.state.awaiting));
    let n = b.state.queue.len() as int;
    let ready = a.state.queue.skip(n);
    assert(a.state.queue =~= b.state.queue + ready) by {
        assert(a.state.queue =~= a.state.queue.take(n) + ready);
    }
    // What is queued because it waits for nothing lacks no children.
    let loads = job_load(children, before.stored, rank, width);
    lemma_total_add(b.state.queue, ready, loads);
    assert forall|i: int| 0 <= i < ready.len() implies loads(#[trigger] ready[i]) <= 0 by {
        let trie = ready[i];
        assert(ready.contains(trie));
        assert(is_ready(a.state.awaiting, trie));
        assert forall|child: Digest| children(trie).contains(
            child,
        ) implies before.stored.contains(child) by {
            assert(!a.state.awaiting[trie].dependencies.contains(child));
        }
        assert(children(trie).subset_of(before.stored));
    }
    lemma_total_bounded(ready, loads, 0);
    assert(after.load(children, rank, width) <= before.load(children, rank, width));
    lemma_written_dom(b.state.awaiting, written_trie);
    if !b.state.awaiting.contains_key(written_trie) {
        // The same tries wait as before, and one job less is astray.
        assert(a.state.awaiting.dom() =~= b.state.awaiting.dom());
        let old_astray = job_is_astray(b.state.awaiting);
        let new_astray = job_is_astray(a.state.awaiting);
        assert forall|d: Digest| a.state.awaiting.contains_key(d) == b.state.awaiting.contains_key(
            d,
        ) by {
            assert(a.state.awaiting.dom().contains(d) == b.state.awaiting.dom().contains(d));
        }
        lemma_total_add(b.state.queue, ready, new_astray);
        lemma_total_at_most(b.state.queue, new_astray, old_astray);
        assert forall|i: int| 0 <= i < ready.len() implies new_astray(#[trigger] ready[i]) <= 0 by {
            assert(ready.contains(ready[i]));
            assert(is_ready(a.state.awaiting, ready[i]));
        }
        lemma_total_bounded(ready, new_astray, 0);
        lemma_total_at_most(
            a.workers,
            worker_is_astray(a.state.awaiting),
            worker_is_astray(b.state.awaiting),
        );
    }
}

/// A step that records missing children.
proof fn lemma_missing_children_are_recorded<E>(
    children: spec_fn(Digest) -> Set<Digest>,
    rank: spec_fn(Digest) -> nat,
    width: nat,
    before: StoredDownload<E>,
    worker: int,
    event: WorkerEvent<E>,
    after: StoredDownload<E>,
)
    requires
        before.steps(children, worker, event, after),
        before.is_sound(children),
        after.is_sound(children),
        before.names_at_most(width),
        ranks_by_descent(children, rank),
        !(after.download.workers[worker].state is Stopped),
        before.download.workers[worker].action matches WorkerAction::Record {
            result: FetchAndStoreResult::MissingChildren { .. },
            ..
        },
    ensures
        after.is_closer_to_end(children, rank, width, before),
{
    let (b, a) = (before.download, after.download);
    let (bw, aw) = (b.workers[worker], a.workers[worker]);
    assert(bw.is_consistent() && aw.is_consistent());
    let missing_children = bw.action->Record_result->missing_children@;
    let job = bw.action->Record_job;
    assert(before.stored == after.stored);
    lemma_total_update(b.workers, worker, aw, worker_runs());
    lemma_total_update(
        b.workers,
        worker,
        aw,
        worker_load(children, before.stored, rank, width),
    );
    let loads = job_load(children, before.stored, rank, width);
    lemma_total_add(b.state.queue, missing_children, loads);
    assert forall|child: Digest| missing_children.contains(child) implies #[trigger] children(
        job,
    ).contains(child) by {
        assert(missing_children.to_set().contains(child));
    }
    assert(missing_children.contains(missing_children[0]));
    assert(children(job).contains(missing_children[0]));
    let below = (rank(job) - 1) as nat;
    let bound = load(width, below);
    assert forall|i: int| 0 <= i < missing_children.len() implies loads(
        #[trigger] missing_children[i],
    ) <= bound by {
        let child = missing_children[i];
        assert(missing_children.contains(child));
        assert(children(job).contains(child));
        lemma_load_grows(width, rank(child), below);
    }
    lemma_total_bounded(missing_children, loads, bound);
    assert(missing_children.len() * bound <= width * bound) by (nonlinear_arith)
        requires
            missing_children.len() <= width,
    ;
    assert(load(width, rank(job)) == 1 + width * bound);
    assert(a.state.queue == b.state.queue + missing_children);
}

/// Every step brings the download closer to its end.
proof fn lemma_step_is_closer<E>(
    children: spec_fn(Digest) -> Set<Digest>,
    rank: spec_fn(Digest) -> nat,
    width: nat,
    before: StoredDownload<E>,
    after: StoredDownload<E>,
)
    requires
        before.moves(children, after),
        before.is_sound(children),
        before.names_at_most(width),
        ranks_by_descent(children, rank),
    ensures
        after.is_sound(children),
        after.is_closer_to_end(children, rank, width, before),
{
    lemma_step_is_sound(children, before, after);
    let (worker, event) = choose|worker: int, event: WorkerEvent<E>| #[trigger]
        before.steps(children, worker, event, after);
    let (bw, aw) = (before.download.workers[worker], after.download.workers[worker]);
    assert(bw.is_consistent());
    if aw.state is Stopped {
        lemma_total_update(before.download.workers, worker, aw, worker_runs());
    } else {
        match bw.action {
            WorkerAction::TakeJob => {
                lemma_job_is_taken(children, rank, width, before, worker, event, after);
            },
            WorkerAction::Record { result, .. } => match result {
                FetchAndStoreResult::Written(_) => {
                    lemma_write_is_recorded(children, rank, width, before, worker, event, after);
                },
                FetchAndStoreResult::MissingChildren { .. } => {
                    lemma_missing_children_are_recorded(
                        children,
                        rank,
                        width,
                        before,
                        worker,
                        event,
                        after,
                    );
                },
                FetchAndStoreResult::NoBytes => {},
            },
            _ => {
                lemma_work_is_done(children, rank, width, before, worker, event, after);
            },
        }
    }
}

/// Whether some worker makes a step at the moment `i`, or all have stopped and nothing changes.
pub open spec fn is_followed<E>(
    children: spec_fn(Digest) -> Set<Digest>,
    run: spec_fn(nat) -> StoredDownload<E>,
    i: nat,
) -> bool {
    if run(i).download.has_ended() {
        run(i + 1) == run(i)
    } else {
        run(i).moves(children, run(i + 1))
    }
}

/// Whether `run` gives the moments of a download by `worker_count` workers that goes on until it
/// has ended, with `stored` in the store at the start: at each moment some worker makes a step, and
/// once all workers have stopped nothing changes any more.
pub open spec fn goes_on<E>(
    children: spec_fn(Digest) -> Set<Digest>,
    root: Digest,
    worker_count: nat,
    stored: Set<Digest>,
    run: spec_fn(nat) -> StoredDownload<E>,
) -> bool {
    &&& run(0) == (StoredDownload {
        download: Download::<E>::start(root, worker_count),
        stored,
    })
    &&& forall|i: nat| #[trigger] is_followed(children, run, i)
}

proof fn lemma_reaches_end<E>(
    children: spec_fn(Digest) -> Set<Digest>,
    root: Digest,
    worker_count: nat,
    stored: Set<Digest>,
    run: spec_fn(nat) -> StoredDownload<E>,
    rank: spec_fn(Digest) -> nat,
    width: nat,
    i: nat,
) -> (n: nat)
    requires
        goes_on(children, root, worker_count, stored, run),
        ranks_by_descent(children, rank),
        forall|j: nat| (#[trigger] run(j)).names_at_most(width),
        run(i).is_sound(children),
        forall|j: nat| j < i ==> !(#[trigger] run(j)).download.has_ended(),
    ensures
        run(n).download.has_ended(),
        forall|j: nat| j < n ==> !(#[trigger] run(j)).download.has_ended(),
    decreases
            run(i).running(),
            run(i).load(children, rank, width),
            run(i).waiting(),
            run(i).astray(),
            run(i).download.state.queue.len(),
            run(i).steps_left(),
{
    if run(i).download.has_ended() {
        i
    } else {
        assert(is_followed(children, run, i));
        lemma_step_is_closer(children, rank, width, run(i), run(i + 1));
        lemma_reaches_end(children, root, worker_count, stored, run, rank, width, i + 1)
    }
}

proof fn lemma_start_is_sound<E>(
    children: spec_fn(Digest) -> Set<Digest>,
    root: Digest,
    worker_count: nat,
    stored: Set<Digest>,
)
    requires
        is_closed(children, stored),
    ensures
        (StoredDownload {
            download: Download::<E>::start(root, worker_count),
            stored,
        }).is_sound(children),
{
    assert(Map::<Digest, AwaitingTrie>::empty().dom() =~= Set::empty());
}

/// A download comes to an end: if it goes on for as long as it has not ended, all workers have
/// stopped at some moment, whatever the peers reply, whether or not a worker runs into an error,
/// and whichever worker makes the next step. No trie may be reached from its own children, and
/// there has to be a limit to how many children the store names at once.
pub proof fn download_ends<E>(
    children: spec_fn(Digest) -> Set<Digest>,
    root: Digest,
    worker_count: nat,
    stored: Set<Digest>,
    run: spec_fn(nat) -> StoredDownload<E>,
    rank: spec_fn(Digest) -> nat,
    width: nat,
)
    requires
        goes_on(children, root, worker_count, stored, run),
        is_closed(children, stored),
        ranks_by_descent(children, rank),
        forall|i: nat| (#[trigger] run(i)).names_at_most(width),
    ensures
        exists|n: nat| (#[trigger] run(n)).download.has_ended(),
{
    lemma_start_is_sound::<E>(children, root, worker_count, stored);
    let n = lemma_reaches_end(children, root, worker_count, stored, run, rank, width, 0);
    assert(run(n).download.has_ended());
}

/// A download that goes on undisturbed brings the whole trie into the store: if there is a worker
/// at all, no worker runs into an error and no peer lacks the bytes of a trie, then at some moment
/// all workers have stopped, nothing is left on the queue, and the root and all that is reached
/// from it are stored.
pub proof fn undisturbed_download_stores_all<E>(
    children: spec_fn(Digest) -> Set<Digest>,
    root: Digest,
    worker_count: nat,
    stored: Set<Digest>,
    run: spec_fn(nat) -> StoredDownload<E>,
    rank: spec_fn(Digest) -> nat,
    width: nat,
)
    requires
        goes_on(children, root, worker_count, stored, run),
        is_closed(children, stored),
        ranks_by_descent(children, rank),
        forall|i: nat| (#[trigger] run(i)).names_at_most(width),
        worker_count > 0,
        forall|i: nat|
            !(#[trigger] run(i)).lacks_bytes() && !run(i).download.has_failed(),
    ensures
        exists|n: nat|
            {
                &&& (#[trigger] run(n)).download.has_ended()
                &&& run(n).download.state.queue.len() == 0
                &&& forall|trie: Digest| #[trigger]
                    is_reachable(children, root, trie) ==> run(n).stored.contains(trie)
            },
{
    lemma_start_is_sound::<E>(children, root, worker_count, stored);
    let n = lemma_reaches_end(children, root, worker_count, stored, run, rank, width, 0);
    let moments = Seq::new(n + 1, |i: int| run(i as nat));
    assert forall|i: int| 0 <= i < moments.len() - 1 implies (#[trigger] moments[i]).moves(
        children,
        moments[i + 1],
    ) by {
        assert(is_followed(children, run, i as nat));
        assert(!run(i as nat).download.has_ended());
        assert(moments[i + 1] == run((i as nat + 1) as nat));
    }
    assert(is_stored_run(children, root, worker_count, stored, moments));
    assert(moments.last() == run(n));
    assert forall|i: int| 0 <= i < moments.len() implies !(#[trigger] moments[i]).lacks_bytes() by {
        assert(!run(i as nat).lacks_bytes());
    }
    undisturbed_download_has_stored_all(children, root, worker_count, stored, moments, rank);
}

} // verus!
