//! Laws of a trie download, taken together with the tries that the store holds.
//!
//! A [`StoredDownload`] is a trie download at one moment, along with the tries in the store. The
//! store takes a trie only if it holds all of its children, and names those that it lacks.
use crate::sync_run::ranks_children_below;
use crate::sync_state::FetchAndStoreResult;
use crate::types::Digest;
use crate::worker::{StoreReply, WorkerAction, WorkerEvent};
use crate::workers_run::{ended_download_is_complete, is_run, Download, Worker};
use vstd::prelude::*;

verus! {

/// Whether the tries include the children of each of them.
pub open spec fn is_closed(children: spec_fn(Digest) -> Set<Digest>, tries: Set<Digest>) -> bool {
    forall|trie: Digest| #[trigger] tries.contains(trie) ==> children(trie).subset_of(tries)
}

/// Whether `path` leads from trie to child, all the way.
pub open spec fn is_path(children: spec_fn(Digest) -> Set<Digest>, path: Seq<Digest>) -> bool {
    &&& path.len() > 0
    &&& forall|i: int| 0 < i < path.len() ==> children(path[i - 1]).contains(#[trigger] path[i])
}

/// Whether the trie is `root`, a child of it, a child of a child, and so on.
pub open spec fn is_reachable(
    children: spec_fn(Digest) -> Set<Digest>,
    root: Digest,
    trie: Digest,
) -> bool {
    exists|path: Seq<Digest>| #[trigger]
        is_path(children, path) && path[0] == root && path.last() == trie
}

/// Whether `rank` witnesses that no trie is reached from its own children: a child ranks below
/// the tries that it is a child of.
pub open spec fn ranks_by_descent(
    children: spec_fn(Digest) -> Set<Digest>,
    rank: spec_fn(Digest) -> nat,
) -> bool {
    forall|trie: Digest, child: Digest| #[trigger]
        children(trie).contains(child) ==> rank(child) < rank(trie)
}

/// A trie download at one moment, and the tries that the store holds.
pub struct StoredDownload<E> {
    pub download: Download<E>,
    pub stored: Set<Digest>,
}

impl<E> StoredDownload<E> {
    /// Whether the event is one that the store brings about by its rule, and leaves `stored` in
    /// it: a trie is written only if all of its children are stored, and is stored then; a trie
    /// that is not written for its children is answered with just those that are not stored.
    pub open spec fn store_obeys(
        self,
        children: spec_fn(Digest) -> Set<Digest>,
        worker: Worker<E>,
        event: WorkerEvent<E>,
        stored: Set<Digest>,
    ) -> bool {
        match event {
            WorkerEvent::Stored(StoreReply::Written(written_trie)) => {
                &&& children(written_trie).subset_of(self.stored)
                &&& stored == self.stored.insert(written_trie)
            },
            WorkerEvent::Stored(StoreReply::MissingChildren(missing_children)) => {
                &&& worker.in_hand() matches Some(job) && missing_children@.to_set() == children(
                    job,
                ).difference(self.stored)
                &&& stored == self.stored
            },
            _ => stored == self.stored,
        }
    }

    /// Whether the worker does what it is about to do, and decides what it does next.
    pub open spec fn steps(
        self,
        children: spec_fn(Digest) -> Set<Digest>,
        worker: int,
        event: WorkerEvent<E>,
        after: StoredDownload<E>,
    ) -> bool {
        &&& self.download.steps(worker, event, after.download)
        &&& self.store_obeys(children, self.download.workers[worker], event, after.stored)
    }

    /// Whether one worker makes one step.
    pub open spec fn moves(
        self,
        children: spec_fn(Digest) -> Set<Digest>,
        after: StoredDownload<E>,
    ) -> bool {
        exists|worker: int, event: WorkerEvent<E>| #[trigger]
            self.steps(children, worker, event, after)
    }

    /// What holds at every moment:
    /// the store holds the children of all that it holds;
    /// what has been written, or is about to be recorded as written, is stored;
    /// a trie waits only for children of its own, and only such are about to be recorded as
    /// missing.
    pub open spec fn invariant_holds(self, children: spec_fn(Digest) -> Set<Digest>) -> bool {
        &&& is_closed(children, self.stored)
        &&& self.download.written.subset_of(self.stored)
        &&& forall|trie: Digest| #[trigger]
            self.download.state.awaiting.contains_key(trie)
                ==> self.download.state.awaiting[trie].dependencies.subset_of(children(trie))
        &&& forall|worker: int|
            0 <= worker < self.download.workers.len() ==> match (
            #[trigger] self.download.workers[worker]).action {
                WorkerAction::Record { result: FetchAndStoreResult::Written(written_trie), .. } =>
                    self.stored.contains(written_trie),
                WorkerAction::Record {
                    job,
                    result: FetchAndStoreResult::MissingChildren { missing_children, .. },
                } => missing_children@.to_set().subset_of(children(job)),
                _ => true,
            }
    }

    /// Whether a worker is about to record that its peer had no bytes.
    pub open spec fn lacks_bytes(self) -> bool {
        exists|worker: int|
            0 <= worker < self.download.workers.len() && ((
            #[trigger] self.download.workers[worker]).action matches WorkerAction::Record {
                result: FetchAndStoreResult::NoBytes,
                ..
            })
    }
}

/// Whether `moments` are those of one download by `worker_count` workers, one step apart, with
/// `stored` in the store at the start.
pub open spec fn is_stored_run<E>(
    children: spec_fn(Digest) -> Set<Digest>,
    root: Digest,
    worker_count: nat,
    stored: Set<Digest>,
    moments: Seq<StoredDownload<E>>,
) -> bool {
    &&& moments.len() > 0
    &&& moments[0] == (StoredDownload {
        download: Download::<E>::start(root, worker_count),
        stored,
    })
    &&& forall|i: int|
        0 <= i < moments.len() - 1 ==> (#[trigger] moments[i]).moves(children, moments[i + 1])
}

/// A step of a worker keeps the invariant, and removes nothing from the store.
pub proof fn step_keeps_store_invariant<E>(
    children: spec_fn(Digest) -> Set<Digest>,
    before: StoredDownload<E>,
    after: StoredDownload<E>,
)
    requires
        before.moves(children, after),
        before.invariant_holds(children),
    ensures
        after.invariant_holds(children),
        before.stored.subset_of(after.stored),
{
    let (worker, event) = choose|worker: int, event: WorkerEvent<E>| #[trigger]
        before.steps(children, worker, event, after);
    let (b, a) = (before.download, after.download);
    assert(before.stored.subset_of(after.stored));
    assert forall|w: int| 0 <= w < a.workers.len() && w != worker implies (#[trigger] a.workers[w])
        == b.workers[w] by {}
    assert forall|trie: Digest| #[trigger] a.state.awaiting.contains_key(
        trie,
    ) implies a.state.awaiting[trie].dependencies.subset_of(children(trie)) by {
        match b.workers[worker].action {
            WorkerAction::Record {
                job,
                result: FetchAndStoreResult::MissingChildren { .. },
            } if job == trie => {},
            _ => {
                assert(b.state.awaiting.contains_key(trie));
            },
        }
    }
}

/// The store is closed under children at every moment, and holds all that has been written.
pub proof fn store_stays_closed<E>(
    children: spec_fn(Digest) -> Set<Digest>,
    root: Digest,
    worker_count: nat,
    stored: Set<Digest>,
    moments: Seq<StoredDownload<E>>,
    i: int,
)
    requires
        is_stored_run(children, root, worker_count, stored, moments),
        is_closed(children, stored),
        0 <= i < moments.len(),
    ensures
        moments[i].invariant_holds(children),
        stored.subset_of(moments[i].stored),
    decreases i,
{
    if i > 0 {
        store_stays_closed(children, root, worker_count, stored, moments, i - 1);
        assert(moments[i - 1].moves(children, moments[i - 1 + 1]));
        step_keeps_store_invariant(children, moments[i - 1], moments[i]);
    }
}

/// What the laws of the download alone say holds of it here too.
proof fn lemma_is_run<E>(
    children: spec_fn(Digest) -> Set<Digest>,
    root: Digest,
    worker_count: nat,
    stored: Set<Digest>,
    moments: Seq<StoredDownload<E>>,
) -> (downloads: Seq<Download<E>>)
    requires
        is_stored_run(children, root, worker_count, stored, moments),
    ensures
        is_run(root, worker_count, downloads),
        downloads.last() == moments.last().download,
{
    let downloads = Seq::new(moments.len(), |i: int| moments[i].download);
    assert forall|i: int| 0 <= i < downloads.len() - 1 implies (#[trigger] downloads[i]).moves(
        downloads[i + 1],
    ) by {
        assert(moments[i].moves(children, moments[i + 1]));
        let (worker, event) = choose|worker: int, event: WorkerEvent<E>| #[trigger]
            moments[i].steps(children, worker, event, moments[i + 1]);
        assert(downloads[i].steps(worker, event, downloads[i + 1]));
    }
    downloads
}

/// All that a path leads to from a trie of a closed store is in the store.
proof fn lemma_path_stays_within(
    children: spec_fn(Digest) -> Set<Digest>,
    stored: Set<Digest>,
    path: Seq<Digest>,
    i: int,
)
    requires
        is_closed(children, stored),
        is_path(children, path),
        stored.contains(path[0]),
        0 <= i < path.len(),
    ensures
        stored.contains(path[i]),
    decreases i,
{
    if i > 0 {
        lemma_path_stays_within(children, stored, path, i - 1);
        assert(children(path[i - 1]).contains(path[i]));
    }
}

/// A download whose workers have all stopped, none of them for an error, and that has left nothing
/// on the queue, has brought the whole trie into the store: the root, and all that is reached from
/// it.
pub proof fn ended_download_has_stored_all<E>(
    children: spec_fn(Digest) -> Set<Digest>,
    root: Digest,
    worker_count: nat,
    stored: Set<Digest>,
    moments: Seq<StoredDownload<E>>,
    rank: spec_fn(Digest) -> nat,
)
    requires
        is_stored_run(children, root, worker_count, stored, moments),
        is_closed(children, stored),
        ranks_by_descent(children, rank),
        moments.last().download.has_ended(),
        !moments.last().download.has_failed(),
        moments.last().download.state.queue.len() == 0,
    ensures
        forall|trie: Digest| #[trigger]
            is_reachable(children, root, trie) ==> moments.last().stored.contains(trie),
        forall|trie: Digest| !moments.last().download.state.awaiting.contains_key(trie),
{
    let last = moments.last();
    store_stays_closed(children, root, worker_count, stored, moments, moments.len() - 1);
    let downloads = lemma_is_run(children, root, worker_count, stored, moments);
    let awaiting = last.download.state.awaiting;
    assert forall|trie: Digest, child: Digest|
        awaiting.contains_key(trie) && #[trigger] awaiting[trie].dependencies.contains(
            child,
        ) implies rank(child) < rank(trie) by {
        assert(children(trie).contains(child));
    }
    assert(ranks_children_below(awaiting, rank));
    ended_download_is_complete(root, worker_count, downloads, rank);
    assert(last.stored.contains(root));
    assert forall|trie: Digest| #[trigger] is_reachable(
        children,
        root,
        trie,
    ) implies last.stored.contains(trie) by {
        let path = choose|path: Seq<Digest>| #[trigger]
            is_path(children, path) && path[0] == root && path.last() == trie;
        lemma_path_stays_within(children, last.stored, path, path.len() - 1);
    }
}

/// A download that ran undisturbed is complete: if there is a worker at all, no worker has run
/// into an error, and no peer lacked the bytes of a trie, then once all workers have stopped
/// nothing is left on the queue, no trie is left waiting, and the root and all that is reached
/// from it are in the store.
pub proof fn undisturbed_download_has_stored_all<E>(
    children: spec_fn(Digest) -> Set<Digest>,
    root: Digest,
    worker_count: nat,
    stored: Set<Digest>,
    moments: Seq<StoredDownload<E>>,
    rank: spec_fn(Digest) -> nat,
)
    requires
        is_stored_run(children, root, worker_count, stored, moments),
        is_closed(children, stored),
        ranks_by_descent(children, rank),
        worker_count > 0,
        moments.last().download.has_ended(),
        !moments.last().download.has_failed(),
        forall|i: int| 0 <= i < moments.len() ==> !(#[trigger] moments[i]).lacks_bytes(),
    ensures
        moments.last().download.state.queue.len() == 0,
        forall|trie: Digest| #[trigger]
            is_reachable(children, root, trie) ==> moments.last().stored.contains(trie),
        forall|trie: Digest| !moments.last().download.state.awaiting.contains_key(trie),
{
    let last = moments.last();
    assert(last.download.state.queue.len() == 0) by {
        if moments.len() == 1 {
            assert(!(last.download.workers[0].state is Stopped));
        } else {
            // The worker that stopped last found the queue empty.
            let before = moments[moments.len() - 2];
            assert(before.moves(children, moments[moments.len() - 2 + 1]));
            let (worker, event) = choose|worker: int, event: WorkerEvent<E>| #[trigger]
                before.steps(children, worker, event, last);
            assert(last.download.workers[worker].state is Stopped);
            assert(!last.download.workers[worker].has_failed());
            assert(!before.lacks_bytes());
            if before.download.has_failed() {
                let failed = choose|failed: int|
                    0 <= failed < before.download.workers.len() && (
                    #[trigger] before.download.workers[failed]).has_failed();
                assert(last.download.workers[failed].has_failed());
            }
        }
    }
    ended_download_has_stored_all(children, root, worker_count, stored, moments, rank);
}

} // verus!
