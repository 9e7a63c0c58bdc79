//! The state that the workers of a trie download share.
use crate::tries::{lists_ready, trie_written, AwaitingTrie, TriesAwaitingChildren};
use crate::types::{Digest, TrieRaw};
use vstd::prelude::*;

verus! {

/// The shared state as mathematical values.
pub struct SyncStateView {
    /// The jobs that no worker has taken yet. The last one is taken first.
    pub queue: Seq<Digest>,
    /// The tries that wait for their children.
    pub awaiting: Map<Digest, AwaitingTrie>,
}

impl SyncStateView {
    /// Nothing to do.
    pub open spec fn empty() -> SyncStateView {
        SyncStateView { queue: Seq::empty(), awaiting: Map::empty() }
    }

    /// The state once `job` has been queued.
    pub open spec fn with_job(self, job: Digest) -> SyncStateView {
        SyncStateView { queue: self.queue.push(job), ..self }
    }

    /// The state once the next job has been taken.
    pub open spec fn without_next_job(self) -> SyncStateView {
        SyncStateView {
            queue: if self.queue.len() > 0 {
                self.queue.drop_last()
            } else {
                self.queue
            },
            ..self
        }
    }

    /// The job that is taken next.
    pub open spec fn upcoming_job(self) -> Option<Digest> {
        if self.queue.len() > 0 {
            Some(self.queue.last())
        } else {
            None
        }
    }

    /// Whether `after` is a state in which the write of `written_trie` has been taken note of: it
    /// waits no more, nothing waits for it, and every trie that waits for no child is queued, in
    /// any order, behind what was queued before.
    pub open spec fn trie_written_to(self, written_trie: Digest, after: SyncStateView) -> bool {
        &&& after.awaiting == trie_written(self.awaiting, written_trie)
        &&& self.queue.len() <= after.queue.len()
        &&& after.queue.take(self.queue.len() as int) == self.queue
        &&& lists_ready(after.awaiting, after.queue.skip(self.queue.len() as int))
    }

    /// The state once the trie under `trie_key` waits for `missing_children`, all of which are
    /// queued.
    pub open spec fn with_missing_children(
        self,
        trie_key: Digest,
        trie_bytes: Seq<u8>,
        missing_children: Seq<Digest>,
    ) -> SyncStateView {
        SyncStateView {
            queue: self.queue + missing_children,
            awaiting: self.awaiting.insert(
                trie_key,
                AwaitingTrie { trie_bytes, dependencies: missing_children.to_set() },
            ),
        }
    }

    /// Whether `after` is a state in which the outcome of `job` has been taken note of.
    pub open spec fn job_recorded(
        self,
        job: Digest,
        result: FetchAndStoreResult,
        after: SyncStateView,
    ) -> bool {
        match result {
            FetchAndStoreResult::Written(written_trie) => self.trie_written_to(written_trie, after),
            FetchAndStoreResult::MissingChildren { trie_raw, missing_children } => after
                == self.with_missing_children(job, trie_raw@, missing_children@),
            FetchAndStoreResult::NoBytes => after == self.with_job(job),
        }
    }
}

/// What came of the attempt to fetch a trie and to store it.
pub enum FetchAndStoreResult {
    /// The trie has been stored under this key.
    Written(Digest),
    /// The trie cannot be stored before these children.
    MissingChildren { trie_raw: TrieRaw, missing_children: Vec<Digest> },
    /// The peer had no bytes for the trie.
    NoBytes,
}

/// The tries that wait for their children, and the jobs that no worker has taken yet.
pub struct SyncStateInner {
    tries_awaiting_children: TriesAwaitingChildren,
    process_queue: Vec<Digest>,
}

impl View for SyncStateInner {
    type V = SyncStateView;

    closed spec fn view(&self) -> SyncStateView {
        SyncStateView { queue: self.process_queue@, awaiting: self.tries_awaiting_children@ }
    }
}

/// A copy of the bytes.
pub(crate) fn copy_bytes(bytes: &Vec<u8>) -> (copy: Vec<u8>)
    ensures
        copy@ == bytes@,
{
    let copy = bytes.clone();
    assert(copy@ =~= bytes@);
    copy
}

impl SyncStateInner {
    /// Whether no trie waits twice.
    pub closed spec fn well_formed(self) -> bool {
        self.tries_awaiting_children.well_formed()
    }

    /// Nothing to do.
    pub fn new() -> (state: Self)
        ensures
            state.well_formed(),
            state@ == SyncStateView::empty(),
    {
        SyncStateInner {
            tries_awaiting_children: TriesAwaitingChildren::new(),
            process_queue: Vec::new(),
        }
    }

    /// Queues a job.
    pub fn push_job(&mut self, job: Digest)
        requires
            old(self).well_formed(),
        ensures
            final(self).well_formed(),
            final(self)@ == old(self)@.with_job(job),
    {
        self.process_queue.push(job);
    }

    /// Takes the job that was queued last.
    pub fn next_job(&mut self) -> (job: Option<Digest>)
        requires
            old(self).well_formed(),
        ensures
            final(self).well_formed(),
            final(self)@ == old(self)@.without_next_job(),
            job == old(self)@.upcoming_job(),
    {
        self.process_queue.pop()
    }

    /// Takes note that a trie has been written, and queues every trie that waits for no child.
    pub fn handle_written(&mut self, written_trie: Digest)
        requires
            old(self).well_formed(),
        ensures
            final(self).well_formed(),
            old(self)@.trie_written_to(written_trie, final(self)@),
    {
        let mut ready = self.tries_awaiting_children.handle_written(written_trie);
        let ghost keys = ready@;
        self.process_queue.append(&mut ready);
        assert(self@.queue.take(old(self)@.queue.len() as int) =~= old(self)@.queue);
        assert(self@.queue.skip(old(self)@.queue.len() as int) =~= keys);
    }

    /// Lets a trie wait for its missing children, and queues those.
    pub fn handle_missing_children(
        &mut self,
        trie_key: Digest,
        trie_raw: TrieRaw,
        missing_children: Vec<Digest>,
    )
        requires
            old(self).well_formed(),
        ensures
            final(self).well_formed(),
            final(self)@ == old(self)@.with_missing_children(
                trie_key,
                trie_raw@,
                missing_children@,
            ),
    {
        let mut children = self.tries_awaiting_children.handle_missing_children(
            trie_key,
            trie_raw,
            missing_children,
        );
        self.process_queue.append(&mut children);
    }

    /// The serialized trie that waits under the key, if one does.
    pub fn get_awaiting(&self, trie_key: &Digest) -> (trie_bytes: Option<Vec<u8>>)
        requires
            self.well_formed(),
        ensures
            match trie_bytes {
                Some(bytes) => self@.awaiting.contains_key(*trie_key) && bytes@
                    == self@.awaiting[*trie_key].trie_bytes,
                None => !self@.awaiting.contains_key(*trie_key),
            },
    {
        match self.tries_awaiting_children.get(trie_key) {
            Some(bytes) => Some(copy_bytes(bytes)),
            None => None,
        }
    }

    /// Takes note of what came of a job, and says whether the worker goes on. A worker whose peer
    /// had no bytes puts the job back for another worker and stops.
    pub fn record_result(&mut self, job: Digest, result: FetchAndStoreResult) -> (go_on: bool)
        requires
            old(self).well_formed(),
        ensures
            final(self).well_formed(),
            old(self)@.job_recorded(job, result, final(self)@),
            go_on == !(result is NoBytes),
    {
        match result {
            FetchAndStoreResult::Written(written_trie) => {
                self.handle_written(written_trie);
                true
            },
            FetchAndStoreResult::MissingChildren { trie_raw, missing_children } => {
                self.handle_missing_children(job, trie_raw, missing_children);
                true
            },
            FetchAndStoreResult::NoBytes => {
                self.push_job(job);
                false
            },
        }
    }
}

} // verus!
