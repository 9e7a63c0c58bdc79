//! What a worker of a trie download does next.
//!
//! A worker takes a job from the shared queue, obtains the serialized trie, from the tries that
//! wait for their children or else from its peer, hands it to the trie store, and records what
//! came of it. [`WorkerState::step`] decides; the program performs each [`WorkerAction`] and
//! hands back the [`WorkerEvent`].
use crate::sync_state::{copy_bytes, FetchAndStoreResult};
use crate::types::{Digest, GetTrieParams, TrieRaw};
use vstd::prelude::*;
use vstd::string::*;

verus! {

/// The reply of the trie store to a serialized trie.
pub enum StoreReply<E> {
    /// The trie has been stored under this key.
    Written(Digest),
    /// These children of the trie are not in the store.
    MissingChildren(Vec<Digest>),
    /// The store failed.
    Failed(E),
}

/// Why a worker gave up.
pub enum WorkerError<E> {
    /// The request for a trie failed.
    GetTrie { message: String },
    /// The trie store failed.
    Store(E),
}

/// What a worker waits for.
pub enum WorkerState {
    /// A job.
    Idle,
    /// The serialized trie of the job, if it waits for its children.
    LookingUp { job: Digest },
    /// The serialized trie of the job, from the peer.
    Fetching { job: Digest },
    /// The reply of the trie store.
    Storing { job: Digest, trie_bytes: Vec<u8> },
    /// The outcome of the job to be recorded.
    Recording,
    /// Nothing any more.
    Stopped,
}

/// What has happened since the last action.
pub enum WorkerEvent<E> {
    /// The queue gave out its next job, or was empty. `another_failed` says whether another worker
    /// has reported an error by then.
    JobTaken { job: Option<Digest>, another_failed: bool },
    /// The trie of the job was looked up among those that wait for their children.
    LookedUp(Option<Vec<u8>>),
    /// The peer replied: with the trie, with no bytes, or with an error, given as text.
    TrieReceived(Result<Option<Vec<u8>>, String>),
    /// The trie store replied.
    Stored(StoreReply<E>),
    /// The outcome of the job was recorded. `go_on` says whether the worker goes on.
    Recorded { go_on: bool },
}

/// What is to be done next.
pub enum WorkerAction<E> {
    /// Take the next job from the queue.
    TakeJob,
    /// Look the job up among the tries that wait for their children.
    LookUp { job: Digest },
    /// Request the trie from the peer.
    GetTrie { params: GetTrieParams },
    /// Count `downloaded` bytes, then hand the trie to the trie store.
    StoreTrie { trie_bytes: Vec<u8>, downloaded: usize },
    /// Record the outcome of the job in the shared state.
    Record { job: Digest, result: FetchAndStoreResult },
    /// Report the error, then stop.
    ReportError(WorkerError<E>),
    /// Stop.
    Stop,
}

impl WorkerState {
    /// The job that the worker has taken and not handed on.
    pub open spec fn job(self) -> Option<Digest> {
        match self {
            WorkerState::LookingUp { job } => Some(job),
            WorkerState::Fetching { job } => Some(job),
            WorkerState::Storing { job, .. } => Some(job),
            _ => None,
        }
    }

    /// Whether the event is of the kind that the worker waits for.
    pub open spec fn expects<E>(self, event: WorkerEvent<E>) -> bool {
        match self {
            WorkerState::Idle => event is JobTaken,
            WorkerState::LookingUp { .. } => event is LookedUp,
            WorkerState::Fetching { .. } => event is TrieReceived,
            WorkerState::Storing { .. } => event is Stored,
            WorkerState::Recording => event is Recorded,
            WorkerState::Stopped => false,
        }
    }
}

/// Whether the worker hands `bytes` to the trie store.
pub open spec fn stores_trie<E>(
    job: Digest,
    bytes: Seq<u8>,
    downloaded: nat,
    after: WorkerState,
    action: WorkerAction<E>,
) -> bool {
    &&& after matches WorkerState::Storing { job: j, trie_bytes } && j == job && trie_bytes@
        == bytes
    &&& action matches WorkerAction::StoreTrie { trie_bytes: b, downloaded: d } && b@ == bytes
        && d == downloaded
}

/// Whether the worker has the outcome of `job` recorded.
pub open spec fn records<E>(
    job: Digest,
    result: FetchAndStoreResult,
    after: WorkerState,
    action: WorkerAction<E>,
) -> bool {
    after == WorkerState::Recording && action == (WorkerAction::<E>::Record { job, result })
}

/// Whether a worker that is in the state `before` when `event` happens goes over to `after` and
/// does `action` next.
pub open spec fn worker_transition<E>(
    before: WorkerState,
    event: WorkerEvent<E>,
    after: WorkerState,
    action: WorkerAction<E>,
) -> bool {
    match (before, event) {
        // An empty queue ends the worker, and so does the failure of another one.
        (WorkerState::Idle, WorkerEvent::JobTaken { job, another_failed }) => match job {
            Some(job) if !another_failed => after == (WorkerState::LookingUp { job }) && action == (
            WorkerAction::<E>::LookUp { job }),
            _ => after == WorkerState::Stopped && action == WorkerAction::<E>::Stop,
        },
        // A trie that waited need not be fetched again.
        (WorkerState::LookingUp { job }, WorkerEvent::LookedUp(waiting)) => match waiting {
            Some(bytes) => stores_trie(job, bytes@, 0, after, action),
            None => after == (WorkerState::Fetching { job }) && action == (
            WorkerAction::<E>::GetTrie { params: GetTrieParams { trie_key: job } }),
        },
        (WorkerState::Fetching { job }, WorkerEvent::TrieReceived(reply)) => match reply {
            Ok(Some(bytes)) => stores_trie(job, bytes@, bytes@.len(), after, action),
            Ok(None) => records(job, FetchAndStoreResult::NoBytes, after, action),
            Err(error) => {
                &&& after == WorkerState::Stopped
                &&& action matches WorkerAction::ReportError(WorkerError::GetTrie { message })
                    && message@ == "error in get_trie "@ + error@
            },
        },
        (WorkerState::Storing { job, trie_bytes }, WorkerEvent::Stored(reply)) => match reply {
            StoreReply::Written(written_trie) => records(
                job,
                FetchAndStoreResult::Written(written_trie),
                after,
                action,
            ),
            StoreReply::MissingChildren(missing_children) => {
                &&& after == WorkerState::Recording
                &&& action matches WorkerAction::Record {
                    job: j,
                    result: FetchAndStoreResult::MissingChildren { trie_raw, missing_children: m },
                } && j == job && trie_raw@ == trie_bytes@ && m == missing_children
            },
            StoreReply::Failed(error) => after == WorkerState::Stopped && action
                == WorkerAction::ReportError(WorkerError::Store(error)),
        },
        (WorkerState::Recording, WorkerEvent::Recorded { go_on }) => if go_on {
            after == WorkerState::Idle && action == WorkerAction::<E>::TakeJob
        } else {
            after == WorkerState::Stopped && action == WorkerAction::<E>::Stop
        },
        _ => false,
    }
}

/// Hands a copy of the trie to the trie store and keeps the trie.
fn store_trie<E>(job: Digest, trie_bytes: Vec<u8>, downloaded: usize) -> (next: (
    WorkerState,
    WorkerAction<E>,
))
    ensures
        stores_trie(job, trie_bytes@, downloaded as nat, next.0, next.1),
{
    let copy = copy_bytes(&trie_bytes);
    (
        WorkerState::Storing { job, trie_bytes },
        WorkerAction::StoreTrie { trie_bytes: copy, downloaded },
    )
}

impl WorkerState {
    /// A worker starts by taking a job.
    pub fn start<E>() -> (next: (WorkerState, WorkerAction<E>))
        ensures
            next == (WorkerState::Idle, WorkerAction::<E>::TakeJob),
    {
        (WorkerState::Idle, WorkerAction::TakeJob)
    }

    /// Whether the event is of the kind that the worker waits for.
    pub fn accepts<E>(&self, event: &WorkerEvent<E>) -> (accepted: bool)
        ensures
            accepted == self.expects(*event),
            accepted == match *self {
                WorkerState::Idle => event is JobTaken,
                WorkerState::LookingUp { .. } => event is LookedUp,
                WorkerState::Fetching { .. } => event is TrieReceived,
                WorkerState::Storing { .. } => event is Stored,
                WorkerState::Recording => event is Recorded,
                WorkerState::Stopped => false,
            },
    {
        match (self, event) {
            (WorkerState::Idle, WorkerEvent::JobTaken { .. }) => true,
            (WorkerState::LookingUp { .. }, WorkerEvent::LookedUp(_)) => true,
            (WorkerState::Fetching { .. }, WorkerEvent::TrieReceived(_)) => true,
            (WorkerState::Storing { .. }, WorkerEvent::Stored(_)) => true,
            (WorkerState::Recording, WorkerEvent::Recorded { .. }) => true,
            _ => false,
        }
    }

    /// Decides what the worker waits for and does next.
    pub fn step<E>(self, event: WorkerEvent<E>) -> (next: (WorkerState, WorkerAction<E>))
        requires
            self.expects(event),
        ensures
            worker_transition(self, event, next.0, next.1),
            event matches WorkerEvent::LookedUp(Some(bytes)) ==> {
                &&& next.1 matches WorkerAction::StoreTrie { trie_bytes, downloaded }
                &&& trie_bytes@ == bytes@
                &&& downloaded == 0
            },
            event matches WorkerEvent::TrieReceived(Ok(Some(bytes))) ==> {
                &&& next.1 matches WorkerAction::StoreTrie { trie_bytes, downloaded }
                &&& trie_bytes@ == bytes@
                &&& downloaded == bytes@.len()
            },
            event matches WorkerEvent::Stored(StoreReply::Failed(error)) ==> next.1
                == WorkerAction::ReportError(WorkerError::Store(error)),
    {
        match (self, event) {
            (WorkerState::Idle, WorkerEvent::JobTaken { job, another_failed }) => match job {
                Some(job) if !another_failed => (
                    WorkerState::LookingUp { job },
                    WorkerAction::LookUp { job },
                ),
                _ => (WorkerState::Stopped, WorkerAction::Stop),
            },
            (WorkerState::LookingUp { job }, WorkerEvent::LookedUp(waiting)) => match waiting {
                Some(bytes) => store_trie(job, bytes, 0),
                None => (
                    WorkerState::Fetching { job },
                    WorkerAction::GetTrie { params: GetTrieParams { trie_key: job } },
                ),
            },
            (WorkerState::Fetching { job }, WorkerEvent::TrieReceived(reply)) => match reply {
                Ok(Some(bytes)) => {
                    let downloaded: usize = bytes.len();
                    store_trie(job, bytes, downloaded)
                },
                Ok(None) => (
                    WorkerState::Recording,
                    WorkerAction::Record { job, result: FetchAndStoreResult::NoBytes },
                ),
                Err(error) => {
                    let message = "error in get_trie ".to_string().concat(error.as_str());
                    (
                        WorkerState::Stopped,
                        WorkerAction::ReportError(WorkerError::GetTrie { message }),
                    )
                },
            },
            (WorkerState::Storing { job, trie_bytes }, WorkerEvent::Stored(reply)) => match reply {
                StoreReply::Written(written_trie) => (
                    WorkerState::Recording,
                    WorkerAction::Record {
                        job,
                        result: FetchAndStoreResult::Written(written_trie),
                    },
                ),
                StoreReply::MissingChildren(missing_children) => {
                    let trie_raw = TrieRaw::new(trie_bytes);
                    (
                        WorkerState::Recording,
                        WorkerAction::Record {
                            job,
                            result: FetchAndStoreResult::MissingChildren {
                                trie_raw,
                                missing_children,
                            },
                        },
                    )
                },
                StoreReply::Failed(error) => (
                    WorkerState::Stopped,
                    WorkerAction::ReportError(WorkerError::Store(error)),
                ),
            },
            (WorkerState::Recording, WorkerEvent::Recorded { go_on }) => if go_on {
                (WorkerState::Idle, WorkerAction::TakeJob)
            } else {
                (WorkerState::Stopped, WorkerAction::Stop)
            },
            _ => (WorkerState::Stopped, WorkerAction::Stop),
        }
    }
}

/// A job that a worker has taken is not lost: with each event that the worker waits for, it either
/// goes on with that job, or has the outcome of that job recorded, or reports an error.
pub proof fn worker_keeps_its_job<E>(
    before: WorkerState,
    event: WorkerEvent<E>,
    after: WorkerState,
    action: WorkerAction<E>,
)
    requires
        before.job() is Some,
        worker_transition(before, event, after, action),
    ensures
        ({
            ||| after.job() == before.job()
            ||| action matches WorkerAction::Record { job, .. } && Some(job) == before.job()
            ||| action is ReportError
        }),
{
}

/// A worker waits for whatever can come of what it does, and for nothing else.
pub proof fn worker_awaits_every_outcome<E>(state: WorkerState, event: WorkerEvent<E>)
    ensures
        state.expects(event) <==> match event {
            WorkerEvent::JobTaken { .. } => state is Idle,
            WorkerEvent::LookedUp(_) => state is LookingUp,
            WorkerEvent::TrieReceived(_) => state is Fetching,
            WorkerEvent::Stored(_) => state is Storing,
            WorkerEvent::Recorded { .. } => state is Recording,
        },
{
}

/// A worker that is given a job looks it up; one that finds the queue empty, or hears that another
/// worker has failed, stops.
pub proof fn worker_starts_on_its_job<E>(
    job: Option<Digest>,
    another_failed: bool,
    after: WorkerState,
    action: WorkerAction<E>,
)
    requires
        worker_transition(
            WorkerState::Idle,
            WorkerEvent::JobTaken { job, another_failed },
            after,
            action,
        ),
    ensures
        job is None || another_failed ==> after is Stopped && action is Stop,
        job is Some && !another_failed ==> {
            &&& after matches WorkerState::LookingUp { job: looked_up } && Some(looked_up) == job
            &&& action matches WorkerAction::LookUp { job: looked_up } && Some(looked_up) == job
        },
{
}

/// A trie that waits is not requested: its bytes go to the store as they are, and none of them
/// counts as downloaded. Any other trie is requested from the peer, under the key of the job.
pub proof fn worker_requests_only_what_does_not_wait<E>(
    job: Digest,
    waiting: Option<Vec<u8>>,
    after: WorkerState,
    action: WorkerAction<E>,
)
    requires
        worker_transition(
            WorkerState::LookingUp { job },
            WorkerEvent::LookedUp(waiting),
            after,
            action,
        ),
    ensures
        waiting matches Some(bytes) ==> {
            &&& action matches WorkerAction::StoreTrie { trie_bytes, downloaded } && trie_bytes@
                == bytes@ && downloaded == 0
            &&& after matches WorkerState::Storing { job: kept, trie_bytes: bytes_kept } && kept
                == job && bytes_kept@ == bytes@
        },
        waiting is None ==> {
            &&& action matches WorkerAction::GetTrie { params } && params.trie_key == job
            &&& after matches WorkerState::Fetching { job: kept } && kept == job
        },
{
}

/// What the peer sends goes to the store byte for byte, and counts as downloaded in full. A peer
/// without bytes is recorded as such; an error of the request is reported, with its text.
pub proof fn worker_hands_on_what_it_receives<E>(
    job: Digest,
    reply: Result<Option<Vec<u8>>, String>,
    after: WorkerState,
    action: WorkerAction<E>,
)
    requires
        worker_transition(
            WorkerState::Fetching { job },
            WorkerEvent::TrieReceived(reply),
            after,
            action,
        ),
    ensures
        reply matches Ok(Some(bytes)) ==> {
            &&& action matches WorkerAction::StoreTrie { trie_bytes, downloaded } && trie_bytes@
                == bytes@ && downloaded == bytes@.len()
            &&& after matches WorkerState::Storing { job: kept, trie_bytes: bytes_kept } && kept
                == job && bytes_kept@ == bytes@
        },
        reply matches Ok(None) ==> {
            &&& after is Recording
            &&& action matches WorkerAction::Record { job: recorded, result } && recorded == job
                && result is NoBytes
        },
        reply matches Err(text) ==> {
            &&& after is Stopped
            &&& action matches WorkerAction::ReportError(WorkerError::GetTrie { message })
                && message@ == "error in get_trie "@ + text@
        },
{
}

/// Whatever bytes it holds, a worker records for its job what the store replies: the key under
/// which the trie was written, or the children that are missing, along with the bytes that it had
/// offered. If the store fails, it reports that error and stops.
pub proof fn worker_takes_the_store_at_its_word<E>(
    job: Digest,
    bytes: Vec<u8>,
    reply: StoreReply<E>,
    after: WorkerState,
    action: WorkerAction<E>,
)
    requires
        worker_transition(
            WorkerState::Storing { job, trie_bytes: bytes },
            WorkerEvent::Stored(reply),
            after,
            action,
        ),
    ensures
        reply matches StoreReply::Written(key) ==> {
            &&& after is Recording
            &&& action matches WorkerAction::Record {
                job: recorded,
                result: FetchAndStoreResult::Written(written_trie),
            } && recorded == job && written_trie == key
        },
        reply matches StoreReply::MissingChildren(named) ==> {
            &&& after is Recording
            &&& action matches WorkerAction::Record {
                job: recorded,
                result: FetchAndStoreResult::MissingChildren { trie_raw, missing_children },
            } && recorded == job && trie_raw@ == bytes@ && missing_children@ == named@
        },
        reply matches StoreReply::Failed(error) ==> {
            &&& after is Stopped
            &&& action matches WorkerAction::ReportError(WorkerError::Store(reported)) && reported
                == error
        },
{
}

/// Once the outcome of its job is recorded, a worker takes the next job, unless it is told not to
/// go on.
pub proof fn worker_goes_on_when_told<E>(
    go_on: bool,
    after: WorkerState,
    action: WorkerAction<E>,
)
    requires
        worker_transition(WorkerState::Recording, WorkerEvent::Recorded { go_on }, after, action),
    ensures
        go_on ==> after is Idle && action is TakeJob,
        !go_on ==> after is Stopped && action is Stop,
{
}

/// Whatever the state of a worker, it hands to the store only bytes that it has just been given;
/// it records no outcome but the one that it has just learnt, so that a peer counts as lacking a
/// trie only if it said so; and it reports only an error that it has just run into.
pub proof fn worker_makes_nothing_up<E>(
    before: WorkerState,
    event: WorkerEvent<E>,
    after: WorkerState,
    action: WorkerAction<E>,
)
    requires
        worker_transition(before, event, after, action),
    ensures
        match action {
            WorkerAction::TakeJob => event matches WorkerEvent::Recorded { go_on } && go_on,
            WorkerAction::LookUp { job } => event matches WorkerEvent::JobTaken { job: taken, .. }
                && taken == Some(job),
            WorkerAction::GetTrie { params } => {
                &&& event matches WorkerEvent::LookedUp(None)
                &&& before matches WorkerState::LookingUp { job } && job == params.trie_key
            },
            WorkerAction::StoreTrie { trie_bytes, .. } => match event {
                WorkerEvent::LookedUp(Some(bytes)) => trie_bytes@ == bytes@,
                WorkerEvent::TrieReceived(Ok(Some(bytes))) => trie_bytes@ == bytes@,
                _ => false,
            },
            WorkerAction::Record { result, .. } => match result {
                FetchAndStoreResult::Written(written_trie) => {
                    &&& event matches WorkerEvent::Stored(StoreReply::Written(key))
                    &&& key == written_trie
                },
                FetchAndStoreResult::MissingChildren { missing_children, .. } => {
                    &&& event matches WorkerEvent::Stored(StoreReply::MissingChildren(named))
                    &&& named@ == missing_children@
                },
                FetchAndStoreResult::NoBytes => event matches WorkerEvent::TrieReceived(Ok(None)),
            },
            WorkerAction::ReportError(reported) => match event {
                WorkerEvent::TrieReceived(Err(_)) => reported is GetTrie,
                WorkerEvent::Stored(StoreReply::Failed(error)) => reported == WorkerError::Store(
                    error,
                ),
                _ => false,
            },
            WorkerAction::Stop => match event {
                WorkerEvent::JobTaken { job, another_failed } => job is None || another_failed,
                WorkerEvent::Recorded { go_on } => !go_on,
                _ => false,
            },
        },
{
}

} // verus!
