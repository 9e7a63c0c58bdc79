//! Laws of the queue of jobs over any sequence of calls on the state that the workers share.
use crate::sync_state::SyncStateView;
use crate::types::Digest;
use vstd::multiset::Multiset;
use vstd::prelude::*;

verus! {

/// A call that changes the shared state.
pub enum SyncCall {
    PushJob(Digest),
    NextJob,
    HandleWritten(Digest),
    HandleMissingChildren {
        trie_key: Digest,
        trie_bytes: Seq<u8>,
        missing_children: Seq<Digest>,
    },
}

impl SyncCall {
    /// Whether the call can change the state `before` to `after`.
    pub open spec fn leads(self, before: SyncStateView, after: SyncStateView) -> bool {
        match self {
            SyncCall::PushJob(job) => after == before.with_job(job),
            SyncCall::NextJob => after == before.without_next_job(),
            SyncCall::HandleWritten(written_trie) => before.trie_written_to(written_trie, after),
            SyncCall::HandleMissingChildren { trie_key, trie_bytes, missing_children } => after
                == before.with_missing_children(trie_key, trie_bytes, missing_children),
        }
    }

    /// The jobs that the call queues.
    pub open spec fn queues(self, before: SyncStateView, after: SyncStateView) -> Seq<Digest> {
        match self {
            SyncCall::PushJob(job) => seq![job],
            SyncCall::NextJob => Seq::empty(),
            SyncCall::HandleWritten(_) => after.queue.skip(before.queue.len() as int),
            SyncCall::HandleMissingChildren { missing_children, .. } => missing_children,
        }
    }

    /// The jobs that the call hands out: one at most.
    pub open spec fn hands_out(self, before: SyncStateView) -> Seq<Digest> {
        match self {
            SyncCall::NextJob => match before.upcoming_job() {
                Some(job) => seq![job],
                None => Seq::empty(),
            },
            _ => Seq::empty(),
        }
    }
}

/// Whether `states` are those of a shared state from the start, one call apart. The calls may come
/// from any number of workers, in any order.
pub open spec fn is_call_sequence(calls: Seq<SyncCall>, states: Seq<SyncStateView>) -> bool {
    &&& states.len() == calls.len() + 1
    &&& states[0] == SyncStateView::empty()
    &&& forall|i: int|
        0 <= i < calls.len() ==> (#[trigger] calls[i]).leads(states[i], states[i + 1])
}

/// All jobs that the calls have queued, each as often as it was queued.
pub open spec fn jobs_queued(calls: Seq<SyncCall>, states: Seq<SyncStateView>) -> Multiset<Digest>
    decreases calls.len(),
{
    if calls.len() == 0 {
        Multiset::empty()
    } else {
        jobs_queued(calls.drop_last(), states.drop_last()).add(
            calls.last().queues(states[calls.len() - 1], states.last()).to_multiset(),
        )
    }
}

/// All jobs that the calls have handed out, each as often as it was handed out.
pub open spec fn jobs_handed_out(calls: Seq<SyncCall>, states: Seq<SyncStateView>) -> Multiset<
    Digest,
>
    decreases calls.len(),
{
    if calls.len() == 0 {
        Multiset::empty()
    } else {
        jobs_handed_out(calls.drop_last(), states.drop_last()).add(
            calls.last().hands_out(states[calls.len() - 1]).to_multiset(),
        )
    }
}

/// One call neither loses a job nor hands it out while it stays queued.
pub proof fn call_keeps_jobs(call: SyncCall, before: SyncStateView, after: SyncStateView)
    requires
        call.leads(before, after),
    ensures
        before.queue.to_multiset().add(call.queues(before, after).to_multiset()) == call.hands_out(
            before,
        ).to_multiset().add(after.queue.to_multiset()),
{
    broadcast use vstd::seq_lib::group_to_multiset_ensures;

    let none = Seq::<Digest>::empty();
    assert(none.to_multiset() =~= Multiset::empty());
    match call {
        SyncCall::PushJob(job) => {
            assert(seq![job] =~= none.push(job));
        },
        SyncCall::NextJob => {
            if before.queue.len() > 0 {
                let job = before.queue.last();
                assert(seq![job] =~= none.push(job));
                assert(before.queue =~= before.queue.drop_last().push(job));
            }
        },
        SyncCall::HandleWritten(_) => {
            let n = before.queue.len() as int;
            assert(after.queue =~= before.queue + after.queue.skip(n)) by {
                assert(after.queue =~= after.queue.take(n) + after.queue.skip(n));
            }
            vstd::seq_lib::lemma_multiset_commutative(before.queue, after.queue.skip(n));
        },
        SyncCall::HandleMissingChildren { missing_children, .. } => {
            vstd::seq_lib::lemma_multiset_commutative(before.queue, missing_children);
        },
    }
    assert(before.queue.to_multiset().add(call.queues(before, after).to_multiset())
        =~= call.hands_out(before).to_multiset().add(after.queue.to_multiset()));
}

/// No queued job is lost or handed out twice: whatever calls are made, and in whatever order, the
/// jobs queued so far are those handed out and those still queued, each job counted as often as it
/// occurs.
pub proof fn jobs_are_handed_out_or_queued(calls: Seq<SyncCall>, states: Seq<SyncStateView>)
    requires
        is_call_sequence(calls, states),
    ensures
        jobs_queued(calls, states) == jobs_handed_out(calls, states).add(
            states.last().queue.to_multiset(),
        ),
    decreases calls.len(),
{
    broadcast use vstd::seq_lib::group_to_multiset_ensures;

    if calls.len() == 0 {
        assert(states.last().queue.to_multiset() =~= Multiset::empty());
    } else {
        let (c, s) = (calls.drop_last(), states.drop_last());
        let n = calls.len() - 1;
        assert forall|i: int| 0 <= i < c.len() implies (#[trigger] c[i]).leads(s[i], s[i + 1]) by {
            assert(calls[i].leads(states[i], states[i + 1]));
        }
        jobs_are_handed_out_or_queued(c, s);
        assert(calls[n].leads(states[n], states[n + 1]));
        call_keeps_jobs(calls[n], states[n], states[n + 1]);
        let queued = calls[n].queues(states[n], states[n + 1]).to_multiset();
        let handed_out = calls[n].hands_out(states[n]).to_multiset();
        let (left, left_after) = (s.last().queue.to_multiset(), states.last().queue.to_multiset());
        assert(left.add(queued) == handed_out.add(left_after));
        assert forall|job: Digest|
            jobs_queued(c, s).add(queued).count(job) == #[trigger] jobs_handed_out(c, s).add(
                handed_out,
            ).add(left_after).count(job) by {
            assert(left.add(queued).count(job) == handed_out.add(left_after).count(job));
        }
        assert(jobs_queued(c, s).add(queued) =~= jobs_handed_out(c, s).add(handed_out).add(
            left_after,
        ));
    }
}

} // verus!
