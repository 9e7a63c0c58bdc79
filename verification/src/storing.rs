//! The writes of a block with its deploys, one after the other.
//!
//! Each write of a [`StoragePlan`] takes place only if those before it have succeeded; the first
//! one that fails ends the storing. [`BlockStoring::step`] decides; the program performs each
//! [`StoringAction`] and hands back its outcome.
use crate::blocks::{
    block_is_written_last, deploys_are_put_in_order, leading_ends_at_other_kind,
    sorted_block_is_written, transfers_are_put_in_order, BlockWithDeploys, PutBlockError,
    StoragePlan, StorageWrite,
};
use vstd::prelude::*;

verus! {

/// Why storing a block fails.
#[derive(Debug, PartialEq, Eq)]
pub enum StoringError<E> {
    /// The deploys are not each in their own list.
    Unsorted(PutBlockError),
    /// A write failed for this reason.
    Failed(E),
}

/// What is to be done next.
#[derive(Debug, PartialEq, Eq)]
pub enum StoringAction<E> {
    /// Make the write.
    Write(StorageWrite),
    /// The block has been stored with its deploys.
    Finish,
    /// The block cannot be stored.
    Fail(StoringError<E>),
}

/// A block that is being stored with its deploys.
pub struct BlockStoring {
    plan: StoragePlan,
    written: usize,
    ended: bool,
}

/// A block that is being stored, as mathematical values.
pub struct BlockStoringView {
    /// The writes of the plan.
    pub writes: Seq<StorageWrite>,
    /// What the storing ends with once all writes have succeeded.
    pub result: Result<(), PutBlockError>,
    /// How many writes have succeeded.
    pub written: nat,
    pub ended: bool,
}

impl View for BlockStoring {
    type V = BlockStoringView;

    closed spec fn view(&self) -> BlockStoringView {
        BlockStoringView {
            writes: self.plan.writes@,
            result: self.plan.result,
            written: self.written as nat,
            ended: self.ended,
        }
    }
}

impl BlockStoringView {
    /// The storing of a plan once so many of its writes have succeeded.
    pub open spec fn at(
        writes: Seq<StorageWrite>,
        result: Result<(), PutBlockError>,
        written: nat,
    ) -> BlockStoringView {
        BlockStoringView { writes, result, written, ended: written >= writes.len() }
    }

    /// What is done once so many writes have succeeded: the next write, or else the plan's result.
    pub open spec fn upcoming<E>(self) -> StoringAction<E> {
        if self.written < self.writes.len() {
            StoringAction::Write(self.writes[self.written as int])
        } else {
            match self.result {
                Ok(_) => StoringAction::Finish,
                Err(error) => StoringAction::Fail(StoringError::Unsorted(error)),
            }
        }
    }

    /// The storing after the outcome of a write.
    pub open spec fn after<E>(self, outcome: Result<(), E>) -> BlockStoringView {
        match outcome {
            Ok(_) => Self::at(self.writes, self.result, self.written + 1),
            Err(_) => BlockStoringView { ended: true, ..self },
        }
    }

    /// What is done after the outcome of a write.
    pub open spec fn action<E>(self, outcome: Result<(), E>) -> StoringAction<E> {
        match outcome {
            Ok(_) => self.after(outcome).upcoming(),
            Err(error) => StoringAction::Fail(StoringError::Failed(error)),
        }
    }
}

impl BlockStoring {
    /// Whether no more writes have succeeded than there are, and the storing ends when all have.
    pub closed spec fn well_formed(self) -> bool {
        &&& self.written <= self.plan.writes@.len()
        &&& !self.ended ==> self.written < self.plan.writes@.len()
    }

    /// Starts with the first write of the plan.
    pub fn start<E>(plan: StoragePlan) -> (next: (BlockStoring, StoringAction<E>))
        ensures
            next.0.well_formed(),
            next.0@ == BlockStoringView::at(plan.writes@, plan.result, 0),
            next.1 == BlockStoringView::at(plan.writes@, plan.result, 0).upcoming::<E>(),
    {
        let storing = BlockStoring { ended: plan.writes.len() == 0, plan, written: 0 };
        let action = storing.next_action();
        (storing, action)
    }

    fn next_action<E>(&self) -> (action: StoringAction<E>)
        ensures
            action == self@.upcoming::<E>(),
    {
        if self.written < self.plan.writes.len() {
            StoringAction::Write(self.plan.writes[self.written])
        } else {
            match self.plan.result {
                Ok(_) => StoringAction::Finish,
                Err(error) => StoringAction::Fail(StoringError::Unsorted(error)),
            }
        }
    }

    /// Whether the storing waits for the outcome of a write.
    pub fn is_waiting(&self) -> (waiting: bool)
        ensures
            waiting == !self@.ended,
    {
        !self.ended
    }

    /// Decides what is done after the outcome of a write. A write that fails ends the storing with
    /// its error.
    pub fn step<E>(self, outcome: Result<(), E>) -> (next: (BlockStoring, StoringAction<E>))
        requires
            self.well_formed(),
            !self@.ended,
        ensures
            next.0.well_formed(),
            next.0@ == self@.after(outcome),
            next.1 == self@.action(outcome),
    {
        match outcome {
            Ok(_) => {
                let count: usize = self.plan.writes.len();
                let written: usize = self.written + 1;
                let storing = BlockStoring {
                    ended: written >= count,
                    plan: self.plan,
                    written,
                };
                let action = storing.next_action();
                (storing, action)
            },
            Err(error) => (
                BlockStoring { ended: true, ..self },
                StoringAction::Fail(StoringError::Failed(error)),
            ),
        }
    }
}

/// The storing of a block after the outcomes of so many writes.
pub open spec fn storing_after<B, D, E>(
    block_with_deploys: BlockWithDeploys<B, D>,
    outcomes: Seq<Result<(), E>>,
) -> BlockStoringView
    decreases outcomes.len(),
{
    if outcomes.len() == 0 {
        BlockStoringView::at(block_with_deploys.writes(), block_with_deploys.put_result(), 0)
    } else {
        storing_after(block_with_deploys, outcomes.drop_last()).after(outcomes.last())
    }
}

/// Whether each outcome is one that the storing waits for.
pub open spec fn is_storing<B, D, E>(
    block_with_deploys: BlockWithDeploys<B, D>,
    outcomes: Seq<Result<(), E>>,
) -> bool
    decreases outcomes.len(),
{
    outcomes.len() > 0 ==> {
        &&& is_storing(block_with_deploys, outcomes.drop_last())
        &&& !storing_after(block_with_deploys, outcomes.drop_last()).ended
    }
}

/// The first write that fails ends the storing: all writes before it have succeeded, and no write
/// follows it.
pub proof fn failed_write_ends_storing<B, D, E>(
    block_with_deploys: BlockWithDeploys<B, D>,
    outcomes: Seq<Result<(), E>>,
)
    requires
        is_storing(block_with_deploys, outcomes),
        outcomes.len() > 0,
    ensures
        forall|i: int| 0 <= i < outcomes.len() - 1 ==> (#[trigger] outcomes[i]) is Ok,
        ({
            let before = storing_after(block_with_deploys, outcomes.drop_last());
            &&& before == BlockStoringView::at(
                block_with_deploys.writes(),
                block_with_deploys.put_result(),
                (outcomes.len() - 1) as nat,
            )
            &&& outcomes.last() matches Err(error) ==> {
                &&& storing_after(block_with_deploys, outcomes).ended
                &&& before.action(outcomes.last()) == StoringAction::Fail(
                    StoringError::Failed(error),
                )
            }
        }),
    decreases outcomes.len(),
{
    let before = outcomes.drop_last();
    if before.len() > 0 {
        failed_write_ends_storing(block_with_deploys, before);
        assert(before.last() is Ok);
        assert forall|i: int| 0 <= i < outcomes.len() - 1 implies (
        #[trigger] outcomes[i]) is Ok by {
            if i < before.len() - 1 {
                assert(before[i] is Ok);
            }
        }
    }
}

/// A block counts as stored only whole: every deploy and every transfer is in its own list, all of
/// them have been put, and the block has been written after them.
pub proof fn stored_block_is_whole<B, D, E>(
    block_with_deploys: BlockWithDeploys<B, D>,
    outcomes: Seq<Result<(), E>>,
)
    requires
        is_storing(block_with_deploys, outcomes),
        outcomes.len() > 0,
        storing_after(block_with_deploys, outcomes.drop_last()).action(outcomes.last()) is Finish,
    ensures
        block_with_deploys.is_sorted(),
        forall|i: int| 0 <= i < outcomes.len() ==> (#[trigger] outcomes[i]) is Ok,
        outcomes.len() == block_with_deploys.writes().len(),
        outcomes.len() == block_with_deploys.deploys@.len() + block_with_deploys.transfers@.len()
            + 1,
        block_with_deploys.writes().last() == StorageWrite::WriteBlock,
{
    failed_write_ends_storing(block_with_deploys, outcomes);
    leading_ends_at_other_kind(block_with_deploys.deploys@, false);
    leading_ends_at_other_kind(block_with_deploys.transfers@, true);
}

/// A deploy or transfer that cannot be put keeps the block out of storage: the block is not among
/// the writes that have been made.
pub proof fn failed_put_keeps_block_out<B, D, E>(
    block_with_deploys: BlockWithDeploys<B, D>,
    outcomes: Seq<Result<(), E>>,
    i: int,
)
    requires
        is_storing(block_with_deploys, outcomes),
        outcomes.len() > 0,
        outcomes.last() is Err,
        block_with_deploys.writes()[outcomes.len() - 1] != StorageWrite::WriteBlock,
        0 <= i < outcomes.len(),
    ensures
        block_with_deploys.writes()[i] != StorageWrite::WriteBlock,
{
    failed_write_ends_storing(block_with_deploys, outcomes);
    if block_with_deploys.writes()[i] == StorageWrite::WriteBlock {
        block_is_written_last(block_with_deploys, i);
    }
}

/// Whether a storing of these writes, which are to end with `result`, has come to the moments
/// `storings` and has asked for `actions`, one for each moment, by the outcomes of the writes
/// between them.
pub open spec fn is_storing_run<E>(
    writes: Seq<StorageWrite>,
    result: Result<(), PutBlockError>,
    storings: Seq<BlockStoringView>,
    outcomes: Seq<Result<(), E>>,
    actions: Seq<StoringAction<E>>,
) -> bool {
    &&& storings.len() == outcomes.len() + 1
    &&& actions.len() == outcomes.len() + 1
    &&& storings[0] == BlockStoringView::at(writes, result, 0)
    &&& actions[0] == BlockStoringView::at(writes, result, 0).upcoming::<E>()
    &&& forall|i: int|
        0 <= i < outcomes.len() ==> {
            &&& !(#[trigger] storings[i]).ended
            &&& storings[i + 1] == storings[i].after(outcomes[i])
            &&& actions[i + 1] == storings[i].action(outcomes[i])
        }
}

/// The writes are asked for one after the other: once the first `k` of them have succeeded, the
/// next one is, or else the storing ends with the result that was planned.
pub proof fn writes_follow_the_plan<E>(
    writes: Seq<StorageWrite>,
    result: Result<(), PutBlockError>,
    storings: Seq<BlockStoringView>,
    outcomes: Seq<Result<(), E>>,
    actions: Seq<StoringAction<E>>,
    k: int,
)
    requires
        is_storing_run(writes, result, storings, outcomes, actions),
        0 <= k <= outcomes.len(),
        forall|i: int| 0 <= i < k ==> (#[trigger] outcomes[i]) is Ok,
    ensures
        k <= writes.len(),
        k < writes.len() ==> {
            &&& !storings[k].ended
            &&& actions[k] matches StoringAction::Write(write) && write == writes[k]
        },
        k == writes.len() ==> {
            &&& storings[k].ended
            &&& k == outcomes.len()
            &&& match result {
                Ok(_) => actions[k] is Finish,
                Err(error) => actions[k] matches StoringAction::Fail(StoringError::Unsorted(e))
                    && e == error,
            }
        },
        storings[k] == (BlockStoringView {
            writes,
            result,
            written: k as nat,
            ended: k == writes.len(),
        }),
    decreases k,
{
    if k > 0 {
        writes_follow_the_plan(writes, result, storings, outcomes, actions, k - 1);
        assert(!storings[k - 1].ended);
        assert(storings[k - 1 + 1] == storings[k - 1].after(outcomes[k - 1]));
        assert(actions[k - 1 + 1] == storings[k - 1].action(outcomes[k - 1]));
    }
    if k < outcomes.len() {
        assert(!storings[k].ended);
    }
}

/// The first write that fails is the last one asked for, and the storing fails with its error.
pub proof fn failed_write_is_the_last<E>(
    writes: Seq<StorageWrite>,
    result: Result<(), PutBlockError>,
    storings: Seq<BlockStoringView>,
    outcomes: Seq<Result<(), E>>,
    actions: Seq<StoringAction<E>>,
    k: int,
)
    requires
        is_storing_run(writes, result, storings, outcomes, actions),
        0 <= k < outcomes.len(),
        outcomes[k] is Err,
        forall|i: int| 0 <= i < k ==> (#[trigger] outcomes[i]) is Ok,
    ensures
        k == outcomes.len() - 1,
        storings[k + 1].ended,
        actions[k + 1] matches StoringAction::Fail(StoringError::Failed(error)) && error
            == outcomes[k]->Err_0,
{
    writes_follow_the_plan(writes, result, storings, outcomes, actions, k);
    assert(!storings[k].ended);
    if k + 1 < outcomes.len() {
        assert(!storings[k + 1].ended);
    }
}

/// A block with its deploys and transfers each in their own list is stored by putting every deploy,
/// then every transfer, then writing the block; as long as the writes succeed these are asked for
/// in this order, and only behind all of them does the storing end well.
pub proof fn sorted_block_is_stored_in_order<B, D, E>(
    block_with_deploys: BlockWithDeploys<B, D>,
    storings: Seq<BlockStoringView>,
    outcomes: Seq<Result<(), E>>,
    actions: Seq<StoringAction<E>>,
    k: int,
)
    requires
        is_storing_run(
            block_with_deploys.writes(),
            block_with_deploys.put_result(),
            storings,
            outcomes,
            actions,
        ),
        forall|i: int|
            0 <= i < block_with_deploys.deploys@.len() ==> (
            #[trigger] block_with_deploys.deploys@[i]).deploy_or_transfer_hash is Deploy,
        forall|i: int|
            0 <= i < block_with_deploys.transfers@.len() ==> (
            #[trigger] block_with_deploys.transfers@[i]).deploy_or_transfer_hash is Transfer,
        0 <= k <= outcomes.len(),
        forall|i: int| 0 <= i < k ==> (#[trigger] outcomes[i]) is Ok,
    ensures
        ({
            let deploy_count = block_with_deploys.deploys@.len();
            let transfer_count = block_with_deploys.transfers@.len();
            &&& k <= deploy_count + transfer_count + 1
            &&& if k < deploy_count {
                actions[k] matches StoringAction::Write(StorageWrite::PutDeploy(index)) && index
                    == k
            } else if k < deploy_count + transfer_count {
                actions[k] matches StoringAction::Write(StorageWrite::PutTransfer(index)) && index
                    == k - deploy_count
            } else if k == deploy_count + transfer_count {
                actions[k] matches StoringAction::Write(StorageWrite::WriteBlock)
            } else {
                actions[k] is Finish
            }
        }),
{
    let deploy_count = block_with_deploys.deploys@.len();
    let transfer_count = block_with_deploys.transfers@.len();
    writes_follow_the_plan(
        block_with_deploys.writes(),
        block_with_deploys.put_result(),
        storings,
        outcomes,
        actions,
        k,
    );
    sorted_block_is_written(block_with_deploys);
    if k < deploy_count {
        deploys_are_put_in_order(block_with_deploys, k);
    } else if k < deploy_count + transfer_count {
        transfers_are_put_in_order(block_with_deploys, k - deploy_count);
    }
}

} // verus!
