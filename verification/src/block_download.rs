//! Download of a block with its transfers and deploys.
//!
//! The block is requested first, then each of its transfers and then each of its deploys. The
//! first request that fails ends the download. [`BlockDownload::step`] decides; the program
//! performs each [`DownloadAction`] and hands back the [`DownloadEvent`].
use crate::blocks::{BlockWithDeploys, Deploy, GetBlockResult, JsonBlock};
use crate::types::{BlockHash, BlockIdentifier, DeployHash, GetBlockParams, GetDeployParams};
use vstd::prelude::*;

verus! {

/// What has happened since the last action. `E` is why a request failed.
#[derive(Debug, PartialEq, Eq)]
pub enum DownloadEvent<B, D, E> {
    /// The node replied to the request for the block.
    BlockReceived(Result<GetBlockResult<B>, E>),
    /// The node replied to the request for a deploy.
    DeployReceived(Result<Deploy<D>, E>),
}

/// What is to be done next.
#[derive(Debug, PartialEq, Eq)]
pub enum DownloadAction<B, D, E> {
    /// Request the block.
    RequestBlock(Option<GetBlockParams>),
    /// Request the deploy.
    RequestDeploy(GetDeployParams),
    /// The download is over: this is the block with all that it holds.
    Finish(BlockWithDeploys<B, D>),
    /// The download is over, with the error of the request that failed.
    Fail(E),
}

enum DownloadState<B, D> {
    RequestingBlock,
    RequestingDeploys {
        block: JsonBlock<B>,
        transfers: Vec<Deploy<D>>,
        deploys: Vec<Deploy<D>>,
    },
    Ended,
}

/// A download of a block with its transfers and deploys.
pub struct BlockDownload<B, D> {
    state: DownloadState<B, D>,
}

/// What a download of a block waits for.
pub enum BlockDownloadView<B, D> {
    /// The block.
    RequestingBlock,
    /// The next deploy of the block. Those before it have been received, in the order in which
    /// they were requested.
    RequestingDeploys { block: JsonBlock<B>, received: Seq<Deploy<D>> },
    /// Nothing any more.
    Ended,
}

impl<B, D> View for BlockDownload<B, D> {
    type V = BlockDownloadView<B, D>;

    closed spec fn view(&self) -> BlockDownloadView<B, D> {
        match self.state {
            DownloadState::RequestingBlock => BlockDownloadView::RequestingBlock,
            DownloadState::RequestingDeploys {
                block,
                transfers,
                deploys,
            } => BlockDownloadView::RequestingDeploys { block, received: transfers@ + deploys@ },
            DownloadState::Ended => BlockDownloadView::Ended,
        }
    }
}

impl<B, D> BlockDownloadView<B, D> {
    /// Whether the event is of the kind that the download waits for. A reply to the request for
    /// the block has to hold it.
    pub open spec fn expects<E>(self, event: DownloadEvent<B, D, E>) -> bool {
        match (self, event) {
            (BlockDownloadView::RequestingBlock, DownloadEvent::BlockReceived(reply)) =>
                reply matches Ok(reply) ==> reply.block is Some,
            (BlockDownloadView::RequestingDeploys { .. }, DownloadEvent::DeployReceived(_)) => true,
            _ => false,
        }
    }

    /// The download once so much of the block has been received.
    pub open spec fn holding(block: JsonBlock<B>, received: Seq<Deploy<D>>) -> Self {
        if received.len() < block.all_hashes().len() {
            BlockDownloadView::RequestingDeploys { block, received }
        } else {
            BlockDownloadView::Ended
        }
    }

    /// The download after the event.
    pub open spec fn after<E>(self, event: DownloadEvent<B, D, E>) -> Self {
        match (self, event) {
            (BlockDownloadView::RequestingBlock, DownloadEvent::BlockReceived(Ok(reply))) =>
                Self::holding(reply.block->0, Seq::empty()),
            (
                BlockDownloadView::RequestingDeploys { block, received },
                DownloadEvent::DeployReceived(Ok(deploy)),
            ) => Self::holding(block, received.push(deploy)),
            _ => BlockDownloadView::Ended,
        }
    }

    /// Whether `action` comes next once so much of the block has been received: the request for
    /// the next deploy, with its finalized approvals, or else the end.
    pub open spec fn comes_next<E>(
        block: JsonBlock<B>,
        received: Seq<Deploy<D>>,
        action: DownloadAction<B, D, E>,
    ) -> bool {
        if received.len() < block.all_hashes().len() {
            action == DownloadAction::<B, D, E>::RequestDeploy(
                GetDeployParams {
                    deploy_hash: block.all_hashes()[received.len() as int],
                    finalized_approvals: true,
                },
            )
        } else {
            action matches DownloadAction::Finish(block_with_deploys) && is_assembled(
                block,
                received,
                block_with_deploys,
            )
        }
    }

    /// Whether `action` is what is done after the event.
    pub open spec fn acts<E>(
        self,
        event: DownloadEvent<B, D, E>,
        action: DownloadAction<B, D, E>,
    ) -> bool {
        match (self, event) {
            (BlockDownloadView::RequestingBlock, DownloadEvent::BlockReceived(reply)) =>
                match reply {
                    Ok(reply) => Self::comes_next(reply.block->0, Seq::empty(), action),
                    Err(error) => action == DownloadAction::<B, D, E>::Fail(error),
                },
            (
                BlockDownloadView::RequestingDeploys { block, received },
                DownloadEvent::DeployReceived(reply),
            ) => match reply {
                Ok(deploy) => Self::comes_next(block, received.push(deploy), action),
                Err(error) => action == DownloadAction::<B, D, E>::Fail(error),
            },
            _ => false,
        }
    }
}

/// Whether the block is put together with the answers to the requests for its transfers and
/// deploys, as many as it has of each.
pub open spec fn is_assembled<B, D>(
    block: JsonBlock<B>,
    answers: Seq<Deploy<D>>,
    block_with_deploys: BlockWithDeploys<B, D>,
) -> bool {
    let transfer_count = block.transfer_hashes@.len() as int;
    &&& answers.len() == block.all_hashes().len()
    &&& block_with_deploys.block == block
    &&& block_with_deploys.transfers@ == answers.take(transfer_count)
    &&& block_with_deploys.deploys@ == answers.skip(transfer_count)
}

/// A downloaded block has one transfer for each of its transfer hashes and one deploy for each of
/// its deploy hashes, in the order of the hashes: each is the answer to the request for that hash.
pub proof fn answers_match_hashes<B, D>(
    block: JsonBlock<B>,
    answers: Seq<Deploy<D>>,
    block_with_deploys: BlockWithDeploys<B, D>,
)
    requires
        is_assembled(block, answers, block_with_deploys),
    ensures
        block_with_deploys.transfers@.len() == block.transfer_hashes@.len(),
        block_with_deploys.deploys@.len() == block.deploy_hashes@.len(),
        forall|i: int|
            0 <= i < block.transfer_hashes@.len() ==> {
                &&& #[trigger] block_with_deploys.transfers@[i] == answers[i]
                &&& block.all_hashes()[i] == block.transfer_hashes@[i]
            },
        forall|i: int|
            0 <= i < block.deploy_hashes@.len() ==> {
                &&& #[trigger] block_with_deploys.deploys@[i]
                    == answers[block.transfer_hashes@.len() + i]
                &&& block.all_hashes()[block.transfer_hashes@.len() + i] == block.deploy_hashes@[i]
            },
{
}

/// Starts the download of a block with its transfers and deploys, by its hash.
pub fn download_block_with_deploys<B, D, E>(block_hash: BlockHash) -> (next: (
    BlockDownload<B, D>,
    DownloadAction<B, D, E>,
))
    ensures
        next.0.well_formed(),
        next.0@ == BlockDownloadView::<B, D>::RequestingBlock,
        next.1 == DownloadAction::<B, D, E>::RequestBlock(
            Some(GetBlockParams { block_identifier: BlockIdentifier::Hash(block_hash) }),
        ),
{
    (
        BlockDownload { state: DownloadState::RequestingBlock },
        DownloadAction::RequestBlock(
            Some(GetBlockParams { block_identifier: BlockIdentifier::Hash(block_hash) }),
        ),
    )
}

/// Whether no more has been received than was requested, and deploys only after all transfers.
spec fn is_in_order<B, D>(
    block: JsonBlock<B>,
    transfers: Seq<Deploy<D>>,
    deploys: Seq<Deploy<D>>,
) -> bool {
    &&& transfers.len() <= block.transfer_hashes@.len()
    &&& deploys.len() <= block.deploy_hashes@.len()
    &&& deploys.len() > 0 ==> transfers.len() == block.transfer_hashes@.len()
}

/// Requests what has not been received yet, or ends.
fn request_next<B, D, E>(
    block: JsonBlock<B>,
    transfers: Vec<Deploy<D>>,
    deploys: Vec<Deploy<D>>,
) -> (next: (BlockDownload<B, D>, DownloadAction<B, D, E>))
    requires
        is_in_order(block, transfers@, deploys@),
    ensures
        next.0.well_formed(),
        next.0@ == BlockDownloadView::holding(block, transfers@ + deploys@),
        BlockDownloadView::comes_next(block, transfers@ + deploys@, next.1),
{
    let next_transfer: usize = transfers.len();
    let next_deploy: usize = deploys.len();
    let deploy_hash = if next_transfer < block.transfer_hashes.len() {
        block.transfer_hashes[next_transfer]
    } else if next_deploy < block.deploy_hashes.len() {
        block.deploy_hashes[next_deploy]
    } else {
        proof {
            let received = transfers@ + deploys@;
            let n = block.transfer_hashes@.len() as int;
            assert(transfers@ =~= received.take(n));
            assert(deploys@ =~= received.skip(n));
        }
        return (
            BlockDownload { state: DownloadState::Ended },
            DownloadAction::Finish(BlockWithDeploys { block, transfers, deploys }),
        );
    };
    (
        BlockDownload { state: DownloadState::RequestingDeploys { block, transfers, deploys } },
        DownloadAction::RequestDeploy(GetDeployParams { deploy_hash, finalized_approvals: true }),
    )
}

impl<B, D> BlockDownload<B, D> {
    /// Whether some deploy is still to be received while the download waits for one, and what has
    /// been received is in order.
    pub closed spec fn well_formed(self) -> bool {
        self.state matches DownloadState::RequestingDeploys { block, transfers, deploys }
            ==> is_in_order(block, transfers@, deploys@) && transfers@.len() + deploys@.len()
            < block.all_hashes().len()
    }

    /// Whether the event is of the kind that the download waits for.
    pub fn accepts<E>(&self, event: &DownloadEvent<B, D, E>) -> (accepted: bool)
        ensures
            accepted == self@.expects(*event),
    {
        match (&self.state, event) {
            (DownloadState::RequestingBlock, DownloadEvent::BlockReceived(Ok(reply))) =>
                reply.block.is_some(),
            (DownloadState::RequestingBlock, DownloadEvent::BlockReceived(Err(_))) => true,
            (DownloadState::RequestingDeploys { .. }, DownloadEvent::DeployReceived(_)) => true,
            _ => false,
        }
    }

    /// Decides what the download waits for and does next. A request that fails ends the download
    /// with its error.
    pub fn step<E>(self, event: DownloadEvent<B, D, E>) -> (next: (
        BlockDownload<B, D>,
        DownloadAction<B, D, E>,
    ))
        requires
            self.well_formed(),
            self@.expects(event),
        ensures
            next.0.well_formed(),
            next.0@ == self@.after(event),
            self@.acts(event, next.1),
    {
        match (self.state, event) {
            (DownloadState::RequestingBlock, DownloadEvent::BlockReceived(Ok(reply))) => {
                let transfers: Vec<Deploy<D>> = Vec::new();
                let deploys: Vec<Deploy<D>> = Vec::new();
                assert(transfers@ + deploys@ =~= Seq::empty());
                request_next(reply.block.unwrap(), transfers, deploys)
            },
            (
                DownloadState::RequestingDeploys { block, mut transfers, mut deploys },
                DownloadEvent::DeployReceived(Ok(deploy)),
            ) => {
                let ghost received = transfers@ + deploys@;
                if transfers.len() < block.transfer_hashes.len() {
                    transfers.push(deploy);
                } else {
                    deploys.push(deploy);
                }
                assert(transfers@ + deploys@ =~= received.push(deploy));
                request_next(block, transfers, deploys)
            },
            (_, DownloadEvent::BlockReceived(Err(error))) => (
                BlockDownload { state: DownloadState::Ended },
                DownloadAction::Fail(error),
            ),
            (_, DownloadEvent::DeployReceived(Err(error))) => (
                BlockDownload { state: DownloadState::Ended },
                DownloadAction::Fail(error),
            ),
            _ => (
                BlockDownload { state: DownloadState::Ended },
                DownloadAction::RequestBlock(None),
            ),
        }
    }
}

/// The error of the request, if it failed.
pub open spec fn failure<B, D, E>(event: DownloadEvent<B, D, E>) -> Option<E> {
    match event {
        DownloadEvent::BlockReceived(Err(error)) => Some(error),
        DownloadEvent::DeployReceived(Err(error)) => Some(error),
        _ => None,
    }
}

/// The download after the events.
pub open spec fn download_after<B, D, E>(events: Seq<DownloadEvent<B, D, E>>) -> BlockDownloadView<
    B,
    D,
>
    decreases events.len(),
{
    if events.len() == 0 {
        BlockDownloadView::RequestingBlock
    } else {
        download_after(events.drop_last()).after(events.last())
    }
}

/// Whether each event is of the kind that the download waits for.
pub open spec fn is_block_download<B, D, E>(events: Seq<DownloadEvent<B, D, E>>) -> bool
    decreases events.len(),
{
    events.len() > 0 ==> {
        &&& is_block_download(events.drop_last())
        &&& download_after(events.drop_last()).expects(events.last())
    }
}

/// The block that the first event brings.
pub open spec fn block_of<B, D, E>(events: Seq<DownloadEvent<B, D, E>>) -> JsonBlock<B> {
    events[0]->BlockReceived_0->Ok_0.block->0
}

/// The deploys that the events after the first one bring.
pub open spec fn answers_of<B, D, E>(events: Seq<DownloadEvent<B, D, E>>) -> Seq<Deploy<D>> {
    Seq::new((events.len() - 1) as nat, |i: int| events[i + 1]->DeployReceived_0->Ok_0)
}

/// The first request that fails ends the download: no request follows it.
pub proof fn failed_request_ends_download<B, D, E>(events: Seq<DownloadEvent<B, D, E>>, i: int)
    requires
        is_block_download(events),
        0 <= i < events.len(),
        failure(events[i]) is Some,
    ensures
        i == events.len() - 1,
        download_after(events) is Ended,
    decreases events.len(),
{
    if i < events.len() - 1 {
        failed_request_ends_download(events.drop_last(), i);
    }
}

/// As long as no request fails, what has been received is the block and a deploy for each request
/// but the first.
proof fn lemma_download_holds_answers<B, D, E>(events: Seq<DownloadEvent<B, D, E>>)
    requires
        is_block_download(events),
        events.len() > 0,
        failure(events.last()) is None,
    ensures
        events[0] matches DownloadEvent::BlockReceived(Ok(reply)) && reply.block is Some,
        forall|i: int| 0 <= i < events.len() ==> failure(#[trigger] events[i]) is None,
        answers_of(events).len() <= block_of(events).all_hashes().len(),
        download_after(events) == BlockDownloadView::holding(block_of(events), answers_of(events)),
    decreases events.len(),
{
    let before = events.drop_last();
    assert forall|i: int| 0 <= i < events.len() implies failure(#[trigger] events[i]) is None by {
        if failure(events[i]) is Some {
            failed_request_ends_download(events, i);
        }
    }
    if events.len() == 1 {
        assert(download_after(before) == BlockDownloadView::<B, D>::RequestingBlock);
        assert(answers_of(events) =~= Seq::empty());
    } else {
        assert(failure(events[events.len() - 2]) is None);
        lemma_download_holds_answers(before);
        assert(answers_of(events) =~= answers_of(before).push(
            events.last()->DeployReceived_0->Ok_0,
        ));
    }
}

/// A download fails if and only if a request fails, and then with the error of the first one that
/// does, which is the last one made. Otherwise it requests the next of the block's transfers and
/// deploys in order, until each of them has been answered; only then, and with all of the answers,
/// does it end with a block.
pub proof fn download_ends_whole_or_with_first_error<B, D, E>(
    events: Seq<DownloadEvent<B, D, E>>,
    action: DownloadAction<B, D, E>,
)
    requires
        is_block_download(events),
        events.len() > 0,
        download_after(events.drop_last()).acts(events.last(), action),
    ensures
        action is Fail <==> exists|i: int|
            0 <= i < events.len() && failure(#[trigger] events[i]) is Some,
        action matches DownloadAction::Fail(error) ==> {
            &&& failure(events.last()) == Some(error)
            &&& forall|i: int|
                0 <= i < events.len() - 1 ==> failure(#[trigger] events[i]) is None
        },
        !(action is Fail) ==> BlockDownloadView::comes_next(
            block_of(events),
            answers_of(events),
            action,
        ),
{
    assert forall|i: int| 0 <= i < events.len() - 1 implies failure(
        #[trigger] events[i],
    ) is None by {
        if failure(events[i]) is Some {
            failed_request_ends_download(events, i);
        }
    }
    if failure(events.last()) is None {
        lemma_download_holds_answers(events);
        let before = events.drop_last();
        if events.len() > 1 {
            assert(failure(events[events.len() - 2]) is None);
            lemma_download_holds_answers(before);
            assert(answers_of(events) =~= answers_of(before).push(
                events.last()->DeployReceived_0->Ok_0,
            ));
        } else {
            assert(download_after(before) == BlockDownloadView::<B, D>::RequestingBlock);
            assert(answers_of(events) =~= Seq::empty());
        }
    } else {
        assert(failure(events[events.len() - 1]) is Some);
    }
}

/// Whether a download has come to the moments `downloads` and has asked for `actions`, one for
/// each moment, by the events between them.
pub open spec fn is_download_run<B, D, E>(
    downloads: Seq<BlockDownloadView<B, D>>,
    events: Seq<DownloadEvent<B, D, E>>,
    actions: Seq<DownloadAction<B, D, E>>,
) -> bool {
    &&& downloads.len() == events.len() + 1
    &&& actions.len() == events.len() + 1
    &&& downloads[0] is RequestingBlock
    &&& forall|i: int|
        0 <= i < events.len() ==> {
            &&& (#[trigger] downloads[i]).expects(events[i])
            &&& downloads[i + 1] == downloads[i].after(events[i])
            &&& downloads[i].acts(events[i], actions[i + 1])
        }
}

/// After the block and `n` deploys have been received, with no request failed, the next request is
/// for the transfer at the place `n`, or for the deploy behind all transfers that is next in order,
/// each with its finalized approvals. Once all have been received, the result holds the block and
/// each deploy that came, at the place at which its hash stands.
pub proof fn requests_follow_the_hashes<B, D, E>(
    downloads: Seq<BlockDownloadView<B, D>>,
    events: Seq<DownloadEvent<B, D, E>>,
    actions: Seq<DownloadAction<B, D, E>>,
    block: JsonBlock<B>,
    deploys: Seq<Deploy<D>>,
    n: int,
)
    requires
        is_download_run(downloads, events, actions),
        0 <= n < events.len(),
        n <= deploys.len(),
        events[0] matches DownloadEvent::BlockReceived(Ok(reply)) && reply.block == Some(block),
        forall|i: int|
            0 <= i < n ==> (events[i + 1] matches DownloadEvent::DeployReceived(Ok(deploy))
                && deploy == #[trigger] deploys[i]),
    ensures
        ({
            let transfer_count = block.transfer_hashes@.len();
            let deploy_count = block.deploy_hashes@.len();
            &&& n <= transfer_count + deploy_count
            &&& if n < transfer_count {
                &&& actions[n + 1] matches DownloadAction::RequestDeploy(params)
                &&& params.deploy_hash == block.transfer_hashes@[n]
                &&& params.finalized_approvals
            } else if n < transfer_count + deploy_count {
                &&& actions[n + 1] matches DownloadAction::RequestDeploy(params)
                &&& params.deploy_hash == block.deploy_hashes@[n - transfer_count]
                &&& params.finalized_approvals
            } else {
                &&& actions[n + 1] matches DownloadAction::Finish(result)
                &&& result.block == block
                &&& result.transfers@.len() == transfer_count
                &&& result.deploys@.len() == deploy_count
                &&& forall|i: int|
                    0 <= i < transfer_count ==> #[trigger] result.transfers@[i] == deploys[i]
                &&& forall|i: int|
                    0 <= i < deploy_count ==> #[trigger] result.deploys@[i]
                        == deploys[transfer_count + i]
                &&& n + 1 == events.len()
            }
            &&& n < transfer_count + deploy_count ==> downloads[n + 1] == (
            BlockDownloadView::RequestingDeploys { block, received: deploys.take(n) })
            &&& n == transfer_count + deploy_count ==> downloads[n + 1] is Ended
        }),
    decreases n,
{
    if n == 0 {
        assert(downloads[0].expects(events[0]));
        assert(downloads[1] == downloads[0].after(events[0]));
        assert(deploys.take(0) =~= Seq::<Deploy<D>>::empty());
    } else {
        requests_follow_the_hashes(downloads, events, actions, block, deploys, n - 1);
        assert(downloads[n].expects(events[n]));
        assert(downloads[n + 1] == downloads[n].after(events[n]));
        let deploy = deploys[n - 1];
        assert(events[n - 1 + 1] == DownloadEvent::<B, D, E>::DeployReceived(Ok(deploy)));
        assert(deploys.take(n - 1).push(deploy) =~= deploys.take(n));
    }
    if n + 1 < events.len() {
        assert(downloads[n + 1].expects(events[n + 1]));
    }
}

/// With a node that answers each request with the deploy of the hash that was requested, every
/// transfer of the result has the hash at its place among the transfer hashes, and every deploy the
/// one at its place among the deploy hashes. `hash_of` gives the hash of a deploy.
pub proof fn downloaded_deploys_have_their_hashes<B, D, E>(
    downloads: Seq<BlockDownloadView<B, D>>,
    events: Seq<DownloadEvent<B, D, E>>,
    actions: Seq<DownloadAction<B, D, E>>,
    block: JsonBlock<B>,
    deploys: Seq<Deploy<D>>,
    hash_of: spec_fn(Deploy<D>) -> DeployHash,
)
    requires
        is_download_run(downloads, events, actions),
        events.len() == deploys.len() + 1,
        events[0] matches DownloadEvent::BlockReceived(Ok(reply)) && reply.block == Some(block),
        forall|i: int|
            0 <= i < deploys.len() ==> (events[i + 1] matches DownloadEvent::DeployReceived(
                Ok(deploy),
            ) && deploy == #[trigger] deploys[i]),
        forall|i: int|
            0 <= i < deploys.len() ==> (actions[i + 1] matches DownloadAction::RequestDeploy(params)
                ==> hash_of(#[trigger] deploys[i]) == params.deploy_hash),
        actions.last() is Finish,
    ensures
        actions.last() matches DownloadAction::Finish(result) && {
            &&& result.block == block
            &&& result.transfers@.len() == block.transfer_hashes@.len()
            &&& result.deploys@.len() == block.deploy_hashes@.len()
            &&& forall|i: int|
                0 <= i < result.transfers@.len() ==> hash_of(#[trigger] result.transfers@[i])
                    == block.transfer_hashes@[i]
            &&& forall|i: int|
                0 <= i < result.deploys@.len() ==> hash_of(#[trigger] result.deploys@[i])
                    == block.deploy_hashes@[i]
        },
{
    let n = deploys.len() as int;
    requests_follow_the_hashes(downloads, events, actions, block, deploys, n);
    let transfer_count = block.transfer_hashes@.len();
    let result = actions.last()->Finish_0;
    assert forall|i: int| 0 <= i < result.transfers@.len() implies hash_of(
        #[trigger] result.transfers@[i],
    ) == block.transfer_hashes@[i] by {
        requests_follow_the_hashes(downloads, events, actions, block, deploys, i);
    }
    assert forall|i: int| 0 <= i < result.deploys@.len() implies hash_of(
        #[trigger] result.deploys@[i],
    ) == block.deploy_hashes@[i] by {
        requests_follow_the_hashes(
            downloads,
            events,
            actions,
            block,
            deploys,
            transfer_count + i,
        );
    }
}

/// A request that fails ends the download with its error, at whatever moment it comes, and is the
/// last one made.
pub proof fn failed_request_is_the_last<B, D, E>(
    downloads: Seq<BlockDownloadView<B, D>>,
    events: Seq<DownloadEvent<B, D, E>>,
    actions: Seq<DownloadAction<B, D, E>>,
    i: int,
    error: E,
)
    requires
        is_download_run(downloads, events, actions),
        0 <= i < events.len(),
        events[i] == DownloadEvent::<B, D, E>::BlockReceived(Err(error)) || events[i]
            == DownloadEvent::<B, D, E>::DeployReceived(Err(error)),
    ensures
        i == events.len() - 1,
        actions[i + 1] matches DownloadAction::Fail(reported) && reported == error,
{
    assert(downloads[i].expects(events[i]));
    if i + 1 < events.len() {
        assert(downloads[i + 1].expects(events[i + 1]));
    }
}

/// A download waits for whatever can come of its request, and for nothing else. A reply to the
/// request for the block has to hold one.
pub proof fn download_awaits_every_reply<B, D, E>(
    download: BlockDownloadView<B, D>,
    event: DownloadEvent<B, D, E>,
)
    ensures
        download.expects(event) <==> match event {
            DownloadEvent::BlockReceived(Ok(reply)) => download is RequestingBlock
                && reply.block is Some,
            DownloadEvent::BlockReceived(Err(_)) => download is RequestingBlock,
            DownloadEvent::DeployReceived(_) => download is RequestingDeploys,
        },
{
}

} // verus!
