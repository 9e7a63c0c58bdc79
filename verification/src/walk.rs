//! The walk along the chain from the highest block down to genesis.
//!
//! A block that storage holds is read; any other is requested from the node, downloaded with its
//! deploys and stored. Either way its header names the parent, which is visited next, until a
//! block of height zero has no parent. [`BlockWalk::step`] decides; the program performs each
//! [`WalkAction`] and hands back the [`WalkEvent`].
use crate::types::{BlockHash, BlockIdentifier, GetBlockParams};
use vstd::prelude::*;

verus! {

/// How a block is looked up in storage.
#[derive(Clone, Copy, Debug, PartialEq, Eq)]
pub enum StorageLookup {
    ReadBlock(BlockHash),
    ReadBlockByHeight(u64),
}

/// Looks a block up by its identifier.
pub fn get_block_by_identifier(identifier: &BlockIdentifier) -> (lookup: StorageLookup)
    ensures
        lookup == match *identifier {
            BlockIdentifier::Hash(block_hash) => StorageLookup::ReadBlock(block_hash),
            BlockIdentifier::Height(height) => StorageLookup::ReadBlockByHeight(height),
        },
{
    match identifier {
        BlockIdentifier::Hash(block_hash) => StorageLookup::ReadBlock(*block_hash),
        BlockIdentifier::Height(height) => StorageLookup::ReadBlockByHeight(*height),
    }
}

/// What a block's header says of its place in the chain.
#[derive(Clone, Copy, Debug, PartialEq, Eq)]
pub struct BlockHeader {
    pub height: u64,
    pub parent_hash: BlockHash,
}

impl BlockHeader {
    /// The parent: every block has one but the block of height zero.
    pub open spec fn spec_parent(self) -> Option<BlockHash> {
        if self.height != 0 {
            Some(self.parent_hash)
        } else {
            None
        }
    }

    /// The parent: every block has one but the block of height zero.
    #[verifier::when_used_as_spec(spec_parent)]
    pub fn parent(self) -> (parent: Option<BlockHash>)
        ensures
            parent == self.spec_parent(),
            parent is None <==> self.height == 0,
            parent matches Some(block_hash) ==> block_hash == self.parent_hash,
    {
        if self.height != 0 {
            Some(self.parent_hash)
        } else {
            None
        }
    }
}

/// Where a block came from.
#[derive(Clone, Copy, Debug, PartialEq, Eq)]
pub enum BlockSource {
    Http,
    Storage,
}

/// What the walk waits for.
#[derive(Clone, Copy, Debug, PartialEq, Eq)]
pub enum WalkState {
    /// A block to be looked up in storage.
    Reading { identifier: BlockIdentifier },
    /// A block to be requested from the node.
    Requesting,
    /// A block to be downloaded with its deploys.
    Downloading,
    /// The downloaded block to be stored.
    Storing { header: BlockHeader },
    /// Nothing any more.
    Ended,
}

/// What has happened since the last action. `E` is why an action failed.
#[derive(Debug, PartialEq, Eq)]
pub enum WalkEvent<E> {
    /// Storage holds a block with this header under the identifier, or none.
    Read(Option<BlockHeader>),
    /// The node replied with a block of this hash, or without a block.
    Received(Option<BlockHash>),
    /// The block has this header and has been downloaded with its deploys.
    Downloaded(BlockHeader),
    /// The downloaded block and its deploys have been stored.
    Stored,
    /// The action failed, whichever it was.
    Failed(E),
}

/// What is to be done next.
#[derive(Debug, PartialEq, Eq)]
pub enum WalkAction<E> {
    /// Look the block up in storage.
    ReadBlock(BlockIdentifier),
    /// Request the block from the node; without parameters, the highest one.
    RequestBlock(Option<GetBlockParams>),
    /// Download the block with its deploys.
    DownloadBlock(BlockHash),
    /// Store the block that was just downloaded.
    StoreBlock,
    /// The walk is over. Of the blocks that have a parent, so many were downloaded and so many
    /// were read.
    Finish { new_blocks_downloaded: usize, blocks_read_from_disk: usize },
    /// The walk is over, with this error.
    Fail(WalkError<E>),
}

/// Why the walk fails.
#[derive(Debug, PartialEq, Eq)]
pub enum WalkError<E> {
    /// The node has no block to give.
    NoBlockInReply,
    /// An action failed for this reason.
    Failed(E),
}

impl<E> WalkError<E> {
    /// The error as text, where it is the walk's own.
    pub fn message(&self) -> (message: Option<&'static str>)
        ensures
            match *self {
                WalkError::NoBlockInReply => message matches Some(text) && text@
                    == "unable to download highest block"@,
                WalkError::Failed(_) => message is None,
            },
    {
        match self {
            WalkError::NoBlockInReply => Some("unable to download highest block"),
            WalkError::Failed(_) => None,
        }
    }
}

/// A walk along the chain.
#[derive(Clone, Copy, Debug, PartialEq, Eq)]
pub struct BlockWalk {
    new_blocks_downloaded: usize,
    blocks_read_from_disk: usize,
    state: WalkState,
}

/// A walk along the chain as mathematical values.
pub struct BlockWalkView {
    /// How many of the blocks that have a parent were downloaded.
    pub new_blocks_downloaded: nat,
    /// How many of the blocks that have a parent were read from storage.
    pub blocks_read_from_disk: nat,
    pub state: WalkState,
}

impl View for BlockWalk {
    type V = BlockWalkView;

    closed spec fn view(&self) -> BlockWalkView {
        BlockWalkView {
            new_blocks_downloaded: self.new_blocks_downloaded as nat,
            blocks_read_from_disk: self.blocks_read_from_disk as nat,
            state: self.state,
        }
    }
}

impl BlockWalkView {
    /// The walk at the start: at the given block, or else at the highest one that the node has.
    pub open spec fn start(highest_block: Option<BlockIdentifier>) -> BlockWalkView {
        BlockWalkView {
            new_blocks_downloaded: 0,
            blocks_read_from_disk: 0,
            state: match highest_block {
                Some(identifier) => WalkState::Reading { identifier },
                None => WalkState::Requesting,
            },
        }
    }

    /// Whether the event is of the kind that the walk waits for. Until the walk has ended, its
    /// action may always fail.
    pub open spec fn expects<E>(self, event: WalkEvent<E>) -> bool {
        match self.state {
            WalkState::Reading { .. } => event is Read || event is Failed,
            WalkState::Requesting => event is Received || event is Failed,
            WalkState::Downloading => event is Downloaded || event is Failed,
            WalkState::Storing { .. } => event is Stored || event is Failed,
            WalkState::Ended => false,
        }
    }

    /// The block that the event completes the visit of, and where it came from.
    pub open spec fn visit<E>(self, event: WalkEvent<E>) -> Option<(BlockHeader, BlockSource)> {
        match (self.state, event) {
            (WalkState::Reading { .. }, WalkEvent::Read(Some(header))) => Some(
                (header, BlockSource::Storage),
            ),
            (WalkState::Storing { header }, WalkEvent::Stored) => Some(
                (header, BlockSource::Http),
            ),
            _ => None,
        }
    }

    /// The walk after the event. A failure ends it, and changes no count.
    pub open spec fn after<E>(self, event: WalkEvent<E>) -> BlockWalkView {
        match self.visit(event) {
            Some((header, source)) => match header.parent() {
                // The block counts, and its parent is visited next.
                Some(parent_hash) => BlockWalkView {
                    new_blocks_downloaded: self.new_blocks_downloaded + if source
                        == BlockSource::Http {
                        1nat
                    } else {
                        0
                    },
                    blocks_read_from_disk: self.blocks_read_from_disk + if source
                        == BlockSource::Storage {
                        1nat
                    } else {
                        0
                    },
                    state: WalkState::Reading { identifier: BlockIdentifier::Hash(parent_hash) },
                },
                None => BlockWalkView { state: WalkState::Ended, ..self },
            },
            None => BlockWalkView {
                state: match event {
                    WalkEvent::Read(_) => WalkState::Requesting,
                    WalkEvent::Received(Some(_)) => WalkState::Downloading,
                    WalkEvent::Received(None) => WalkState::Ended,
                    WalkEvent::Downloaded(header) => WalkState::Storing { header },
                    WalkEvent::Stored => WalkState::Ended,
                    WalkEvent::Failed(_) => WalkState::Ended,
                },
                ..self
            },
        }
    }

    /// Whether the machine's integers hold the counts after the event.
    pub open spec fn counts_fit<E>(self, event: WalkEvent<E>) -> bool {
        &&& self.after(event).new_blocks_downloaded <= usize::MAX
        &&& self.after(event).blocks_read_from_disk <= usize::MAX
    }

    /// What is done after the event.
    pub open spec fn action<E>(self, event: WalkEvent<E>) -> WalkAction<E> {
        match (self.state, event) {
            (_, WalkEvent::Failed(error)) => WalkAction::Fail(WalkError::Failed(error)),
            (WalkState::Reading { identifier }, WalkEvent::Read(None)) => WalkAction::RequestBlock(
                Some(GetBlockParams { block_identifier: identifier }),
            ),
            (WalkState::Requesting, WalkEvent::Received(Some(block_hash))) =>
                WalkAction::DownloadBlock(block_hash),
            (WalkState::Requesting, WalkEvent::Received(None)) => WalkAction::Fail(
                WalkError::NoBlockInReply,
            ),
            (WalkState::Downloading, WalkEvent::Downloaded(_)) => WalkAction::StoreBlock,
            _ => match self.after(event).state {
                WalkState::Reading { identifier } => WalkAction::ReadBlock(identifier),
                _ => WalkAction::Finish {
                    new_blocks_downloaded: self.new_blocks_downloaded as usize,
                    blocks_read_from_disk: self.blocks_read_from_disk as usize,
                },
            },
        }
    }
}

/// The next visit: of the parent of a block from `source`, which is counted, or of none.
fn next_visit<E>(walk: BlockWalk, header: BlockHeader, source: BlockSource) -> (next: (
    BlockWalk,
    WalkAction<E>,
))
    requires
        header.parent() is Some && source == BlockSource::Http ==> walk@.new_blocks_downloaded
            < usize::MAX,
        header.parent() is Some && source == BlockSource::Storage ==> walk@.blocks_read_from_disk
            < usize::MAX,
    ensures
        match header.parent() {
            Some(parent_hash) => {
                &&& next.0@.new_blocks_downloaded == walk@.new_blocks_downloaded + if source
                    == BlockSource::Http {
                    1nat
                } else {
                    0
                }
                &&& next.0@.blocks_read_from_disk == walk@.blocks_read_from_disk + if source
                    == BlockSource::Storage {
                    1nat
                } else {
                    0
                }
                &&& next.0@.state == (WalkState::Reading {
                    identifier: BlockIdentifier::Hash(parent_hash),
                })
                &&& next.1 == WalkAction::<E>::ReadBlock(BlockIdentifier::Hash(parent_hash))
            },
            None => {
                &&& next.0@ == (BlockWalkView { state: WalkState::Ended, ..walk@ })
                &&& next.1 == (WalkAction::<E>::Finish {
                    new_blocks_downloaded: walk@.new_blocks_downloaded as usize,
                    blocks_read_from_disk: walk@.blocks_read_from_disk as usize,
                })
            },
        },
{
    let mut walk = walk;
    match header.parent() {
        Some(parent_hash) => {
            match source {
                BlockSource::Http => {
                    walk.new_blocks_downloaded = walk.new_blocks_downloaded + 1;
                },
                BlockSource::Storage => {
                    walk.blocks_read_from_disk = walk.blocks_read_from_disk + 1;
                },
            }
            let identifier = BlockIdentifier::Hash(parent_hash);
            walk.state = WalkState::Reading { identifier };
            (walk, WalkAction::ReadBlock(identifier))
        },
        None => {
            walk.state = WalkState::Ended;
            (
                walk,
                WalkAction::Finish {
                    new_blocks_downloaded: walk.new_blocks_downloaded,
                    blocks_read_from_disk: walk.blocks_read_from_disk,
                },
            )
        },
    }
}

/// Starts a walk at the given block, or else at the highest one that the node has.
pub fn download_or_read_blocks<E>(highest_block: Option<&BlockIdentifier>) -> (next: (
    BlockWalk,
    WalkAction<E>,
))
    ensures
        match highest_block {
            Some(identifier) => {
                &&& next.0@ == BlockWalkView::start(Some(*identifier))
                &&& next.1 == WalkAction::<E>::ReadBlock(*identifier)
            },
            None => {
                &&& next.0@ == BlockWalkView::start(None)
                &&& next.1 == WalkAction::<E>::RequestBlock(None)
            },
        },
{
    let (state, action) = match highest_block {
        Some(identifier) => (
            WalkState::Reading { identifier: *identifier },
            WalkAction::ReadBlock(*identifier),
        ),
        None => (WalkState::Requesting, WalkAction::RequestBlock(None)),
    };
    (BlockWalk { new_blocks_downloaded: 0, blocks_read_from_disk: 0, state }, action)
}

impl BlockWalk {
    /// Whether the event is of the kind that the walk waits for.
    pub fn accepts<E>(&self, event: &WalkEvent<E>) -> (accepted: bool)
        ensures
            accepted == self@.expects(*event),
    {
        match (&self.state, event) {
            (WalkState::Reading { .. }, WalkEvent::Read(_)) => true,
            (WalkState::Requesting, WalkEvent::Received(_)) => true,
            (WalkState::Downloading, WalkEvent::Downloaded(_)) => true,
            (WalkState::Storing { .. }, WalkEvent::Stored) => true,
            (WalkState::Ended, WalkEvent::Failed(_)) => false,
            (_, WalkEvent::Failed(_)) => true,
            _ => false,
        }
    }

    /// Whether the counts can hold what they are after the event.
    pub fn has_room<E>(&self, event: &WalkEvent<E>) -> (room: bool)
        ensures
            room == self@.counts_fit(*event),
    {
        let (header, source) = match (&self.state, event) {
            (WalkState::Reading { .. }, WalkEvent::Read(Some(header))) => (
                *header,
                BlockSource::Storage,
            ),
            (WalkState::Storing { header }, WalkEvent::Stored) => (*header, BlockSource::Http),
            _ => {
                return true;
            },
        };
        match (header.parent(), source) {
            (None, _) => true,
            (Some(_), BlockSource::Http) => self.new_blocks_downloaded < usize::MAX,
            (Some(_), BlockSource::Storage) => self.blocks_read_from_disk < usize::MAX,
        }
    }

    /// Decides what the walk waits for and does next. An action that fails ends the walk with its
    /// error.
    pub fn step<E>(self, event: WalkEvent<E>) -> (next: (BlockWalk, WalkAction<E>))
        requires
            self@.expects(event),
            self@.counts_fit(event),
        ensures
            next.0@ == self@.after(event),
            next.1 == self@.action(event),
    {
        match (self.state, event) {
            (WalkState::Reading { .. }, WalkEvent::Read(Some(header))) => next_visit(
                self,
                header,
                BlockSource::Storage,
            ),
            (WalkState::Reading { identifier }, WalkEvent::Read(None)) => (
                BlockWalk { state: WalkState::Requesting, ..self },
                WalkAction::RequestBlock(Some(GetBlockParams { block_identifier: identifier })),
            ),
            (WalkState::Requesting, WalkEvent::Received(Some(block_hash))) => (
                BlockWalk { state: WalkState::Downloading, ..self },
                WalkAction::DownloadBlock(block_hash),
            ),
            (WalkState::Requesting, WalkEvent::Received(None)) => (
                BlockWalk { state: WalkState::Ended, ..self },
                WalkAction::Fail(WalkError::NoBlockInReply),
            ),
            (WalkState::Downloading, WalkEvent::Downloaded(header)) => (
                BlockWalk { state: WalkState::Storing { header }, ..self },
                WalkAction::StoreBlock,
            ),
            (WalkState::Storing { header }, WalkEvent::Stored) => next_visit(
                self,
                header,
                BlockSource::Http,
            ),
            (_, WalkEvent::Failed(error)) => (
                BlockWalk { state: WalkState::Ended, ..self },
                WalkAction::Fail(WalkError::Failed(error)),
            ),
            _ => (self, WalkAction::Fail(WalkError::NoBlockInReply)),
        }
    }
}

} // verus!
