//! Laws of a walk along the chain, taken together with the blocks that storage holds.
//!
//! A [`StoredWalk`] is a walk at one moment, down to what it is about to do, along with the blocks
//! in storage. The node and storage give out the blocks of one [`Chain`]; any action may fail.
use crate::types::{BlockHash, BlockIdentifier};
use crate::walk::{
    BlockHeader, BlockWalkView, WalkAction, WalkError, WalkEvent, WalkState,
};
use vstd::prelude::*;

verus! {

/// A chain of blocks.
pub struct Chain {
    /// The header of the block with a hash.
    pub header: spec_fn(BlockHash) -> BlockHeader,
    /// The block at a height.
    pub at_height: spec_fn(u64) -> BlockHash,
    /// The highest block that the node has.
    pub highest: BlockHash,
}

impl Chain {
    /// The block that an identifier names.
    pub open spec fn named(self, identifier: BlockIdentifier) -> BlockHash {
        match identifier {
            BlockIdentifier::Hash(block_hash) => block_hash,
            BlockIdentifier::Height(height) => (self.at_height)(height),
        }
    }

    /// The first block of a walk: the given one, or else the highest.
    pub open spec fn first(self, highest_block: Option<BlockIdentifier>) -> BlockHash {
        match highest_block {
            Some(identifier) => self.named(identifier),
            None => self.highest,
        }
    }

    /// The block that is `generations` parents away from `block`; the block itself is none away.
    pub open spec fn ancestor(self, block: BlockHash, generations: nat) -> BlockHash
        decreases generations,
    {
        if generations == 0 {
            block
        } else {
            (self.header)(self.ancestor(block, (generations - 1) as nat)).parent_hash
        }
    }

    /// Whether the block has `depth` ancestors, the last of which is the first one of height zero.
    pub open spec fn has_depth(self, block: BlockHash, depth: nat) -> bool {
        &&& (self.header)(self.ancestor(block, depth)).height == 0
        &&& forall|n: nat|
            n < depth ==> (self.header)(#[trigger] self.ancestor(block, n)).height != 0
    }

    /// The block and its ancestors, but for those that are `count` parents away or more.
    pub open spec fn line(self, block: BlockHash, count: nat) -> Seq<BlockHash> {
        Seq::new(count, |n: int| self.ancestor(block, n as nat))
    }
}

/// How many of the blocks are in storage.
pub open spec fn count_present(blocks: Seq<BlockHash>, stored: Set<BlockHash>) -> nat {
    blocks.filter(|block: BlockHash| stored.contains(block)).len()
}

/// How many of the blocks are not in storage.
pub open spec fn count_absent(blocks: Seq<BlockHash>, stored: Set<BlockHash>) -> nat {
    blocks.filter(|block: BlockHash| !stored.contains(block)).len()
}

/// The blocks that a walk finds in storage. The highest block is downloaded without a look at
/// storage when none was given.
pub open spec fn found_by_walk(
    chain: Chain,
    highest_block: Option<BlockIdentifier>,
    stored: Set<BlockHash>,
) -> Set<BlockHash> {
    match highest_block {
        Some(_) => stored,
        None => stored.remove(chain.highest),
    }
}

/// A walk at one moment.
pub struct StoredWalk<E> {
    pub walk: BlockWalkView,
    /// What the walk is about to do.
    pub action: WalkAction<E>,
    /// The block that was downloaded last.
    pub downloaded: Option<BlockHash>,
    /// The blocks that are in storage, each with its deploys.
    pub stored: Set<BlockHash>,
}

impl<E> StoredWalk<E> {
    /// A walk at the start.
    pub open spec fn start(
        highest_block: Option<BlockIdentifier>,
        stored: Set<BlockHash>,
    ) -> StoredWalk<E> {
        StoredWalk {
            walk: BlockWalkView::start(highest_block),
            action: match highest_block {
                Some(identifier) => WalkAction::ReadBlock(identifier),
                None => WalkAction::RequestBlock(None),
            },
            downloaded: None,
            stored,
        }
    }

    /// Whether doing what the walk is about to do can bring about the event, and change the blocks
    /// in storage to `stored`.
    /// Storage holds what was stored, and the node gives out the block that it is asked for, or
    /// none. An action that fails leaves storage as it was, but for a block that was being stored:
    /// of that one, the write that failed may or may not have taken effect.
    pub open spec fn brings_about(
        self,
        chain: Chain,
        event: WalkEvent<E>,
        stored: Set<BlockHash>,
    ) -> bool {
        match (self.action, event) {
            (WalkAction::StoreBlock, WalkEvent::Failed(_)) => {
                ||| stored == self.stored
                ||| self.downloaded matches Some(block) && stored == self.stored.insert(block)
            },
            (_, WalkEvent::Failed(_)) => stored == self.stored,
            (WalkAction::ReadBlock(identifier), WalkEvent::Read(found)) => {
                let block = chain.named(identifier);
                &&& found == if self.stored.contains(block) {
                    Some((chain.header)(block))
                } else {
                    None
                }
                &&& stored == self.stored
            },
            (WalkAction::RequestBlock(params), WalkEvent::Received(reply)) => {
                &&& reply matches Some(block) ==> block == match params {
                    Some(params) => chain.named(params.block_identifier),
                    None => chain.highest,
                }
                &&& stored == self.stored
            },
            (WalkAction::DownloadBlock(block), WalkEvent::Downloaded(header)) => {
                &&& header == (chain.header)(block)
                &&& stored == self.stored
            },
            (WalkAction::StoreBlock, WalkEvent::Stored) => stored == match self.downloaded {
                Some(block) => self.stored.insert(block),
                None => self.stored,
            },
            _ => false,
        }
    }

    /// Whether the walk does what it is about to do, and decides what it does next.
    pub open spec fn steps(self, chain: Chain, event: WalkEvent<E>, after: StoredWalk<E>) -> bool {
        &&& self.brings_about(chain, event, after.stored)
        &&& self.walk.expects(event)
        &&& self.walk.counts_fit(event)
        &&& after.walk == self.walk.after(event)
        &&& after.action == self.walk.action(event)
        &&& after.downloaded == match self.action {
            WalkAction::DownloadBlock(block) => Some(block),
            _ => self.downloaded,
        }
    }

    /// Whether the walk makes one step.
    pub open spec fn moves(self, chain: Chain, after: StoredWalk<E>) -> bool {
        exists|event: WalkEvent<E>| #[trigger] self.steps(chain, event, after)
    }

    /// How many blocks have been counted.
    pub open spec fn counted(self) -> nat {
        self.walk.new_blocks_downloaded + self.walk.blocks_read_from_disk
    }

    /// Whether the walk is at `block`: it looks it up, requests it, downloads it or stores it.
    pub open spec fn is_at(self, chain: Chain, block: BlockHash) -> bool {
        match self.walk.state {
            WalkState::Reading { identifier } => self.action == WalkAction::<E>::ReadBlock(
                identifier,
            ) && chain.named(identifier) == block,
            WalkState::Requesting => self.action matches WalkAction::RequestBlock(params)
                && block == match params {
                Some(params) => chain.named(params.block_identifier),
                None => chain.highest,
            },
            WalkState::Downloading => self.action == WalkAction::<E>::DownloadBlock(block),
            WalkState::Storing { header } => {
                &&& self.action is StoreBlock
                &&& self.downloaded == Some(block)
                &&& header == (chain.header)(block)
            },
            WalkState::Ended => false,
        }
    }

    /// What holds at every moment of a walk from `first`: it has come past as many blocks as it
    /// has counted, all of which have a parent and are in storage. Until it ends it is at the next
    /// one; and when it ends well, the next one is of height zero and in storage.
    pub open spec fn is_under_way(self, chain: Chain, first: BlockHash) -> bool {
        let block = chain.ancestor(first, self.counted());
        &&& forall|n: nat|
            n < self.counted() ==> {
                &&& (chain.header)(#[trigger] chain.ancestor(first, n)).height != 0
                &&& self.stored.contains(chain.ancestor(first, n))
            }
        &&& self.walk.new_blocks_downloaded <= usize::MAX
        &&& self.walk.blocks_read_from_disk <= usize::MAX
        &&& match self.action {
            WalkAction::Finish { new_blocks_downloaded, blocks_read_from_disk } => {
                &&& self.walk.state is Ended
                &&& (chain.header)(block).height == 0
                &&& self.stored.contains(block)
                &&& new_blocks_downloaded == self.walk.new_blocks_downloaded
                &&& blocks_read_from_disk == self.walk.blocks_read_from_disk
            },
            WalkAction::Fail(_) => self.walk.state is Ended,
            _ => self.is_at(chain, block),
        }
    }
}

/// Whether `moments` are those of one walk, one step apart, with `stored` in storage at the start.
pub open spec fn is_stored_walk<E>(
    chain: Chain,
    highest_block: Option<BlockIdentifier>,
    stored: Set<BlockHash>,
    moments: Seq<StoredWalk<E>>,
) -> bool {
    &&& moments.len() > 0
    &&& moments[0] == StoredWalk::<E>::start(highest_block, stored)
    &&& forall|i: int|
        0 <= i < moments.len() - 1 ==> (#[trigger] moments[i]).moves(chain, moments[i + 1])
}

/// At every moment a walk has left behind it only blocks that are in storage.
pub proof fn walk_is_under_way<E>(
    chain: Chain,
    highest_block: Option<BlockIdentifier>,
    stored: Set<BlockHash>,
    moments: Seq<StoredWalk<E>>,
    i: int,
)
    requires
        is_stored_walk(chain, highest_block, stored, moments),
        0 <= i < moments.len(),
    ensures
        moments[i].is_under_way(chain, chain.first(highest_block)),
    decreases i,
{
    if i > 0 {
        walk_is_under_way(chain, highest_block, stored, moments, i - 1);
        let (before, after) = (moments[i - 1], moments[i]);
        assert(before.moves(chain, moments[i - 1 + 1]));
        let event = choose|event: WalkEvent<E>| #[trigger] before.steps(chain, event, after);
        let first = chain.first(highest_block);
        let block = chain.ancestor(first, before.counted());
        assert(before.is_at(chain, block));
        assert(before.stored.subset_of(after.stored));
        match before.walk.visit(event) {
            Some((header, _)) => {
                assert(header == (chain.header)(block));
                assert(after.stored.contains(block));
            },
            None => {},
        }
    }
}

/// A walk removes no block from storage, whether it ends well, fails, or is still under way.
pub proof fn stored_blocks_stay_stored<E>(
    chain: Chain,
    highest_block: Option<BlockIdentifier>,
    stored: Set<BlockHash>,
    moments: Seq<StoredWalk<E>>,
    i: int,
    j: int,
)
    requires
        is_stored_walk(chain, highest_block, stored, moments),
        0 <= i <= j < moments.len(),
    ensures
        moments[i].stored.subset_of(moments[j].stored),
    decreases j,
{
    if i < j {
        stored_blocks_stay_stored(chain, highest_block, stored, moments, i, j - 1);
        let (before, after) = (moments[j - 1], moments[j]);
        assert(before.moves(chain, moments[j - 1 + 1]));
    }
}

/// Until a walk ends, storage holds what it held at the start and the blocks that the walk has
/// counted, and nothing else.
pub proof fn walk_stores_what_it_counts<E>(
    chain: Chain,
    highest_block: Option<BlockIdentifier>,
    stored: Set<BlockHash>,
    moments: Seq<StoredWalk<E>>,
    i: int,
)
    requires
        is_stored_walk(chain, highest_block, stored, moments),
        0 <= i < moments.len(),
        !(moments[i].walk.state is Ended),
    ensures
        forall|block: BlockHash| #[trigger]
            moments[i].stored.contains(block) <==> stored.contains(block) || exists|n: nat|
                n < moments[i].counted() && block == #[trigger] chain.ancestor(
                    chain.first(highest_block),
                    n,
                ),
    decreases i,
{
    walk_is_under_way(chain, highest_block, stored, moments, i);
    stored_blocks_stay_stored(chain, highest_block, stored, moments, 0, i);
    if i > 0 {
        let (before, after) = (moments[i - 1], moments[i]);
        let first = chain.first(highest_block);
        assert(before.moves(chain, moments[i - 1 + 1]));
        walk_is_under_way(chain, highest_block, stored, moments, i - 1);
        walk_stores_what_it_counts(chain, highest_block, stored, moments, i - 1);
        assert forall|block: BlockHash| #[trigger]
            after.stored.contains(block) && !stored.contains(block) implies exists|n: nat|
            n < after.counted() && block == #[trigger] chain.ancestor(first, n) by {
            if before.stored.contains(block) {
                let n = choose|n: nat|
                    n < before.counted() && block == #[trigger] chain.ancestor(first, n);
                assert(n < after.counted());
            } else {
                assert(block == chain.ancestor(first, before.counted()));
            }
        }
    }
}

/// A walk that fails loses nothing and adds nothing but blocks that it came past: storage holds
/// what it held at the start and every block that the walk has counted. It holds no other, but
/// where the walk failed to store a block it may hold that one.
pub proof fn failed_walk_keeps_its_blocks<E>(
    chain: Chain,
    highest_block: Option<BlockIdentifier>,
    stored: Set<BlockHash>,
    moments: Seq<StoredWalk<E>>,
)
    requires
        is_stored_walk(chain, highest_block, stored, moments),
        moments.last().action is Fail,
    ensures
        moments.len() > 1,
        ({
            let first = chain.first(highest_block);
            let last = moments.last();
            let failed = moments[moments.len() - 2].action;
            &&& stored.subset_of(last.stored)
            &&& forall|n: nat|
                n < last.counted() ==> last.stored.contains(#[trigger] chain.ancestor(first, n))
            &&& forall|block: BlockHash| #[trigger]
                last.stored.contains(block) ==> {
                    ||| stored.contains(block)
                    ||| exists|n: nat|
                        n < last.counted() && block == #[trigger] chain.ancestor(first, n)
                    ||| failed is StoreBlock && block == chain.ancestor(first, last.counted())
                }
        }),
{
    let n = moments.len() - 1;
    let first = chain.first(highest_block);
    let (before, last) = (moments[n - 1], moments[n]);
    walk_is_under_way(chain, highest_block, stored, moments, n);
    stored_blocks_stay_stored(chain, highest_block, stored, moments, 0, n);
    assert(before.moves(chain, moments[n - 1 + 1]));
    walk_is_under_way(chain, highest_block, stored, moments, n - 1);
    walk_stores_what_it_counts(chain, highest_block, stored, moments, n - 1);
    assert(before.counted() == last.counted());
    assert forall|block: BlockHash| #[trigger] last.stored.contains(block) implies {
        ||| stored.contains(block)
        ||| exists|k: nat| k < last.counted() && block == #[trigger] chain.ancestor(first, k)
        ||| before.action is StoreBlock && block == chain.ancestor(first, last.counted())
    } by {
        assert(before.stored.contains(block) || block == chain.ancestor(first, before.counted()));
    }
}

/// How many of the four actions on a block the walk has behind it.
spec fn actions_done(state: WalkState) -> nat {
    match state {
        WalkState::Reading { .. } => 0,
        WalkState::Requesting => 1,
        WalkState::Downloading => 2,
        WalkState::Storing { .. } => 3,
        WalkState::Ended => 4,
    }
}

proof fn lemma_walk_advances<E>(
    chain: Chain,
    highest_block: Option<BlockIdentifier>,
    stored: Set<BlockHash>,
    moments: Seq<StoredWalk<E>>,
    i: int,
)
    requires
        is_stored_walk(chain, highest_block, stored, moments),
        0 <= i < moments.len(),
    ensures
        i <= 4 * moments[i].counted() + actions_done(moments[i].walk.state),
    decreases i,
{
    if i > 0 {
        lemma_walk_advances(chain, highest_block, stored, moments, i - 1);
        assert(moments[i - 1].moves(chain, moments[i - 1 + 1]));
    }
}

/// A walk comes to an end: it takes no more than four steps for the first block and for each of
/// its ancestors, whatever storage holds.
pub proof fn walk_ends_in_time<E>(
    chain: Chain,
    highest_block: Option<BlockIdentifier>,
    stored: Set<BlockHash>,
    moments: Seq<StoredWalk<E>>,
    depth: nat,
)
    requires
        is_stored_walk(chain, highest_block, stored, moments),
        chain.has_depth(chain.first(highest_block), depth),
    ensures
        moments.len() - 1 <= 4 * (depth + 1),
{
    let last = moments.last();
    walk_is_under_way(chain, highest_block, stored, moments, moments.len() - 1);
    lemma_walk_advances(chain, highest_block, stored, moments, moments.len() - 1);
    if last.counted() > depth {
        let first = chain.first(highest_block);
        assert((chain.header)(chain.ancestor(first, depth)).height != 0);
    }
}

impl<E> StoredWalk<E> {
    /// Whether the walk makes one step, for which no action fails and the node has a block to give.
    pub open spec fn moves_well(self, chain: Chain, after: StoredWalk<E>) -> bool {
        exists|event: WalkEvent<E>| #[trigger]
            self.steps(chain, event, after) && !(event is Failed)
                && !(event matches WalkEvent::Received(None))
    }
}

/// A walk that can go no further has ended, and it has ended well if no action failed and the node
/// always had a block to give.
pub proof fn walk_goes_on_to_the_end<E>(
    chain: Chain,
    highest_block: Option<BlockIdentifier>,
    stored: Set<BlockHash>,
    moments: Seq<StoredWalk<E>>,
    depth: nat,
)
    requires
        is_stored_walk(chain, highest_block, stored, moments),
        chain.has_depth(chain.first(highest_block), depth),
        depth <= usize::MAX,
        forall|after: StoredWalk<E>| !moments.last().moves(chain, after),
    ensures
        moments.last().action is Finish || moments.last().action is Fail,
        (forall|i: int|
            0 <= i < moments.len() - 1 ==> (#[trigger] moments[i]).moves_well(
                chain,
                moments[i + 1],
            )) ==> moments.last().action is Finish,
{
    let last = moments.last();
    let first = chain.first(highest_block);
    let n = moments.len() - 1;
    walk_is_under_way(chain, highest_block, stored, moments, n);
    if last.counted() >= depth + 1 {
        assert((chain.header)(chain.ancestor(first, depth)).height != 0);
    }
    let block = chain.ancestor(first, last.counted());
    if !(last.walk.state is Ended) {
        let header = (chain.header)(block);
        let event = match last.walk.state {
            WalkState::Reading { .. } => WalkEvent::<E>::Read(
                if last.stored.contains(block) {
                    Some(header)
                } else {
                    None
                },
            ),
            WalkState::Requesting => WalkEvent::<E>::Received(Some(block)),
            WalkState::Downloading => WalkEvent::<E>::Downloaded(header),
            _ => WalkEvent::<E>::Stored,
        };
        let after = StoredWalk {
            walk: last.walk.after(event),
            action: last.walk.action(event),
            downloaded: match last.action {
                WalkAction::DownloadBlock(block) => Some(block),
                _ => last.downloaded,
            },
            stored: match (last.action, last.downloaded) {
                (WalkAction::StoreBlock, Some(block)) => last.stored.insert(block),
                _ => last.stored,
            },
        };
        if last.counted() == depth {
            assert(header.height == 0);
        }
        assert(last.steps(chain, event, after));
        assert(last.moves(chain, after));
    }
    if last.action is Fail {
        assert(!moments[n - 1].moves_well(chain, moments[n - 1 + 1]));
    }
}

/// A block that is in storage is not downloaded again: a walk that looks it up reads it, unless
/// the lookup fails, and requests nothing.
pub proof fn stored_block_is_not_requested<E>(
    chain: Chain,
    before: StoredWalk<E>,
    identifier: BlockIdentifier,
    after: StoredWalk<E>,
)
    requires
        before.moves(chain, after),
        before.action == WalkAction::<E>::ReadBlock(identifier),
        before.walk.state is Reading,
        before.stored.contains(chain.named(identifier)),
    ensures
        ({
            ||| match (chain.header)(chain.named(identifier)).parent() {
                Some(parent_hash) => after.action == WalkAction::<E>::ReadBlock(
                    BlockIdentifier::Hash(parent_hash),
                ),
                None => after.action is Finish,
            }
            ||| after.action matches WalkAction::Fail(WalkError::Failed(_))
        }),
{
}

/// What follows on two blocks that are the same is the same.
proof fn lemma_same_descent(chain: Chain, first: BlockHash, j: nat, k: nat, i: nat)
    requires
        chain.ancestor(first, j) == chain.ancestor(first, k),
    ensures
        chain.ancestor(first, j + i) == chain.ancestor(first, k + i),
    decreases i,
{
    if i > 0 {
        lemma_same_descent(chain, first, j, k, (i - 1) as nat);
        assert((j + i - 1) as nat == j + (i - 1) as nat);
        assert((k + i - 1) as nat == k + (i - 1) as nat);
    }
}

/// No block is its own ancestor on the way to a block of height zero.
proof fn lemma_ancestors_differ(chain: Chain, first: BlockHash, depth: nat, j: nat, k: nat)
    requires
        chain.has_depth(first, depth),
        j < k <= depth,
    ensures
        chain.ancestor(first, j) != chain.ancestor(first, k),
{
    if chain.ancestor(first, j) == chain.ancestor(first, k) {
        let i = (depth - k) as nat;
        lemma_same_descent(chain, first, j, k, i);
        assert(k + i == depth);
        assert((chain.header)(chain.ancestor(first, j + i)).height != 0);
    }
}

/// One more block counts as present or as absent.
proof fn lemma_count_next(chain: Chain, first: BlockHash, n: nat, found: Set<BlockHash>)
    ensures
        count_present(chain.line(first, n + 1), found) == count_present(chain.line(first, n), found)
            + if found.contains(chain.ancestor(first, n)) {
            1nat
        } else {
            0
        },
        count_absent(chain.line(first, n + 1), found) == count_absent(chain.line(first, n), found)
            + if found.contains(chain.ancestor(first, n)) {
            0nat
        } else {
            1
        },
{
    reveal(Seq::filter);
    assert(chain.line(first, n + 1).drop_last() =~= chain.line(first, n));
    assert(chain.line(first, n + 1).last() == chain.ancestor(first, n));
}

/// Every block is present or absent.
proof fn lemma_count_all(chain: Chain, first: BlockHash, n: nat, found: Set<BlockHash>)
    ensures
        count_present(chain.line(first, n), found) + count_absent(chain.line(first, n), found) == n,
        (forall|k: nat| k < n ==> found.contains(#[trigger] chain.ancestor(first, k)))
            ==> count_absent(chain.line(first, n), found) == 0,
    decreases n,
{
    if n == 0 {
        reveal(Seq::filter);
    } else {
        let m = (n - 1) as nat;
        lemma_count_all(chain, first, m, found);
        lemma_count_next(chain, first, m, found);
        assert(m + 1 == n);
    }
}

impl<E> StoredWalk<E> {
    /// What holds at every moment before a walk fails: the counts are those of the blocks that it
    /// did not find and of those that it did, it has stored no blocks but those that it came past,
    /// and it downloads only a block that it did not find.
    spec fn has_counted(
        self,
        chain: Chain,
        highest_block: Option<BlockIdentifier>,
        stored: Set<BlockHash>,
    ) -> bool {
        let first = chain.first(highest_block);
        let found = found_by_walk(chain, highest_block, stored);
        let n = self.counted();
        &&& self.walk.new_blocks_downloaded == count_absent(chain.line(first, n), found)
        &&& self.walk.blocks_read_from_disk == count_present(chain.line(first, n), found)
        &&& forall|block: BlockHash| #[trigger]
            self.stored.contains(block) ==> {
                ||| stored.contains(block)
                ||| self.walk.state is Ended && block == chain.ancestor(first, n)
                ||| exists|k: nat| k < n && block == #[trigger] chain.ancestor(first, k)
            }
        &&& match self.walk.state {
            WalkState::Reading { .. } => n == 0 ==> highest_block is Some,
            WalkState::Ended => true,
            _ => !found.contains(chain.ancestor(first, n)),
        }
    }
}

proof fn lemma_walk_has_counted<E>(
    chain: Chain,
    highest_block: Option<BlockIdentifier>,
    stored: Set<BlockHash>,
    moments: Seq<StoredWalk<E>>,
    i: int,
    depth: nat,
)
    requires
        is_stored_walk(chain, highest_block, stored, moments),
        0 <= i < moments.len(),
        !(moments[i].action is Fail),
        chain.has_depth(chain.first(highest_block), depth),
    ensures
        moments[i].counted() <= depth,
        moments[i].has_counted(chain, highest_block, stored),
    decreases i,
{
    let first = chain.first(highest_block);
    let found = found_by_walk(chain, highest_block, stored);
    walk_is_under_way(chain, highest_block, stored, moments, i);
    if moments[i].counted() > depth {
        assert((chain.header)(chain.ancestor(first, depth)).height != 0);
    }
    if i == 0 {
        lemma_count_all(chain, first, 0, found);
    } else {
        let (before, after) = (moments[i - 1], moments[i]);
        assert(before.moves(chain, moments[i - 1 + 1]));
        walk_is_under_way(chain, highest_block, stored, moments, i - 1);
        stored_blocks_stay_stored(chain, highest_block, stored, moments, 0, i - 1);
        lemma_walk_has_counted(chain, highest_block, stored, moments, i - 1, depth);
        let event = choose|event: WalkEvent<E>| #[trigger] before.steps(chain, event, after);
        let n = before.counted();
        let block = chain.ancestor(first, n);
        lemma_count_next(chain, first, n, found);
        if before.walk.state is Reading {
            // What is found under way was in storage before the walk.
            assert(before.stored.contains(block) == found.contains(block)) by {
                if before.stored.contains(block) && !stored.contains(block) {
                    let k = choose|k: nat| k < n && block == #[trigger] chain.ancestor(first, k);
                    lemma_ancestors_differ(chain, first, depth, k, n);
                }
                if n > 0 {
                    lemma_ancestors_differ(chain, first, depth, 0, n);
                }
            }
        }
        assert forall|b: BlockHash| #[trigger] after.stored.contains(b) implies {
            ||| stored.contains(b)
            ||| after.walk.state is Ended && b == chain.ancestor(first, after.counted())
            ||| exists|k: nat| k < after.counted() && b == #[trigger] chain.ancestor(first, k)
        } by {
            if !stored.contains(b) {
                if before.stored.contains(b) {
                    let k = choose|k: nat| k < n && b == #[trigger] chain.ancestor(first, k);
                    assert(k < after.counted());
                } else {
                    assert(b == block);
                }
            }
        }
    }
}

/// A walk that ends well leaves the first block and all of its ancestors in storage, down to one
/// of height zero. They are as many as it has counted, and that one.
pub proof fn finished_walk_has_stored_all<E>(
    chain: Chain,
    highest_block: Option<BlockIdentifier>,
    stored: Set<BlockHash>,
    moments: Seq<StoredWalk<E>>,
)
    requires
        is_stored_walk(chain, highest_block, stored, moments),
        moments.last().action is Finish,
    ensures
        ({
            let first = chain.first(highest_block);
            let last = moments.last();
            &&& chain.has_depth(first, last.counted())
            &&& forall|n: nat|
                n <= last.counted() ==> last.stored.contains(#[trigger] chain.ancestor(first, n))
        }),
{
    walk_is_under_way(chain, highest_block, stored, moments, moments.len() - 1);
}

/// A walk that ends well reports how many of the first block and its ancestors, but for the one of
/// height zero, it did not find in storage, and how many it did. It stores those blocks and no
/// others.
pub proof fn finished_walk_counts_by_storage<E>(
    chain: Chain,
    highest_block: Option<BlockIdentifier>,
    stored: Set<BlockHash>,
    moments: Seq<StoredWalk<E>>,
    depth: nat,
)
    requires
        is_stored_walk(chain, highest_block, stored, moments),
        moments.last().action is Finish,
        chain.has_depth(chain.first(highest_block), depth),
    ensures
        ({
            let first = chain.first(highest_block);
            let found = found_by_walk(chain, highest_block, stored);
            &&& moments.last().action matches WalkAction::Finish {
                new_blocks_downloaded,
                blocks_read_from_disk,
            }
            &&& new_blocks_downloaded == count_absent(chain.line(first, depth), found)
            &&& blocks_read_from_disk == count_present(chain.line(first, depth), found)
            &&& new_blocks_downloaded + blocks_read_from_disk == depth
            &&& forall|block: BlockHash| #[trigger]
                moments.last().stored.contains(block) <==> stored.contains(block) || exists|n: nat|
                    n <= depth && block == #[trigger] chain.ancestor(first, n)
        }),
{
    let first = chain.first(highest_block);
    let last = moments.last();
    walk_is_under_way(chain, highest_block, stored, moments, moments.len() - 1);
    lemma_walk_has_counted(chain, highest_block, stored, moments, moments.len() - 1, depth);
    stored_blocks_stay_stored(chain, highest_block, stored, moments, 0, moments.len() - 1);
    if last.counted() < depth {
        assert((chain.header)(chain.ancestor(first, last.counted())).height != 0);
    }
    assert(last.counted() == depth);
}

/// Once a walk has ended well, another one from the same block only reads: at no moment does it
/// request, download or store a block.
pub proof fn second_walk_only_reads<E>(
    chain: Chain,
    highest_block: Option<BlockIdentifier>,
    stored: Set<BlockHash>,
    moments: Seq<StoredWalk<E>>,
    again: BlockIdentifier,
    second: Seq<StoredWalk<E>>,
    i: int,
)
    requires
        is_stored_walk(chain, highest_block, stored, moments),
        moments.last().action is Finish,
        chain.named(again) == chain.first(highest_block),
        is_stored_walk(chain, Some(again), moments.last().stored, second),
        0 <= i < second.len(),
    ensures
        second[i].action is ReadBlock || second[i].action is Finish || second[i].action is Fail,
    decreases i,
{
    if i > 0 {
        let (before, after) = (second[i - 1], second[i]);
        let middle = moments.last().stored;
        let first = chain.first(highest_block);
        let depth = moments.last().counted();
        assert(before.moves(chain, second[i - 1 + 1]));
        second_walk_only_reads(chain, highest_block, stored, moments, again, second, i - 1);
        walk_is_under_way(chain, Some(again), middle, second, i - 1);
        finished_walk_has_stored_all(chain, highest_block, stored, moments);
        stored_blocks_stay_stored(chain, Some(again), middle, second, 0, i - 1);
        if before.counted() > depth {
            assert((chain.header)(chain.ancestor(first, depth)).height != 0);
        }
        assert(middle.contains(chain.ancestor(first, before.counted())));
    }
}

/// Once a walk has ended well, another one from the same block that ends well too reports no
/// download, and as many blocks read as the first one downloaded and read.
pub proof fn second_walk_counts_all_as_read<E>(
    chain: Chain,
    highest_block: Option<BlockIdentifier>,
    stored: Set<BlockHash>,
    moments: Seq<StoredWalk<E>>,
    again: BlockIdentifier,
    second: Seq<StoredWalk<E>>,
)
    requires
        is_stored_walk(chain, highest_block, stored, moments),
        moments.last().action is Finish,
        chain.named(again) == chain.first(highest_block),
        is_stored_walk(chain, Some(again), moments.last().stored, second),
        second.last().action is Finish,
    ensures
        moments.last().action matches WalkAction::Finish {
            new_blocks_downloaded: downloaded,
            blocks_read_from_disk: read,
        } && second.last().action matches WalkAction::Finish {
            new_blocks_downloaded: downloaded_again,
            blocks_read_from_disk: read_again,
        } && downloaded_again == 0 && read_again == downloaded + read,
{
    let depth = moments.last().counted();
    let middle = moments.last().stored;
    finished_walk_has_stored_all(chain, highest_block, stored, moments);
    finished_walk_counts_by_storage(chain, highest_block, stored, moments, depth);
    finished_walk_counts_by_storage(chain, Some(again), middle, second, depth);
    lemma_count_all(chain, chain.first(highest_block), depth, middle);
}

} // verus!
