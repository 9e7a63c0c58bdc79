//! Laws of a walk along the chain as a whole.
use crate::types::{BlockHash, BlockIdentifier};
use crate::walk::{
    BlockHeader, BlockSource, BlockWalkView, WalkAction, WalkError, WalkEvent, WalkState,
};
use vstd::prelude::*;

verus! {

/// The walk after the events.
pub open spec fn walk_after<E>(
    highest_block: Option<BlockIdentifier>,
    events: Seq<WalkEvent<E>>,
) -> BlockWalkView
    decreases events.len(),
{
    if events.len() == 0 {
        BlockWalkView::start(highest_block)
    } else {
        walk_after(highest_block, events.drop_last()).after(events.last())
    }
}

/// Whether each event is of the kind that the walk waits for.
pub open spec fn is_walk<E>(
    highest_block: Option<BlockIdentifier>,
    events: Seq<WalkEvent<E>>,
) -> bool
    decreases events.len(),
{
    events.len() > 0 ==> {
        &&& is_walk(highest_block, events.drop_last())
        &&& walk_after(highest_block, events.drop_last()).expects(events.last())
    }
}

/// The blocks that the walk has visited, in order, and where each came from.
pub open spec fn visited<E>(
    highest_block: Option<BlockIdentifier>,
    events: Seq<WalkEvent<E>>,
) -> Seq<(BlockHeader, BlockSource)>
    decreases events.len(),
{
    if events.len() == 0 {
        Seq::empty()
    } else {
        let before = visited(highest_block, events.drop_last());
        match walk_after(highest_block, events.drop_last()).visit(events.last()) {
            Some(block) => before.push(block),
            None => before,
        }
    }
}

/// Whether the last event of the walk ended it well.
pub open spec fn is_finished<E>(
    highest_block: Option<BlockIdentifier>,
    events: Seq<WalkEvent<E>>,
) -> bool {
    events.len() > 0 && walk_after(highest_block, events.drop_last()).action(
        events.last(),
    ) is Finish
}

/// How many of the blocks came from `source` and have a parent.
pub open spec fn count_from(
    blocks: Seq<(BlockHeader, BlockSource)>,
    source: BlockSource,
) -> nat {
    blocks.filter(
        |block: (BlockHeader, BlockSource)| block.0.height != 0 && block.1 == source,
    ).len()
}

/// A walk counts the blocks that it visits, by where each came from. A block of height zero does
/// not count.
pub proof fn walk_counts_visited_blocks<E>(
    highest_block: Option<BlockIdentifier>,
    events: Seq<WalkEvent<E>>,
)
    requires
        is_walk(highest_block, events),
    ensures
        walk_after(highest_block, events).new_blocks_downloaded == count_from(
            visited(highest_block, events),
            BlockSource::Http,
        ),
        walk_after(highest_block, events).blocks_read_from_disk == count_from(
            visited(highest_block, events),
            BlockSource::Storage,
        ),
    decreases events.len(),
{
    reveal(Seq::filter);
    if events.len() > 0 {
        walk_counts_visited_blocks(highest_block, events.drop_last());
        let before = visited(highest_block, events.drop_last());
        match walk_after(highest_block, events.drop_last()).visit(events.last()) {
            Some(block) => {
                assert(before.push(block).drop_last() =~= before);
            },
            None => {},
        }
    }
}

/// A walk follows the parents: every block that it has visited, but for the last one, has a
/// parent; and while it looks a block up or fetches one after the first, the last one has a parent
/// too. The block that it looks up after another is the parent of that one.
pub proof fn walk_follows_parents<E>(
    highest_block: Option<BlockIdentifier>,
    events: Seq<WalkEvent<E>>,
)
    requires
        is_walk(highest_block, events),
    ensures
        ({
            let blocks = visited(highest_block, events);
            let walk = walk_after(highest_block, events);
            &&& forall|i: int| 0 <= i < blocks.len() - 1 ==> (#[trigger] blocks[i]).0.height != 0
            &&& blocks.len() > 0 && !(walk.state is Ended) ==> blocks.last().0.height != 0
            &&& blocks.len() > 0 ==> (walk.state matches WalkState::Reading { identifier }
                ==> identifier == BlockIdentifier::Hash(blocks.last().0.parent_hash))
        }),
    decreases events.len(),
{
    if events.len() > 0 {
        walk_follows_parents(highest_block, events.drop_last());
    }
}

/// A walk that ends well has visited a block of height zero last, and reports its counts.
pub proof fn finished_walk_reached_genesis<E>(
    highest_block: Option<BlockIdentifier>,
    events: Seq<WalkEvent<E>>,
)
    requires
        is_walk(highest_block, events),
        is_finished(highest_block, events),
        walk_after(highest_block, events).new_blocks_downloaded <= usize::MAX,
        walk_after(highest_block, events).blocks_read_from_disk <= usize::MAX,
    ensures
        visited(highest_block, events).len() > 0,
        visited(highest_block, events).last().0.height == 0,
        walk_after(highest_block, events).state is Ended,
        walk_after(highest_block, events.drop_last()).action(events.last()) == (
        WalkAction::<E>::Finish {
            new_blocks_downloaded: walk_after(highest_block, events).new_blocks_downloaded as usize,
            blocks_read_from_disk: walk_after(highest_block, events).blocks_read_from_disk as usize,
        }),
{
}

/// All blocks that have a parent count, whether they were downloaded or read.
proof fn lemma_count_all(blocks: Seq<(BlockHeader, BlockSource)>)
    requires
        forall|i: int| 0 <= i < blocks.len() ==> (#[trigger] blocks[i]).0.height != 0,
    ensures
        count_from(blocks, BlockSource::Http) + count_from(blocks, BlockSource::Storage)
            == blocks.len(),
    decreases blocks.len(),
{
    reveal(Seq::filter);
    if blocks.len() > 0 {
        lemma_count_all(blocks.drop_last());
    }
}

/// Heights go down by one from each block to the next.
proof fn lemma_height_at(blocks: Seq<(BlockHeader, BlockSource)>, i: int)
    requires
        forall|j: int|
            0 <= j < blocks.len() - 1 ==> (#[trigger] blocks[j]).0.height == blocks[j + 1].0.height
                + 1,
        0 <= i < blocks.len(),
    ensures
        blocks[i].0.height == blocks[0].0.height - i,
    decreases i,
{
    if i > 0 {
        lemma_height_at(blocks, i - 1);
        assert(blocks[i - 1].0.height == blocks[i - 1 + 1].0.height + 1);
    }
}

/// On a chain in which a parent is one lower than its child, a walk that ends well has visited one
/// block of each height from that of the first block down to zero, and the two counts add up to
/// the height of the first block.
pub proof fn finished_walk_visited_every_height<E>(
    highest_block: Option<BlockIdentifier>,
    events: Seq<WalkEvent<E>>,
)
    requires
        is_walk(highest_block, events),
        is_finished(highest_block, events),
        ({
            let blocks = visited(highest_block, events);
            forall|i: int|
                0 <= i < blocks.len() - 1 ==> (#[trigger] blocks[i]).0.height
                    == blocks[i + 1].0.height + 1
        }),
    ensures
        ({
            let blocks = visited(highest_block, events);
            let walk = walk_after(highest_block, events);
            &&& blocks.len() == blocks[0].0.height + 1
            &&& forall|i: int|
                0 <= i < blocks.len() ==> (#[trigger] blocks[i]).0.height == blocks[0].0.height - i
            &&& walk.new_blocks_downloaded + walk.blocks_read_from_disk == blocks[0].0.height
        }),
{
    let blocks = visited(highest_block, events);
    walk_counts_visited_blocks(highest_block, events);
    walk_follows_parents(highest_block, events);
    assert(blocks.len() > 0 && blocks.last().0.height == 0);
    assert forall|i: int| 0 <= i < blocks.len() implies (#[trigger] blocks[i]).0.height
        == blocks[0].0.height - i by {
        lemma_height_at(blocks, i);
    }
    lemma_height_at(blocks, blocks.len() - 1);
    lemma_count_all(blocks.drop_last());
    reveal(Seq::filter);
}

/// A failed action ends the walk: nothing happens after it, and the walk ends with its error and
/// with the counts as they were.
pub proof fn failed_action_ends_walk<E>(
    highest_block: Option<BlockIdentifier>,
    events: Seq<WalkEvent<E>>,
    i: int,
)
    requires
        is_walk(highest_block, events),
        0 <= i < events.len(),
        events[i] is Failed,
    ensures
        i == events.len() - 1,
        ({
            let before = walk_after(highest_block, events.drop_last());
            let after = walk_after(highest_block, events);
            &&& after == (BlockWalkView { state: WalkState::Ended, ..before })
            &&& before.action(events[i]) == WalkAction::Fail(
                WalkError::Failed(events[i]->Failed_0),
            )
        }),
    decreases events.len(),
{
    if i < events.len() - 1 {
        let before = events.drop_last();
        failed_action_ends_walk(highest_block, before, i);
        assert(walk_after(highest_block, before).state is Ended);
    }
}

/// A walk starts at the block that it is given, with nothing counted; without one, it starts by
/// requesting a block.
pub proof fn walk_starts_where_told(highest_block: Option<BlockIdentifier>)
    ensures
        ({
            let walk = BlockWalkView::start(highest_block);
            &&& walk.new_blocks_downloaded == 0
            &&& walk.blocks_read_from_disk == 0
            &&& match highest_block {
                Some(identifier) => walk.state matches WalkState::Reading { identifier: named }
                    && named == identifier,
                None => walk.state is Requesting,
            }
        }),
{
}

/// A walk waits for whatever can come of what it does, a failure included, and for nothing else;
/// once it has ended it waits for nothing.
pub proof fn walk_awaits_every_outcome<E>(walk: BlockWalkView, event: WalkEvent<E>)
    ensures
        walk.expects(event) <==> match event {
            WalkEvent::Read(_) => walk.state is Reading,
            WalkEvent::Received(_) => walk.state is Requesting,
            WalkEvent::Downloaded(_) => walk.state is Downloading,
            WalkEvent::Stored => walk.state is Storing,
            WalkEvent::Failed(_) => !(walk.state is Ended),
        },
{
}

/// A block that storage holds is followed by its parent, which is looked up by its hash, and counts
/// as read; only a block of height zero ends the walk, and does not count. A block that storage
/// does not hold is requested by the same identifier.
pub proof fn walk_follows_what_it_reads<E>(
    walk: BlockWalkView,
    identifier: BlockIdentifier,
    found: Option<BlockHeader>,
)
    requires
        walk.state == (WalkState::Reading { identifier }),
        walk.new_blocks_downloaded <= usize::MAX,
        walk.blocks_read_from_disk <= usize::MAX,
    ensures
        ({
            let event = WalkEvent::<E>::Read(found);
            let after = walk.after(event);
            let action = walk.action(event);
            &&& after.new_blocks_downloaded == walk.new_blocks_downloaded
            &&& match found {
                None => {
                    &&& after.blocks_read_from_disk == walk.blocks_read_from_disk
                    &&& after.state is Requesting
                    &&& action matches WalkAction::RequestBlock(Some(params))
                    &&& params.block_identifier == identifier
                },
                Some(header) => if header.height == 0 {
                    &&& after.blocks_read_from_disk == walk.blocks_read_from_disk
                    &&& after.state is Ended
                    &&& action matches WalkAction::Finish {
                        new_blocks_downloaded,
                        blocks_read_from_disk,
                    }
                    &&& new_blocks_downloaded == walk.new_blocks_downloaded
                    &&& blocks_read_from_disk == walk.blocks_read_from_disk
                } else {
                    let parent = BlockIdentifier::Hash(header.parent_hash);
                    &&& after.blocks_read_from_disk == walk.blocks_read_from_disk + 1
                    &&& after.state == (WalkState::Reading { identifier: parent })
                    &&& action == WalkAction::<E>::ReadBlock(parent)
                },
            }
        }),
{
}

/// The block that the node names is downloaded by its hash; a reply without a block ends the walk
/// with an error. Nothing is counted by it.
pub proof fn walk_downloads_what_the_node_names<E>(walk: BlockWalkView, reply: Option<BlockHash>)
    requires
        walk.state is Requesting,
    ensures
        ({
            let event = WalkEvent::<E>::Received(reply);
            let after = walk.after(event);
            let action = walk.action(event);
            &&& after.new_blocks_downloaded == walk.new_blocks_downloaded
            &&& after.blocks_read_from_disk == walk.blocks_read_from_disk
            &&& match reply {
                Some(block_hash) => after.state is Downloading && action
                    == WalkAction::<E>::DownloadBlock(block_hash),
                None => after.state is Ended && action == WalkAction::<E>::Fail(
                    WalkError::NoBlockInReply,
                ),
            }
        }),
{
}

/// A downloaded block is stored, and only then counts as downloaded and is followed by its parent;
/// one of height zero ends the walk, and does not count.
pub proof fn walk_stores_what_it_downloads<E>(
    walk: BlockWalkView,
    header: BlockHeader,
    storing: BlockWalkView,
)
    requires
        walk.state is Downloading,
        walk.new_blocks_downloaded <= usize::MAX,
        walk.blocks_read_from_disk <= usize::MAX,
        storing == walk.after(WalkEvent::<E>::Downloaded(header)),
    ensures
        walk.action(WalkEvent::<E>::Downloaded(header)) is StoreBlock,
        storing.expects(WalkEvent::<E>::Stored),
        storing.new_blocks_downloaded == walk.new_blocks_downloaded,
        storing.blocks_read_from_disk == walk.blocks_read_from_disk,
        ({
            let after = storing.after(WalkEvent::<E>::Stored);
            let action = storing.action(WalkEvent::<E>::Stored);
            &&& after.blocks_read_from_disk == walk.blocks_read_from_disk
            &&& if header.height == 0 {
                &&& after.new_blocks_downloaded == walk.new_blocks_downloaded
                &&& after.state is Ended
                &&& action matches WalkAction::Finish {
                    new_blocks_downloaded,
                    blocks_read_from_disk,
                }
                &&& new_blocks_downloaded == walk.new_blocks_downloaded
                &&& blocks_read_from_disk == walk.blocks_read_from_disk
            } else {
                let parent = BlockIdentifier::Hash(header.parent_hash);
                &&& after.new_blocks_downloaded == walk.new_blocks_downloaded + 1
                &&& after.state == (WalkState::Reading { identifier: parent })
                &&& action == WalkAction::<E>::ReadBlock(parent)
            }
        }),
{
}

/// There is room for an event as long as the counts are below what a machine word holds.
pub proof fn counts_have_room_below_limit<E>(walk: BlockWalkView, event: WalkEvent<E>)
    requires
        walk.new_blocks_downloaded < usize::MAX,
        walk.blocks_read_from_disk < usize::MAX,
    ensures
        walk.counts_fit(event),
{
}

/// Every block has a parent but one of height zero, and its header names it.
pub proof fn only_height_zero_has_no_parent(header: BlockHeader)
    ensures
        header.parent() is None <==> header.height == 0,
        header.parent() matches Some(block_hash) ==> block_hash == header.parent_hash,
{
}

} // verus!
