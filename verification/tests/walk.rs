use retrieve_state::{
    download_or_read_blocks, get_block_by_identifier, BlockHash, BlockHeader, BlockIdentifier,
    BlockWalk, Digest, GetBlockParams, StorageLookup, WalkAction, WalkError, WalkEvent,
};

type Event = WalkEvent<&'static str>;
type Action = WalkAction<&'static str>;

/// Starts a walk whose actions fail with a text.
fn start(highest_block: Option<&BlockIdentifier>) -> (BlockWalk, Action) {
    download_or_read_blocks(highest_block)
}

fn hash(byte: u8) -> BlockHash {
    BlockHash {
        digest: Digest { bytes: [byte; 32] },
    }
}

/// The block at a height; its hash repeats the height.
fn header(height: u8) -> BlockHeader {
    BlockHeader {
        height: u64::from(height),
        parent_hash: hash(height.wrapping_sub(1)),
    }
}

/// Walks a chain of which `stored` are in storage until the walk ends, and returns how it ended
/// and what is in storage then. The download of the block at `broken` fails.
fn walk_with_storage(
    highest_block: Option<BlockIdentifier>,
    tip: u8,
    stored: &[u8],
    broken: Option<u8>,
) -> (Action, Vec<u8>) {
    let (mut walk, mut action) = start(highest_block.as_ref());
    let mut stored: Vec<u8> = stored.to_vec();
    let mut downloaded = None;
    let mut steps = 0;
    loop {
        let event = match action {
            WalkAction::ReadBlock(identifier) => {
                let height = match identifier {
                    BlockIdentifier::Hash(hash) => hash.digest.bytes[0],
                    BlockIdentifier::Height(height) => height as u8,
                };
                WalkEvent::Read(if stored.contains(&height) {
                    Some(header(height))
                } else {
                    None
                })
            }
            WalkAction::RequestBlock(None) => WalkEvent::Received(Some(hash(tip))),
            WalkAction::RequestBlock(Some(params)) => {
                WalkEvent::Received(match params.block_identifier {
                    BlockIdentifier::Hash(hash) => Some(hash),
                    BlockIdentifier::Height(height) => Some(self::hash(height as u8)),
                })
            }
            WalkAction::DownloadBlock(hash) => {
                let height = hash.digest.bytes[0];
                if broken == Some(height) {
                    WalkEvent::Failed("no connection")
                } else {
                    downloaded = Some(height);
                    WalkEvent::Downloaded(header(height))
                }
            }
            WalkAction::StoreBlock => {
                stored.extend(downloaded.take());
                WalkEvent::Stored
            }
            WalkAction::Finish { .. } => return (action, stored),
            WalkAction::Fail(_) => return (action, stored),
        };
        assert!(walk.accepts(&event));
        assert!(walk.has_room(&event));
        // No block takes more than four steps.
        steps += 1;
        assert!(steps <= 4 * (usize::from(tip) + 1));
        let next = walk.step(event);
        walk = next.0;
        action = next.1;
    }
}

/// Walks a chain of which `stored` are in storage, and returns the counts.
fn walk_chain(highest_block: Option<BlockIdentifier>, tip: u8, stored: &[u8]) -> (usize, usize) {
    match walk_with_storage(highest_block, tip, stored, None) {
        (
            WalkAction::Finish {
                new_blocks_downloaded,
                blocks_read_from_disk,
            },
            stored,
        ) => {
            for height in 0..=tip {
                assert!(stored.contains(&height));
            }
            (new_blocks_downloaded, blocks_read_from_disk)
        }
        _ => panic!("the walk fails"),
    }
}

#[test]
fn identifier_says_how_to_look_up() {
    assert_eq!(
        get_block_by_identifier(&BlockIdentifier::Hash(hash(2))),
        StorageLookup::ReadBlock(hash(2))
    );
    assert_eq!(
        get_block_by_identifier(&BlockIdentifier::Height(11)),
        StorageLookup::ReadBlockByHeight(11)
    );
}

#[test]
fn walk_downloads_all_when_nothing_is_stored() {
    assert_eq!(walk_chain(None, 4, &[]), (4, 0));
    assert_eq!(walk_chain(Some(BlockIdentifier::Height(4)), 4, &[]), (4, 0));
}

#[test]
fn walk_reads_all_that_is_stored() {
    let stored = [0, 1, 2, 3];
    assert_eq!(
        walk_chain(Some(BlockIdentifier::Hash(hash(3))), 3, &stored),
        (0, 3)
    );
    // The highest block is always downloaded anew when none was given.
    assert_eq!(walk_chain(None, 3, &stored), (1, 2));
}

#[test]
fn walk_counts_add_up_to_height() {
    assert_eq!(
        walk_chain(Some(BlockIdentifier::Height(5)), 5, &[4, 2, 1]),
        (2, 3)
    );
    assert_eq!(
        walk_chain(Some(BlockIdentifier::Height(5)), 5, &[0, 3]),
        (4, 1)
    );
}

#[test]
fn walk_from_genesis_counts_nothing() {
    assert_eq!(walk_chain(Some(BlockIdentifier::Height(0)), 0, &[0]), (0, 0));
    assert_eq!(walk_chain(None, 0, &[]), (0, 0));
}

#[test]
fn walk_goes_step_by_step() {
    let (walk, action) = start(Some(&BlockIdentifier::Height(2)));
    assert_eq!(action, WalkAction::ReadBlock(BlockIdentifier::Height(2)));
    let (walk, action) = walk.step(Event::Read(None));
    assert_eq!(
        action,
        WalkAction::RequestBlock(Some(GetBlockParams {
            block_identifier: BlockIdentifier::Height(2)
        }))
    );
    let (walk, action) = walk.step(Event::Received(Some(hash(2))));
    assert_eq!(action, WalkAction::DownloadBlock(hash(2)));
    let (walk, action) = walk.step(Event::Downloaded(header(2)));
    assert_eq!(action, WalkAction::StoreBlock);
    let (walk, action) = walk.step(Event::Stored);
    assert_eq!(
        action,
        WalkAction::ReadBlock(BlockIdentifier::Hash(hash(1)))
    );
    let (walk, action) = walk.step(Event::Read(Some(header(1))));
    assert_eq!(
        action,
        WalkAction::ReadBlock(BlockIdentifier::Hash(hash(0)))
    );
    let (walk, action) = walk.step(Event::Read(Some(header(0))));
    assert_eq!(
        action,
        WalkAction::Finish {
            new_blocks_downloaded: 1,
            blocks_read_from_disk: 1
        }
    );
    assert!(!walk.accepts::<()>(&WalkEvent::Stored));
}

#[test]
fn walk_fails_without_a_block() {
    let (walk, action) = start(None);
    assert_eq!(action, WalkAction::RequestBlock(None));
    assert!(walk.accepts::<()>(&WalkEvent::Received(None)));
    assert!(!walk.accepts::<()>(&WalkEvent::Read(None)));
    let (_, action) = walk.step(Event::Received(None));
    assert_eq!(action, WalkAction::Fail(WalkError::NoBlockInReply));
    assert_eq!(
        WalkError::<()>::NoBlockInReply.message(),
        Some("unable to download highest block")
    );
    assert_eq!(WalkError::Failed("error").message(), None);
}

#[test]
fn failed_action_ends_the_walk_with_its_error() {
    let failed = || WalkEvent::Failed("error");
    let ends = |walk: BlockWalk| {
        assert!(walk.accepts(&failed()));
        assert!(walk.has_room(&failed()));
        let (walk, action) = walk.step(failed());
        assert_eq!(action, WalkAction::Fail(WalkError::Failed("error")));
        assert!(!walk.accepts(&failed()));
        assert!(!walk.accepts::<()>(&WalkEvent::Read(None)));
        assert!(!walk.accepts::<()>(&WalkEvent::Stored));
    };
    let (walk, _) = start(Some(&BlockIdentifier::Height(2)));
    ends(walk);
    let (walk, _) = walk.step::<()>(WalkEvent::Read(None));
    ends(walk);
    let (walk, _) = walk.step::<()>(WalkEvent::Received(Some(hash(2))));
    ends(walk);
    let (walk, _) = walk.step::<()>(WalkEvent::Downloaded(header(2)));
    ends(walk);
    let (walk, _) = walk.step::<()>(WalkEvent::Stored);
    ends(walk);
}

#[test]
fn walk_is_taken_up_after_a_failure() {
    let tip = Some(BlockIdentifier::Hash(hash(5)));
    let (action, stored) = walk_with_storage(tip, 5, &[0, 4], Some(2));
    assert_eq!(action, WalkAction::Fail(WalkError::Failed("no connection")));
    assert_eq!(stored, vec![0, 4, 5, 3]);
    // What was stored before the failure is read.
    assert_eq!(walk_chain(tip, 5, &stored), (2, 3));
}

#[test]
fn failed_walk_adds_no_other_blocks() {
    // Nothing is stored if the first download fails.
    let (action, stored) = walk_with_storage(None, 3, &[1], Some(3));
    assert_eq!(action, WalkAction::Fail(WalkError::Failed("no connection")));
    assert_eq!(stored, vec![1]);
    // The last one fails, after all others.
    let (_, stored) = walk_with_storage(None, 3, &[1], Some(0));
    assert_eq!(stored, vec![1, 3, 2]);
}

#[test]
fn second_walk_only_reads() {
    let tip = Some(BlockIdentifier::Hash(hash(6)));
    let (action, stored) = walk_with_storage(None, 6, &[6, 3, 1], None);
    assert_eq!(
        action,
        WalkAction::Finish {
            new_blocks_downloaded: 4,
            blocks_read_from_disk: 2
        }
    );
    let (action, stored_again) = walk_with_storage(tip, 6, &stored, None);
    assert_eq!(
        action,
        WalkAction::Finish {
            new_blocks_downloaded: 0,
            blocks_read_from_disk: 6
        }
    );
    assert_eq!(stored_again, stored);
}

#[test]
fn parent_is_missing_at_height_zero_only() {
    assert_eq!(header(0).parent(), None);
    assert_eq!(header(1).parent(), Some(hash(0)));
}
