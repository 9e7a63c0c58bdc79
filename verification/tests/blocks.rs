use retrieve_state::{
    download_block_with_deploys, put_block_with_deploys, BlockDownload, BlockHash, BlockHeader,
    BlockIdentifier, BlockStoring, BlockWithDeploys, Deploy, DeployHash, DeployOrTransferHash,
    Digest, DownloadAction, DownloadEvent, GetBlockParams, GetBlockResult, GetDeployParams,
    JsonBlock, PutBlockError, StoragePlan, StorageWrite, StoringAction, StoringError,
};

type Action = DownloadAction<&'static str, u8, &'static str>;
type Event = DownloadEvent<&'static str, u8, &'static str>;
type Download = BlockDownload<&'static str, u8>;

fn digest(byte: u8) -> Digest {
    Digest { bytes: [byte; 32] }
}

fn deploy_hash(byte: u8) -> DeployHash {
    DeployHash {
        digest: digest(byte),
    }
}

fn block_hash(byte: u8) -> BlockHash {
    BlockHash {
        digest: digest(byte),
    }
}

fn block(transfers: &[u8], deploys: &[u8]) -> JsonBlock<&'static str> {
    JsonBlock {
        hash: block_hash(9),
        header: BlockHeader {
            height: 5,
            parent_hash: block_hash(8),
        },
        transfer_hashes: transfers.iter().map(|byte| deploy_hash(*byte)).collect(),
        deploy_hashes: deploys.iter().map(|byte| deploy_hash(*byte)).collect(),
        contents: "block",
    }
}

fn deploy(byte: u8) -> Deploy<u8> {
    Deploy {
        deploy_or_transfer_hash: DeployOrTransferHash::Deploy(deploy_hash(byte)),
        contents: byte,
    }
}

fn transfer(byte: u8) -> Deploy<u8> {
    Deploy {
        deploy_or_transfer_hash: DeployOrTransferHash::Transfer(deploy_hash(byte)),
        contents: byte,
    }
}

/// The request for a deploy.
fn request(byte: u8) -> Action {
    DownloadAction::RequestDeploy(GetDeployParams {
        deploy_hash: deploy_hash(byte),
        finalized_approvals: true,
    })
}

fn start() -> (Download, Action) {
    download_block_with_deploys(block_hash(9))
}

/// A download for which the node has replied with the block.
fn download_of(transfers: &[u8], deploys: &[u8]) -> (Download, Action) {
    let (download, _) = start();
    let event: Event = DownloadEvent::BlockReceived(Ok(GetBlockResult {
        block: Some(block(transfers, deploys)),
    }));
    assert!(download.accepts(&event));
    download.step(event)
}

fn receive(download: Download, deploy: Deploy<u8>) -> (Download, Action) {
    let event: Event = DownloadEvent::DeployReceived(Ok(deploy));
    assert!(download.accepts(&event));
    download.step(event)
}

fn has_ended(download: &Download) -> bool {
    let block_failed: Event = DownloadEvent::BlockReceived(Err("error"));
    let deploy_failed: Event = DownloadEvent::DeployReceived(Err("error"));
    !download.accepts(&block_failed) && !download.accepts(&deploy_failed)
}

#[test]
fn download_begins_with_block_by_hash() {
    let (download, action) = start();
    assert_eq!(
        action,
        DownloadAction::RequestBlock(Some(GetBlockParams {
            block_identifier: BlockIdentifier::Hash(block_hash(9))
        }))
    );
    // The reply has to hold the block.
    let event: Event = DownloadEvent::BlockReceived(Ok(GetBlockResult { block: None }));
    assert!(!download.accepts(&event));
}

#[test]
fn download_requests_transfers_before_deploys() {
    let (download, action) = download_of(&[1, 2], &[3]);
    assert_eq!(action, request(1));
    let (download, action) = receive(download, transfer(1));
    assert_eq!(action, request(2));
    let (download, action) = receive(download, transfer(2));
    assert_eq!(action, request(3));
    let (download, action) = receive(download, deploy(3));
    assert_eq!(
        action,
        DownloadAction::Finish(BlockWithDeploys {
            block: block(&[1, 2], &[3]),
            transfers: vec![transfer(1), transfer(2)],
            deploys: vec![deploy(3)],
        })
    );
    assert!(has_ended(&download));
}

#[test]
fn download_of_empty_block_requests_nothing() {
    let (download, action) = download_of(&[], &[]);
    assert_eq!(
        action,
        DownloadAction::Finish(BlockWithDeploys {
            block: block(&[], &[]),
            transfers: vec![],
            deploys: vec![],
        })
    );
    assert!(has_ended(&download));
}

#[test]
fn download_takes_answers_as_they_come() {
    // An answer stands for the hash that it was requested by, whatever it holds.
    let (download, _) = download_of(&[1], &[2]);
    let (download, _) = receive(download, deploy(7));
    let (_, action) = receive(download, transfer(6));
    assert_eq!(
        action,
        DownloadAction::Finish(BlockWithDeploys {
            block: block(&[1], &[2]),
            transfers: vec![deploy(7)],
            deploys: vec![transfer(6)],
        })
    );
}

#[test]
fn failed_request_for_the_block_ends_the_download() {
    let (download, _) = start();
    let event: Event = DownloadEvent::BlockReceived(Err("block not known"));
    assert!(download.accepts(&event));
    let (download, action) = download.step(event);
    assert_eq!(action, DownloadAction::Fail("block not known"));
    assert!(has_ended(&download));
}

#[test]
fn first_failed_request_for_a_deploy_ends_the_download() {
    // One for a transfer.
    let (download, _) = download_of(&[1, 2], &[3]);
    let (download, _) = receive(download, transfer(1));
    let (download, action) = download.step(Event::DeployReceived(Err("timeout")));
    assert_eq!(action, DownloadAction::Fail("timeout"));
    assert!(has_ended(&download));
    // One for a deploy, with all transfers received.
    let (download, _) = download_of(&[1], &[2, 3]);
    let (download, _) = receive(download, transfer(1));
    let (download, action) = download.step(Event::DeployReceived(Err("refused")));
    assert_eq!(action, DownloadAction::Fail("refused"));
    assert!(has_ended(&download));
}

/// A plan for a block with one deploy and one transfer.
fn plan() -> StoragePlan {
    put_block_with_deploys(&BlockWithDeploys {
        block: block(&[1], &[2]),
        transfers: vec![transfer(1)],
        deploys: vec![deploy(2)],
    })
}

#[test]
fn writes_are_made_one_after_the_other() {
    let (storing, action) = BlockStoring::start::<&str>(plan());
    assert_eq!(action, StoringAction::Write(StorageWrite::PutDeploy(0)));
    let (storing, action) = storing.step::<&str>(Ok(()));
    assert_eq!(action, StoringAction::Write(StorageWrite::PutTransfer(0)));
    let (storing, action) = storing.step::<&str>(Ok(()));
    assert_eq!(action, StoringAction::Write(StorageWrite::WriteBlock));
    assert!(storing.is_waiting());
    let (storing, action) = storing.step::<&str>(Ok(()));
    assert_eq!(action, StoringAction::Finish);
    assert!(!storing.is_waiting());
}

#[test]
fn failed_write_ends_the_storing() {
    let (storing, _) = BlockStoring::start::<&str>(plan());
    let (storing, _) = storing.step::<&str>(Ok(()));
    let (storing, action) = storing.step(Err("disk full"));
    assert_eq!(
        action,
        StoringAction::Fail(StoringError::Failed("disk full"))
    );
    assert!(!storing.is_waiting());
}

#[test]
fn unsorted_block_is_not_stored() {
    // Nothing can be put before the transfer among the deploys.
    let (storing, action) = BlockStoring::start::<&str>(put_block_with_deploys(&BlockWithDeploys {
        block: block(&[], &[2]),
        transfers: vec![],
        deploys: vec![transfer(2)],
    }));
    let error = StoringError::Unsorted(PutBlockError::TransferInDeploys);
    assert_eq!(action, StoringAction::Fail(error));
    assert!(!storing.is_waiting());
    // The deploy is put before the other one is found among the transfers.
    let (storing, action) = BlockStoring::start::<&str>(put_block_with_deploys(&BlockWithDeploys {
        block: block(&[1], &[2]),
        transfers: vec![deploy(1)],
        deploys: vec![deploy(2)],
    }));
    assert_eq!(action, StoringAction::Write(StorageWrite::PutDeploy(0)));
    let (storing, action) = storing.step::<&str>(Ok(()));
    let error = StoringError::Unsorted(PutBlockError::DeployInTransfers);
    assert_eq!(action, StoringAction::Fail(error));
    assert!(!storing.is_waiting());
}

#[test]
fn sorted_block_is_stored_whole() {
    let plan = put_block_with_deploys(&BlockWithDeploys {
        block: block(&[1, 2], &[3]),
        transfers: vec![transfer(1), transfer(2)],
        deploys: vec![deploy(3)],
    });
    assert_eq!(
        plan.writes,
        vec![
            StorageWrite::PutDeploy(0),
            StorageWrite::PutTransfer(0),
            StorageWrite::PutTransfer(1),
            StorageWrite::WriteBlock,
        ]
    );
    assert_eq!(plan.result, Ok(()));
}

#[test]
fn block_without_deploys_is_written() {
    let plan = put_block_with_deploys(&BlockWithDeploys::<_, u8> {
        block: block(&[], &[]),
        transfers: vec![],
        deploys: vec![],
    });
    assert_eq!(plan.writes, vec![StorageWrite::WriteBlock]);
    assert_eq!(plan.result, Ok(()));
}

#[test]
fn transfer_among_deploys_ends_the_writes() {
    let plan = put_block_with_deploys(&BlockWithDeploys {
        block: block(&[1], &[2, 3, 4]),
        transfers: vec![transfer(1)],
        deploys: vec![deploy(2), transfer(3), deploy(4)],
    });
    assert_eq!(plan.writes, vec![StorageWrite::PutDeploy(0)]);
    assert_eq!(plan.result, Err(PutBlockError::TransferInDeploys));
    assert_eq!(
        PutBlockError::TransferInDeploys.message(),
        "transfer found in list of deploys"
    );
}

#[test]
fn deploy_among_transfers_keeps_the_block_out() {
    let plan = put_block_with_deploys(&BlockWithDeploys {
        block: block(&[1, 2], &[3]),
        transfers: vec![transfer(1), deploy(2)],
        deploys: vec![deploy(3)],
    });
    assert_eq!(
        plan.writes,
        vec![StorageWrite::PutDeploy(0), StorageWrite::PutTransfer(0)]
    );
    assert_eq!(plan.result, Err(PutBlockError::DeployInTransfers));
    assert_eq!(
        PutBlockError::DeployInTransfers.message(),
        "deploy found in list of transfers"
    );
}
