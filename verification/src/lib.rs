//! Retrieval of a chain's blocks and global state from its nodes.
//!
//! The modules hold the decisions of the retrieval: which request goes out next, what a reply
//! means, what is written to storage and in which order, and which tries are still to be
//! downloaded. Sockets, databases and timers belong to the program that drives them.
pub mod block_download;
pub mod blocks;
pub mod bytes_run;
pub mod chain_run;
pub mod end_run;
pub mod peers;
pub mod queue_run;
pub mod requests;
pub mod store_run;
pub mod storing;
pub mod sync_run;
pub mod sync_state;
pub mod throughput;
pub mod tries;
pub mod types;
pub mod walk;
pub mod walk_run;
pub mod worker;
pub mod workers_run;

pub use block_download::{
    download_block_with_deploys, BlockDownload, DownloadAction, DownloadEvent,
};
pub use blocks::{
    put_block_with_deploys, BlockWithDeploys, Deploy, GetBlockResult, JsonBlock, PutBlockError,
    StoragePlan, StorageWrite,
};
pub use peers::{
    address_to_url, check_peers_for_get_trie_endpoint, probe_params, sync_result, sync_trie_store,
    SyncStart, PEER_TIMEOUT_SECS,
};
pub use requests::{
    get_block, get_block_result, get_deploy, get_era_info, get_genesis_block, get_item,
    get_peers_list, get_trie, query_global_state, GetBlockError, RpcError, RpcRequest,
};
pub use storing::{BlockStoring, StoringAction, StoringError};
pub use sync_state::{FetchAndStoreResult, SyncStateInner};
pub use throughput::{ByteCounter, REPORT_INTERVAL_MILLIS};
pub use tries::TriesAwaitingChildren;
pub use types::{
    BlockHash, BlockIdentifier, DeployHash, DeployOrTransferHash, Digest, GetBlockParams,
    GetDeployParams, GetTrieParams, TrieRaw,
};
pub use walk::{
    download_or_read_blocks, get_block_by_identifier, BlockHeader, BlockSource, BlockWalk,
    StorageLookup, WalkAction, WalkError, WalkEvent, WalkState,
};
pub use worker::{StoreReply, WorkerAction, WorkerError, WorkerEvent, WorkerState};

use vstd::prelude::*;

verus! {

/// Directory of the global state database.
pub const LMDB_PATH: &'static str = "lmdb-data";

/// Directory into which blocks are downloaded.
pub const CHAIN_DOWNLOAD_PATH: &'static str = "chain-download";

/// Maximum size of the database in bytes: 450 GiB.
pub const DEFAULT_MAX_DB_SIZE: u64 = 483_183_820_800;

/// Maximum number of concurrent readers of the database.
pub const DEFAULT_MAX_READERS: u32 = 512;

} // verus!
