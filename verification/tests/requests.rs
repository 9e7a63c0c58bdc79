use retrieve_state::{
    get_block, get_block_result, get_deploy, get_era_info, get_genesis_block, get_item,
    get_peers_list, get_trie, query_global_state, BlockIdentifier, DeployHash, Digest,
    GetBlockError, GetBlockParams, GetDeployParams, GetTrieParams, RpcError, RpcRequest,
    CHAIN_DOWNLOAD_PATH, DEFAULT_MAX_DB_SIZE, DEFAULT_MAX_READERS, LMDB_PATH,
};

const AT_SEVEN: GetBlockParams = GetBlockParams {
    block_identifier: BlockIdentifier::Height(7),
};

fn json_rpc(message: &str) -> RpcError<u8> {
    RpcError::JsonRpc {
        message: message.to_string(),
        error: 4,
    }
}

#[test]
fn requests_name_their_methods() {
    assert_eq!(
        get_peers_list(),
        RpcRequest {
            method: "info_get_peers",
            params: None
        }
    );
    assert_eq!(
        query_global_state(1),
        RpcRequest {
            method: "query_global_state",
            params: Some(1)
        }
    );
    assert_eq!(
        get_era_info("era"),
        RpcRequest {
            method: "chain_get_era_info",
            params: Some("era")
        }
    );
    assert_eq!(
        get_item('x'),
        RpcRequest {
            method: "state_get_item",
            params: Some('x')
        }
    );
    let trie = GetTrieParams {
        trie_key: Digest { bytes: [5; 32] },
    };
    assert_eq!(
        get_trie(trie),
        RpcRequest {
            method: "state_get_trie",
            params: Some(trie)
        }
    );
    let deploy = GetDeployParams {
        deploy_hash: DeployHash {
            digest: Digest { bytes: [6; 32] },
        },
        finalized_approvals: true,
    };
    assert_eq!(
        get_deploy(deploy),
        RpcRequest {
            method: "info_get_deploy",
            params: Some(deploy)
        }
    );
}

#[test]
fn block_requests_carry_optional_params() {
    assert_eq!(
        get_block(None),
        RpcRequest {
            method: "chain_get_block",
            params: Some(None)
        }
    );
    assert_eq!(get_block(Some(AT_SEVEN)).params, Some(Some(AT_SEVEN)));
}

#[test]
fn genesis_is_the_block_at_height_zero() {
    assert_eq!(
        get_genesis_block(),
        RpcRequest {
            method: "chain_get_block",
            params: Some(Some(GetBlockParams {
                block_identifier: BlockIdentifier::Height(0)
            }))
        }
    );
}

#[test]
fn block_reply_is_handed_on() {
    assert_eq!(
        get_block_result::<_, u8>(Some(AT_SEVEN), Ok("block")),
        Ok("block")
    );
}

#[test]
fn unknown_block_is_told_apart() {
    assert_eq!(
        get_block_result::<(), _>(Some(AT_SEVEN), Err(json_rpc("block not known"))),
        Err(GetBlockError::BlockNotKnown {
            maybe_block_identifier: Some(BlockIdentifier::Height(7)),
            rpc_error_message: "block not known".to_string(),
        })
    );
    assert_eq!(
        get_block_result::<(), _>(None, Err(json_rpc("block not known"))),
        Err(GetBlockError::BlockNotKnown {
            maybe_block_identifier: None,
            rpc_error_message: "block not known".to_string(),
        })
    );
}

#[test]
fn other_errors_are_handed_on() {
    assert_eq!(
        get_block_result::<(), _>(Some(AT_SEVEN), Err(json_rpc("Block not known"))),
        Err(GetBlockError::Rpc(json_rpc("Block not known")))
    );
    assert_eq!(
        get_block_result::<(), _>(Some(AT_SEVEN), Err(json_rpc(""))),
        Err(GetBlockError::Rpc(json_rpc("")))
    );
    assert_eq!(
        get_block_result::<(), u8>(None, Err(RpcError::Other(3))),
        Err(GetBlockError::Rpc(RpcError::Other(3)))
    );
}

#[test]
fn defaults() {
    assert_eq!(LMDB_PATH, "lmdb-data");
    assert_eq!(CHAIN_DOWNLOAD_PATH, "chain-download");
    assert_eq!(DEFAULT_MAX_DB_SIZE, 450 * 1024 * 1024 * 1024);
    assert_eq!(DEFAULT_MAX_READERS, 512);
}
