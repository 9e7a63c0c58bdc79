//! The requests that go out to a node, and what its reply to a request for a block means.
use crate::types::{BlockIdentifier, GetBlockParams, GetDeployParams, GetTrieParams};
use vstd::prelude::*;
use vstd::string::*;

verus! {

/// A remote procedure call. Without `params`, the call has no parameters at all.
#[derive(Debug, PartialEq, Eq)]
pub struct RpcRequest<P> {
    pub method: &'static str,
    pub params: Option<P>,
}

/// Why a remote procedure call failed. `E` is the error as the transport reports it.
#[derive(Debug, PartialEq, Eq)]
pub enum RpcError<E> {
    /// The node replied with a JSON-RPC error, which carries the message.
    JsonRpc { message: String, error: E },
    /// All other errors.
    Other(E),
}

/// Why a block could not be obtained.
#[derive(Debug, PartialEq, Eq)]
pub enum GetBlockError<E> {
    /// All other errors of the remote procedure call.
    Rpc(RpcError<E>),
    /// The node does not know the block that it was asked for. Was it from a different network?
    BlockNotKnown {
        maybe_block_identifier: Option<BlockIdentifier>,
        rpc_error_message: String,
    },
}

/// Asks for the list of peers from the perspective of the queried node.
pub fn get_peers_list() -> (request: RpcRequest<()>)
    ensures
        request.method@ == "info_get_peers"@,
        request.params is None,
{
    RpcRequest { method: "info_get_peers", params: None }
}

/// Queries global state for a stored value.
pub fn query_global_state<P>(params: P) -> (request: RpcRequest<P>)
    ensures
        request.method@ == "query_global_state"@,
        request.params == Some(params),
{
    RpcRequest { method: "query_global_state", params: Some(params) }
}

/// Queries global state for an era.
pub fn get_era_info<P>(params: P) -> (request: RpcRequest<P>)
    ensures
        request.method@ == "chain_get_era_info"@,
        request.params == Some(params),
{
    RpcRequest { method: "chain_get_era_info", params: Some(params) }
}

/// Asks for a block: the one that the parameters name, or else the highest.
pub fn get_block(params: Option<GetBlockParams>) -> (request: RpcRequest<Option<GetBlockParams>>)
    ensures
        request.method@ == "chain_get_block"@,
        request.params == Some(params),
{
    RpcRequest { method: "chain_get_block", params: Some(params) }
}

/// Asks for the genesis block.
pub fn get_genesis_block() -> (request: RpcRequest<Option<GetBlockParams>>)
    ensures
        request.method@ == "chain_get_block"@,
        request.params == Some(
            Some(GetBlockParams { block_identifier: BlockIdentifier::Height(0) }),
        ),
{
    get_block(Some(GetBlockParams { block_identifier: BlockIdentifier::Height(0) }))
}

/// Asks for a trie.
pub fn get_trie(params: GetTrieParams) -> (request: RpcRequest<GetTrieParams>)
    ensures
        request.method@ == "state_get_trie"@,
        request.params == Some(params),
{
    RpcRequest { method: "state_get_trie", params: Some(params) }
}

/// Asks for an item of global state.
pub fn get_item<P>(params: P) -> (request: RpcRequest<P>)
    ensures
        request.method@ == "state_get_item"@,
        request.params == Some(params),
{
    RpcRequest { method: "state_get_item", params: Some(params) }
}

/// Asks for a deploy.
pub fn get_deploy(params: GetDeployParams) -> (request: RpcRequest<GetDeployParams>)
    ensures
        request.method@ == "info_get_deploy"@,
        request.params == Some(params),
{
    RpcRequest { method: "info_get_deploy", params: Some(params) }
}

/// Whether the node says that it does not know the block.
pub open spec fn is_block_not_known<E>(error: RpcError<E>) -> bool {
    error matches RpcError::JsonRpc { message, .. } && message@ == "block not known"@
}

/// Reads the reply to a request for a block. A node reports a block that it does not know as an
/// error of the call; that error is told apart from all others by its message.
pub fn get_block_result<B, E>(
    params: Option<GetBlockParams>,
    reply: Result<B, RpcError<E>>,
) -> (result: Result<B, GetBlockError<E>>)
    ensures
        match reply {
            Ok(block) => result == Ok::<B, GetBlockError<E>>(block),
            Err(error) => if is_block_not_known(error) {
                &&& result matches Err(
                    GetBlockError::BlockNotKnown { maybe_block_identifier, rpc_error_message },
                )
                &&& maybe_block_identifier == match params {
                    Some(params) => Some(params.block_identifier),
                    None => None,
                }
                &&& rpc_error_message@ == "block not known"@
            } else {
                result == Err::<B, GetBlockError<E>>(GetBlockError::Rpc(error))
            },
        },
        result matches Err(GetBlockError::BlockNotKnown { .. }) <==> {
            &&& reply matches Err(RpcError::JsonRpc { message, .. })
            &&& message@ == "block not known"@
        },
{
    let maybe_block_identifier = match params {
        Some(params) => Some(params.block_identifier),
        None => None,
    };
    match reply {
        Ok(block) => Ok(block),
        Err(RpcError::JsonRpc { message, error }) => {
            if message == "block not known".to_string() {
                Err(
                    GetBlockError::BlockNotKnown {
                        maybe_block_identifier,
                        rpc_error_message: message,
                    },
                )
            } else {
                Err(GetBlockError::Rpc(RpcError::JsonRpc { message, error }))
            }
        },
        Err(error) => Err(GetBlockError::Rpc(error)),
    }
}

/// A block is not known if and only if the node says so in just these words: no other message,
/// and no error of another kind, says it.
pub proof fn unknown_block_is_told_by_its_message<E>(error: RpcError<E>)
    ensures
        is_block_not_known(error) <==> {
            &&& error matches RpcError::JsonRpc { message, .. }
            &&& message@ == seq![
                'b', 'l', 'o', 'c', 'k', ' ', 'n', 'o', 't', ' ', 'k', 'n', 'o', 'w', 'n',
            ]
        },
{
    reveal_strlit("block not known");
    assert("block not known"@ =~= seq![
        'b', 'l', 'o', 'c', 'k', ' ', 'n', 'o', 't', ' ', 'k', 'n', 'o', 'w', 'n',
    ]);
}

} // verus!
