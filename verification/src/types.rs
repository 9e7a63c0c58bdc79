//! Plain values that identify blocks, deploys and tries.
use vstd::prelude::*;

verus! {

/// A hash digest: the key of a trie in the global state.
#[derive(Clone, Copy, Debug, Eq)]
pub struct Digest {
    pub bytes: [u8; 32],
}

impl PartialEq for Digest {
    fn eq(&self, other: &Digest) -> (equal: bool) {
        let mut i: usize = 0;
        while i < 32
            invariant
                i <= 32,
                forall|j: int| 0 <= j < i ==> self.bytes@[j] == other.bytes@[j],
            decreases 32 - i,
        {
            if self.bytes[i] != other.bytes[i] {
                return false;
            }
            i += 1;
        }
        assert(self.bytes =~= other.bytes);
        true
    }
}

impl vstd::std_specs::cmp::PartialEqSpecImpl for Digest {
    open spec fn obeys_eq_spec() -> bool {
        true
    }

    open spec fn eq_spec(&self, other: &Digest) -> bool {
        *self == *other
    }
}

/// The hash of a block.
#[derive(Clone, Copy, Debug, PartialEq, Eq)]
pub struct BlockHash {
    pub digest: Digest,
}

/// The hash of a deploy.
#[derive(Clone, Copy, Debug, PartialEq, Eq)]
pub struct DeployHash {
    pub digest: Digest,
}

/// Names a block, by its hash or by its height in the chain.
#[derive(Clone, Copy, Debug, PartialEq, Eq)]
pub enum BlockIdentifier {
    Hash(BlockHash),
    Height(u64),
}

/// Parameters of a request for a block.
#[derive(Clone, Copy, Debug, PartialEq, Eq)]
pub struct GetBlockParams {
    pub block_identifier: BlockIdentifier,
}

/// Parameters of a request for a deploy.
#[derive(Clone, Copy, Debug, PartialEq, Eq)]
pub struct GetDeployParams {
    pub deploy_hash: DeployHash,
    pub finalized_approvals: bool,
}

/// Parameters of a request for a trie.
#[derive(Clone, Copy, Debug, PartialEq, Eq)]
pub struct GetTrieParams {
    pub trie_key: Digest,
}

/// The hash of a deploy together with its kind.
#[derive(Clone, Copy, Debug, PartialEq, Eq)]
pub enum DeployOrTransferHash {
    Deploy(DeployHash),
    Transfer(DeployHash),
}

/// The serialized form of a trie.
#[derive(Debug, PartialEq, Eq)]
pub struct TrieRaw {
    bytes: Vec<u8>,
}

impl View for TrieRaw {
    type V = Seq<u8>;

    closed spec fn view(&self) -> Seq<u8> {
        self.bytes@
    }
}

impl TrieRaw {
    /// Wraps the bytes of a serialized trie.
    pub fn new(bytes: Vec<u8>) -> (trie_raw: TrieRaw)
        ensures
            trie_raw@ == bytes@,
    {
        TrieRaw { bytes }
    }

    /// Hands the bytes out.
    pub fn into_inner(self) -> (bytes: Vec<u8>)
        ensures
            bytes@ == self@,
    {
        self.bytes
    }
}

} // verus!
