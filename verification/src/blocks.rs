//! Blocks with their deploys, and the order in which they are stored.
use crate::types::{BlockHash, DeployHash, DeployOrTransferHash};
use crate::walk::BlockHeader;
use vstd::prelude::*;

verus! {

/// A block as a node gives it. `B` is the whole of it.
#[derive(Debug, PartialEq, Eq)]
pub struct JsonBlock<B> {
    pub hash: BlockHash,
    pub header: BlockHeader,
    pub transfer_hashes: Vec<DeployHash>,
    pub deploy_hashes: Vec<DeployHash>,
    pub contents: B,
}

/// A deploy as a node gives it. `D` is the whole of it.
#[derive(Debug, PartialEq, Eq)]
pub struct Deploy<D> {
    pub deploy_or_transfer_hash: DeployOrTransferHash,
    pub contents: D,
}

/// The reply to a request for a block.
#[derive(Debug, PartialEq, Eq)]
pub struct GetBlockResult<B> {
    pub block: Option<JsonBlock<B>>,
}

/// A block along with all of its transfers and deploys.
#[derive(Debug, PartialEq, Eq)]
pub struct BlockWithDeploys<B, D> {
    pub block: JsonBlock<B>,
    pub transfers: Vec<Deploy<D>>,
    pub deploys: Vec<Deploy<D>>,
}

impl<B> JsonBlock<B> {
    /// The hashes of all that the block holds, in the order in which it is requested: the
    /// transfers before the other deploys.
    pub open spec fn all_hashes(self) -> Seq<DeployHash> {
        self.transfer_hashes@ + self.deploy_hashes@
    }
}

/// One write to storage.
#[derive(Clone, Copy, Debug, PartialEq, Eq)]
pub enum StorageWrite {
    /// Put the deploy at this index of the deploys.
    PutDeploy(usize),
    /// Put the deploy at this index of the transfers.
    PutTransfer(usize),
    /// Convert the block and write it.
    WriteBlock,
}

/// Why a block with its deploys is not stored.
#[derive(Clone, Copy, Debug, PartialEq, Eq)]
pub enum PutBlockError {
    TransferInDeploys,
    DeployInTransfers,
}

impl PutBlockError {
    /// The error as text.
    pub fn message(self) -> (message: &'static str)
        ensures
            message@ == match self {
                PutBlockError::TransferInDeploys => "transfer found in list of deploys"@,
                PutBlockError::DeployInTransfers => "deploy found in list of transfers"@,
            },
    {
        match self {
            PutBlockError::TransferInDeploys => "transfer found in list of deploys",
            PutBlockError::DeployInTransfers => "deploy found in list of transfers",
        }
    }
}

/// How many deploys stand before the first that is a transfer (`transfers` false) or before the
/// first that is none (`transfers` true).
pub open spec fn leading<D>(deploys: Seq<Deploy<D>>, transfers: bool) -> nat
    decreases deploys.len(),
{
    if deploys.len() > 0 && (deploys[0].deploy_or_transfer_hash is Transfer) == transfers {
        1 + leading(deploys.drop_first(), transfers)
    } else {
        0
    }
}

/// Whether each deploy is a transfer (`transfers` true) or none is (`transfers` false).
pub open spec fn all_of_kind<D>(deploys: Seq<Deploy<D>>, transfers: bool) -> bool {
    forall|i: int|
        0 <= i < deploys.len() ==> ((#[trigger] deploys[i]).deploy_or_transfer_hash is Transfer)
            == transfers
}

/// All deploys lead if and only if they are all of the kind; else the first that does not lead is
/// not of the kind, and those before it are.
pub proof fn leading_ends_at_other_kind<D>(deploys: Seq<Deploy<D>>, transfers: bool)
    ensures
        leading(deploys, transfers) <= deploys.len(),
        leading(deploys, transfers) == deploys.len() <==> all_of_kind(deploys, transfers),
        all_of_kind(deploys.take(leading(deploys, transfers) as int), transfers),
        leading(deploys, transfers) < deploys.len() ==> (deploys[leading(
            deploys,
            transfers,
        ) as int].deploy_or_transfer_hash is Transfer) != transfers,
    decreases deploys.len(),
{
    if deploys.len() > 0 && (deploys[0].deploy_or_transfer_hash is Transfer) == transfers {
        let rest = deploys.drop_first();
        leading_ends_at_other_kind(rest, transfers);
        let n = leading(deploys, transfers) as int;
        assert forall|i: int| 0 <= i < n implies ((#[trigger] deploys.take(
            n,
        )[i]).deploy_or_transfer_hash is Transfer) == transfers by {
            if i > 0 {
                assert(rest.take(n - 1)[i - 1] == deploys[i]);
            }
        }
        if all_of_kind(rest, transfers) {
            assert forall|i: int| 0 <= i < deploys.len() implies ((
            #[trigger] deploys[i]).deploy_or_transfer_hash is Transfer) == transfers by {
                if i > 0 {
                    assert(rest[i - 1] == deploys[i]);
                }
            }
        }
        if all_of_kind(deploys, transfers) {
            assert forall|i: int| 0 <= i < rest.len() implies ((
            #[trigger] rest[i]).deploy_or_transfer_hash is Transfer) == transfers by {
                assert(rest[i] == deploys[i + 1]);
            }
        }
        if leading(rest, transfers) < rest.len() {
            assert(rest[n - 1] == deploys[n]);
        }
    }
}

/// The writes that store a block with its deploys, in order, and the error that comes after them.
pub struct StoragePlan {
    pub writes: Vec<StorageWrite>,
    pub result: Result<(), PutBlockError>,
}

impl<B, D> BlockWithDeploys<B, D> {
    /// Whether deploys and transfers are each in their own list.
    pub open spec fn is_sorted(self) -> bool {
        all_of_kind(self.deploys@, false) && all_of_kind(self.transfers@, true)
    }

    /// How many transfers are put: none unless all of the deploys are.
    pub open spec fn transfers_put(self) -> nat {
        if all_of_kind(self.deploys@, false) {
            leading(self.transfers@, true)
        } else {
            0
        }
    }

    /// The writes: the deploys up to the first transfer among them; if there is none, the
    /// transfers up to the first of them that is none; if there is none either, the block.
    pub open spec fn writes(self) -> Seq<StorageWrite> {
        Seq::new(leading(self.deploys@, false), |i: int| StorageWrite::PutDeploy(i as usize))
            + Seq::new(self.transfers_put(), |i: int| StorageWrite::PutTransfer(i as usize)) + (
        if self.is_sorted() {
            seq![StorageWrite::WriteBlock]
        } else {
            Seq::empty()
        })
    }

    /// What the writes end with: an error unless deploys and transfers are each in their own list.
    pub open spec fn put_result(self) -> Result<(), PutBlockError> {
        if !all_of_kind(self.deploys@, false) {
            Err(PutBlockError::TransferInDeploys)
        } else if !all_of_kind(self.transfers@, true) {
            Err(PutBlockError::DeployInTransfers)
        } else {
            Ok(())
        }
    }
}

/// How many deploys stand before the first of the other kind.
fn count_leading<D>(deploys: &Vec<Deploy<D>>, transfers: bool) -> (count: usize)
    ensures
        count == leading(deploys@, transfers),
{
    let mut count: usize = 0;
    assert(deploys@.skip(0) =~= deploys@);
    while count < deploys.len()
        invariant_except_break
            count <= deploys@.len(),
            leading(deploys@, transfers) == count + leading(deploys@.skip(count as int), transfers),
        ensures
            count == leading(deploys@, transfers),
        decreases deploys@.len() - count,
    {
        let is_transfer: bool = match &deploys[count].deploy_or_transfer_hash {
            DeployOrTransferHash::Transfer(_) => true,
            DeployOrTransferHash::Deploy(_) => false,
        };
        assert(deploys@.skip(count as int)[0] == deploys@[count as int]);
        assert(deploys@.skip(count as int).drop_first() =~= deploys@.skip(count + 1));
        if is_transfer != transfers {
            break;
        }
        count += 1;
    }
    count
}

/// Plans how a block, its deploys and its transfers are stored. Each write takes place only if
/// those before it succeed; the result of the plan is that of the whole once all of them have.
pub fn put_block_with_deploys<B, D>(block_with_deploys: &BlockWithDeploys<B, D>) -> (plan:
    StoragePlan)
    ensures
        plan.writes@ == block_with_deploys.writes(),
        plan.result == block_with_deploys.put_result(),
{
    let mut writes: Vec<StorageWrite> = Vec::new();
    let deploy_count: usize = count_leading(&block_with_deploys.deploys, false);
    let ghost deploy_writes = Seq::new(
        deploy_count as nat,
        |i: int| StorageWrite::PutDeploy(i as usize),
    );
    proof {
        leading_ends_at_other_kind(block_with_deploys.deploys@, false);
        leading_ends_at_other_kind(block_with_deploys.transfers@, true);
    }
    for i in 0..deploy_count
        invariant
            writes@ == Seq::new(i as nat, |j: int| StorageWrite::PutDeploy(j as usize)),
    {
        writes.push(StorageWrite::PutDeploy(i));
        assert(writes@ =~= Seq::new((i + 1) as nat, |j: int| StorageWrite::PutDeploy(j as usize)));
    }
    if deploy_count < block_with_deploys.deploys.len() {
        assert(writes@ =~= block_with_deploys.writes());
        return StoragePlan { writes, result: Err(PutBlockError::TransferInDeploys) };
    }
    let transfer_count: usize = count_leading(&block_with_deploys.transfers, true);
    for i in 0..transfer_count
        invariant
            writes@ == deploy_writes + Seq::new(
                i as nat,
                |j: int| StorageWrite::PutTransfer(j as usize),
            ),
    {
        writes.push(StorageWrite::PutTransfer(i));
        assert(writes@ =~= deploy_writes + Seq::new(
            (i + 1) as nat,
            |j: int| StorageWrite::PutTransfer(j as usize),
        ));
    }
    if transfer_count < block_with_deploys.transfers.len() {
        assert(writes@ =~= block_with_deploys.writes());
        return StoragePlan { writes, result: Err(PutBlockError::DeployInTransfers) };
    }
    writes.push(StorageWrite::WriteBlock);
    assert(writes@ =~= block_with_deploys.writes());
    StoragePlan { writes, result: Ok(()) }
}

/// The block is written last, and only if every deploy and every transfer is in its own list; then
/// all of them are put before it.
pub proof fn block_is_written_last<B, D>(block_with_deploys: BlockWithDeploys<B, D>, i: int)
    requires
        0 <= i < block_with_deploys.writes().len(),
        block_with_deploys.writes()[i] == StorageWrite::WriteBlock,
    ensures
        block_with_deploys.is_sorted(),
        i == block_with_deploys.writes().len() - 1,
        i == block_with_deploys.deploys@.len() + block_with_deploys.transfers@.len(),
{
    leading_ends_at_other_kind(block_with_deploys.deploys@, false);
    leading_ends_at_other_kind(block_with_deploys.transfers@, true);
}

/// No deploy is put as a transfer and no transfer as a deploy, whatever the lists hold.
pub proof fn writes_are_of_their_kind<B, D>(block_with_deploys: BlockWithDeploys<B, D>, i: int)
    requires
        block_with_deploys.deploys@.len() <= usize::MAX,
        block_with_deploys.transfers@.len() <= usize::MAX,
        0 <= i < block_with_deploys.writes().len(),
    ensures
        match block_with_deploys.writes()[i] {
            StorageWrite::PutDeploy(index) => {
                &&& index < block_with_deploys.deploys@.len()
                &&& block_with_deploys.deploys@[index as int].deploy_or_transfer_hash is Deploy
            },
            StorageWrite::PutTransfer(index) => {
                &&& index < block_with_deploys.transfers@.len()
                &&& block_with_deploys.transfers@[index as int].deploy_or_transfer_hash is Transfer
            },
            StorageWrite::WriteBlock => true,
        },
{
    let (deploys, transfers) = (block_with_deploys.deploys@, block_with_deploys.transfers@);
    leading_ends_at_other_kind(deploys, false);
    leading_ends_at_other_kind(transfers, true);
    let d = leading(deploys, false) as int;
    let t = leading(transfers, true) as int;
    if i < d {
        assert(deploys.take(d)[i] == deploys[i]);
    } else if i < d + block_with_deploys.transfers_put() {
        assert(transfers.take(t)[i - d] == transfers[i - d]);
    }
}

/// Deploys are put in order, each of them once, up to the first that is a transfer: the write at
/// each place before that is the put of the deploy at that place.
pub proof fn deploys_are_put_in_order<B, D>(block_with_deploys: BlockWithDeploys<B, D>, i: int)
    requires
        0 <= i < block_with_deploys.deploys@.len(),
        forall|k: int|
            0 <= k <= i ==> (
            #[trigger] block_with_deploys.deploys@[k]).deploy_or_transfer_hash is Deploy,
    ensures
        i < block_with_deploys.writes().len(),
        block_with_deploys.writes()[i] matches StorageWrite::PutDeploy(index) && index == i,
{
    let deploys = block_with_deploys.deploys@;
    leading_ends_at_other_kind(deploys, false);
    assert(block_with_deploys.deploys.len() == deploys.len());
    if leading(deploys, false) <= i {
        assert(deploys[leading(deploys, false) as int].deploy_or_transfer_hash is Deploy);
    }
}

/// Behind all deploys, transfers are put in order, each of them once, up to the first that is none.
pub proof fn transfers_are_put_in_order<B, D>(block_with_deploys: BlockWithDeploys<B, D>, i: int)
    requires
        forall|k: int|
            0 <= k < block_with_deploys.deploys@.len() ==> (
            #[trigger] block_with_deploys.deploys@[k]).deploy_or_transfer_hash is Deploy,
        0 <= i < block_with_deploys.transfers@.len(),
        forall|k: int|
            0 <= k <= i ==> (
            #[trigger] block_with_deploys.transfers@[k]).deploy_or_transfer_hash is Transfer,
    ensures
        block_with_deploys.deploys@.len() + i < block_with_deploys.writes().len(),
        block_with_deploys.writes()[block_with_deploys.deploys@.len() + i] matches
            StorageWrite::PutTransfer(index) && index == i,
{
    let (deploys, transfers) = (block_with_deploys.deploys@, block_with_deploys.transfers@);
    leading_ends_at_other_kind(deploys, false);
    leading_ends_at_other_kind(transfers, true);
    assert(block_with_deploys.transfers.len() == transfers.len());
    assert(all_of_kind(deploys, false));
    if leading(transfers, true) <= i {
        assert(transfers[leading(transfers, true) as int].deploy_or_transfer_hash is Transfer);
    }
}

/// A block whose deploys and transfers are each in their own list is written right behind all of
/// them, and then nothing else is, and no error comes.
pub proof fn sorted_block_is_written<B, D>(block_with_deploys: BlockWithDeploys<B, D>)
    requires
        forall|k: int|
            0 <= k < block_with_deploys.deploys@.len() ==> (
            #[trigger] block_with_deploys.deploys@[k]).deploy_or_transfer_hash is Deploy,
        forall|k: int|
            0 <= k < block_with_deploys.transfers@.len() ==> (
            #[trigger] block_with_deploys.transfers@[k]).deploy_or_transfer_hash is Transfer,
    ensures
        ({
            let count = block_with_deploys.deploys@.len() + block_with_deploys.transfers@.len();
            &&& block_with_deploys.writes().len() == count + 1
            &&& block_with_deploys.writes()[count as int] is WriteBlock
            &&& block_with_deploys.put_result() is Ok
        }),
{
    leading_ends_at_other_kind(block_with_deploys.deploys@, false);
    leading_ends_at_other_kind(block_with_deploys.transfers@, true);
    assert(all_of_kind(block_with_deploys.deploys@, false));
    assert(all_of_kind(block_with_deploys.transfers@, true));
}

/// The first transfer among the deploys ends the writes: only the deploys before it are put, and
/// the error says that a transfer was found in the list of deploys.
pub proof fn transfer_among_deploys_ends_writes<B, D>(
    block_with_deploys: BlockWithDeploys<B, D>,
    i: int,
)
    requires
        0 <= i < block_with_deploys.deploys@.len(),
        forall|k: int|
            0 <= k < i ==> (
            #[trigger] block_with_deploys.deploys@[k]).deploy_or_transfer_hash is Deploy,
        block_with_deploys.deploys@[i].deploy_or_transfer_hash is Transfer,
    ensures
        block_with_deploys.writes().len() == i,
        block_with_deploys.put_result() matches Err(error) && error is TransferInDeploys,
{
    let deploys = block_with_deploys.deploys@;
    leading_ends_at_other_kind(deploys, false);
    let n = leading(deploys, false) as int;
    if n < i {
        assert(deploys[n].deploy_or_transfer_hash is Deploy);
    }
    if i < n {
        assert(deploys.take(n)[i] == deploys[i]);
    }
    assert(!all_of_kind(deploys, false));
}

/// With the deploys in order, the first of the transfers that is none ends the writes: all deploys
/// and the transfers before it are put, the block is not written, and the error says that a deploy
/// was found in the list of transfers.
pub proof fn deploy_among_transfers_ends_writes<B, D>(
    block_with_deploys: BlockWithDeploys<B, D>,
    i: int,
)
    requires
        forall|k: int|
            0 <= k < block_with_deploys.deploys@.len() ==> (
            #[trigger] block_with_deploys.deploys@[k]).deploy_or_transfer_hash is Deploy,
        0 <= i < block_with_deploys.transfers@.len(),
        forall|k: int|
            0 <= k < i ==> (
            #[trigger] block_with_deploys.transfers@[k]).deploy_or_transfer_hash is Transfer,
        block_with_deploys.transfers@[i].deploy_or_transfer_hash is Deploy,
    ensures
        block_with_deploys.writes().len() == block_with_deploys.deploys@.len() + i,
        block_with_deploys.put_result() matches Err(error) && error is DeployInTransfers,
{
    let (deploys, transfers) = (block_with_deploys.deploys@, block_with_deploys.transfers@);
    leading_ends_at_other_kind(deploys, false);
    leading_ends_at_other_kind(transfers, true);
    assert(all_of_kind(deploys, false));
    let n = leading(transfers, true) as int;
    if n < i {
        assert(transfers[n].deploy_or_transfer_hash is Transfer);
    }
    if i < n {
        assert(transfers.take(n)[i] == transfers[i]);
    }
    assert(!all_of_kind(transfers, true));
}

} // verus!
