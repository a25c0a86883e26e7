//! The data the sync engine moves around, reduced to the plain values the
//! protocol logic reads: identities are integers, a header is its own hash,
//! its parent's hash and its height, and a body is the ordered transaction
//! list of the block it belongs to.

use vstd::prelude::*;

verus! {

/// A block header, reduced to what sync reads of it: its own hash, the hash
/// of its parent, and its height on the chain.
#[derive(Clone, Copy, PartialEq, Eq, Structural, Debug)]
pub struct BlockHeader {
    pub id: u64,
    pub parent_hash: u64,
    pub number: u64,
}

/// A block header together with its hash, as peers announce and serve it.
#[derive(Clone, Copy, PartialEq, Eq, Structural, Debug)]
pub struct HashWithBlockHeader {
    pub hash: u64,
    pub header: BlockHeader,
}

/// A (block hash, block number) pair: we know this hash exists at this
/// height on some peer's chain, but we may not hold the block locally.
#[derive(Clone, Copy, PartialEq, Eq, Structural, Debug)]
pub struct HashWithNumber {
    pub hash: u64,
    pub number: u64,
}

/// A block body: the ordered transactions of the block whose header hashes
/// to `hash`; it is paired with the header of the same hash.
#[derive(Clone, PartialEq, Eq, Debug)]
pub struct BlockBody {
    pub hash: u64,
    pub transactions: Vec<u64>,
}

/// A reassembled block, ready to be handed to the chain reader.
#[derive(Clone, PartialEq, Eq, Debug)]
pub struct Block {
    pub header: BlockHeader,
    pub transactions: Vec<u64>,
}

/// Builds the block a header/body pair describes.
pub fn make_block(header: BlockHeader, transactions: Vec<u64>) -> (r: Block)
    ensures
        r.header == header,
        r.transactions == transactions,
{
    Block { header, transactions }
}

/// Which kind of data a hash-keyed fetch asks for.
#[derive(Clone, Copy, PartialEq, Eq, Structural, Debug)]
pub enum DataType {
    Header,
    Body,
}

/// An outbound fetch of headers or bodies by hash list; the response is
/// positionally aligned with `hashes`.
#[derive(Clone, PartialEq, Eq, Debug)]
pub struct GetDataByHashMsg {
    pub hashes: Vec<u64>,
    pub data_type: DataType,
}

/// An outbound fetch of (number, hash) pairs for a list of block numbers;
/// the response is positionally aligned with `numbers`.
#[derive(Clone, PartialEq, Eq, Debug)]
pub struct GetHashByNumberMsg {
    pub numbers: Vec<u64>,
}

/// What can go wrong inside one sync cycle. None of these ends the engine:
/// each is scoped to the cycle or step that raised it.
#[derive(Clone, Copy, PartialEq, Eq, Structural, Debug)]
pub enum SyncError {
    /// A request to a peer exceeded its timeout; the cycle ends, no retry.
    TransportTimeout,
    /// An operation referenced a peer with no recorded state; ignored.
    PeerUnknown,
    /// A response does not match its request in variant or cardinality.
    ProtocolMismatch,
    /// The chain reader rejected a block; dependent blocks are skipped.
    ChainConnectFailed,
    /// A pool had to evict pending work: a back-pressure signal.
    PoolOverflow,
}

} // verus!
