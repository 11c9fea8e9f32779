//! Shared protocol vocabulary: block identifiers, queries, streamed data items and
//! session identifiers, as exchanged between the network manager, its subscribers
//! and the database executor.

use vstd::prelude::*;

use crate::state_diff::ThinStateDiff;

verus! {

/// A block's index in the chain: a 64-bit unsigned, monotonically increasing counter.
#[derive(Debug, Clone, Copy, PartialEq, Eq, Structural, Hash)]
pub struct BlockNumber(pub u64);

/// A block hash, reduced to the word the synchronization logic reads of it.
#[derive(Debug, Clone, Copy, PartialEq, Eq, Structural, Hash)]
pub struct BlockHash(pub u64);

/// Direction of a block range query relative to its starting block.
#[derive(Debug, Clone, Copy, PartialEq, Eq, Structural)]
pub enum Direction {
    Forward,
    Backward,
}

/// The kind of data a query asks for.
#[derive(Debug, Clone, Copy, PartialEq, Eq, Structural)]
pub enum DataType {
    SignedBlockHeader,
    StateDiff,
}

/// The wire channel a session runs on; one-to-one with [`DataType`].
#[derive(Debug, Clone, Copy, PartialEq, Eq, Structural)]
pub enum Protocol {
    SignedBlockHeader,
    StateDiff,
}

/// The starting point of a normalized query: a block hash or a block number.
#[derive(Debug, Clone, Copy, PartialEq, Eq, Structural)]
pub enum BlockHashOrNumber {
    Hash(BlockHash),
    Number(BlockNumber),
}

/// A normalized block range request, as sent on the wire.
#[derive(Debug, Clone, Copy, PartialEq, Eq, Structural)]
pub struct InternalQuery {
    pub start_block: BlockHashOrNumber,
    pub direction: Direction,
    pub limit: u64,
    pub step: u64,
}

/// A subscriber's request: a block range plus the kind of data wanted.
#[derive(Debug, Clone, Copy, PartialEq, Eq, Structural)]
pub struct Query {
    pub start_block: BlockNumber,
    pub direction: Direction,
    pub limit: u64,
    pub step: u64,
    pub data_type: DataType,
}

/// A block header, reduced to the fields the synchronization logic reads.
#[derive(Debug, Clone, Copy, PartialEq, Eq, Structural)]
pub struct BlockHeader {
    pub block_number: BlockNumber,
    pub block_hash: BlockHash,
    /// The declared total length of the block's state diff, when known.
    pub state_diff_length: Option<u64>,
}

/// A signature over a block header.
#[derive(Debug, Clone, Copy, PartialEq, Eq, Structural)]
pub struct Signature {
    pub r: u64,
    pub s: u64,
}

/// A header together with the signatures attached to it.
#[derive(Debug, Clone, PartialEq, Eq)]
pub struct SignedBlockHeader {
    pub block_header: BlockHeader,
    pub signatures: Vec<Signature>,
}

/// One item of a session's data stream.
#[derive(Debug, Clone, PartialEq, Eq)]
pub enum Data {
    BlockHeaderAndSignature { header: BlockHeader, signatures: Vec<Signature> },
    StateDiffChunk { part: ThinStateDiff },
    /// Explicit end-of-stream marker for the given kind of data.
    Fin(DataType),
}

/// Identifier of a session opened by a remote peer.
#[derive(Debug, Clone, Copy, PartialEq, Eq, Structural, Hash)]
pub struct InboundSessionId {
    pub value: u64,
}

/// Identifier of a session opened locally.
#[derive(Debug, Clone, Copy, PartialEq, Eq, Structural, Hash)]
pub struct OutboundSessionId {
    pub value: u64,
}

/// Handle linking a database executor work item to its originating session.
#[derive(Debug, Clone, Copy, PartialEq, Eq, Structural, Hash)]
pub struct QueryId(pub u64);

impl Query {
    /// The normalized form of the query: the start block becomes a block number start.
    pub fn to_internal(&self) -> (r: InternalQuery)
        ensures
            r == (InternalQuery {
                start_block: BlockHashOrNumber::Number(self.start_block),
                direction: self.direction,
                limit: self.limit,
                step: self.step,
            }),
    {
        InternalQuery {
            start_block: BlockHashOrNumber::Number(self.start_block),
            direction: self.direction,
            limit: self.limit,
            step: self.step,
        }
    }

    /// The wire channel that carries responses for this query's kind of data.
    pub fn protocol(&self) -> (r: Protocol)
        ensures
            r == protocol_of(self.data_type),
    {
        match self.data_type {
            DataType::SignedBlockHeader => Protocol::SignedBlockHeader,
            DataType::StateDiff => Protocol::StateDiff,
        }
    }
}

/// The one-to-one mapping from a kind of data to the channel that carries it.
pub open spec fn protocol_of(data_type: DataType) -> Protocol {
    match data_type {
        DataType::SignedBlockHeader => Protocol::SignedBlockHeader,
        DataType::StateDiff => Protocol::StateDiff,
    }
}

/// The block numbers a forward query walks: `limit` blocks from `start`, `step` apart.
pub open spec fn spec_query_block_numbers(start: u64, limit: u64, step: u64) -> Seq<u64> {
    Seq::new(limit as nat, |i: int| (start + i * step) as u64)
}

/// Computes the block numbers a forward, number-started query covers.
///
/// Returns `None` when the query starts from a hash, walks backward, or would
/// run past the largest representable block number.
pub fn query_block_numbers(query: &InternalQuery) -> (r: Option<Vec<u64>>)
    ensures
        match r {
            Some(numbers) => {
                &&& query.direction == Direction::Forward
                &&& query.start_block matches BlockHashOrNumber::Number(start)
                    && numbers@ == spec_query_block_numbers(start.0, query.limit, query.step)
            },
            None => {
                ||| query.direction == Direction::Backward
                ||| query.start_block matches BlockHashOrNumber::Hash(_)
                ||| (query.start_block matches BlockHashOrNumber::Number(start)
                    && query.limit > 0
                    && start.0 + (query.limit - 1) * query.step > u64::MAX)
            },
        },
{
    if !matches!(query.direction, Direction::Forward) {
        return None;
    }
    let start: u64 = match query.start_block {
        BlockHashOrNumber::Number(block_number) => block_number.0,
        BlockHashOrNumber::Hash(_) => {
            return None;
        },
    };
    let mut numbers: Vec<u64> = Vec::new();
    let mut i: u64 = 0;
    while i < query.limit
        invariant
            i <= query.limit,
            query.direction == Direction::Forward,
            query.start_block == BlockHashOrNumber::Number(BlockNumber(start)),
            numbers@ == spec_query_block_numbers(start, i, query.step),
            i > 0 ==> start + (i - 1) * query.step <= u64::MAX,
        decreases query.limit - i,
    {
        let offset: u64 = match i.checked_mul(query.step) {
            Some(o) => o,
            None => {
                proof {
                    overflow_witness(start, i, query.step, query.limit);
                }
                return None;
            },
        };
        let block_number: u64 = match start.checked_add(offset) {
            Some(b) => b,
            None => {
                proof {
                    overflow_witness(start, i, query.step, query.limit);
                }
                return None;
            },
        };
        numbers.push(block_number);
        proof {
            assert(numbers@ =~= spec_query_block_numbers(start, (i + 1) as u64, query.step));
        }
        i = i + 1;
    }
    Some(numbers)
}

proof fn overflow_witness(start: u64, i: u64, step: u64, limit: u64)
    requires
        start + i * step > u64::MAX,
        limit > i,
    ensures
        start + (limit - 1) * step > u64::MAX,
{
    assert(i * step <= (limit - 1) * step) by (nonlinear_arith)
        requires
            i <= limit - 1,
            step >= 0,
    ;
}

} // verus!
