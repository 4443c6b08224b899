//! Errors of the allocator and the indexes.
use vstd::prelude::*;

verus! {

/// Why an operation was refused. A refused operation changes nothing.
#[derive(Clone, Copy, Debug, PartialEq, Eq, Structural)]
pub enum ErrorCode {
    /// A keyword shard has no room for another listing.
    ShardFull,
    /// The chunk has no free identifier left.
    NoAvailableId,
    /// The identifier lies outside the chunk, or a batch size is out of range.
    InvalidId,
    /// A counter would overflow.
    IntegerOverflow,
    /// The keyword does not match the record.
    InvalidKeyword,
    /// The keyword is longer than a record holds.
    InvalidKeywordLength,
    /// An index node or shard has no room for another listing.
    ShardIsFull,
    /// A shard or chunk index breaks the chain or exceeds its cap.
    InvalidShardIndex,
    /// A price lies outside the node's range, or a price range is malformed.
    InvalidPriceRange,
    /// A sales count lies outside the node's range, or a sales range is malformed.
    InvalidSalesRange,
    /// The keyword root still lists products.
    KeywordIndexNotEmpty,
    /// The keyword shard still lists products.
    KeywordShardNotEmpty,
    /// The chunk still has identifiers in use.
    IdChunkNotEmpty,
    /// The owner still has reclaimable chunks.
    MerchantIdAccountNotEmpty,
    /// A record is not at the address derived from its seeds.
    InvalidPda,
    /// No address can be derived from the seeds.
    InvalidAccountSeeds,
    /// The chunk given is not the owner's active chunk.
    InvalidActiveChunk,
    /// The current time could not be read.
    InvalidTimestamp,
    /// The identifier range reserved for the owner is exhausted.
    IdRangeOverflow,
    /// A bounded list is full.
    TooManyEntries,
}

} // verus!
