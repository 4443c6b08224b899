//! Identifier allocation and search indexing for a marketplace's records.
//!
//! Sellers receive collision-free listing identifiers from fixed-capacity
//! chunks tracked by a bitmap, and listings are found again through a
//! keyword index (sharded, guarded by a Bloom filter), a price range index
//! and a sales range index with a cached top-seller list.

pub mod address;
pub mod bits;
pub mod clock;
pub mod bloom;
pub mod error;
pub mod hash;
pub mod id_generator;
pub mod id_list;
pub mod keyword_index;
pub mod pagination;
pub mod price_index;
pub mod range_split;
pub mod sales_index;
pub mod search;

