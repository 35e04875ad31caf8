//! The closed union of batch metadata kinds: rather than attaching metadata
//! through a dynamically downcast trait object, the known kinds form one
//! tagged union, so a reader of a batch sees every possibility.

use vstd::prelude::*;
use crate::segment::BlockMeta;
use crate::segment::MutationLogs;
use crate::stream_column::StreamColumnMeta;

verus! {

/// Metadata for rows that carry their origin block and row numbers, used by
/// the internal-column transform.
#[derive(Clone, PartialEq, Eq, Debug)]
pub struct InternalColumnMeta {
    pub block_id: i128,
}

/// The metadata payload a batch can carry.
#[derive(PartialEq, Eq, Debug)]
pub enum BlockMetaVariant {
    Stream(StreamColumnMeta),
    Internal(InternalColumnMeta),
    Mutation(MutationLogs),
    Block(BlockMeta),
}

} // verus!
