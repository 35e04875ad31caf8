//! Partition descriptors handed to table scans: a closed union of the
//! known kinds, in place of dynamically downcast trait objects.

use vstd::prelude::*;
use crate::batch::Scalar;
use crate::exchange::str_hash;
use crate::exchange::str_hash_exec;

verus! {

/// A parquet file fragment read as one partition.
#[derive(PartialEq, Eq, Debug)]
pub struct ParquetPart {
    pub location: String,
    pub compressed_size: u64,
    pub uncompressed_size: u64,
}

/// A set of partitions handed to one scan.
#[derive(PartialEq, Eq, Debug)]
pub struct Partitions {
    pub partitions: Vec<Box<PartInfoVariant>>,
}

/// A partition of a stream table: its inner partitions and the ids of the
/// base blocks they came from.
#[derive(PartialEq, Eq, Debug)]
pub struct StreamTablePart {
    pub inner: Partitions,
    pub base_block_ids: Scalar,
}

/// A partition of a delta table.
#[derive(PartialEq, Eq, Debug)]
pub enum DeltaPartInfo {
    Parquet(ParquetPart),
}

/// The closed union of partition kinds.
#[derive(PartialEq, Eq, Debug)]
pub enum PartInfoVariant {
    Stream(StreamTablePart),
    Delta(DeltaPartInfo),
}

impl StreamTablePart {
    /// Wraps a stream-table partition as a partition descriptor.
    pub fn create(inner: Partitions, base_block_ids: Scalar) -> (r: PartInfoVariant)
        ensures
            r matches PartInfoVariant::Stream(p) && p.inner == inner && p.base_block_ids
                == base_block_ids,
    {
        PartInfoVariant::Stream(StreamTablePart { inner, base_block_ids })
    }

    /// Recovers a stream-table partition from a descriptor; any other kind
    /// gives nothing.
    pub fn from_part(info: &PartInfoVariant) -> (r: Option<&StreamTablePart>)
        ensures
            r.is_some() == (info is Stream),
            info matches PartInfoVariant::Stream(p) ==> (r matches Option::Some(q) && *q == p),
    {
        match info {
            PartInfoVariant::Stream(p) => Option::Some(p),
            _ => Option::None,
        }
    }

    /// The inner partitions.
    pub fn inner(&self) -> (r: &Partitions)
        ensures
            r == self.inner,
    {
        &self.inner
    }

    /// The ids of the base blocks.
    pub fn base_block_ids(&self) -> (r: Scalar)
        ensures
            r == self.base_block_ids,
    {
        crate::batch::clone_scalar(&self.base_block_ids)
    }
}

impl DeltaPartInfo {
    /// Recovers a delta partition from a descriptor; any other kind is an
    /// error.
    pub fn from_part(info: &PartInfoVariant) -> (r: Result<&DeltaPartInfo, crate::error::ErrorCodes>)
        ensures
            r.is_ok() == (info is Delta),
            info matches PartInfoVariant::Delta(p) ==> (r matches Ok(q) && *q == p),
            r matches Err(e) ==> e.spec_code() == crate::error::CODE_INTERNAL,
    {
        match info {
            PartInfoVariant::Delta(p) => Ok(p),
            _ => Err(
                crate::error::ErrorCodes::Internal(
                    "Cannot downcast from PartInfo to DeltaPartInfo.".to_owned(),
                ),
            ),
        }
    }

    /// The partition's hash: the hash of its file location.
    pub fn hash(&self) -> (r: u64)
        ensures
            r == match self {
                DeltaPartInfo::Parquet(p) => str_hash(p.location@),
            },
    {
        match self {
            DeltaPartInfo::Parquet(p) => str_hash_exec(p.location.as_str()),
        }
    }
}

} // verus!
