//! Segment bookkeeping for the serialize-segment processor: block metadata,
//! accumulated statistics, the segment's wire encoding, and the mutation
//! log emitted downstream after a segment commits.

use vstd::prelude::*;

verus! {

/// The format version written with every serialized segment.
pub const SEGMENT_FORMAT_VERSION: u64 = 2;

/// Metadata of one data block of a segment.
#[derive(Clone, PartialEq, Eq, Debug)]
pub struct BlockMeta {
    pub row_count: u64,
    pub block_size: u64,
    pub location: String,
}

/// The summary statistics of a segment.
#[derive(Clone, Copy, PartialEq, Eq, Structural, Debug)]
pub struct Statistics {
    pub row_count: u64,
    pub block_count: u64,
}

/// A segment: the metadata of its blocks and their summary.
#[derive(PartialEq, Eq, Debug)]
pub struct SegmentInfo {
    pub format_version: u64,
    pub blocks: Vec<BlockMeta>,
    pub summary: Statistics,
}

/// One entry of the mutation log emitted after a segment is committed.
#[derive(Clone, PartialEq, Eq, Debug)]
pub enum MutationLogEntry {
    AppendSegment { segment_location: String, format_version: u64 },
}

/// The mutation log a committed segment reports downstream.
#[derive(Clone, PartialEq, Eq, Debug)]
pub struct MutationLogs {
    pub entries: Vec<MutationLogEntry>,
}

/// The eight little-endian bytes of a 64-bit value.
pub open spec fn u64_le_bytes(x: u64) -> Seq<u8> {
    seq![
        (x & 0xff) as u8,
        ((x >> 8) & 0xff) as u8,
        ((x >> 16) & 0xff) as u8,
        ((x >> 24) & 0xff) as u8,
        ((x >> 32) & 0xff) as u8,
        ((x >> 40) & 0xff) as u8,
        ((x >> 48) & 0xff) as u8,
        ((x >> 56) & 0xff) as u8,
    ]
}

/// Appends the eight little-endian bytes of `x` to `out`.
pub fn push_u64_le(out: &mut Vec<u8>, x: u64)
    ensures
        final(out)@ == old(out)@ + u64_le_bytes(x),
{
    proof {
        assert((x & 0xff) <= 0xff && ((x >> 8) & 0xff) <= 0xff && ((x >> 16) & 0xff) <= 0xff && ((x
            >> 24) & 0xff) <= 0xff && ((x >> 32) & 0xff) <= 0xff && ((x >> 40) & 0xff) <= 0xff && ((
        x >> 48) & 0xff) <= 0xff && ((x >> 56) & 0xff) <= 0xff) by (bit_vector);
    }
    out.push((x & 0xff) as u8);
    out.push(((x >> 8) & 0xff) as u8);
    out.push(((x >> 16) & 0xff) as u8);
    out.push(((x >> 24) & 0xff) as u8);
    out.push(((x >> 32) & 0xff) as u8);
    out.push(((x >> 40) & 0xff) as u8);
    out.push(((x >> 48) & 0xff) as u8);
    out.push(((x >> 56) & 0xff) as u8);
    proof {
        assert(out@ =~= old(out)@ + u64_le_bytes(x));
    }
}

/// The wire bytes of one block's metadata: row count, block size, location
/// length, location bytes.
pub open spec fn block_meta_bytes(b: BlockMeta) -> Seq<u8> {
    u64_le_bytes(b.row_count) + u64_le_bytes(b.block_size) + u64_le_bytes(
        b.location@.len() as u64,
    ) + vstd::utf8::encode_utf8(b.location@)
}

/// The wire bytes of the first `upto` blocks, in order.
pub open spec fn blocks_bytes(blocks: Seq<BlockMeta>, upto: int) -> Seq<u8>
    decreases upto,
{
    if upto <= 0 {
        Seq::empty()
    } else {
        blocks_bytes(blocks, upto - 1) + block_meta_bytes(blocks[upto - 1])
    }
}

/// The wire encoding of a whole segment: format version, summary, block
/// count, then every block's metadata.
pub open spec fn segment_bytes(s: SegmentInfo) -> Seq<u8> {
    u64_le_bytes(s.format_version) + u64_le_bytes(s.summary.row_count) + u64_le_bytes(
        s.summary.block_count,
    ) + u64_le_bytes(s.blocks@.len() as u64) + blocks_bytes(s.blocks@, s.blocks@.len() as int)
}

impl SegmentInfo {
    /// A segment over the given blocks, at the current format version.
    pub fn new(blocks: Vec<BlockMeta>, summary: Statistics) -> (r: SegmentInfo)
        ensures
            r.format_version == SEGMENT_FORMAT_VERSION,
            r.blocks == blocks,
            r.summary == summary,
    {
        SegmentInfo { format_version: SEGMENT_FORMAT_VERSION, blocks, summary }
    }

    /// Serializes the segment to its wire bytes.
    pub fn to_bytes(&self) -> (r: Vec<u8>)
        requires
            self.blocks@.len() <= u64::MAX,
            forall|i: int| 0 <= i < self.blocks@.len() ==> (#[trigger] self.blocks@[i]).location@.len() <= u64::MAX,
        ensures
            r@ == segment_bytes(*self),
    {
        let mut out: Vec<u8> = Vec::new();
        push_u64_le(&mut out, self.format_version);
        push_u64_le(&mut out, self.summary.row_count);
        push_u64_le(&mut out, self.summary.block_count);
        push_u64_le(&mut out, self.blocks.len() as u64);
        let n = self.blocks.len();
        let ghost header = out@;
        for i in 0..n
            invariant
                n == self.blocks@.len(),
                forall|j: int| 0 <= j < n ==> (#[trigger] self.blocks@[j]).location@.len() <= u64::MAX,
                out@ == header + blocks_bytes(self.blocks@, i as int),
        {
            let b = &self.blocks[i];
            push_u64_le(&mut out, b.row_count);
            push_u64_le(&mut out, b.block_size);
            let loc_len = b.location.as_str().unicode_len();
            push_u64_le(&mut out, loc_len as u64);
            let mut loc_bytes = b.location.as_str().as_bytes_vec();
            out.append(&mut loc_bytes);
            proof {
                assert(loc_len as u64 as int == b.location@.len());
                assert(out@ =~= header + blocks_bytes(self.blocks@, i as int)
                    + block_meta_bytes(self.blocks@[i as int]));
            }
        }
        out
    }
}

/// Accumulates the block metadata of the segment being built, together with
/// its running totals. Totals saturate at the integer bound rather than
/// wrap.
pub struct StatisticsAccumulator {
    pub blocks_metas: Vec<BlockMeta>,
    pub summary_row_count: u64,
    pub summary_block_count: u64,
}

impl StatisticsAccumulator {
    /// An empty accumulator.
    pub fn new() -> (r: StatisticsAccumulator)
        ensures
            r.blocks_metas@.len() == 0,
            r.summary_row_count == 0,
            r.summary_block_count == 0,
    {
        StatisticsAccumulator { blocks_metas: Vec::new(), summary_row_count: 0, summary_block_count: 0 }
    }

    /// Records one more block and folds it into the totals.
    pub fn add_with_block_meta(&mut self, meta: BlockMeta)
        ensures
            final(self).blocks_metas@ == old(self).blocks_metas@.push(meta),
            final(self).summary_row_count == if old(self).summary_row_count + meta.row_count
                <= u64::MAX {
                old(self).summary_row_count + meta.row_count
            } else {
                u64::MAX as int
            },
            final(self).summary_block_count == if old(self).summary_block_count + 1 <= u64::MAX {
                old(self).summary_block_count + 1
            } else {
                u64::MAX as int
            },
    {
        self.summary_row_count = self.summary_row_count.saturating_add(meta.row_count);
        self.summary_block_count = self.summary_block_count.saturating_add(1);
        self.blocks_metas.push(meta);
    }

    /// The summary of everything accumulated so far.
    pub fn summary(&self) -> (r: Statistics)
        ensures
            r.row_count == self.summary_row_count,
            r.block_count == self.summary_block_count,
    {
        Statistics { row_count: self.summary_row_count, block_count: self.summary_block_count }
    }
}

/// Generates the storage locations of segment files: a fixed prefix and a
/// counter, so every generated location is fresh.
pub struct TableMetaLocationGenerator {
    pub prefix: String,
    pub counter: u64,
}

impl TableMetaLocationGenerator {
    /// The location the generator hands out for counter value `c`.
    pub open spec fn location_spec(&self, c: u64) -> Seq<char> {
        self.prefix@ + "/_sg/"@ + crate::text::dec_digits(c as nat)
    }

    /// A generator starting at zero.
    pub fn create(prefix: String) -> (r: TableMetaLocationGenerator)
        ensures
            r.prefix@ == prefix@,
            r.counter == 0,
    {
        TableMetaLocationGenerator { prefix, counter: 0 }
    }

    /// The next segment location; each call hands out a new one.
    pub fn gen_segment_info_location(&mut self) -> (r: String)
        requires
            old(self).counter < u64::MAX,
        ensures
            final(self).prefix == old(self).prefix,
            final(self).counter == old(self).counter + 1,
            r@ == old(self).location_spec(old(self).counter),
    {
        proof {
            reveal_strlit("/_sg/");
        }
        let mut s = self.prefix.clone();
        s.append("/_sg/");
        s.append(crate::text::u64_to_dec_string(self.counter).as_str());
        self.counter = self.counter + 1;
        s
    }
}

} // verus!
