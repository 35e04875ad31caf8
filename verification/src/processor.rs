//! Processors: the scheduled units of dataflow computation. Each exposes
//! the small state machine of the scheduling protocol through `event`, does
//! its synchronous work in `process`, and hands its pending storage write
//! out at the declared suspension point.

use vstd::prelude::*;
use crate::batch::DataBlock;
use crate::error::CODE_INTERNAL;
use crate::error::ErrorCodes;
use crate::internal_column::InternalColumn;
use crate::internal_column::InternalColumnType;
use crate::internal_column::internal_entry_matches;
use crate::meta::BlockMetaVariant;
use crate::meta::InternalColumnMeta;
use crate::port::Port;
use crate::segment::BlockMeta;
use crate::segment::MutationLogEntry;
use crate::segment::MutationLogs;
use crate::segment::SEGMENT_FORMAT_VERSION;
use crate::segment::SegmentInfo;
use crate::segment::StatisticsAccumulator;
use crate::segment::TableMetaLocationGenerator;
use crate::segment::segment_bytes;

verus! {

/// What a processor asks of the scheduler after one scheduling turn.
#[derive(Clone, Copy, PartialEq, Eq, Structural, Debug)]
pub enum Event {
    NeedData,
    NeedConsume,
    Sync,
    Async,
    Finished,
}

/// The serialize-segment processor's internal state.
#[derive(PartialEq, Eq, Debug)]
pub enum SegState {
    Idle,
    GenerateSegment,
    SerializedSegment { data: Vec<u8>, location: String, segment: SegmentInfo },
    PreCommitSegment { location: String, segment: SegmentInfo },
    Finished,
}

/// Collects block metadata from its input until a segment is full, then
/// serializes the segment, writes it out through the declared asynchronous
/// step, and reports the committed segment downstream as a mutation log.
pub struct TransformSerializeSegment {
    pub input: Port,
    pub output: Port,
    pub output_data: Option<DataBlock>,
    pub meta_locations: TableMetaLocationGenerator,
    pub accumulator: StatisticsAccumulator,
    pub state: SegState,
    pub block_per_seg: u64,
    pub committed_locations: Vec<(String, u64)>,
}

impl TransformSerializeSegment {
    /// Both ports are well formed.
    pub open spec fn wf(&self) -> bool {
        &&& self.input.wf()
        &&& self.output.wf()
    }

    /// The accumulated segment is still serializable and one more location
    /// can be generated: what the synchronous generate step needs.
    pub open spec fn can_generate(&self) -> bool {
        &&& self.meta_locations.counter < u64::MAX
        &&& self.accumulator.blocks_metas@.len() <= u64::MAX
        &&& forall|i: int|
            0 <= i < self.accumulator.blocks_metas@.len()
                ==> (#[trigger] self.accumulator.blocks_metas@[i]).location@.len() <= u64::MAX
    }

    pub fn new(
        input: Port,
        output: Port,
        meta_locations: TableMetaLocationGenerator,
        block_per_seg: u64,
    ) -> (r: TransformSerializeSegment)
        ensures
            r.input == input,
            r.output == output,
            r.meta_locations == meta_locations,
            r.accumulator.blocks_metas@.len() == 0,
            r.accumulator.summary_row_count == 0,
            r.accumulator.summary_block_count == 0,
            r.output_data.is_none(),
            r.state == SegState::Idle,
            r.block_per_seg == block_per_seg,
            r.committed_locations@.len() == 0,
    {
        TransformSerializeSegment {
            input,
            output,
            output_data: Option::None,
            meta_locations,
            accumulator: StatisticsAccumulator::new(),
            state: SegState::Idle,
            block_per_seg,
            committed_locations: Vec::new(),
        }
    }

    /// The processor's display name.
    pub fn name(&self) -> (r: String)
        ensures
            r@ == "TransformSerializeSegment"@,
    {
        "TransformSerializeSegment".to_owned()
    }

    /// One scheduling turn, following the transition rule in priority
    /// order: pending synchronous or asynchronous work first, then the
    /// downstream-finished and backpressure checks, then flushing buffered
    /// output, then draining a finished input, then consuming input data,
    /// and otherwise asking for more input. Every turn either makes
    /// progress or changes state; an input batch without block metadata is
    /// an internal error.
    pub fn event(&mut self) -> (r: Result<Event, ErrorCodes>)
        requires
            old(self).wf(),
        ensures
            final(self).wf(),
            final(self).meta_locations == old(self).meta_locations,
            final(self).committed_locations == old(self).committed_locations,
            final(self).block_per_seg == old(self).block_per_seg,
            ({
                let s0 = *old(self);
                let s1 = *final(self);
                let g_sync = s0.state is GenerateSegment || s0.state is PreCommitSegment;
                let g_async = !g_sync && s0.state is SerializedSegment;
                let g_out_finished = !g_sync && !g_async && s0.output.finished;
                let g_backpressure = !g_sync && !g_async && !g_out_finished
                    && s0.output.slot.is_some();
                let g_flush = !g_sync && !g_async && !g_out_finished && !g_backpressure
                    && s0.output_data.is_some();
                let g_input_finished = !g_sync && !g_async && !g_out_finished && !g_backpressure
                    && !g_flush && s0.input.finished;
                let g_input_data = !g_sync && !g_async && !g_out_finished && !g_backpressure
                    && !g_flush && !g_input_finished && s0.input.slot.is_some();
                let g_idle = !g_sync && !g_async && !g_out_finished && !g_backpressure && !g_flush
                    && !g_input_finished && !g_input_data;
                &&& g_sync ==> (r matches Ok(e) && e == Event::Sync && s1 == s0)
                &&& g_async ==> (r matches Ok(e) && e == Event::Async && s1 == s0)
                &&& g_out_finished ==> (r matches Ok(e) && e == Event::Finished && s1 == s0)
                &&& g_backpressure ==> (r matches Ok(e) && e == Event::NeedConsume && s1 == s0)
                &&& g_flush ==> (s0.output_data matches Option::Some(b) && {
                    &&& r matches Ok(e) && e == Event::NeedConsume
                    &&& s1.output_data.is_none()
                    &&& s1.output.pushed@ == s0.output.pushed@.push(b)
                    &&& s1.input == s0.input
                    &&& s1.state == s0.state
                    &&& s1.accumulator == s0.accumulator
                })
                &&& g_input_finished && s0.accumulator.summary_row_count != 0 ==> {
                    &&& r matches Ok(e) && e == Event::Sync
                    &&& s1.state == SegState::GenerateSegment
                    &&& s1.input == s0.input
                    &&& s1.output == s0.output
                    &&& s1.accumulator == s0.accumulator
                }
                &&& g_input_finished && s0.accumulator.summary_row_count == 0 ==> {
                    &&& r matches Ok(e) && e == Event::Finished
                    &&& s1.state == SegState::Finished
                    &&& s1.output.finished
                    &&& s1.input == s0.input
                    &&& s1.accumulator == s0.accumulator
                }
                &&& g_input_data ==> (s0.input.slot matches Option::Some(b) && {
                    &&& s1.input.slot.is_none()
                    &&& s1.input.pulled@ == s0.input.pulled@.push(b)
                    &&& s1.output == s0.output
                    &&& b.meta matches Option::Some(BlockMetaVariant::Block(bm)) ==> {
                        &&& s1.accumulator.blocks_metas@ == s0.accumulator.blocks_metas@.push(bm)
                        &&& s1.accumulator.summary_row_count == if s0.accumulator.summary_row_count
                            + bm.row_count <= u64::MAX {
                            s0.accumulator.summary_row_count + bm.row_count
                        } else {
                            u64::MAX as int
                        }
                        &&& s1.accumulator.summary_block_count == if s0.accumulator.summary_block_count
                            + 1 <= u64::MAX {
                            s0.accumulator.summary_block_count + 1
                        } else {
                            u64::MAX as int
                        }
                        &&& if s1.accumulator.summary_block_count >= s0.block_per_seg {
                            r matches Ok(e) && e == Event::Sync && s1.state
                                == SegState::GenerateSegment
                        } else {
                            r matches Ok(e) && e == Event::NeedData && s1.state == s0.state
                        }
                    }
                    &&& !(b.meta matches Option::Some(BlockMetaVariant::Block(_))) ==> (r matches Err(
                        e,
                    ) && e.spec_code() == CODE_INTERNAL && s1.accumulator == s0.accumulator
                        && s1.state == s0.state)
                })
                &&& g_idle ==> (r matches Ok(e) && e == Event::NeedData && s1 == s0)
            }),
    {
        match &self.state {
            SegState::GenerateSegment => {
                return Ok(Event::Sync);
            },
            SegState::PreCommitSegment { .. } => {
                return Ok(Event::Sync);
            },
            SegState::SerializedSegment { .. } => {
                return Ok(Event::Async);
            },
            _ => {},
        }

        if self.output.is_finished() {
            return Ok(Event::Finished);
        }

        if !self.output.can_push() {
            return Ok(Event::NeedConsume);
        }

        if self.output_data.is_some() {
            let data_block = self.output_data.take().unwrap();
            self.output.push_data(data_block);
            return Ok(Event::NeedConsume);
        }

        if self.input.is_finished() {
            if self.accumulator.summary_row_count != 0 {
                self.state = SegState::GenerateSegment;
                return Ok(Event::Sync);
            }
            self.output.finish();
            self.state = SegState::Finished;
            return Ok(Event::Finished);
        }

        if self.input.has_data() {
            let mut block = self.input.pull_data().unwrap();
            let meta = block.take_meta();
            match meta {
                Option::Some(BlockMetaVariant::Block(block_meta)) => {
                    self.accumulator.add_with_block_meta(block_meta);
                    if self.accumulator.summary_block_count >= self.block_per_seg {
                        self.state = SegState::GenerateSegment;
                        return Ok(Event::Sync);
                    }
                    return Ok(Event::NeedData);
                },
                _ => {
                    return Err(ErrorCodes::Internal("No block meta. It's a bug".to_owned()));
                },
            }
        }

        Ok(Event::NeedData)
    }

    /// The synchronous step. Generating a segment serializes the
    /// accumulated blocks and picks a fresh location; pre-committing
    /// records the location and buffers the mutation log for downstream.
    /// Any other state is an internal error.
    pub fn process(&mut self) -> (r: Result<(), ErrorCodes>)
        requires
            old(self).wf(),
            old(self).state is GenerateSegment ==> old(self).can_generate(),
        ensures
            final(self).wf(),
            final(self).input == old(self).input,
            final(self).output == old(self).output,
            final(self).block_per_seg == old(self).block_per_seg,
            ({
                let s0 = *old(self);
                let s1 = *final(self);
                &&& (s0.state is GenerateSegment) ==> {
                    &&& r.is_ok()
                    &&& s1.state matches SegState::SerializedSegment { data, location, segment } && {
                        &&& segment.format_version == SEGMENT_FORMAT_VERSION
                        &&& segment.blocks@ == s0.accumulator.blocks_metas@
                        &&& segment.summary.row_count == s0.accumulator.summary_row_count
                        &&& segment.summary.block_count == s0.accumulator.summary_block_count
                        &&& data@ == segment_bytes(segment)
                        &&& location@ == s0.meta_locations.location_spec(s0.meta_locations.counter)
                    }
                    &&& s1.accumulator.blocks_metas@.len() == 0
                    &&& s1.accumulator.summary_row_count == 0
                    &&& s1.accumulator.summary_block_count == 0
                    &&& s1.meta_locations.counter == s0.meta_locations.counter + 1
                    &&& s1.committed_locations == s0.committed_locations
                    &&& s1.output_data == s0.output_data
                }
                &&& s0.state matches SegState::PreCommitSegment { location, segment } ==> {
                    &&& r.is_ok()
                    &&& s1.state is Idle
                    &&& s1.committed_locations@ == s0.committed_locations@.push(
                        (location, SEGMENT_FORMAT_VERSION),
                    )
                    &&& s1.output_data matches Option::Some(b) && {
                        &&& b.entries@.len() == 0
                        &&& b.num_rows == 0
                        &&& b.meta matches Option::Some(BlockMetaVariant::Mutation(logs))
                            && logs.entries@.len() == 1 && logs.entries@[0]
                            == (MutationLogEntry::AppendSegment {
                            segment_location: location,
                            format_version: SEGMENT_FORMAT_VERSION,
                        })
                    }
                    &&& s1.accumulator == s0.accumulator
                    &&& s1.meta_locations == s0.meta_locations
                }
                &&& !(s0.state is GenerateSegment) && !(s0.state is PreCommitSegment) ==> {
                    &&& r matches Err(e) && e.spec_code() == CODE_INTERNAL
                    &&& s1.state is Idle
                    &&& s1.committed_locations == s0.committed_locations
                    &&& s1.meta_locations == s0.meta_locations
                    &&& s1.accumulator == s0.accumulator
                    &&& s1.output_data == s0.output_data
                }
            }),
    {
        let mut taken = SegState::Idle;
        core::mem::swap(&mut self.state, &mut taken);
        match taken {
            SegState::GenerateSegment => {
                let mut acc = StatisticsAccumulator::new();
                core::mem::swap(&mut self.accumulator, &mut acc);
                let summary = acc.summary();
                let segment_info = SegmentInfo::new(acc.blocks_metas, summary);
                let data = segment_info.to_bytes();
                let location = self.meta_locations.gen_segment_info_location();
                self.state = SegState::SerializedSegment { data, location, segment: segment_info };
                Ok(())
            },
            SegState::PreCommitSegment { location, segment } => {
                let format_version = SEGMENT_FORMAT_VERSION;
                let mut entries: Vec<MutationLogEntry> = Vec::new();
                entries.push(
                    MutationLogEntry::AppendSegment {
                        segment_location: location.clone(),
                        format_version,
                    },
                );
                let meta = MutationLogs { entries };
                self.committed_locations.push((location, format_version));
                self.output_data = Option::Some(
                    DataBlock::empty_with_meta(BlockMetaVariant::Mutation(meta)),
                );
                Ok(())
            },
            _ => Err(ErrorCodes::Internal("Unknown state for fuse table sink".to_owned())),
        }
    }

    /// The suspending step's synchronous half: hands out the serialized
    /// segment so the caller can perform the storage write, and moves to
    /// the pre-commit state that `process` completes once the write is
    /// done. Any other state is an internal error.
    pub fn begin_async_write(&mut self) -> (r: Result<(String, Vec<u8>), ErrorCodes>)
        requires
            old(self).wf(),
        ensures
            final(self).wf(),
            final(self).input == old(self).input,
            final(self).output == old(self).output,
            final(self).accumulator == old(self).accumulator,
            final(self).meta_locations == old(self).meta_locations,
            final(self).committed_locations == old(self).committed_locations,
            final(self).output_data == old(self).output_data,
            final(self).block_per_seg == old(self).block_per_seg,
            ({
                let s0 = *old(self);
                let s1 = *final(self);
                &&& s0.state matches SegState::SerializedSegment { data, location, segment } ==> {
                    &&& r matches Ok(w) && w.0@ == location@ && w.1 == data
                    &&& s1.state matches SegState::PreCommitSegment { location: l2, segment: g2 }
                        && l2@ == location@ && g2 == segment
                }
                &&& !(s0.state is SerializedSegment) ==> {
                    &&& r matches Err(e) && e.spec_code() == CODE_INTERNAL
                    &&& s1.state is Idle
                }
            }),
    {
        let mut taken = SegState::Idle;
        core::mem::swap(&mut self.state, &mut taken);
        match taken {
            SegState::SerializedSegment { data, location, segment } => {
                let location_out = location.clone();
                self.state = SegState::PreCommitSegment { location, segment };
                Ok((location_out, data))
            },
            _ => Err(ErrorCodes::Internal("Unknown state for fuse table sink.".to_owned())),
        }
    }
}

/// The internal columns a batch gains, in field-index order, skipping the
/// change-row-id column the transform never generates.
pub open spec fn generated_upto(cols: Seq<(u64, InternalColumn)>, upto: int) -> Seq<InternalColumn>
    decreases upto,
{
    if upto <= 0 {
        Seq::empty()
    } else {
        let rest = generated_upto(cols, upto - 1);
        if cols[upto - 1].1.column_type != InternalColumnType::ChangeRowId {
            rest.push(cols[upto - 1].1)
        } else {
            rest
        }
    }
}

/// Appends the configured internal columns to every batch that carries
/// internal-column metadata.
pub struct TransformAddInternalColumns {
    pub internal_columns: Vec<(u64, InternalColumn)>,
}

impl TransformAddInternalColumns {
    /// Field indices are strictly increasing, as a map keyed by field index
    /// stores them.
    pub open spec fn wf(&self) -> bool {
        forall|i: int, j: int|
            0 <= i < j < self.internal_columns@.len() ==> self.internal_columns@[i].0
                < self.internal_columns@[j].0
    }

    pub fn try_create(internal_columns: Vec<(u64, InternalColumn)>) -> (r: Result<
        TransformAddInternalColumns,
        ErrorCodes,
    >)
        requires
            forall|i: int, j: int|
                0 <= i < j < internal_columns@.len() ==> internal_columns@[i].0
                    < internal_columns@[j].0,
        ensures
            r matches Ok(t) && t.internal_columns == internal_columns && t.wf(),
    {
        Ok(TransformAddInternalColumns { internal_columns })
    }

    /// The transform's display name.
    pub fn name(&self) -> (r: String)
        ensures
            r@ == "AddInternalColumnsTransform"@,
    {
        "AddInternalColumnsTransform".to_owned()
    }

    /// One batch through the transform. A batch without metadata passes
    /// unchanged. A batch with internal-column metadata gains one generated
    /// entry per configured column, in field-index order, the change-row-id
    /// column excepted; its metadata is consumed. Any other metadata kind
    /// is an internal error.
    pub fn transform(&mut self, block: DataBlock) -> (r: Result<DataBlock, ErrorCodes>)
        requires
            old(self).wf(),
            block.wf(),
            block.num_rows <= u64::MAX,
        ensures
            *final(self) == *old(self),
            ({
                let n = block.num_rows as nat;
                let cols = old(self).internal_columns@;
                let gen = generated_upto(cols, cols.len() as int);
                &&& block.meta.is_none() ==> (r matches Ok(b) && b.entries@ == block.entries@
                    && b.num_rows == block.num_rows && b.meta.is_none())
                &&& block.meta matches Option::Some(BlockMetaVariant::Internal(m)) ==> (r matches Ok(
                    b,
                ) && {
                    &&& b.wf()
                    &&& b.num_rows == block.num_rows
                    &&& b.meta.is_none()
                    &&& b.entries@.len() == block.entries@.len() + gen.len()
                    &&& forall|c: int|
                        0 <= c < block.entries@.len() ==> #[trigger] b.entries@[c]
                            == block.entries@[c]
                    &&& forall|k: int|
                        0 <= k < gen.len() ==> internal_entry_matches(
                            gen[k],
                            m,
                            n,
                            #[trigger] b.entries@[block.entries@.len() + k],
                        )
                })
                &&& block.meta.is_some() && !(block.meta matches Option::Some(
                    BlockMetaVariant::Internal(_),
                )) ==> (r matches Err(e) && e.spec_code() == CODE_INTERNAL)
            }),
    {
        let mut block = block;
        if block.meta.is_none() {
            return Ok(block);
        }
        let meta = block.take_meta();
        match meta {
            Option::Some(BlockMetaVariant::Internal(internal_column_meta)) => {
                let num_rows = block.num_rows();
                let ghost cols = self.internal_columns@;
                let ghost base = block.entries@;
                let ncols = self.internal_columns.len();
                for k in 0..ncols
                    invariant
                        self.wf(),
                        ncols == cols.len(),
                        self.internal_columns@ == cols,
                        num_rows == block.num_rows,
                        num_rows <= u64::MAX,
                        block.wf(),
                        block.meta.is_none(),
                        block.entries@.len() == base.len() + generated_upto(cols, k as int).len(),
                        forall|c: int|
                            0 <= c < base.len() ==> #[trigger] block.entries@[c] == base[c],
                        forall|kk: int|
                            0 <= kk < generated_upto(cols, k as int).len()
                                ==> internal_entry_matches(
                                generated_upto(cols, k as int)[kk],
                                internal_column_meta,
                                num_rows as nat,
                                #[trigger] block.entries@[base.len() + kk],
                            ),
                {
                    let internal_column = &self.internal_columns[k].1;
                    if internal_column.column_id() != crate::internal_column::CHANGE_ROW_ID_COLUMN_ID {
                        let column = internal_column.generate_column_values(
                            &internal_column_meta,
                            num_rows,
                        );
                        block.add_column(column);
                        proof {
                            assert(generated_upto(cols, k as int + 1) =~= generated_upto(
                                cols,
                                k as int,
                            ).push(cols[k as int].1));
                        }
                    } else {
                        proof {
                            assert(generated_upto(cols, k as int + 1) =~= generated_upto(
                                cols,
                                k as int,
                            ));
                        }
                    }
                }
                proof {
                    assert(generated_upto(cols, ncols as int) == generated_upto(
                        cols,
                        cols.len() as int,
                    ));
                }
                Ok(block)
            },
            _ => Err(ErrorCodes::Internal("It's a bug".to_owned())),
        }
    }
}

} // verus!
