//! The pipeline graph model: pipes of processor items with declared input
//! and output widths, and the wiring of a merge exchange's source readers
//! into an existing pipeline.

use vstd::prelude::*;
use vstd::pervasive::unreached;
use crate::error::CODE_INTERNAL;
use crate::error::ErrorCodes;
use crate::exchange::MergeExchangeParams;

verus! {

/// The closed set of processor roles a pipe item can play here.
#[derive(PartialEq, Eq, Debug)]
pub enum ProcessorKind {
    /// Passes batches through unchanged, preserving port cardinality.
    Dummy,
    /// Reads serialized batches arriving from one upstream source node.
    ExchangeSource { source_id: String },
    /// Turns wire batches back into columnar form.
    Deserialize,
    /// Changes the number of output lanes between two stages.
    Resize,
}

/// One processor of a pipe, with its port counts.
#[derive(PartialEq, Eq, Debug)]
pub struct PipeItem {
    pub kind: ProcessorKind,
    pub inputs: usize,
    pub outputs: usize,
}

/// A stage of the pipeline: processors side by side, with the stage's total
/// input and output widths.
#[derive(PartialEq, Eq, Debug)]
pub struct Pipe {
    pub input_len: usize,
    pub output_len: usize,
    pub items: Vec<PipeItem>,
}

/// A pipeline: its stages in order.
#[derive(PartialEq, Eq, Debug)]
pub struct Pipeline {
    pub pipes: Vec<Pipe>,
}

/// The merge stage's first pipe: one dummy passthrough per existing output
/// lane, then one exchange source reader per upstream source node.
pub open spec fn merge_source_pipe_spec(pipe: Pipe, last: int, source_ids: Seq<String>) -> bool {
    &&& pipe.input_len == last
    &&& pipe.output_len == last + source_ids.len()
    &&& pipe.items@.len() == last + source_ids.len()
    &&& forall|j: int|
        0 <= j < last ==> #[trigger] pipe.items@[j] == (PipeItem {
            kind: ProcessorKind::Dummy,
            inputs: 1,
            outputs: 1,
        })
    &&& forall|j: int|
        0 <= j < source_ids.len() ==> {
            &&& (#[trigger] pipe.items@[last + j]).inputs == 0
            &&& pipe.items@[last + j].outputs == 1
            &&& pipe.items@[last + j].kind matches ProcessorKind::ExchangeSource { source_id }
                && source_id@ == source_ids[j]@
        }
}

/// A deserialize stage: one deserializer per lane, one to one.
pub open spec fn deserialize_pipe_spec(pipe: Pipe, width: int) -> bool {
    &&& pipe.input_len == width
    &&& pipe.output_len == width
    &&& pipe.items@.len() == width
    &&& forall|j: int|
        0 <= j < width ==> #[trigger] pipe.items@[j] == (PipeItem {
            kind: ProcessorKind::Deserialize,
            inputs: 1,
            outputs: 1,
        })
}

impl Pipeline {
    /// The number of output lanes of the last stage; zero while the
    /// pipeline is empty.
    pub open spec fn spec_output_len(&self) -> int {
        if self.pipes@.len() == 0 {
            0
        } else {
            self.pipes@.last().output_len as int
        }
    }

    /// An empty pipeline.
    pub fn new() -> (r: Pipeline)
        ensures
            r.pipes@.len() == 0,
    {
        Pipeline { pipes: Vec::new() }
    }

    /// The number of output lanes of the last stage.
    pub fn output_len(&self) -> (r: usize)
        ensures
            r == self.spec_output_len(),
    {
        if self.pipes.len() == 0 {
            0
        } else {
            self.pipes[self.pipes.len() - 1].output_len
        }
    }

    /// Appends one stage.
    pub fn add_pipe(&mut self, pipe: Pipe)
        ensures
            final(self).pipes@ == old(self).pipes@.push(pipe),
    {
        self.pipes.push(pipe);
    }

    /// Changes the number of output lanes to `new_size` by appending a
    /// resize stage; a pipeline already that wide is left alone. An empty
    /// pipeline cannot be resized.
    pub fn try_resize(&mut self, new_size: usize) -> (r: Result<(), ErrorCodes>)
        ensures
            r.is_err() == (old(self).pipes@.len() == 0),
            r matches Err(e) ==> e.spec_code() == CODE_INTERNAL && *final(self) == *old(self),
            r matches Ok(u) ==> {
                &&& final(self).spec_output_len() == new_size
                &&& old(self).spec_output_len() == new_size ==> *final(self) == *old(self)
                &&& old(self).spec_output_len() != new_size ==> {
                    &&& final(self).pipes@.len() == old(self).pipes@.len() + 1
                    &&& final(self).pipes@.subrange(0, old(self).pipes@.len() as int) == old(
                        self,
                    ).pipes@
                    &&& final(self).pipes@.last().input_len == old(self).spec_output_len()
                    &&& final(self).pipes@.last().output_len == new_size
                    &&& final(self).pipes@.last().items@.len() == 1
                    &&& final(self).pipes@.last().items@[0].kind == ProcessorKind::Resize
                }
            },
    {
        if self.pipes.len() == 0 {
            return Err(
                ErrorCodes::Internal("Cannot resize an empty pipeline.".to_owned()),
            );
        }
        let current = self.output_len();
        if current == new_size {
            return Ok(());
        }
        let mut items: Vec<PipeItem> = Vec::new();
        items.push(PipeItem { kind: ProcessorKind::Resize, inputs: current, outputs: new_size });
        self.pipes.push(Pipe { input_len: current, output_len: new_size, items });
        proof {
            assert(self.pipes@.subrange(0, old(self).pipes@.len() as int) =~= old(self).pipes@);
        }
        Ok(())
    }
}

/// Adds the merge exchange's source stage to the pipeline: dummy
/// passthroughs keep the local lanes, one exchange source reader is added
/// per upstream source, parallelism is optionally readjusted, and a
/// deserialize stage turns the wire batches back into columnar form. A
/// merge must run on its declared destination node: anywhere else the
/// topology is wrong and nothing is wired.
pub fn via_exchange_source(
    local_id: &str,
    params: &MergeExchangeParams,
    source_ids: &Vec<String>,
    pipeline: &mut Pipeline,
) -> (r: Result<(), ErrorCodes>)
    requires
        old(pipeline).spec_output_len() + source_ids@.len() <= usize::MAX,
    ensures
        r.is_err() == (params.destination_id@ != local_id@),
        r matches Err(e) ==> e.spec_code() == CODE_INTERNAL && *final(pipeline) == *old(pipeline)
            && e.spec_message()
            == "Locally depends on merge exchange, but the localhost is not a coordination node. executor: "@
            + local_id@ + ", destination_id: "@ + params.destination_id@ + ", fragment id: "@
            + crate::text::dec_digits(params.fragment_id as nat),
        r matches Ok(u) ==> {
            let last = old(pipeline).spec_output_len();
            let nsrc = source_ids@.len() as int;
            let width = if params.allow_adjust_parallelism {
                last
            } else {
                last + nsrc
            };
            &&& merge_source_pipe_spec(
                final(pipeline).pipes@[old(pipeline).pipes@.len() as int],
                last,
                source_ids@,
            )
            &&& deserialize_pipe_spec(final(pipeline).pipes@.last(), width)
            &&& final(pipeline).spec_output_len() == width
            &&& final(pipeline).pipes@.len() == old(pipeline).pipes@.len() + (
            if params.allow_adjust_parallelism && nsrc != 0 {
                3int
            } else {
                2int
            })
        },
{
    if !crate::text::str_eq(params.destination_id.as_str(), local_id) {
        let mut msg =
            "Locally depends on merge exchange, but the localhost is not a coordination node. executor: ".to_owned();
        msg.append(local_id);
        msg.append(", destination_id: ");
        msg.append(params.destination_id.as_str());
        msg.append(", fragment id: ");
        msg.append(crate::text::u64_to_dec_string(params.fragment_id as u64).as_str());
        return Err(ErrorCodes::Internal(msg));
    }

    let last_output_len = pipeline.output_len();
    let n_sources = source_ids.len();
    let mut items: Vec<PipeItem> = Vec::new();
    for i in 0..last_output_len
        invariant
            items@.len() == i,
            forall|j: int|
                0 <= j < i ==> #[trigger] items@[j] == (PipeItem {
                    kind: ProcessorKind::Dummy,
                    inputs: 1,
                    outputs: 1,
                }),
    {
        items.push(PipeItem { kind: ProcessorKind::Dummy, inputs: 1, outputs: 1 });
    }
    for s in 0..n_sources
        invariant
            n_sources == source_ids@.len(),
            items@.len() == last_output_len + s,
            forall|j: int|
                0 <= j < last_output_len ==> #[trigger] items@[j] == (PipeItem {
                    kind: ProcessorKind::Dummy,
                    inputs: 1,
                    outputs: 1,
                }),
            forall|j: int|
                0 <= j < s ==> {
                    &&& (#[trigger] items@[last_output_len + j]).inputs == 0
                    &&& items@[last_output_len + j].outputs == 1
                    &&& items@[last_output_len + j].kind matches ProcessorKind::ExchangeSource {
                        source_id,
                    } && source_id@ == source_ids@[j]@
                },
    {
        items.push(
            PipeItem {
                kind: ProcessorKind::ExchangeSource { source_id: source_ids[s].clone() },
                inputs: 0,
                outputs: 1,
            },
        );
    }
    let stage_width = items.len();
    pipeline.add_pipe(
        Pipe { input_len: last_output_len, output_len: stage_width, items },
    );

    if params.allow_adjust_parallelism {
        let resized = pipeline.try_resize(last_output_len);
        proof {
            assert(resized is Ok);
        }
        match resized {
            Result::Ok(_) => {},
            Result::Err(_) => {
                return unreached();
            },
        }
    }

    let width = pipeline.output_len();
    let mut deser_items: Vec<PipeItem> = Vec::new();
    for i in 0..width
        invariant
            deser_items@.len() == i,
            forall|j: int|
                0 <= j < i ==> #[trigger] deser_items@[j] == (PipeItem {
                    kind: ProcessorKind::Deserialize,
                    inputs: 1,
                    outputs: 1,
                }),
    {
        deser_items.push(PipeItem { kind: ProcessorKind::Deserialize, inputs: 1, outputs: 1 });
    }
    pipeline.add_pipe(Pipe { input_len: width, output_len: width, items: deser_items });
    Ok(())
}

} // verus!
