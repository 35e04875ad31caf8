//! The single-slot port between two processors: at most one batch in
//! flight, a terminal finished state, and a verified first-in-first-out
//! delivery order.

use vstd::prelude::*;
use crate::batch::DataBlock;

verus! {

/// A single-producer single-consumer handoff slot. The ghost `pushed` and
/// `pulled` histories record every batch that crossed the port; the
/// well-formedness invariant ties them to the slot, which is how the FIFO
/// property is proved.
pub struct Port {
    pub slot: Option<DataBlock>,
    pub finished: bool,
    pub pushed: Ghost<Seq<DataBlock>>,
    pub pulled: Ghost<Seq<DataBlock>>,
}

impl Port {
    /// The batch in flight, as a sequence of length zero or one.
    pub open spec fn slot_seq(&self) -> Seq<DataBlock> {
        match self.slot {
            Option::Some(b) => seq![b],
            Option::None => Seq::empty(),
        }
    }

    /// Everything pushed is everything pulled followed by what is still in
    /// flight.
    pub open spec fn wf(&self) -> bool {
        self.pushed@ == self.pulled@ + self.slot_seq()
    }

    /// A fresh, empty, unfinished port.
    pub fn create() -> (r: Port)
        ensures
            r.wf(),
            r.slot.is_none(),
            !r.finished,
            r.pushed@ == Seq::<DataBlock>::empty(),
            r.pulled@ == Seq::<DataBlock>::empty(),
    {
        let r = Port {
            slot: Option::None,
            finished: false,
            pushed: Ghost(Seq::empty()),
            pulled: Ghost(Seq::empty()),
        };
        proof {
            assert(r.pushed@ =~= r.pulled@ + r.slot_seq());
        }
        r
    }

    /// Whether a batch can be pushed now: the slot is free and the port is
    /// not finished.
    pub fn can_push(&self) -> (r: bool)
        ensures
            r == (self.slot.is_none() && !self.finished),
    {
        self.slot.is_none() && !self.finished
    }

    /// Whether a batch is in flight.
    pub fn has_data(&self) -> (r: bool)
        ensures
            r == self.slot.is_some(),
    {
        self.slot.is_some()
    }

    /// Whether the port reached its terminal state.
    pub fn is_finished(&self) -> (r: bool)
        ensures
            r == self.finished,
    {
        self.finished
    }

    /// Marks the port finished; the state is terminal.
    pub fn finish(&mut self)
        requires
            old(self).wf(),
        ensures
            final(self).wf(),
            final(self).finished,
            final(self).slot == old(self).slot,
            final(self).pushed == old(self).pushed,
            final(self).pulled == old(self).pulled,
    {
        self.finished = true;
    }

    /// Hands a batch to the port. The producer may only push into a free,
    /// unfinished port.
    pub fn push_data(&mut self, block: DataBlock)
        requires
            old(self).wf(),
            old(self).slot.is_none(),
            !old(self).finished,
        ensures
            final(self).wf(),
            final(self).slot == Option::Some(block),
            !final(self).finished,
            final(self).pushed@ == old(self).pushed@.push(block),
            final(self).pulled == old(self).pulled,
    {
        let ghost new_pushed = self.pushed@.push(block);
        self.slot = Option::Some(block);
        self.pushed = Ghost(new_pushed);
        proof {
            assert(self.pushed@ =~= self.pulled@ + self.slot_seq());
        }
    }

    /// Takes the batch in flight, if any.
    pub fn pull_data(&mut self) -> (r: Option<DataBlock>)
        requires
            old(self).wf(),
        ensures
            final(self).wf(),
            final(self).finished == old(self).finished,
            final(self).pushed == old(self).pushed,
            r == old(self).slot,
            old(self).slot matches Option::Some(b) ==> final(self).slot.is_none()
                && final(self).pulled@ == old(self).pulled@.push(b),
            old(self).slot.is_none() ==> *final(self) == *old(self),
    {
        match self.slot.take() {
            Option::Some(b) => {
                let ghost new_pulled = self.pulled@.push(b);
                self.pulled = Ghost(new_pulled);
                proof {
                    assert(self.pushed@ =~= self.pulled@ + self.slot_seq());
                }
                Option::Some(b)
            },
            Option::None => Option::None,
        }
    }

    /// First-in-first-out delivery: the consumer observes exactly the
    /// batches the producer pushed, in push order. In particular, of two
    /// batches pushed in order, the first is pulled before the second.
    pub proof fn lemma_port_fifo(&self)
        requires
            self.wf(),
        ensures
            self.pulled@.len() <= self.pushed@.len(),
            forall|i: int| 0 <= i < self.pulled@.len() ==> self.pulled@[i] == self.pushed@[i],
    {
        assert(forall|i: int|
            0 <= i < self.pulled@.len() ==> self.pushed@[i] == (self.pulled@
                + self.slot_seq())[i]);
    }
}

} // verus!
