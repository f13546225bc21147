//! The recent history of the population counts, one sample per frame.

use crate::ring_buffer::{pushed, RingBuffer};
use vstd::prelude::*;

verus! {

/// How many samples a history keeps once it is set up.
pub const HISTORY_LENGTH: usize = 50;

/// The number of seeds and the number of cells over the last frames.
pub struct WorldMetrics {
    pub seeds_count: RingBuffer<usize>,
    pub cells_count: RingBuffer<usize>,
}

/// Prepares a history: raises its capacity to `capacity`, if that is more
/// than it has, and stores `first` as its newest sample.
pub fn setup_buffer<T>(input_buffer: &mut RingBuffer<T>, capacity: usize, first: T)
    ensures
        final(input_buffer).spec_capacity() == if capacity > old(input_buffer).spec_capacity() {
            capacity
        } else {
            old(input_buffer).spec_capacity()
        },
        final(input_buffer)@ == pushed(
            old(input_buffer)@,
            final(input_buffer).spec_capacity(),
            first,
        ),
        old(input_buffer).wf() ==> final(input_buffer).wf(),
{
    input_buffer.increase_capacity(capacity);
    input_buffer.push(first);
}

impl Default for WorldMetrics {
    fn default() -> (m: WorldMetrics)
        ensures
            m.seeds_count@ == Seq::<usize>::empty(),
            m.cells_count@ == Seq::<usize>::empty(),
            m.seeds_count.spec_capacity() == 10,
            m.cells_count.spec_capacity() == 10,
            m.wf(),
    {
        WorldMetrics { seeds_count: RingBuffer::default(), cells_count: RingBuffer::default() }
    }
}

impl WorldMetrics {
    /// Both histories are well formed.
    pub open spec fn wf(&self) -> bool {
        self.seeds_count.wf() && self.cells_count.wf()
    }

    /// Histories that keep [`HISTORY_LENGTH`] samples and start with a count of zero.
    pub fn new() -> (m: WorldMetrics)
        ensures
            m.seeds_count@ == seq![0usize],
            m.cells_count@ == seq![0usize],
            m.seeds_count.spec_capacity() == HISTORY_LENGTH,
            m.cells_count.spec_capacity() == HISTORY_LENGTH,
            m.wf(),
    {
        let mut m = WorldMetrics::default();
        setup_buffer(&mut m.seeds_count, HISTORY_LENGTH, 0);
        setup_buffer(&mut m.cells_count, HISTORY_LENGTH, 0);
        assert(m.seeds_count@ =~= seq![0usize]);
        assert(m.cells_count@ =~= seq![0usize]);
        m
    }

    /// Stores the counts of one frame as the newest samples.
    pub fn record(&mut self, cells: usize, seeds: usize)
        ensures
            final(self).cells_count@ == pushed(
                old(self).cells_count@,
                old(self).cells_count.spec_capacity(),
                cells,
            ),
            final(self).seeds_count@ == pushed(
                old(self).seeds_count@,
                old(self).seeds_count.spec_capacity(),
                seeds,
            ),
            final(self).cells_count.spec_capacity() == old(self).cells_count.spec_capacity(),
            final(self).seeds_count.spec_capacity() == old(self).seeds_count.spec_capacity(),
            old(self).wf() ==> final(self).wf(),
    {
        self.cells_count.push(cells);
        self.seeds_count.push(seeds);
    }
}

} // verus!
