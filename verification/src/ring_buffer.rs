//! The pre-allocated ring of event slots.

use vstd::prelude::*;
use crate::error::{is_pow2, DisruptorError, DisruptorResult};
use crate::event_factory::EventFactory;

verus! {

/// Optional padding of ring slots.
///
/// Padding is a memory-layout choice: it has no effect on which slot a
/// sequence maps to or on what a slot holds.
#[derive(Debug, Clone, Copy, PartialEq, Eq, Structural)]
pub enum SlotPadding {
    /// Events sit inline, next to each other.
    Unpadded,
    /// Each slot takes a 64-byte cache line.
    CacheLine64,
    /// Each slot takes a 128-byte cache line.
    CacheLine128,
}

/// The slot that a non-negative sequence maps to in a ring of `size` slots.
pub open spec fn slot_of(sequence: int, size: nat) -> int {
    sequence % (size as int)
}

/// A ring size the library accepts: a power of two that sequences can count.
pub open spec fn valid_ring_size(size: nat) -> bool {
    is_pow2(size) && size <= i64::MAX
}

/// Pre-allocated circular storage of events; sequence `s` lives in slot `s mod size`.
#[derive(Debug)]
pub struct RingBuffer<E> {
    entries: Vec<E>,
    padding: SlotPadding,
}

impl<E> View for RingBuffer<E> {
    type V = Seq<E>;

    closed spec fn view(&self) -> Seq<E> {
        self.entries@
    }
}

impl<E> RingBuffer<E> {
    /// The ring's invariant: its size is a valid ring size.
    pub closed spec fn wf(self) -> bool {
        valid_ring_size(self.entries@.len())
    }

    /// The number of slots.
    pub open spec fn size(self) -> nat {
        self@.len()
    }

    /// The event stored for `sequence`.
    pub open spec fn event_at(self, sequence: int) -> E {
        self@[slot_of(sequence, self.size())]
    }

    /// The padding the ring was created with.
    pub closed spec fn padding_spec(self) -> SlotPadding {
        self.padding
    }

    /// A ring of `size` slots, each filled by `factory`; no padding.
    pub fn new<F: EventFactory<E>>(size: usize, factory: F) -> (r: DisruptorResult<Self>)
        ensures
            r is Ok <==> valid_ring_size(size as nat),
            r is Err ==> r == Err::<Self, DisruptorError>(DisruptorError::InvalidBufferSize(size)),
            r matches Ok(rb) ==> rb.wf() && rb.size() == size && rb.padding_spec()
                == SlotPadding::Unpadded,
    {
        RingBuffer::new_with_padding(size, factory, SlotPadding::Unpadded)
    }

    /// A ring of `size` slots, each filled by `factory`, with the given padding.
    pub fn new_with_padding<F: EventFactory<E>>(size: usize, factory: F, padding: SlotPadding) -> (r:
        DisruptorResult<Self>)
        ensures
            r is Ok <==> valid_ring_size(size as nat),
            r is Err ==> r == Err::<Self, DisruptorError>(DisruptorError::InvalidBufferSize(size)),
            r matches Ok(rb) ==> rb.wf() && rb.size() == size && rb.padding_spec() == padding,
    {
        if !crate::error::is_power_of_two(size) || (size as u64) > 0x7fff_ffff_ffff_ffffu64 {
            return Err(DisruptorError::InvalidBufferSize(size));
        }
        let mut entries: Vec<E> = Vec::new();
        let mut i: usize = 0;
        while i < size
            invariant
                i <= size,
                entries@.len() == i,
            decreases size - i,
        {
            entries.push(factory.new_instance());
            i = i + 1;
        }
        Ok(RingBuffer { entries, padding })
    }

    /// The number of slots.
    pub fn buffer_size(&self) -> (n: usize)
        ensures
            n == self.size(),
    {
        self.entries.len()
    }

    /// The padding the ring was created with.
    pub fn padding(&self) -> (p: SlotPadding)
        ensures
            p == self.padding_spec(),
    {
        self.padding
    }

    /// The slot index of a non-negative sequence.
    pub fn index_of(&self, sequence: i64) -> (i: usize)
        requires
            self.wf(),
            sequence >= 0,
        ensures
            i == slot_of(sequence as int, self.size()),
            i < self.size(),
    {
        let n = self.entries.len() as u64;
        ((sequence as u64) % n) as usize
    }

    /// The event stored for `sequence`.
    pub fn get(&self, sequence: i64) -> (e: &E)
        requires
            self.wf(),
            sequence >= 0,
        ensures
            *e == self.event_at(sequence as int),
    {
        let i = self.index_of(sequence);
        &self.entries[i]
    }

    /// Mutable access to the event stored for `sequence`.
    pub fn get_mut(&mut self, sequence: i64) -> (e: &mut E)
        requires
            old(self).wf(),
            sequence >= 0,
        ensures
            *e == old(self).event_at(sequence as int),
            final(self)@ == old(self)@.update(
                slot_of(sequence as int, old(self).size()),
                *final(e),
            ),
            final(self).padding_spec() == old(self).padding_spec(),
            final(self).wf(),
    {
        let i = self.index_of(sequence);
        &mut self.entries[i]
    }

    /// Applies `update` to the event stored for `sequence`.
    pub fn update_with<F: FnOnce(&mut E)>(&mut self, sequence: i64, update: F)
        requires
            old(self).wf(),
            sequence >= 0,
            forall|e: &mut E| update.requires((e,)),
        ensures
            final(self).wf(),
            final(self).size() == old(self).size(),
            final(self).padding_spec() == old(self).padding_spec(),
            exists|e: &mut E|
                *e == old(self).event_at(sequence as int) && final(self)@ == old(self)@.update(
                    slot_of(sequence as int, old(self).size()),
                    *final(e),
                ) && update.ensures((e,), ()),
    {
        let i = self.index_of(sequence);
        let slot = &mut self.entries[i];
        update(slot);
    }

    /// Applies `update` to the event stored for `sequence`, passing `index` along.
    pub fn update_indexed<F: Fn(usize, &mut E)>(&mut self, sequence: i64, index: usize, update: &F)
        requires
            old(self).wf(),
            sequence >= 0,
            forall|i: usize, e: &mut E| update.requires((i, e)),
        ensures
            final(self).wf(),
            final(self).size() == old(self).size(),
            final(self).padding_spec() == old(self).padding_spec(),
            exists|e: &mut E|
                *e == old(self).event_at(sequence as int) && final(self)@ == old(self)@.update(
                    slot_of(sequence as int, old(self).size()),
                    *final(e),
                ) && update.ensures((index, e), ()),
    {
        let i = self.index_of(sequence);
        let slot = &mut self.entries[i];
        update(index, slot);
    }
}

} // verus!
