//! Allocation of sequence ids for the requests of one connection.

use crate::rcon::header::{HeaderView, PacketHeader, SequenceDirection, SequenceOrigin};
use vstd::prelude::*;

verus! {

/// The id that follows `id`: one more, and 0 after the largest id.
pub open spec fn following_id(id: u32) -> u32 {
    if id >= 0x3FFF_FFFF {
        0
    } else {
        (id + 1) as u32
    }
}

/// Hands out the sequence ids 0, 1, 2, ... up to `0x3FFFFFFF` and then starts
/// again at 0.
#[derive(Debug)]
pub struct SequenceAllocator {
    next: u32,
}

impl View for SequenceAllocator {
    type V = u32;

    /// The id that the next call hands out.
    closed spec fn view(&self) -> u32 {
        self.next
    }
}

impl SequenceAllocator {
    #[verifier::type_invariant]
    spec fn in_range(&self) -> bool {
        self.next <= 0x3FFF_FFFF
    }

    /// An allocator whose first id is 0.
    pub fn new() -> (allocator: SequenceAllocator)
        ensures
            allocator@ == 0,
    {
        SequenceAllocator { next: 0 }
    }

    /// An allocator whose first id is `id`, or 0 where `id` is no sequence
    /// id.
    pub fn starting_at(id: u32) -> (allocator: SequenceAllocator)
        ensures
            allocator@ == if id > 0x3FFF_FFFF { 0 } else { id },
    {
        if id > PacketHeader::PACKET_HEADER_SEQUENCE_ID_MASK {
            SequenceAllocator { next: 0 }
        } else {
            SequenceAllocator { next: id }
        }
    }

    /// The id that the next call of `next_id` hands out.
    pub fn peek(&self) -> (id: u32)
        ensures
            id == self@,
            id <= 0x3FFF_FFFF,
    {
        proof {
            use_type_invariant(self);
        }
        self.next
    }

    /// The id to use now; the allocator moves on to the following one.
    pub fn next_id(&mut self) -> (id: u32)
        ensures
            id == old(self)@,
            id <= 0x3FFF_FFFF,
            final(self)@ == following_id(id),
    {
        proof {
            use_type_invariant(&*self);
        }
        let id = self.next;
        self.next = if id >= PacketHeader::PACKET_HEADER_SEQUENCE_ID_MASK {
            0
        } else {
            id + 1
        };
        id
    }

    /// The header that the next request of this client will have: client
    /// origin, request direction and the id to come. Size and word count are
    /// 0 until the packet is serialized.
    pub fn peek_request(&self) -> (header: PacketHeader)
        ensures
            header@ == (HeaderView {
                origin: SequenceOrigin::Client,
                direction: SequenceDirection::Request,
                sequence_id: self@,
                size: 0,
                word_count: 0,
            }),
            header@.valid(),
    {
        let mut header = PacketHeader::new();
        header.set_sequence_id(self.peek());
        header.set_origin(SequenceOrigin::Client);
        header.set_direction(SequenceDirection::Request);
        header
    }

    /// The header of the next request of this client: client origin, request
    /// direction and a fresh id. The allocator moves on to the following id.
    pub fn next_request(&mut self) -> (header: PacketHeader)
        ensures
            header@ == (HeaderView {
                origin: SequenceOrigin::Client,
                direction: SequenceDirection::Request,
                sequence_id: old(self)@,
                size: 0,
                word_count: 0,
            }),
            final(self)@ == following_id(old(self)@),
    {
        let header = self.peek_request();
        let _ = self.next_id();
        header
    }
}

} // verus!
