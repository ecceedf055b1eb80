//! The fixed twelve-byte packet header and its bit-packed sequence field.

use crate::rcon::error::RconError;
use crate::rcon::wire::{
    decode_u32, le_u32, lemma_le_u32_round_trip, lemma_u32_le_round_trip, put_u32, u32_le,
};
use vstd::prelude::*;
use vstd::slice::slice_subrange;

verus! {

/// Which side allocated a sequence.
#[derive(Clone, Copy, Debug, PartialEq, Eq, Structural)]
pub enum SequenceOrigin {
    Server,
    Client,
}

/// Whether a packet asks or answers.
#[derive(Clone, Copy, Debug, PartialEq, Eq, Structural)]
pub enum SequenceDirection {
    Request,
    Response,
}

/// What a header says, field by field.
pub struct HeaderView {
    pub origin: SequenceOrigin,
    pub direction: SequenceDirection,
    pub sequence_id: u32,
    pub size: u32,
    pub word_count: u32,
}

/// The origin held in bit 31 of a sequence field.
pub open spec fn sequence_origin(sequence: u32) -> SequenceOrigin {
    if sequence / 0x8000_0000 == 1 {
        SequenceOrigin::Client
    } else {
        SequenceOrigin::Server
    }
}

/// The direction held in bit 30 of a sequence field.
pub open spec fn sequence_direction(sequence: u32) -> SequenceDirection {
    if (sequence / 0x4000_0000) % 2 == 1 {
        SequenceDirection::Response
    } else {
        SequenceDirection::Request
    }
}

/// The id held in the low thirty bits of a sequence field.
pub open spec fn sequence_number(sequence: u32) -> u32 {
    (sequence % 0x4000_0000) as u32
}

/// What the header with the given raw fields says.
pub open spec fn header_view(sequence: u32, size: u32, word_count: u32) -> HeaderView {
    HeaderView {
        origin: sequence_origin(sequence),
        direction: sequence_direction(sequence),
        sequence_id: sequence_number(sequence),
        size,
        word_count,
    }
}

/// What the first twelve bytes of `bytes` say as a header; nothing when there
/// are fewer than twelve.
pub open spec fn parse_header(bytes: Seq<u8>) -> Option<HeaderView> {
    if bytes.len() < 12 {
        None
    } else {
        Some(
            header_view(
                le_u32(bytes.subrange(0, 4)),
                le_u32(bytes.subrange(4, 8)),
                le_u32(bytes.subrange(8, 12)),
            ),
        )
    }
}

impl HeaderView {
    /// The sequence id fits its thirty bits.
    pub open spec fn valid(self) -> bool {
        self.sequence_id <= 0x3FFF_FFFF
    }

    /// The sequence field: origin in bit 31, direction in bit 30, the id in
    /// the thirty bits below.
    pub open spec fn sequence(self) -> u32 {
        ((if self.origin == SequenceOrigin::Client { 0x8000_0000int } else { 0int })
        + (if self.direction == SequenceDirection::Response { 0x4000_0000int } else { 0int })
        + self.sequence_id) as u32
    }

    /// The twelve bytes on the wire: sequence, size and word count, each
    /// little-endian.
    pub open spec fn wire(self) -> Seq<u8> {
        u32_le(self.sequence()) + u32_le(self.size) + u32_le(self.word_count)
    }
}

/// The header of a packet: three 32-bit fields, of which the first packs the
/// origin, the direction and the sequence id.
#[derive(Clone, Copy, Debug, PartialEq, Eq)]
pub struct PacketHeader {
    sequence: u32,
    size: u32,
    word_count: u32,
}

impl View for PacketHeader {
    type V = HeaderView;

    closed spec fn view(&self) -> HeaderView {
        header_view(self.sequence, self.size, self.word_count)
    }
}

impl PacketHeader {
    /// Bytes in an encoded header.
    pub const PACKET_HEADER_SIZE: usize = 12;

    /// Position of the origin bit in the sequence field.
    pub const PACKET_HEADER_ORIGIN_SHIFT: u32 = 31;

    /// Position of the request/response bit in the sequence field.
    pub const PACKET_HEADER_REQUEST_SHIFT: u32 = 30;

    /// The bits of the sequence field that hold the sequence id.
    pub const PACKET_HEADER_SEQUENCE_ID_MASK: u32 = 0x3FFF_FFFF;

    /// A header of zeros: a server-originated request with id 0.
    pub fn new() -> (header: PacketHeader)
        ensures
            header@ == header_view(0, 0, 0),
    {
        PacketHeader { sequence: 0, size: 0, word_count: 0 }
    }

    /// A header with the given raw fields.
    pub fn new_from(_sequence: u32, _size: u32, _word_count: u32) -> (header: PacketHeader)
        ensures
            header@ == header_view(_sequence, _size, _word_count),
    {
        PacketHeader { sequence: _sequence, size: _size, word_count: _word_count }
    }

    /// Reads a header from the first twelve bytes of `reader`. Never waits:
    /// with fewer than twelve bytes the answer is `MalformedHeader`.
    pub fn new_from_reader(reader: &[u8]) -> (result: Result<PacketHeader, RconError>)
        ensures
            match parse_header(reader@) {
                Some(view) => result matches Ok(header) && header@ == view,
                None => result == Err::<PacketHeader, RconError>(RconError::MalformedHeader),
            },
    {
        if reader.len() < PacketHeader::PACKET_HEADER_SIZE {
            return Err(RconError::MalformedHeader);
        }
        let sequence = decode_u32(slice_subrange(reader, 0, 4));
        let size = decode_u32(slice_subrange(reader, 4, 8));
        let word_count = decode_u32(slice_subrange(reader, 8, 12));
        Ok(PacketHeader { sequence, size, word_count })
    }

    /// The twelve bytes of this header: sequence, size and word count, each
    /// little-endian.
    pub fn serialize(&self) -> (data: Vec<u8>)
        ensures
            data@ == self@.wire(),
            data@.len() == 12,
    {
        let mut data: Vec<u8> = Vec::with_capacity(PacketHeader::PACKET_HEADER_SIZE);
        put_u32(&mut data, self.sequence);
        put_u32(&mut data, self.size);
        put_u32(&mut data, self.word_count);
        proof {
            self.lemma_view_is_valid();
            lemma_u32_le_round_trip(self.sequence);
            lemma_u32_le_round_trip(self.size);
            lemma_u32_le_round_trip(self.word_count);
        }
        data
    }

    /// Sets bit 30 for a response and clears it for a request; nothing else
    /// changes.
    pub fn set_direction(&mut self, direction: SequenceDirection)
        ensures
            final(self)@ == (HeaderView { direction, ..old(self)@ }),
    {
        let sequence: u32 = self.sequence;
        let bit: u32 = 1u32 << PacketHeader::PACKET_HEADER_REQUEST_SHIFT;
        assert(bit == 0x4000_0000u32) by (bit_vector)
            requires
                bit == 1u32 << 30u32,
        ;
        match direction {
            SequenceDirection::Request => {
                self.sequence = sequence & !bit;
                assert({
                    let after = sequence & !0x4000_0000u32;
                    &&& after % 0x4000_0000 == sequence % 0x4000_0000
                    &&& (after / 0x4000_0000) % 2 == 0
                    &&& after / 0x8000_0000 == sequence / 0x8000_0000
                }) by (bit_vector);
            },
            SequenceDirection::Response => {
                self.sequence = sequence | bit;
                assert({
                    let after = sequence | 0x4000_0000u32;
                    &&& after % 0x4000_0000 == sequence % 0x4000_0000
                    &&& (after / 0x4000_0000) % 2 == 1
                    &&& after / 0x8000_0000 == sequence / 0x8000_0000
                }) by (bit_vector);
            },
        }
    }

    /// Whether bit 30 is clear.
    pub fn is_request(&self) -> (request: bool)
        ensures
            request == (self@.direction == SequenceDirection::Request),
    {
        let sequence: u32 = self.sequence;
        let bit: u32 = 1u32 << PacketHeader::PACKET_HEADER_REQUEST_SHIFT;
        assert(bit == 0x4000_0000u32) by (bit_vector)
            requires
                bit == 1u32 << 30u32,
        ;
        assert((sequence & 0x4000_0000u32 == 0) <==> (sequence / 0x4000_0000) % 2 == 0)
            by (bit_vector);
        sequence & bit == 0
    }

    /// Whether bit 30 is set.
    pub fn is_response(&self) -> (response: bool)
        ensures
            response == (self@.direction == SequenceDirection::Response),
    {
        !self.is_request()
    }

    /// The side that allocated the sequence: bit 31.
    pub fn origin(&self) -> (origin: SequenceOrigin)
        ensures
            origin == self@.origin,
    {
        let sequence: u32 = self.sequence;
        let bit: u32 = 1u32 << PacketHeader::PACKET_HEADER_ORIGIN_SHIFT;
        assert(bit == 0x8000_0000u32) by (bit_vector)
            requires
                bit == 1u32 << 31u32,
        ;
        assert((sequence & 0x8000_0000u32 == 0) <==> sequence / 0x8000_0000 == 0)
            by (bit_vector);
        if sequence & bit == 0 {
            SequenceOrigin::Server
        } else {
            SequenceOrigin::Client
        }
    }

    /// Sets bit 31 for the client and clears it for the server; nothing else
    /// changes.
    pub fn set_origin(&mut self, origin: SequenceOrigin)
        ensures
            final(self)@ == (HeaderView { origin, ..old(self)@ }),
    {
        let sequence: u32 = self.sequence;
        let bit: u32 = 1u32 << PacketHeader::PACKET_HEADER_ORIGIN_SHIFT;
        assert(bit == 0x8000_0000u32) by (bit_vector)
            requires
                bit == 1u32 << 31u32,
        ;
        let masked_origin: u32 = sequence & !bit;
        match origin {
            SequenceOrigin::Client => {
                self.sequence = masked_origin | bit;
                assert({
                    let after = (sequence & !0x8000_0000u32) | 0x8000_0000u32;
                    &&& after % 0x4000_0000 == sequence % 0x4000_0000
                    &&& (after / 0x4000_0000) % 2 == (sequence / 0x4000_0000) % 2
                    &&& after / 0x8000_0000 == 1
                }) by (bit_vector);
            },
            SequenceOrigin::Server => {
                self.sequence = masked_origin;
                assert({
                    let after = sequence & !0x8000_0000u32;
                    &&& after % 0x4000_0000 == sequence % 0x4000_0000
                    &&& (after / 0x4000_0000) % 2 == (sequence / 0x4000_0000) % 2
                    &&& after / 0x8000_0000 == 0
                }) by (bit_vector);
            },
        }
    }

    /// The number of words announced.
    pub fn word_count(&self) -> (word_count: u32)
        ensures
            word_count == self@.word_count,
    {
        self.word_count
    }

    /// Announces `word_count` words; nothing else changes.
    pub fn set_word_count(&mut self, word_count: u32)
        ensures
            final(self)@ == (HeaderView { word_count, ..old(self)@ }),
    {
        self.word_count = word_count;
    }

    /// The announced length of the whole packet in bytes.
    pub fn size(&self) -> (size: u32)
        ensures
            size == self@.size,
    {
        self.size
    }

    /// Announces a packet of `size` bytes; nothing else changes.
    pub fn set_size(&mut self, size: u32)
        ensures
            final(self)@ == (HeaderView { size, ..old(self)@ }),
    {
        self.size = size;
    }

    /// Replaces the low thirty bits by `sequence_id`, or by 0 when
    /// `sequence_id` does not fit them; nothing else changes.
    pub fn set_sequence_id(&mut self, sequence_id: u32)
        ensures
            final(self)@ == (HeaderView {
                sequence_id: if sequence_id > 0x3FFF_FFFF { 0 } else { sequence_id },
                ..old(self)@
            }),
    {
        let sequence: u32 = self.sequence;
        let id: u32 = if sequence_id > PacketHeader::PACKET_HEADER_SEQUENCE_ID_MASK {
            0
        } else {
            sequence_id
        };
        let cleared_sequence: u32 = sequence & !PacketHeader::PACKET_HEADER_SEQUENCE_ID_MASK;
        self.sequence = cleared_sequence | id;
        assert({
            let after = (sequence & !0x3FFF_FFFFu32) | id;
            &&& after % 0x4000_0000 == id
            &&& (after / 0x4000_0000) % 2 == (sequence / 0x4000_0000) % 2
            &&& after / 0x8000_0000 == sequence / 0x8000_0000
        }) by (bit_vector)
            requires
                id <= 0x3FFF_FFFFu32,
        ;
    }

    /// The whole sequence field: origin, direction and id together.
    pub fn sequence(&self) -> (sequence: u32)
        ensures
            sequence == self@.sequence(),
    {
        proof {
            self.lemma_view_is_valid();
        }
        self.sequence
    }

    /// The sequence id: the low thirty bits.
    pub fn sequence_id(&self) -> (sequence_id: u32)
        ensures
            sequence_id == self@.sequence_id,
    {
        let sequence: u32 = self.sequence;
        assert(sequence & 0x3FFF_FFFFu32 == sequence % 0x4000_0000) by (bit_vector);
        sequence & PacketHeader::PACKET_HEADER_SEQUENCE_ID_MASK
    }

    /// What a header says is always valid, and packing it gives the raw
    /// sequence field back.
    pub proof fn lemma_view_is_valid(&self)
        ensures
            self@.valid(),
            header_view(self@.sequence(), self@.size, self@.word_count) == self@,
    {
    }

    /// Two headers that say the same are the same.
    pub proof fn lemma_view_determines_header(&self, other: &PacketHeader)
        requires
            self@ == other@,
        ensures
            *self == *other,
    {
    }
}

/// Decoding an encoded header gives the header back.
pub proof fn lemma_header_round_trip(view: HeaderView)
    requires
        view.valid(),
    ensures
        view.wire().len() == 12,
        parse_header(view.wire()) == Some(view),
{
    let bytes = view.wire();
    lemma_u32_le_round_trip(view.sequence());
    lemma_u32_le_round_trip(view.size);
    lemma_u32_le_round_trip(view.word_count);
    assert(bytes.subrange(0, 4) =~= u32_le(view.sequence()));
    assert(bytes.subrange(4, 8) =~= u32_le(view.size));
    assert(bytes.subrange(8, 12) =~= u32_le(view.word_count));
}

/// A header that was read says what its twelve bytes encode.
pub proof fn lemma_parsed_header_wire(bytes: Seq<u8>)
    ensures
        parse_header(bytes) matches Some(view) ==> view.valid() && bytes.subrange(0, 12)
            == view.wire(),
{
    if bytes.len() >= 12 {
        let view = parse_header(bytes)->0;
        lemma_le_u32_round_trip(bytes.subrange(0, 4));
        lemma_le_u32_round_trip(bytes.subrange(4, 8));
        lemma_le_u32_round_trip(bytes.subrange(8, 12));
        assert(view.sequence() == le_u32(bytes.subrange(0, 4)));
        assert(bytes.subrange(0, 12) =~= bytes.subrange(0, 4) + bytes.subrange(4, 8)
            + bytes.subrange(8, 12));
    }
}

/// The mask of the sequence id is everything below the two flag bits, and its
/// complement is the two flag bits.
pub proof fn lemma_sequence_id_mask()
    ensures
        PacketHeader::PACKET_HEADER_SEQUENCE_ID_MASK == !(3u32
            << PacketHeader::PACKET_HEADER_REQUEST_SHIFT),
        !PacketHeader::PACKET_HEADER_SEQUENCE_ID_MASK == 0xC000_0000u32,
        1u32 << PacketHeader::PACKET_HEADER_ORIGIN_SHIFT == 0x8000_0000u32,
        1u32 << PacketHeader::PACKET_HEADER_REQUEST_SHIFT == 0x4000_0000u32,
{
    assert(0x3FFF_FFFFu32 == !(3u32 << 30u32)) by (bit_vector);
    assert(!0x3FFF_FFFFu32 == 0xC000_0000u32) by (bit_vector);
    assert(1u32 << 31u32 == 0x8000_0000u32) by (bit_vector);
    assert(1u32 << 30u32 == 0x4000_0000u32) by (bit_vector);
}

} // verus!
