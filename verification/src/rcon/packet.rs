//! Packets: a header followed by the words it announces, and the framing of
//! packets in a byte stream.

use crate::rcon::error::RconError;
use crate::rcon::header::{
    header_view, lemma_header_round_trip, lemma_parsed_header_wire, parse_header, HeaderView,
    PacketHeader,
};
use crate::rcon::wire::lemma_u32_le_round_trip;
use crate::rcon::word::{
    encode_word, lemma_parsed_word_is_valid, lemma_word_round_trip, parse_word, valid_word,
    word_error, word_wire, word_wire_len, PacketWord,
};
use vstd::prelude::*;
use vstd::slice::slice_subrange;

verus! {

/// What a packet says: its header and the text of its words, in order.
pub struct PacketView {
    pub header: HeaderView,
    pub words: Seq<Seq<char>>,
}

/// The wire forms of `words`, one after the other.
pub open spec fn words_wire(words: Seq<Seq<char>>) -> Seq<u8>
    decreases words.len(),
{
    if words.len() == 0 {
        Seq::empty()
    } else {
        words_wire(words.drop_last()) + word_wire(words.last())
    }
}

/// The number of bytes that `words` take on the wire: for each word its
/// length field, its text and its terminator.
pub open spec fn words_wire_len(words: Seq<Seq<char>>) -> int
    decreases words.len(),
{
    if words.len() == 0 {
        0
    } else {
        words_wire_len(words.drop_last()) + word_wire_len(words.last())
    }
}

/// The error of the first of `words` that cannot be sent, if there is one.
pub open spec fn first_word_error(words: Seq<Seq<char>>) -> Option<RconError>
    decreases words.len(),
{
    if words.len() == 0 {
        None
    } else {
        match word_error(words.first()) {
            Some(error) => Some(error),
            None => first_word_error(words.drop_first()),
        }
    }
}

/// Why a packet of `words` cannot be sent, if it cannot: the error of its
/// first bad word, or else that its size does not fit the 32-bit size field.
pub open spec fn packet_error(words: Seq<Seq<char>>) -> Option<RconError> {
    match first_word_error(words) {
        Some(error) => Some(error),
        None => if 12 + words_wire_len(words) > u32::MAX {
            Some(RconError::FrameTooLarge)
        } else {
            None
        },
    }
}

/// Reads `count` words from the front of `bytes`: the words and the number
/// of bytes they take. The buffer ending between two words is
/// `WordCountMismatch`; anything that is no word is `MalformedWord`.
pub open spec fn parse_words(bytes: Seq<u8>, count: nat) -> Result<(Seq<Seq<char>>, int), RconError>
    decreases count,
{
    if count == 0 {
        Ok((Seq::empty(), 0))
    } else if bytes.len() == 0 {
        Err(RconError::WordCountMismatch)
    } else {
        match parse_word(bytes) {
            None => Err(RconError::MalformedWord),
            Some((text, used)) => match parse_words(bytes.skip(used), (count - 1) as nat) {
                Ok((rest, more)) => Ok((seq![text] + rest, used + more)),
                Err(error) => Err(error),
            },
        }
    }
}

/// Reads a packet from the front of `bytes`: the header, then as many words
/// as it announces, which must end where it says the packet ends.
pub open spec fn parse_packet(bytes: Seq<u8>) -> Result<PacketView, RconError> {
    match parse_header(bytes) {
        None => Err(RconError::MalformedHeader),
        Some(header) => match parse_words(bytes.skip(12), header.word_count as nat) {
            Err(error) => Err(error),
            Ok((words, used)) => if 12 + used == header.size {
                Ok(PacketView { header, words })
            } else {
                Err(RconError::SizeMismatch)
            },
        },
    }
}

/// Looks for one whole packet at the front of a stream buffer. `Ok(None)`
/// asks for more bytes: the header is not complete yet, or the packet it
/// announces is not. A header that announces less than itself or more than
/// `MAX_FRAME_SIZE` is `MalformedHeader`. A complete frame is read as a
/// packet on its own, so no word reaches past its end.
pub open spec fn parse_frame(bytes: Seq<u8>) -> Result<Option<PacketView>, RconError> {
    match parse_header(bytes) {
        None => Ok(None),
        Some(header) => if header.size < 12 || header.size > RemotePacket::MAX_FRAME_SIZE {
            Err(RconError::MalformedHeader)
        } else if bytes.len() < header.size {
            Ok(None)
        } else {
            match parse_packet(bytes.subrange(0, header.size as int)) {
                Ok(packet) => Ok(Some(packet)),
                Err(error) => Err(error),
            }
        },
    }
}

/// The number of bytes that the frame at the front of a stream buffer takes,
/// as its header announces it.
pub open spec fn frame_len(bytes: Seq<u8>) -> int {
    match parse_header(bytes) {
        Some(header) => header.size as int,
        None => 0,
    }
}

impl PacketView {
    /// Every word can be sent, and the header announces exactly these words:
    /// their number, and the size of the packet they make.
    pub open spec fn framed(self) -> bool {
        &&& forall|i: int| 0 <= i < self.words.len() ==> valid_word(#[trigger] self.words[i])
        &&& self.header.word_count == self.words.len()
        &&& self.header.size == 12 + words_wire_len(self.words)
    }

    /// The packet on the wire: the header, then the words in order.
    pub open spec fn wire(self) -> Seq<u8> {
        self.header.wire() + words_wire(self.words)
    }
}

/// A packet: a header and the words of its body. The first word names a
/// command and the others are its arguments, so their order matters.
#[derive(Debug, PartialEq, Eq)]
pub struct RemotePacket {
    header: PacketHeader,
    words: Vec<String>,
}

impl View for RemotePacket {
    type V = PacketView;

    closed spec fn view(&self) -> PacketView {
        PacketView { header: self.header@, words: self.words.deep_view() }
    }
}

impl RemotePacket {
    /// The largest frame that is accepted from a stream, in bytes.
    pub const MAX_FRAME_SIZE: u32 = 16384;

    /// A packet without words under a header of zeros.
    pub fn new() -> (packet: RemotePacket)
        ensures
            packet@ == (PacketView { header: header_view(0, 0, 0), words: Seq::empty() }),
    {
        let packet = RemotePacket { header: PacketHeader::new(), words: Vec::new() };
        assert(packet.words.deep_view() =~= Seq::<Seq<char>>::empty());
        packet
    }

    /// A packet of the given words under the given header. The header's size
    /// and word count are set when the packet is serialized.
    pub fn new_from(header: PacketHeader, words: Vec<String>) -> (packet: RemotePacket)
        ensures
            packet@ == (PacketView { header: header@, words: words.deep_view() }),
    {
        RemotePacket { header, words }
    }

    /// The header.
    pub fn header(&self) -> (header: PacketHeader)
        ensures
            header@ == self@.header,
    {
        self.header
    }

    /// The words, in order.
    pub fn words(&self) -> (words: &Vec<String>)
        ensures
            words.deep_view() == self@.words,
    {
        &self.words
    }

    /// Sets the header's word count and size from the words and gives the
    /// packet's wire form: the header, then the words in order. Where a word
    /// cannot be sent, or the packet is too large for its size field, the
    /// packet stays as it was and the error says why.
    pub fn serialize(&mut self) -> (result: Result<Vec<u8>, RconError>)
        ensures
            final(self)@.words == old(self)@.words,
            match packet_error(old(self)@.words) {
                Some(error) => result == Err::<Vec<u8>, RconError>(error) && final(self)@ == old(
                    self,
                )@,
                None => {
                    &&& final(self)@.header == (HeaderView {
                        size: (12 + words_wire_len(old(self)@.words)) as u32,
                        word_count: old(self)@.words.len() as u32,
                        ..old(self)@.header
                    })
                    &&& final(self)@.framed()
                    &&& result matches Ok(bytes) && bytes@ == final(self)@.wire()
                },
            },
    {
        let ghost words = self@.words;
        let count = self.words.len();
        let mut body: Vec<u8> = Vec::new();
        let mut i: usize = 0;
        assert(words.skip(0) =~= words);
        while i < count
            invariant
                i <= count,
                count == self.words@.len(),
                words == self.words.deep_view(),
                *self == *old(self),
                first_word_error(words) == first_word_error(words.skip(i as int)),
                forall|k: int| 0 <= k < i ==> valid_word(#[trigger] words[k]),
                body@ == words_wire(words.take(i as int)),
            decreases count - i,
        {
            assert(words.skip(i as int).first() == words[i as int]);
            assert(words.skip(i as int).drop_first() =~= words.skip(i + 1));
            assert(words.take(i + 1).drop_last() =~= words.take(i as int));
            assert(words.take(i + 1).last() == words[i as int]);
            match encode_word(self.words[i].as_str()) {
                Ok(mut encoded) => {
                    body.append(&mut encoded);
                },
                Err(error) => {
                    return Err(error);
                },
            }
            i += 1;
        }
        assert(words.take(count as int) =~= words);
        proof {
            lemma_words_wire_len(words);
        }
        if body.len() > (u32::MAX - 12) as usize {
            return Err(RconError::FrameTooLarge);
        }
        self.header.set_size((body.len() + 12) as u32);
        self.header.set_word_count(count as u32);
        let mut bytes = self.header.serialize();
        bytes.append(&mut body);
        Ok(bytes)
    }

    /// Reads a packet from the front of `reader`: the header, then as many
    /// words as the header announces. The buffer ending between two words is
    /// `WordCountMismatch`; the words ending elsewhere than the header's size
    /// says is `SizeMismatch`.
    #[verifier::loop_isolation(false)]
    pub fn new_from_reader(reader: &[u8]) -> (result: Result<RemotePacket, RconError>)
        ensures
            match parse_packet(reader@) {
                Ok(view) => result matches Ok(packet) && packet@ == view,
                Err(error) => result == Err::<RemotePacket, RconError>(error),
            },
    {
        let header = match PacketHeader::new_from_reader(reader) {
            Ok(header) => header,
            Err(error) => {
                return Err(error);
            },
        };
        let count = header.word_count();
        let ghost body = reader@.skip(12);
        let mut words: Vec<String> = Vec::new();
        let mut position: usize = 12;
        let mut i: u32 = 0;
        assert(reader@.skip(12) =~= body);
        assert(words.deep_view() =~= Seq::<Seq<char>>::empty());
        assert(Seq::<Seq<char>>::empty() + parse_words(body, count as nat)->Ok_0.0
            =~= parse_words(body, count as nat)->Ok_0.0);
        while i < count
            invariant
                12 <= position <= reader@.len(),
                i <= count,
                match parse_words(reader@.skip(position as int), (count - i) as nat) {
                    Ok((rest, more)) => parse_words(body, count as nat) == Ok::<
                        (Seq<Seq<char>>, int),
                        RconError,
                    >((words.deep_view() + rest, position - 12 + more)),
                    Err(error) => parse_words(body, count as nat) == Err::<
                        (Seq<Seq<char>>, int),
                        RconError,
                    >(error),
                },
            decreases count - i,
        {
            if position == reader.len() {
                return Err(RconError::WordCountMismatch);
            }
            let rest = slice_subrange(reader, position, reader.len());
            assert(rest@ =~= reader@.skip(position as int));
            proof {
                lemma_parsed_word_is_valid(rest@);
            }
            match PacketWord::new_from_reader(rest) {
                Err(error) => {
                    return Err(error);
                },
                Ok((word, used)) => {
                    let ghost before = words.deep_view();
                    let ghost text = word@;
                    assert(rest@.skip(used as int) =~= reader@.skip(position + used));
                    words.push(word.into_content());
                    assert(words.deep_view() =~= before.push(text));
                    assert forall|tail: Seq<Seq<char>>|
                        before + (seq![text] + tail) == #[trigger] (before.push(text) + tail) by {
                        assert(before + (seq![text] + tail) =~= before.push(text) + tail);
                    }
                    position = position + used;
                    i = i + 1;
                },
            }
        }
        assert(words.deep_view() + Seq::<Seq<char>>::empty() =~= words.deep_view());
        if position as u64 != header.size() as u64 {
            return Err(RconError::SizeMismatch);
        }
        Ok(RemotePacket { header, words })
    }

    /// Looks for one whole packet at the front of a stream buffer, without
    /// waiting. `Ok(None)` asks for more bytes; a packet that is returned
    /// took the first `header().size()` bytes of the buffer.
    pub fn read_from_reader(reader: &[u8]) -> (result: Result<Option<RemotePacket>, RconError>)
        ensures
            match parse_frame(reader@) {
                Ok(Some(view)) => result matches Ok(Some(packet)) && packet@ == view
                    && view.header.size == frame_len(reader@) && 12 <= frame_len(reader@)
                    <= reader@.len(),
                Ok(None) => result == Ok::<Option<RemotePacket>, RconError>(None),
                Err(error) => result == Err::<Option<RemotePacket>, RconError>(error),
            },
    {
        let header = match PacketHeader::new_from_reader(reader) {
            Ok(header) => header,
            Err(_) => {
                return Ok(None);
            },
        };
        let size = header.size();
        if size < 12 || size > RemotePacket::MAX_FRAME_SIZE {
            return Err(RconError::MalformedHeader);
        }
        if reader.len() < size as usize {
            return Ok(None);
        }
        proof {
            lemma_parsed_frame(reader@);
        }
        match RemotePacket::new_from_reader(slice_subrange(reader, 0, size as usize)) {
            Ok(packet) => Ok(Some(packet)),
            Err(error) => Err(error),
        }
    }
}

impl Clone for RemotePacket {
    fn clone(&self) -> (packet: RemotePacket)
        ensures
            packet@ == self@,
    {
        let mut words: Vec<String> = Vec::with_capacity(self.words.len());
        let mut i: usize = 0;
        while i < self.words.len()
            invariant
                i <= self.words@.len(),
                words.deep_view() == self.words.deep_view().take(i as int),
            decreases self.words@.len() - i,
        {
            let ghost before = words.deep_view();
            words.push(self.words[i].clone());
            assert(words.deep_view() =~= before.push(self.words@[i as int]@));
            assert(self.words.deep_view().take(i + 1) =~= self.words.deep_view().take(
                i as int,
            ).push(self.words@[i as int]@));
            i += 1;
        }
        assert(self.words.deep_view().take(i as int) =~= self.words.deep_view());
        RemotePacket { header: self.header, words }
    }
}

/// The wire form of words has the length that their sizes add up to, and
/// every word takes at least five bytes.
pub proof fn lemma_words_wire_len(words: Seq<Seq<char>>)
    ensures
        words_wire(words).len() == words_wire_len(words),
        words_wire_len(words) >= 5 * words.len(),
    decreases words.len(),
{
    if words.len() > 0 {
        lemma_words_wire_len(words.drop_last());
        lemma_u32_le_round_trip(words.last().len() as u32);
    }
}

/// The wire form of a word followed by more words is the word's wire form
/// followed by theirs.
pub proof fn lemma_words_wire_cons(text: Seq<char>, rest: Seq<Seq<char>>)
    ensures
        words_wire(seq![text] + rest) == word_wire(text) + words_wire(rest),
        words_wire_len(seq![text] + rest) == word_wire_len(text) + words_wire_len(rest),
    decreases rest.len(),
{
    let words = seq![text] + rest;
    if rest.len() == 0 {
        assert(words.drop_last() =~= Seq::<Seq<char>>::empty());
        assert(words.last() == text);
        assert(words_wire(words.drop_last()) =~= Seq::<u8>::empty());
        assert(words_wire_len(words.drop_last()) == 0);
        assert(words_wire(words) =~= word_wire(text) + words_wire(rest));
    } else {
        lemma_words_wire_cons(text, rest.drop_last());
        assert(words.drop_last() =~= seq![text] + rest.drop_last());
        assert(words.last() == rest.last());
        assert(words_wire(words) =~= word_wire(text) + words_wire(rest));
    }
}

/// No word is in error exactly when every word can be sent.
pub proof fn lemma_first_word_error(words: Seq<Seq<char>>)
    ensures
        first_word_error(words) is None <==> forall|i: int|
            0 <= i < words.len() ==> valid_word(#[trigger] words[i]),
    decreases words.len(),
{
    if words.len() > 0 {
        let rest = words.drop_first();
        lemma_first_word_error(rest);
        if first_word_error(words) is None {
            assert forall|i: int| 0 <= i < words.len() implies valid_word(
                #[trigger] words[i],
            ) by {
                if i > 0 {
                    assert(words[i] == rest[i - 1]);
                }
            }
        }
        if forall|i: int| 0 <= i < words.len() ==> valid_word(#[trigger] words[i]) {
            assert(valid_word(words[0]));
            assert forall|i: int| 0 <= i < rest.len() implies valid_word(#[trigger] rest[i]) by {
                assert(rest[i] == words[i + 1]);
            }
        }
    }
}

/// Reading the wire form of sendable words gives the words back and takes
/// all of their bytes, whatever follows them.
pub proof fn lemma_words_round_trip(words: Seq<Seq<char>>, tail: Seq<u8>)
    requires
        forall|i: int| 0 <= i < words.len() ==> valid_word(#[trigger] words[i]),
    ensures
        parse_words(words_wire(words) + tail, words.len()) == Ok::<
            (Seq<Seq<char>>, int),
            RconError,
        >((words, words_wire_len(words))),
    decreases words.len(),
{
    if words.len() > 0 {
        let text = words.first();
        let rest = words.drop_first();
        let bytes = words_wire(words) + tail;
        assert(words =~= seq![text] + rest);
        lemma_words_wire_cons(text, rest);
        lemma_word_round_trip(text, words_wire(rest) + tail);
        assert(bytes =~= word_wire(text) + (words_wire(rest) + tail));
        assert(bytes.skip(word_wire_len(text)) =~= words_wire(rest) + tail);
        assert forall|i: int| 0 <= i < rest.len() implies valid_word(#[trigger] rest[i]) by {
            assert(rest[i] == words[i + 1]);
        }
        lemma_words_round_trip(rest, tail);
    } else {
        assert(words =~= Seq::<Seq<char>>::empty());
    }
}

/// Words that were read are sendable, as many as were asked for, and their
/// wire form is what was read.
pub proof fn lemma_parsed_words(bytes: Seq<u8>, count: nat)
    ensures
        parse_words(bytes, count) matches Ok((words, used)) ==> {
            &&& words.len() == count
            &&& forall|i: int| 0 <= i < words.len() ==> valid_word(#[trigger] words[i])
            &&& used == words_wire_len(words)
            &&& 0 <= used <= bytes.len()
            &&& bytes.subrange(0, used) == words_wire(words)
        },
    decreases count,
{
    if count > 0 && parse_words(bytes, count) is Ok {
        let (text, first_used) = parse_word(bytes)->0;
        let (rest, more) = parse_words(bytes.skip(first_used), (count - 1) as nat)->Ok_0;
        let words = seq![text] + rest;
        lemma_parsed_word_is_valid(bytes);
        lemma_parsed_words(bytes.skip(first_used), (count - 1) as nat);
        lemma_words_wire_cons(text, rest);
        assert(bytes.subrange(0, first_used + more) =~= bytes.subrange(0, first_used)
            + bytes.skip(first_used).subrange(0, more));
        assert forall|i: int| 0 <= i < words.len() implies valid_word(#[trigger] words[i]) by {
            if i > 0 {
                assert(words[i] == rest[i - 1]);
            }
        }
    } else if count == 0 {
        assert(bytes.subrange(0, 0) =~= words_wire(Seq::empty()));
    }
}

/// Reading the wire form of a packet whose header announces its words gives
/// the packet back, whatever follows it in the buffer.
pub proof fn lemma_packet_round_trip(packet: PacketView, tail: Seq<u8>)
    requires
        packet.header.valid(),
        packet.framed(),
    ensures
        packet.wire().len() == packet.header.size,
        parse_packet(packet.wire() + tail) == Ok::<PacketView, RconError>(packet),
{
    let bytes = packet.wire() + tail;
    lemma_header_round_trip(packet.header);
    lemma_words_wire_len(packet.words);
    lemma_words_round_trip(packet.words, tail);
    assert(bytes.subrange(0, 4) =~= packet.header.wire().subrange(0, 4));
    assert(bytes.subrange(4, 8) =~= packet.header.wire().subrange(4, 8));
    assert(bytes.subrange(8, 12) =~= packet.header.wire().subrange(8, 12));
    assert(bytes.skip(12) =~= words_wire(packet.words) + tail);
}

/// Round trip: where `serialize` succeeds, the bytes it gives read back as
/// the packet it leaves, whatever follows them in the buffer. It succeeds
/// for every packet of words that can be sent and fit the size field.
pub proof fn lemma_serialized_packet_reads_back(
    header: HeaderView,
    words: Seq<Seq<char>>,
    tail: Seq<u8>,
)
    requires
        header.valid(),
        packet_error(words) is None,
    ensures
        ({
            let sent = PacketView {
                header: HeaderView {
                    size: (12 + words_wire_len(words)) as u32,
                    word_count: words.len() as u32,
                    ..header
                },
                words,
            };
            &&& sent.framed()
            &&& parse_packet(sent.wire() + tail) == Ok::<PacketView, RconError>(sent)
        }),
{
    let sent = PacketView {
        header: HeaderView {
            size: (12 + words_wire_len(words)) as u32,
            word_count: words.len() as u32,
            ..header
        },
        words,
    };
    lemma_first_word_error(words);
    lemma_words_wire_len(words);
    lemma_packet_round_trip(sent, tail);
}

/// A packet that was read is one whose header announces its words, and its
/// wire form is the front of what was read.
pub proof fn lemma_parsed_packet(bytes: Seq<u8>)
    ensures
        parse_packet(bytes) matches Ok(packet) ==> {
            &&& packet.header.valid()
            &&& packet.framed()
            &&& packet.header.size <= bytes.len()
            &&& bytes.subrange(0, packet.header.size as int) == packet.wire()
        },
{
    if parse_packet(bytes) is Ok {
        let packet = parse_packet(bytes)->Ok_0;
        lemma_parsed_header_wire(bytes);
        lemma_parsed_words(bytes.skip(12), packet.header.word_count as nat);
        assert(bytes.subrange(0, packet.header.size as int) =~= bytes.subrange(0, 12)
            + bytes.skip(12).subrange(0, packet.header.size - 12));
    }
}

/// A packet taken from a stream is one whose header announces its words; it
/// took `frame_len` bytes, which are its wire form.
pub proof fn lemma_parsed_frame(bytes: Seq<u8>)
    ensures
        parse_frame(bytes) matches Ok(Some(packet)) ==> {
            &&& packet.header.valid()
            &&& packet.framed()
            &&& packet.header.size == frame_len(bytes)
            &&& 12 <= frame_len(bytes) <= bytes.len()
            &&& frame_len(bytes) <= RemotePacket::MAX_FRAME_SIZE
            &&& bytes.subrange(0, frame_len(bytes)) == packet.wire()
        },
{
    if parse_frame(bytes) matches Ok(Some(packet)) {
        let size = frame_len(bytes);
        let frame = bytes.subrange(0, size);
        lemma_parsed_packet(frame);
        assert(frame.subrange(0, 4) =~= bytes.subrange(0, 4));
        assert(frame.subrange(4, 8) =~= bytes.subrange(4, 8));
        assert(frame.subrange(8, 12) =~= bytes.subrange(8, 12));
        assert(frame.subrange(0, size) =~= frame);
    }
}

/// A stream buffer that begins with the wire form of a packet of at most
/// `MAX_FRAME_SIZE` bytes yields that packet.
pub proof fn lemma_frame_round_trip(packet: PacketView, tail: Seq<u8>)
    requires
        packet.header.valid(),
        packet.framed(),
        packet.header.size <= RemotePacket::MAX_FRAME_SIZE,
    ensures
        parse_frame(packet.wire() + tail) == Ok::<Option<PacketView>, RconError>(Some(packet)),
{
    let bytes = packet.wire() + tail;
    lemma_packet_round_trip(packet, tail);
    lemma_packet_round_trip(packet, Seq::empty());
    lemma_words_wire_len(packet.words);
    assert(bytes.subrange(0, packet.header.size as int) =~= packet.wire() + Seq::<u8>::empty());
}

} // verus!
