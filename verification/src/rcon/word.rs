//! Words: the length-prefixed, NUL-terminated ASCII strings of a packet body.

use crate::rcon::error::RconError;
use crate::rcon::wire::{
    ascii_bytes, ascii_string, ascii_text, decode_u32, is_ascii_bytes, is_ascii_text, le_u32,
    lemma_ascii_bytes_round_trip, lemma_ascii_round_trip, lemma_le_u32_round_trip,
    lemma_u32_le_round_trip, put_u32, u32_le,
};
use vstd::prelude::*;
use vstd::slice::slice_subrange;
use vstd::string::*;

verus! {

/// Why `text` cannot be sent as a word, if it cannot: it is empty, holds a
/// character outside ASCII, or is too long for the length field.
pub open spec fn word_error(text: Seq<char>) -> Option<RconError> {
    if text.len() == 0 {
        Some(RconError::EmptyWord)
    } else if !is_ascii_text(text) {
        Some(RconError::NonAsciiWord)
    } else if text.len() > u32::MAX {
        Some(RconError::FrameTooLarge)
    } else {
        None
    }
}

/// A word that can be sent: not empty, ASCII, short enough for the length
/// field.
pub open spec fn valid_word(text: Seq<char>) -> bool {
    word_error(text) is None
}

/// The number of bytes that a word of `text` takes on the wire.
pub open spec fn word_wire_len(text: Seq<char>) -> int {
    4 + text.len() as int + 1
}

/// The wire form of a word: the length of the text as a little-endian 32-bit
/// number, the text, and a terminating zero byte.
pub open spec fn word_wire(text: Seq<char>) -> Seq<u8> {
    u32_le(text.len() as u32) + ascii_bytes(text) + seq![0u8]
}

/// The word at the front of `bytes` and the number of bytes it takes, if a
/// word stands there: a length `n` other than 0, `n` ASCII bytes, and a zero
/// byte.
pub open spec fn parse_word(bytes: Seq<u8>) -> Option<(Seq<char>, int)> {
    if bytes.len() < 4 {
        None
    } else {
        let n = le_u32(bytes.subrange(0, 4)) as int;
        if n == 0 || bytes.len() < 4 + n + 1 || bytes[4 + n] != 0 || !is_ascii_bytes(
            bytes.subrange(4, 4 + n),
        ) {
            None
        } else {
            Some((ascii_text(bytes.subrange(4, 4 + n)), 4 + n + 1))
        }
    }
}

/// The wire form of `s`, or the reason why `s` is no word. Nothing is
/// skipped in silence: an empty or non-ASCII string is an error.
pub fn encode_word(s: &str) -> (result: Result<Vec<u8>, RconError>)
    ensures
        match word_error(s@) {
            Some(error) => result == Err::<Vec<u8>, RconError>(error),
            None => result matches Ok(bytes) && bytes@ == word_wire(s@),
        },
{
    if s.is_empty() {
        return Err(RconError::EmptyWord);
    }
    if !s.is_ascii() {
        return Err(RconError::NonAsciiWord);
    }
    let content = s.as_bytes();
    proof {
        lemma_ascii_round_trip(s@);
    }
    if content.len() > u32::MAX as usize {
        return Err(RconError::FrameTooLarge);
    }
    let mut bytes: Vec<u8> = Vec::new();
    put_u32(&mut bytes, content.len() as u32);
    let ghost prefix = bytes@;
    bytes.extend_from_slice(content);
    assert(bytes@ =~= prefix + content@);
    bytes.push(0u8);
    Ok(bytes)
}

/// A word of a packet body, with its length as the wire states it.
#[derive(Debug, PartialEq, Eq)]
pub struct PacketWord {
    size: u32,
    content: String,
}

impl View for PacketWord {
    type V = Seq<char>;

    closed spec fn view(&self) -> Seq<char> {
        self.content@
    }
}

impl Clone for PacketWord {
    fn clone(&self) -> (word: PacketWord)
        ensures
            word@ == self@,
    {
        proof {
            use_type_invariant(self);
        }
        PacketWord { size: self.size, content: self.content.clone() }
    }
}

impl PacketWord {
    #[verifier::type_invariant]
    spec fn well_formed(&self) -> bool {
        &&& self.size == self.content@.len()
        &&& is_ascii_text(self.content@)
    }

    /// The empty word. It stands for "no word read yet" and cannot be sent.
    pub fn new() -> (word: PacketWord)
        ensures
            word@ == Seq::<char>::empty(),
    {
        PacketWord { size: 0, content: String::new() }
    }

    /// Reads the word at the front of `reader` and says how many bytes it
    /// took. A word that is cut short, lacks its terminating zero, is empty
    /// or holds a byte outside ASCII is `MalformedWord`.
    #[verifier::loop_isolation(false)]
    pub fn new_from_reader(reader: &[u8]) -> (result: Result<(PacketWord, usize), RconError>)
        ensures
            match parse_word(reader@) {
                Some((text, used)) => result matches Ok((word, consumed)) && word@ == text
                    && consumed == used,
                None => result == Err::<(PacketWord, usize), RconError>(RconError::MalformedWord),
            },
    {
        if reader.len() < 4 {
            return Err(RconError::MalformedWord);
        }
        let size = decode_u32(slice_subrange(reader, 0, 4));
        let length = size as usize;
        if size == 0 || reader.len() - 4 <= length {
            return Err(RconError::MalformedWord);
        }
        if reader[4 + length] != 0 {
            return Err(RconError::MalformedWord);
        }
        let ghost body = reader@.subrange(4, 4 + length);
        let mut content: Vec<u8> = Vec::with_capacity(length);
        let mut i: usize = 0;
        while i < length
            invariant
                i <= length,
                content@ == body.subrange(0, i as int),
                is_ascii_bytes(content@),
            decreases length - i,
        {
            let byte = reader[4 + i];
            if byte >= 128 {
                assert(body[i as int] == byte);
                return Err(RconError::MalformedWord);
            }
            content.push(byte);
            assert(content@ =~= body.subrange(0, i + 1));
            i += 1;
        }
        assert(content@ =~= body);
        proof {
            lemma_ascii_bytes_round_trip(body);
        }
        let content = ascii_string(content);
        Ok((PacketWord { size, content }, 4 + length + 1))
    }

    /// The number of characters, as the length field states it.
    pub fn size(&self) -> (size: u32)
        ensures
            size == self@.len(),
    {
        proof {
            use_type_invariant(self);
        }
        self.size
    }

    /// The text of the word.
    pub fn content(&self) -> (content: &String)
        ensures
            content@ == self@,
            is_ascii_text(content@),
    {
        proof {
            use_type_invariant(self);
        }
        &self.content
    }

    /// Gives up the word for its text.
    pub fn into_content(self) -> (content: String)
        ensures
            content@ == self@,
            is_ascii_text(content@),
    {
        proof {
            use_type_invariant(&self);
        }
        self.content
    }
}

/// Reading an encoded word gives the word back and takes all of its bytes,
/// whatever follows them.
pub proof fn lemma_word_round_trip(text: Seq<char>, rest: Seq<u8>)
    requires
        valid_word(text),
    ensures
        word_wire(text).len() == word_wire_len(text),
        parse_word(word_wire(text) + rest) == Some((text, word_wire_len(text))),
{
    let n = text.len() as int;
    let bytes = word_wire(text) + rest;
    lemma_u32_le_round_trip(text.len() as u32);
    lemma_ascii_round_trip(text);
    assert(bytes.subrange(0, 4) =~= u32_le(text.len() as u32));
    assert(bytes.subrange(4, 4 + n) =~= ascii_bytes(text));
    assert(bytes[4 + n] == 0);
}

/// Whatever parses as a word is a valid word, and its wire form is what was
/// read.
pub proof fn lemma_parsed_word_is_valid(bytes: Seq<u8>)
    ensures
        parse_word(bytes) matches Some((text, used)) ==> {
            &&& valid_word(text)
            &&& used == word_wire_len(text)
            &&& used <= bytes.len()
            &&& bytes.subrange(0, used) == word_wire(text)
        },
{
    if parse_word(bytes) is Some {
        let n = le_u32(bytes.subrange(0, 4)) as int;
        let body = bytes.subrange(4, 4 + n);
        let text = ascii_text(body);
        lemma_ascii_bytes_round_trip(body);
        lemma_le_u32_round_trip(bytes.subrange(0, 4));
        assert(bytes.subrange(0, 4 + n + 1) =~= word_wire(text));
    }
}

} // verus!
