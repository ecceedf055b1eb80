use byteorder::{ByteOrder, LittleEndian};
use vu_deploy::rcon::{
    PacketHeader, RconError, RemotePacket, SequenceDirection, SequenceOrigin,
};

fn words(list: &[&str]) -> Vec<String> {
    list.iter().map(|word| word.to_string()).collect()
}

fn login_packet() -> RemotePacket {
    let mut header = PacketHeader::new();
    header.set_sequence_id(7);
    header.set_origin(SequenceOrigin::Client);
    RemotePacket::new_from(header, words(&["login", "hunter2"]))
}

#[test]
fn new_packet_has_no_words() {
    let packet = RemotePacket::new();
    assert_eq!(packet.header(), PacketHeader::new());
    assert!(packet.words().is_empty());
}

#[test]
fn login_packet_on_the_wire() {
    let mut packet = login_packet();
    let bytes = packet.serialize().unwrap();
    assert_eq!(packet.header().word_count(), 2);
    assert_eq!(packet.header().size(), 12 + 10 + 12);
    assert_eq!(bytes.len(), 34);
    assert_eq!(LittleEndian::read_u32(&bytes[0..4]), 0x8000_0007);
    assert_eq!(LittleEndian::read_u32(&bytes[4..8]), 34);
    assert_eq!(LittleEndian::read_u32(&bytes[8..12]), 2);
    let body = &bytes[12..];
    assert_eq!(LittleEndian::read_u32(&body[0..4]), 5);
    assert_eq!(&body[4..9], b"login");
    assert_eq!(body[9], 0);
    assert_eq!(LittleEndian::read_u32(&body[10..14]), 7);
    assert_eq!(&body[14..21], b"hunter2");
    assert_eq!(body[21], 0);
}

#[test]
fn serialize_keeps_sequence_and_words() {
    let mut packet = login_packet();
    packet.serialize().unwrap();
    assert_eq!(packet.header().sequence(), 0x8000_0007);
    assert_eq!(packet.words(), &words(&["login", "hunter2"]));
}

#[test]
fn packet_without_words_is_a_bare_header() {
    let mut packet = RemotePacket::new();
    let bytes = packet.serialize().unwrap();
    assert_eq!(bytes, vec![0, 0, 0, 0, 12, 0, 0, 0, 0, 0, 0, 0]);
    assert_eq!(packet.header().size(), 12);
    assert_eq!(RemotePacket::new_from_reader(&bytes), Ok(packet));
}

#[test]
fn packet_round_trips() {
    for list in [
        &["login", "hunter2"][..],
        &["serverInfo"][..],
        &["admin.say", "hello world", "all"][..],
        &[][..],
    ] {
        let mut header = PacketHeader::new();
        header.set_sequence_id(0x3FFF_FFFF);
        header.set_direction(SequenceDirection::Response);
        let mut packet = RemotePacket::new_from(header, words(list));
        let bytes = packet.serialize().unwrap();
        let decoded = RemotePacket::new_from_reader(&bytes).unwrap();
        assert_eq!(decoded, packet);
        assert_eq!(decoded.words(), &words(list));
        assert!(decoded.header().is_response());
        assert_eq!(decoded.header().sequence_id(), 0x3FFF_FFFF);
        assert_eq!(decoded.clone(), packet);
    }
}

#[test]
fn empty_word_fails_the_whole_packet() {
    let mut packet = RemotePacket::new_from(PacketHeader::new(), words(&["say", "", "x"]));
    assert_eq!(packet.serialize(), Err(RconError::EmptyWord));
    assert_eq!(packet.header(), PacketHeader::new());
    assert_eq!(packet.words().len(), 3);
}

#[test]
fn non_ascii_word_fails_the_whole_packet() {
    let mut packet = RemotePacket::new_from(PacketHeader::new(), words(&["say", "h\u{e9}"]));
    assert_eq!(packet.serialize(), Err(RconError::NonAsciiWord));
    assert_eq!(packet.header().word_count(), 0);
}

#[test]
fn first_bad_word_decides_the_error() {
    let mut packet = RemotePacket::new_from(PacketHeader::new(), words(&["\u{e9}", ""]));
    assert_eq!(packet.serialize(), Err(RconError::NonAsciiWord));
    let mut packet = RemotePacket::new_from(PacketHeader::new(), words(&["", "\u{e9}"]));
    assert_eq!(packet.serialize(), Err(RconError::EmptyWord));
}

#[test]
fn short_buffer_is_a_malformed_header() {
    assert_eq!(
        RemotePacket::new_from_reader(&[0u8; 11]),
        Err(RconError::MalformedHeader)
    );
}

#[test]
fn buffer_ending_between_words_is_a_word_count_mismatch() {
    let mut bytes = login_packet().serialize().unwrap();
    LittleEndian::write_u32(&mut bytes[8..12], 3);
    assert_eq!(
        RemotePacket::new_from_reader(&bytes),
        Err(RconError::WordCountMismatch)
    );
    let header = PacketHeader::new_from(0, 12, 1).serialize();
    assert_eq!(
        RemotePacket::new_from_reader(&header),
        Err(RconError::WordCountMismatch)
    );
}

#[test]
fn words_ending_elsewhere_than_announced_is_a_size_mismatch() {
    let mut bytes = login_packet().serialize().unwrap();
    LittleEndian::write_u32(&mut bytes[4..8], 33);
    assert_eq!(RemotePacket::new_from_reader(&bytes), Err(RconError::SizeMismatch));
    let mut bytes = login_packet().serialize().unwrap();
    LittleEndian::write_u32(&mut bytes[8..12], 1);
    assert_eq!(RemotePacket::new_from_reader(&bytes), Err(RconError::SizeMismatch));
}

#[test]
fn broken_word_is_a_malformed_word() {
    let mut bytes = login_packet().serialize().unwrap();
    bytes[21] = 1;
    assert_eq!(RemotePacket::new_from_reader(&bytes), Err(RconError::MalformedWord));
    let mut bytes = login_packet().serialize().unwrap();
    bytes.truncate(30);
    assert_eq!(RemotePacket::new_from_reader(&bytes), Err(RconError::MalformedWord));
}

#[test]
fn bytes_after_the_packet_are_left_alone() {
    let mut packet = login_packet();
    let mut bytes = packet.serialize().unwrap();
    bytes.extend_from_slice(&[1, 2, 3]);
    assert_eq!(RemotePacket::new_from_reader(&bytes), Ok(packet));
}

#[test]
fn frame_waits_for_the_whole_header() {
    let bytes = login_packet().serialize().unwrap();
    for len in 0..12 {
        assert_eq!(RemotePacket::read_from_reader(&bytes[..len]), Ok(None));
    }
}

#[test]
fn frame_waits_for_the_whole_body() {
    let bytes = login_packet().serialize().unwrap();
    for len in 12..bytes.len() {
        assert_eq!(RemotePacket::read_from_reader(&bytes[..len]), Ok(None));
    }
    let mut packet = login_packet();
    packet.serialize().unwrap();
    assert_eq!(RemotePacket::read_from_reader(&bytes), Ok(Some(packet)));
}

#[test]
fn frame_takes_exactly_its_size() {
    let mut first = login_packet();
    let mut bytes = first.serialize().unwrap();
    let mut second = RemotePacket::new_from(PacketHeader::new(), words(&["quit"]));
    bytes.extend_from_slice(&second.serialize().unwrap());
    let packet = RemotePacket::read_from_reader(&bytes).unwrap().unwrap();
    assert_eq!(packet, first);
    let used = packet.header().size() as usize;
    assert_eq!(used, 34);
    assert_eq!(RemotePacket::read_from_reader(&bytes[used..]), Ok(Some(second)));
}

#[test]
fn oversized_frame_is_a_malformed_header() {
    assert_eq!(RemotePacket::MAX_FRAME_SIZE, 16384);
    let header = PacketHeader::new_from(0, 16385, 0).serialize();
    assert_eq!(
        RemotePacket::read_from_reader(&header),
        Err(RconError::MalformedHeader)
    );
    let header = PacketHeader::new_from(0, 16384, 0).serialize();
    assert_eq!(RemotePacket::read_from_reader(&header), Ok(None));
}

#[test]
fn undersized_frame_is_a_malformed_header() {
    let header = PacketHeader::new_from(0, 11, 0).serialize();
    assert_eq!(
        RemotePacket::read_from_reader(&header),
        Err(RconError::MalformedHeader)
    );
}

#[test]
fn word_may_not_reach_past_its_frame() {
    let mut bytes = PacketHeader::new_from(0, 18, 1).serialize();
    bytes.extend_from_slice(&[2, 0, 0, 0, b'o', b'k', 0, 9, 9]);
    assert_eq!(RemotePacket::read_from_reader(&bytes), Err(RconError::MalformedWord));
    let mut bytes = PacketHeader::new_from(0, 19, 1).serialize();
    bytes.extend_from_slice(&[2, 0, 0, 0, b'o', b'k', 0, 9, 9]);
    assert!(RemotePacket::read_from_reader(&bytes).unwrap().is_some());
}

#[test]
fn frame_error_comes_from_the_packet_inside() {
    let mut bytes = PacketHeader::new_from(0, 20, 1).serialize();
    bytes.extend_from_slice(&[2, 0, 0, 0, b'o', b'k', 0, 9]);
    assert_eq!(RemotePacket::read_from_reader(&bytes), Err(RconError::SizeMismatch));
    let mut bytes = PacketHeader::new_from(0, 19, 2).serialize();
    bytes.extend_from_slice(&[2, 0, 0, 0, b'o', b'k', 0]);
    assert_eq!(
        RemotePacket::read_from_reader(&bytes),
        Err(RconError::WordCountMismatch)
    );
}
