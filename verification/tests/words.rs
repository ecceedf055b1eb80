use vu_deploy::rcon::{encode_word, PacketWord, RconError};

#[test]
fn word_is_length_text_and_terminator() {
    assert_eq!(
        encode_word("login"),
        Ok(vec![5, 0, 0, 0, b'l', b'o', b'g', b'i', b'n', 0])
    );
    assert_eq!(encode_word("a"), Ok(vec![1, 0, 0, 0, b'a', 0]));
}

#[test]
fn long_word_has_a_little_endian_length() {
    let text = "x".repeat(0x0102);
    let bytes = encode_word(&text).unwrap();
    assert_eq!(bytes.len(), 4 + 0x0102 + 1);
    assert_eq!(&bytes[0..4], &[0x02, 0x01, 0, 0]);
    assert_eq!(bytes[bytes.len() - 1], 0);
}

#[test]
fn empty_word_is_refused() {
    assert_eq!(encode_word(""), Err(RconError::EmptyWord));
}

#[test]
fn non_ascii_word_is_refused() {
    assert_eq!(encode_word("caf\u{e9}"), Err(RconError::NonAsciiWord));
    assert_eq!(encode_word("\u{80}"), Err(RconError::NonAsciiWord));
    assert!(encode_word("\u{7f}").is_ok());
}

#[test]
fn word_round_trips() {
    for text in ["login", "hunter2", "a", "serverInfo", "vars.serverName", "with space", "\u{7f}\u{1}"] {
        let bytes = encode_word(text).unwrap();
        let (word, consumed) = PacketWord::new_from_reader(&bytes).unwrap();
        assert_eq!(word.content(), text);
        assert_eq!(word.size() as usize, text.len());
        assert_eq!(consumed, bytes.len());
    }
}

#[test]
fn word_is_read_from_the_front_of_a_longer_buffer() {
    let mut bytes = encode_word("login").unwrap();
    bytes.extend_from_slice(&encode_word("hunter2").unwrap());
    let (word, consumed) = PacketWord::new_from_reader(&bytes).unwrap();
    assert_eq!(word.content(), "login");
    assert_eq!(consumed, 10);
    let (word, consumed) = PacketWord::new_from_reader(&bytes[10..]).unwrap();
    assert_eq!(word.clone().into_content(), "hunter2".to_string());
    assert_eq!(consumed, 12);
}

#[test]
fn word_without_terminator_is_malformed() {
    assert_eq!(
        PacketWord::new_from_reader(&[2, 0, 0, 0, b'o', b'k', 1]),
        Err(RconError::MalformedWord)
    );
}

#[test]
fn word_cut_short_is_malformed() {
    assert_eq!(PacketWord::new_from_reader(&[]), Err(RconError::MalformedWord));
    assert_eq!(PacketWord::new_from_reader(&[2, 0, 0]), Err(RconError::MalformedWord));
    assert_eq!(
        PacketWord::new_from_reader(&[2, 0, 0, 0, b'o']),
        Err(RconError::MalformedWord)
    );
    assert_eq!(
        PacketWord::new_from_reader(&[2, 0, 0, 0, b'o', b'k']),
        Err(RconError::MalformedWord)
    );
    assert_eq!(
        PacketWord::new_from_reader(&[0xFF, 0xFF, 0xFF, 0xFF, b'o', b'k', 0]),
        Err(RconError::MalformedWord)
    );
}

#[test]
fn empty_or_non_ascii_word_on_the_wire_is_malformed() {
    assert_eq!(
        PacketWord::new_from_reader(&[0, 0, 0, 0, 0]),
        Err(RconError::MalformedWord)
    );
    assert_eq!(
        PacketWord::new_from_reader(&[2, 0, 0, 0, b'o', 0x80, 0]),
        Err(RconError::MalformedWord)
    );
}

#[test]
fn new_word_is_empty() {
    let word = PacketWord::new();
    assert_eq!(word.size(), 0);
    assert_eq!(word.content(), "");
}
