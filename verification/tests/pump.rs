use vu_deploy::rcon::{
    ConnectionState, PacketHeader, PumpAction, PumpEvent, Rcon, RconError, RemotePacket,
    SequenceDirection, SequenceOrigin,
};

fn words(list: &[&str]) -> Vec<String> {
    list.iter().map(|word| word.to_string()).collect()
}

fn open_connection() -> Rcon {
    let mut rcon = Rcon::new(&"localhost:47200".to_string()).unwrap();
    assert!(rcon.do_pump(PumpEvent::Connected).is_empty());
    rcon
}

fn packet(origin: SequenceOrigin, direction: SequenceDirection, id: u32, list: &[&str]) -> RemotePacket {
    let mut header = PacketHeader::new();
    header.set_sequence_id(id);
    header.set_origin(origin);
    header.set_direction(direction);
    let mut packet = RemotePacket::new_from(header, words(list));
    packet.serialize().unwrap();
    packet
}

fn response(id: u32, list: &[&str]) -> RemotePacket {
    packet(SequenceOrigin::Client, SequenceDirection::Response, id, list)
}

fn frame(packet: &RemotePacket) -> Vec<u8> {
    packet.clone().serialize().unwrap()
}

fn write_all(rcon: &mut Rcon, now: u64) -> Vec<Vec<u8>> {
    let mut frames = Vec::new();
    loop {
        let mut actions = rcon.do_pump(PumpEvent::Writable { now });
        match actions.pop() {
            Some(PumpAction::Write { frame }) => frames.push(frame),
            None => return frames,
            Some(other) => panic!("unexpected action {:?}", other),
        }
    }
}

#[test]
fn rcon_connection_test() {
    let rcon = Rcon::new(&"localhost:47200".to_string());

    let connection = rcon.unwrap();
    assert_eq!(connection.connection_address(), "localhost:47200");
    assert_eq!(connection.state(), ConnectionState::Connecting);
    assert_eq!(connection.pending_len(), 0);
    assert_eq!(connection.queued_len(), 0);
}

#[test]
fn no_connection_for_an_empty_address() {
    assert!(Rcon::new(&String::new()).is_none());
}

#[test]
fn connection_walks_through_its_states() {
    let mut rcon = Rcon::new(&"host:1".to_string()).unwrap();
    assert_eq!(rcon.state(), ConnectionState::Connecting);
    assert!(rcon.do_pump(PumpEvent::Released).is_empty());
    assert_eq!(rcon.state(), ConnectionState::Connecting);
    rcon.do_pump(PumpEvent::Connected);
    assert_eq!(rcon.state(), ConnectionState::Open);
    assert_eq!(rcon.do_pump(PumpEvent::Close), vec![PumpAction::EventsClosed]);
    assert_eq!(rcon.state(), ConnectionState::Closing);
    assert!(rcon.do_pump(PumpEvent::Connected).is_empty());
    assert_eq!(rcon.state(), ConnectionState::Closing);
    assert!(rcon.do_pump(PumpEvent::Released).is_empty());
    assert_eq!(rcon.state(), ConnectionState::Closed);
    assert!(rcon.do_pump(PumpEvent::Close).is_empty());
    assert!(rcon.do_pump(PumpEvent::Lost).is_empty());
    assert_eq!(rcon.state(), ConnectionState::Closed);
}

#[test]
fn requests_are_refused_unless_open() {
    let mut rcon = Rcon::new(&"host:1".to_string()).unwrap();
    assert_eq!(
        rcon.send_command(words(&["serverInfo"]), 1000, 0),
        Err(RconError::ConnectionLost)
    );
    rcon.do_pump(PumpEvent::Connected);
    assert_eq!(rcon.send_command(words(&["serverInfo"]), 1000, 0), Ok(0));
    rcon.do_pump(PumpEvent::Lost);
    assert_eq!(
        rcon.send_command(words(&["serverInfo"]), 1000, 0),
        Err(RconError::ConnectionLost)
    );
}

#[test]
fn sequence_ids_count_up_from_zero() {
    let mut rcon = open_connection();
    for expected in 0..5 {
        assert_eq!(rcon.send_command(words(&["ping"]), 1000, 0), Ok(expected));
    }
    assert_eq!(rcon.pending_len(), 5);
    assert_eq!(rcon.queued_len(), 5);
}

#[test]
fn invalid_words_are_refused_before_anything_is_queued() {
    let mut rcon = open_connection();
    assert_eq!(
        rcon.send_command(words(&["say", ""]), 1000, 0),
        Err(RconError::EmptyWord)
    );
    assert_eq!(
        rcon.send_command(words(&["say", "\u{fc}"]), 1000, 0),
        Err(RconError::NonAsciiWord)
    );
    assert_eq!(rcon.pending_len(), 0);
    assert_eq!(rcon.queued_len(), 0);
    assert_eq!(rcon.send_command(words(&["say", "hi"]), 1000, 0), Ok(0));
}

#[test]
fn request_frame_is_a_client_request() {
    let mut rcon = open_connection();
    rcon.send_command(words(&["login", "hunter2"]), 1000, 0).unwrap();
    let frames = write_all(&mut rcon, 0);
    assert_eq!(frames.len(), 1);
    let sent = RemotePacket::new_from_reader(&frames[0]).unwrap();
    assert_eq!(sent.header().origin(), SequenceOrigin::Client);
    assert!(sent.header().is_request());
    assert_eq!(sent.header().sequence_id(), 0);
    assert_eq!(sent.header().word_count(), 2);
    assert_eq!(sent.header().size() as usize, frames[0].len());
    assert_eq!(sent.words(), &words(&["login", "hunter2"]));
    assert_eq!(&frames[0][12..16], &[5, 0, 0, 0]);
}

#[test]
fn frames_are_written_in_the_order_of_submission() {
    let mut rcon = open_connection();
    rcon.send_command(words(&["first"]), 1000, 0).unwrap();
    rcon.send_command(words(&["second"]), 1000, 0).unwrap();
    rcon.send_command(words(&["third"]), 1000, 0).unwrap();
    let frames = write_all(&mut rcon, 0);
    let sent: Vec<String> = frames
        .iter()
        .map(|frame| RemotePacket::new_from_reader(frame).unwrap().words()[0].clone())
        .collect();
    assert_eq!(sent, words(&["first", "second", "third"]));
    assert_eq!(rcon.queued_len(), 0);
    assert_eq!(rcon.pending_len(), 3);
}

#[test]
fn response_resolves_the_request_with_its_id() {
    let mut rcon = open_connection();
    for _ in 0..3 {
        rcon.send_command(words(&["ping"]), 1000, 0).unwrap();
    }
    write_all(&mut rcon, 0);
    let answer = response(1, &["OK", "pong"]);
    let actions = rcon.do_pump(PumpEvent::Received { bytes: frame(&answer) });
    assert_eq!(
        actions,
        vec![PumpAction::Resolve { sequence_id: 1, response: answer }]
    );
    assert!(rcon.is_pending(0));
    assert!(!rcon.is_pending(1));
    assert!(rcon.is_pending(2));
}

#[test]
fn responses_may_arrive_out_of_order_and_interleaved() {
    let mut rcon = open_connection();
    for _ in 0..3 {
        rcon.send_command(words(&["ping"]), 1000, 0).unwrap();
    }
    write_all(&mut rcon, 0);
    let event = packet(SequenceOrigin::Server, SequenceDirection::Request, 1, &["player.onJoin", "x"]);
    let mut bytes = frame(&response(2, &["two"]));
    bytes.extend_from_slice(&frame(&event));
    bytes.extend_from_slice(&frame(&response(0, &["zero"])));
    bytes.extend_from_slice(&frame(&response(1, &["one"])));
    let actions = rcon.do_pump(PumpEvent::Received { bytes });
    assert_eq!(
        actions,
        vec![
            PumpAction::Resolve { sequence_id: 2, response: response(2, &["two"]) },
            PumpAction::Event { packet: event },
            PumpAction::Resolve { sequence_id: 0, response: response(0, &["zero"]) },
            PumpAction::Resolve { sequence_id: 1, response: response(1, &["one"]) },
        ]
    );
    assert_eq!(rcon.pending_len(), 0);
}

#[test]
fn duplicate_or_unsolicited_response_is_discarded() {
    let mut rcon = open_connection();
    rcon.send_command(words(&["ping"]), 1000, 0).unwrap();
    write_all(&mut rcon, 0);
    let answer = response(0, &["OK"]);
    let mut bytes = frame(&answer);
    bytes.extend_from_slice(&frame(&answer));
    bytes.extend_from_slice(&frame(&response(9, &["OK"])));
    let actions = rcon.do_pump(PumpEvent::Received { bytes });
    assert_eq!(
        actions,
        vec![
            PumpAction::Resolve { sequence_id: 0, response: answer.clone() },
            PumpAction::Discard { packet: answer },
            PumpAction::Discard { packet: response(9, &["OK"]) },
        ]
    );
    assert_eq!(rcon.state(), ConnectionState::Open);
}

#[test]
fn server_request_goes_to_the_events_even_under_a_pending_id() {
    let mut rcon = open_connection();
    rcon.send_command(words(&["ping"]), 1000, 0).unwrap();
    let event = packet(SequenceOrigin::Server, SequenceDirection::Request, 0, &["punkBuster.onMessage", "m"]);
    let actions = rcon.do_pump(PumpEvent::Received { bytes: frame(&event) });
    assert_eq!(actions, vec![PumpAction::Event { packet: event }]);
    assert!(rcon.is_pending(0));
}

#[test]
fn partial_reads_do_not_disturb_framing() {
    let mut rcon = open_connection();
    rcon.send_command(words(&["ping"]), 1000, 0).unwrap();
    rcon.send_command(words(&["ping"]), 1000, 0).unwrap();
    write_all(&mut rcon, 0);
    let mut bytes = frame(&response(0, &["zero"]));
    bytes.extend_from_slice(&frame(&response(1, &["one", "more"])));
    let mut actions = Vec::new();
    for byte in bytes {
        actions.extend(rcon.do_pump(PumpEvent::Received { bytes: vec![byte] }));
    }
    assert_eq!(
        actions,
        vec![
            PumpAction::Resolve { sequence_id: 0, response: response(0, &["zero"]) },
            PumpAction::Resolve { sequence_id: 1, response: response(1, &["one", "more"]) },
        ]
    );
}

#[test]
fn frame_split_after_its_header_is_completed_by_the_next_read() {
    let mut rcon = open_connection();
    rcon.send_command(words(&["ping"]), 1000, 0).unwrap();
    let bytes = frame(&response(0, &["pong"]));
    assert!(rcon.do_pump(PumpEvent::Received { bytes: bytes[..12].to_vec() }).is_empty());
    assert!(rcon.is_pending(0));
    let actions = rcon.do_pump(PumpEvent::Received { bytes: bytes[12..].to_vec() });
    assert_eq!(
        actions,
        vec![PumpAction::Resolve { sequence_id: 0, response: response(0, &["pong"]) }]
    );
}

#[test]
fn timeout_fails_the_request_and_a_late_response_is_discarded() {
    let mut rcon = open_connection();
    rcon.send_command(words(&["ping"]), 1000, 0).unwrap();
    rcon.send_command(words(&["slow"]), 5000, 0).unwrap();
    write_all(&mut rcon, 100);
    assert!(rcon.do_pump(PumpEvent::Tick { now: 1100 }).is_empty());
    assert_eq!(
        rcon.do_pump(PumpEvent::Tick { now: 1101 }),
        vec![PumpAction::Fail { sequence_id: 0, error: RconError::RequestTimeout }]
    );
    assert!(!rcon.is_pending(0));
    assert!(rcon.is_pending(1));
    assert_eq!(rcon.state(), ConnectionState::Open);
    assert!(rcon.do_pump(PumpEvent::Tick { now: 1200 }).is_empty());
    let late = response(0, &["OK"]);
    assert_eq!(
        rcon.do_pump(PumpEvent::Received { bytes: frame(&late) }),
        vec![PumpAction::Discard { packet: late }]
    );
    assert_eq!(
        rcon.do_pump(PumpEvent::Tick { now: 6000 }),
        vec![PumpAction::Fail { sequence_id: 1, error: RconError::RequestTimeout }]
    );
    assert_eq!(rcon.pending_len(), 0);
}

#[test]
fn timeout_runs_from_the_write_not_from_the_submission() {
    let mut rcon = open_connection();
    rcon.send_command(words(&["ping"]), 1000, 0).unwrap();
    assert!(rcon.do_pump(PumpEvent::Tick { now: 50_000 }).is_empty());
    assert!(rcon.is_pending(0));
    write_all(&mut rcon, 50_000);
    assert!(rcon.do_pump(PumpEvent::Tick { now: 51_000 }).is_empty());
    assert_eq!(
        rcon.do_pump(PumpEvent::Tick { now: 51_001 }),
        vec![PumpAction::Fail { sequence_id: 0, error: RconError::RequestTimeout }]
    );
}

#[test]
fn clock_running_backwards_expires_nothing() {
    let mut rcon = open_connection();
    rcon.send_command(words(&["ping"]), 0, 500).unwrap();
    write_all(&mut rcon, 500);
    assert!(rcon.do_pump(PumpEvent::Tick { now: 100 }).is_empty());
    assert!(rcon.do_pump(PumpEvent::Tick { now: 500 }).is_empty());
    assert_eq!(rcon.do_pump(PumpEvent::Tick { now: 501 }).len(), 1);
}

#[test]
fn end_of_stream_fails_every_pending_request_once() {
    let mut rcon = open_connection();
    for _ in 0..3 {
        rcon.send_command(words(&["ping"]), 1000, 0).unwrap();
    }
    write_all(&mut rcon, 0);
    rcon.send_command(words(&["queued"]), 1000, 0).unwrap();
    let answer = response(1, &["OK"]);
    rcon.do_pump(PumpEvent::Received { bytes: frame(&answer) });
    let actions = rcon.do_pump(PumpEvent::Lost);
    assert_eq!(
        actions,
        vec![
            PumpAction::Fail { sequence_id: 0, error: RconError::ConnectionLost },
            PumpAction::Fail { sequence_id: 2, error: RconError::ConnectionLost },
            PumpAction::Fail { sequence_id: 3, error: RconError::ConnectionLost },
            PumpAction::EventsClosed,
        ]
    );
    assert_eq!(rcon.pending_len(), 0);
    assert_eq!(rcon.queued_len(), 0);
    assert_eq!(rcon.state(), ConnectionState::Closing);
    assert!(rcon.do_pump(PumpEvent::Lost).is_empty());
    assert!(rcon.do_pump(PumpEvent::Tick { now: 10_000 }).is_empty());
    assert!(rcon.do_pump(PumpEvent::Writable { now: 0 }).is_empty());
    assert!(rcon.do_pump(PumpEvent::Received { bytes: frame(&answer) }).is_empty());
}

#[test]
fn framing_error_gives_the_connection_up() {
    let mut rcon = open_connection();
    rcon.send_command(words(&["ping"]), 1000, 0).unwrap();
    rcon.send_command(words(&["ping"]), 1000, 0).unwrap();
    write_all(&mut rcon, 0);
    let mut bytes = frame(&response(0, &["OK"]));
    bytes.extend_from_slice(&PacketHeader::new_from(0, 11, 0).serialize());
    let actions = rcon.do_pump(PumpEvent::Received { bytes });
    assert_eq!(
        actions,
        vec![
            PumpAction::Resolve { sequence_id: 0, response: response(0, &["OK"]) },
            PumpAction::Fault { error: RconError::MalformedHeader },
            PumpAction::Fail { sequence_id: 1, error: RconError::ConnectionLost },
            PumpAction::EventsClosed,
        ]
    );
    assert_eq!(rcon.state(), ConnectionState::Closing);
}

#[test]
fn each_decode_error_is_reported_as_the_fault() {
    let cases: Vec<(Vec<u8>, RconError)> = vec![
        (PacketHeader::new_from(0, 16385, 0).serialize(), RconError::MalformedHeader),
        (PacketHeader::new_from(0, 12, 1).serialize(), RconError::WordCountMismatch),
        (
            [PacketHeader::new_from(0, 13, 0).serialize(), vec![0]].concat(),
            RconError::SizeMismatch,
        ),
        (
            [PacketHeader::new_from(0, 17, 1).serialize(), vec![0, 0, 0, 0, 0]].concat(),
            RconError::MalformedWord,
        ),
    ];
    for (bytes, error) in cases {
        let mut rcon = open_connection();
        assert_eq!(
            rcon.do_pump(PumpEvent::Received { bytes }),
            vec![PumpAction::Fault { error }, PumpAction::EventsClosed]
        );
    }
}

#[test]
fn cancel_deregisters_the_request() {
    let mut rcon = open_connection();
    rcon.send_command(words(&["ping"]), 1000, 0).unwrap();
    rcon.send_command(words(&["ping"]), 1000, 0).unwrap();
    assert!(rcon.cancel(0));
    assert!(!rcon.cancel(0));
    assert!(!rcon.is_pending(0));
    assert!(rcon.is_pending(1));
    let late = response(0, &["OK"]);
    assert_eq!(rcon.dispatch(late.clone()), PumpAction::Discard { packet: late });
}

#[test]
fn dispatch_decides_by_direction_and_id() {
    let mut rcon = open_connection();
    rcon.send_command(words(&["ping"]), 1000, 0).unwrap();
    let event = packet(SequenceOrigin::Server, SequenceDirection::Request, 0, &["e"]);
    assert_eq!(rcon.dispatch(event.clone()), PumpAction::Event { packet: event });
    let answer = response(0, &["OK"]);
    assert_eq!(
        rcon.dispatch(answer.clone()),
        PumpAction::Resolve { sequence_id: 0, response: answer.clone() }
    );
    assert_eq!(rcon.dispatch(answer.clone()), PumpAction::Discard { packet: answer });
}

#[test]
fn bytes_before_the_connection_is_open_are_ignored() {
    let mut rcon = Rcon::new(&"host:1".to_string()).unwrap();
    let bytes = PacketHeader::new_from(0, 3, 0).serialize();
    assert!(rcon.do_pump(PumpEvent::Received { bytes }).is_empty());
    assert_eq!(rcon.state(), ConnectionState::Connecting);
}

#[test]
fn lost_while_connecting_closes_the_events() {
    let mut rcon = Rcon::new(&"host:1".to_string()).unwrap();
    assert_eq!(rcon.do_pump(PumpEvent::Lost), vec![PumpAction::EventsClosed]);
    assert_eq!(rcon.state(), ConnectionState::Closing);
}
