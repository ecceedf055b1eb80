//! The connection pump: the decisions of one connection, from the bytes and
//! events it is handed to the frames to write and the requests to resolve.
//! The socket, the clock and the waiting callers stay outside; they perform
//! the actions and hand back the events.

use crate::rcon::error::RconError;
use crate::rcon::header::{HeaderView, SequenceDirection, SequenceOrigin};
use crate::rcon::packet::{
    frame_len, packet_error, parse_frame, words_wire_len, PacketView, RemotePacket,
};
use crate::rcon::pending::{
    distinct_ids, expired_at, has_id, ids_of, lemma_ids_of_distinct, lemma_sweep_by_id,
    lemma_without, lemma_without_keeps, live_at, lookup, without, written_at, PendingRequest,
    PendingTable,
};
use crate::rcon::sequence::{following_id, SequenceAllocator};
use std::collections::VecDeque;
use vstd::prelude::*;
use vstd::slice::slice_subrange;

verus! {

/// Where a connection stands in its life.
#[derive(Clone, Copy, Debug, PartialEq, Eq, Structural)]
pub enum ConnectionState {
    /// The socket is being opened.
    Connecting,
    /// Requests may be submitted.
    Open,
    /// The connection has failed or was closed, and the socket is still to
    /// be released.
    Closing,
    /// The socket is released.
    Closed,
}

/// What the outside reports to the pump.
#[derive(Debug, PartialEq, Eq)]
pub enum PumpEvent {
    /// The socket is open.
    Connected,
    /// Bytes arrived from the socket.
    Received { bytes: Vec<u8> },
    /// The socket takes the next frame, at the time `now`.
    Writable { now: u64 },
    /// The periodic timeout sweep is due, at the time `now`.
    Tick { now: u64 },
    /// The socket failed or reached its end.
    Lost,
    /// The caller closes the connection.
    Close,
    /// The socket has been released.
    Released,
}

/// What the pump asks the outside to do.
#[derive(Debug, PartialEq, Eq)]
pub enum PumpAction {
    /// Write the frame to the socket, whole, before any other.
    Write { frame: Vec<u8> },
    /// Hand the response to the caller who waits under the sequence id.
    Resolve { sequence_id: u32, response: RemotePacket },
    /// Fail the caller who waits under the sequence id.
    Fail { sequence_id: u32, error: RconError },
    /// Hand a request of the server to the event subscriber.
    Event { packet: RemotePacket },
    /// Drop a response that nobody waits for.
    Discard { packet: RemotePacket },
    /// Report why the connection is given up.
    Fault { error: RconError },
    /// End the event subscriber's sequence.
    EventsClosed,
}

/// What an event says.
pub enum EventView {
    Connected,
    Received { bytes: Seq<u8> },
    Writable { now: u64 },
    Tick { now: u64 },
    Lost,
    Close,
    Released,
}

/// What an action says.
pub enum ActionView {
    Write { frame: Seq<u8> },
    Resolve { sequence_id: u32, response: PacketView },
    Fail { sequence_id: u32, error: RconError },
    Event { packet: PacketView },
    Discard { packet: PacketView },
    Fault { error: RconError },
    EventsClosed,
}

impl View for PumpEvent {
    type V = EventView;

    open spec fn view(&self) -> EventView {
        match self {
            PumpEvent::Connected => EventView::Connected,
            PumpEvent::Received { bytes } => EventView::Received { bytes: bytes@ },
            PumpEvent::Writable { now } => EventView::Writable { now: *now },
            PumpEvent::Tick { now } => EventView::Tick { now: *now },
            PumpEvent::Lost => EventView::Lost,
            PumpEvent::Close => EventView::Close,
            PumpEvent::Released => EventView::Released,
        }
    }
}

impl View for PumpAction {
    type V = ActionView;

    open spec fn view(&self) -> ActionView {
        match self {
            PumpAction::Write { frame } => ActionView::Write { frame: frame@ },
            PumpAction::Resolve { sequence_id, response } => ActionView::Resolve {
                sequence_id: *sequence_id,
                response: response@,
            },
            PumpAction::Fail { sequence_id, error } => ActionView::Fail {
                sequence_id: *sequence_id,
                error: *error,
            },
            PumpAction::Event { packet } => ActionView::Event { packet: packet@ },
            PumpAction::Discard { packet } => ActionView::Discard { packet: packet@ },
            PumpAction::Fault { error } => ActionView::Fault { error: *error },
            PumpAction::EventsClosed => ActionView::EventsClosed,
        }
    }
}

/// What a list of actions says, in order.
pub open spec fn actions_view(actions: Seq<PumpAction>) -> Seq<ActionView> {
    Seq::new(actions.len(), |i: int| actions[i]@)
}

/// A frame that waits to be written, with the sequence id of its request.
pub struct FrameView {
    pub sequence_id: u32,
    pub bytes: Seq<u8>,
}

/// What a connection holds.
pub struct RconView {
    /// The address it was made for.
    pub address: Seq<char>,
    /// Where it stands in its life.
    pub state: ConnectionState,
    /// The sequence id of the next request.
    pub next_id: u32,
    /// The frames that wait to be written, the oldest first.
    pub outgoing: Seq<FrameView>,
    /// The bytes that arrived and are not yet part of a whole frame.
    pub incoming: Seq<u8>,
    /// The requests that wait for their response, in the order of
    /// submission.
    pub pending: Seq<PendingRequest>,
}

/// What becomes of an arrived packet: a response goes to the request that
/// waits under its sequence id, or is dropped where none does; a request of
/// the server goes to the event subscriber.
pub open spec fn dispatch(pending: Seq<PendingRequest>, packet: PacketView) -> ActionView {
    if packet.header.direction == SequenceDirection::Response {
        if has_id(pending, packet.header.sequence_id) {
            ActionView::Resolve { sequence_id: packet.header.sequence_id, response: packet }
        } else {
            ActionView::Discard { packet }
        }
    } else {
        ActionView::Event { packet }
    }
}

/// The pending requests after an arrived packet: a response takes the
/// request under its sequence id with it, and no other.
pub open spec fn after_dispatch(pending: Seq<PendingRequest>, packet: PacketView) -> Seq<
    PendingRequest,
> {
    if packet.header.direction == SequenceDirection::Response {
        without(pending, packet.header.sequence_id)
    } else {
        pending
    }
}

/// One failure for each of `ids`, in order.
pub open spec fn failures(ids: Seq<u32>, error: RconError) -> Seq<ActionView> {
    Seq::new(ids.len(), |i: int| ActionView::Fail { sequence_id: ids[i], error })
}

/// What taking the whole frames off the front of a stream buffer comes to.
pub struct Intake {
    /// The requests that still wait afterwards.
    pub pending: Seq<PendingRequest>,
    /// What became of each packet, in the order of arrival.
    pub actions: Seq<ActionView>,
    /// The bytes that remain: an incomplete frame, or the frame in error.
    pub rest: Seq<u8>,
    /// Why the frame at the front of `rest` cannot be read, if it cannot.
    pub error: Option<RconError>,
}

/// Takes whole frames off the front of `buffer` as long as there are any,
/// and dispatches each against the requests that wait at that moment.
pub open spec fn intake(pending: Seq<PendingRequest>, buffer: Seq<u8>) -> Intake
    decreases buffer.len(),
{
    match parse_frame(buffer) {
        Ok(None) => Intake { pending, actions: Seq::empty(), rest: buffer, error: None },
        Err(error) => Intake { pending, actions: Seq::empty(), rest: buffer, error: Some(error) },
        Ok(Some(packet)) => {
            let next = intake(after_dispatch(pending, packet), buffer.skip(frame_len(buffer)));
            Intake { actions: seq![dispatch(pending, packet)] + next.actions, ..next }
        },
    }
}

/// What a connection does when it is given up: every waiting caller fails
/// with `ConnectionLost`, once, and the event subscriber's sequence ends.
pub open spec fn teardown_actions(pending: Seq<PendingRequest>) -> Seq<ActionView> {
    failures(ids_of(pending), RconError::ConnectionLost) + seq![ActionView::EventsClosed]
}

impl RconView {
    /// The connection given up: nothing waits, nothing is queued, nothing is
    /// buffered, and the socket is still to be released.
    pub open spec fn given_up(self) -> RconView {
        RconView {
            state: ConnectionState::Closing,
            outgoing: Seq::empty(),
            incoming: Seq::empty(),
            pending: Seq::empty(),
            ..self
        }
    }

    /// The packet that a command of `words` is sent as: a request of the
    /// client under the next sequence id, with the size and word count of
    /// its words.
    pub open spec fn request(self, words: Seq<Seq<char>>) -> PacketView {
        PacketView {
            header: HeaderView {
                origin: SequenceOrigin::Client,
                direction: SequenceDirection::Request,
                sequence_id: self.next_id,
                size: (12 + words_wire_len(words)) as u32,
                word_count: words.len() as u32,
            },
            words,
        }
    }

    /// Why a command of `words` is refused, if it is: the connection is not
    /// open, or the words make no packet.
    pub open spec fn send_error(self, words: Seq<Seq<char>>) -> Option<RconError> {
        if self.state != ConnectionState::Open {
            Some(RconError::ConnectionLost)
        } else {
            packet_error(words)
        }
    }

    /// The connection after a command of `words` was accepted at `now`: its
    /// frame is the last in the queue, its request waits, unwritten, and the
    /// next sequence id is the following one.
    pub open spec fn after_send(self, words: Seq<Seq<char>>, timeout: u64, now: u64) -> RconView {
        RconView {
            next_id: following_id(self.next_id),
            outgoing: self.outgoing.push(
                FrameView { sequence_id: self.next_id, bytes: self.request(words).wire() },
            ),
            pending: without(self.pending, self.next_id).push(
                PendingRequest {
                    sequence_id: self.next_id,
                    submitted_at: now,
                    timeout,
                    written: false,
                },
            ),
            ..self
        }
    }

    /// The connection after `event`.
    pub open spec fn after(self, event: EventView) -> RconView {
        match event {
            EventView::Connected => if self.state == ConnectionState::Connecting {
                RconView { state: ConnectionState::Open, ..self }
            } else {
                self
            },
            EventView::Received { bytes } => if self.state != ConnectionState::Open {
                self
            } else {
                let taken = intake(self.pending, self.incoming + bytes);
                if taken.error is None {
                    RconView { incoming: taken.rest, pending: taken.pending, ..self }
                } else {
                    self.given_up()
                }
            },
            EventView::Writable { now } => if self.state != ConnectionState::Open
                || self.outgoing.len() == 0 {
                self
            } else {
                RconView {
                    outgoing: self.outgoing.drop_first(),
                    pending: written_at(self.pending, self.outgoing.first().sequence_id, now),
                    ..self
                }
            },
            EventView::Tick { now } => if self.state != ConnectionState::Open {
                self
            } else {
                RconView { pending: live_at(self.pending, now), ..self }
            },
            EventView::Lost | EventView::Close => if self.state == ConnectionState::Closing
                || self.state == ConnectionState::Closed {
                self
            } else {
                self.given_up()
            },
            EventView::Released => if self.state == ConnectionState::Closing {
                RconView { state: ConnectionState::Closed, ..self }
            } else {
                self
            },
        }
    }

    /// What the outside is asked to do upon `event`, in order.
    pub open spec fn actions(self, event: EventView) -> Seq<ActionView> {
        match event {
            EventView::Connected | EventView::Released => Seq::empty(),
            EventView::Received { bytes } => if self.state != ConnectionState::Open {
                Seq::empty()
            } else {
                let taken = intake(self.pending, self.incoming + bytes);
                match taken.error {
                    None => taken.actions,
                    Some(error) => taken.actions + seq![ActionView::Fault { error }]
                        + teardown_actions(taken.pending),
                }
            },
            EventView::Writable { now } => if self.state != ConnectionState::Open
                || self.outgoing.len() == 0 {
                Seq::empty()
            } else {
                seq![ActionView::Write { frame: self.outgoing.first().bytes }]
            },
            EventView::Tick { now } => if self.state != ConnectionState::Open {
                Seq::empty()
            } else {
                failures(ids_of(expired_at(self.pending, now)), RconError::RequestTimeout)
            },
            EventView::Lost | EventView::Close => if self.state == ConnectionState::Closing
                || self.state == ConnectionState::Closed {
                Seq::empty()
            } else {
                teardown_actions(self.pending)
            },
        }
    }
}

/// Correlation: a response resolves the request that waits under its
/// sequence id and takes it out of the table; every other request waits on
/// as before.
pub proof fn lemma_response_resolves_its_request(
    pending: Seq<PendingRequest>,
    response: PacketView,
    other: u32,
)
    requires
        distinct_ids(pending),
        response.header.direction == SequenceDirection::Response,
        has_id(pending, response.header.sequence_id),
        other != response.header.sequence_id,
    ensures
        dispatch(pending, response) == (ActionView::Resolve {
            sequence_id: response.header.sequence_id,
            response,
        }),
        !has_id(after_dispatch(pending, response), response.header.sequence_id),
        lookup(after_dispatch(pending, response), other) == lookup(pending, other),
        distinct_ids(after_dispatch(pending, response)),
{
    lemma_without(pending, response.header.sequence_id);
    lemma_without_keeps(pending, response.header.sequence_id, other);
}

/// Correlation under interleaving: whatever else arrives, a request of the
/// server or a response under another sequence id, the request that waits
/// under `sequence_id` waits on unchanged.
pub proof fn lemma_other_packets_leave_request(
    pending: Seq<PendingRequest>,
    packet: PacketView,
    sequence_id: u32,
)
    requires
        distinct_ids(pending),
        packet.header.direction == SequenceDirection::Request || packet.header.sequence_id
            != sequence_id,
    ensures
        lookup(after_dispatch(pending, packet), sequence_id) == lookup(pending, sequence_id),
        dispatch(pending, packet) != (ActionView::Resolve { sequence_id, response: packet }),
        distinct_ids(after_dispatch(pending, packet)),
{
    if packet.header.direction == SequenceDirection::Response {
        lemma_without(pending, packet.header.sequence_id);
        lemma_without_keeps(pending, packet.header.sequence_id, sequence_id);
    }
}

/// Timeout: when the sweep finds a written request past its timeout, the
/// caller is failed with `RequestTimeout`, the request leaves the table, and
/// a response that arrives under its sequence id afterwards is dropped. A
/// request that is not past its timeout waits on.
pub proof fn lemma_timeout_removes_request(
    connection: RconView,
    now: u64,
    request: PendingRequest,
    late: PacketView,
)
    requires
        connection.state == ConnectionState::Open,
        distinct_ids(connection.pending),
        lookup(connection.pending, request.sequence_id) == Some(request),
        late.header.direction == SequenceDirection::Response,
        late.header.sequence_id == request.sequence_id,
    ensures
        connection.after(EventView::Tick { now }).state == ConnectionState::Open,
        request.is_expired(now) ==> {
            &&& connection.actions(EventView::Tick { now }).contains(
                ActionView::Fail {
                    sequence_id: request.sequence_id,
                    error: RconError::RequestTimeout,
                },
            )
            &&& !has_id(connection.after(EventView::Tick { now }).pending, request.sequence_id)
            &&& dispatch(connection.after(EventView::Tick { now }).pending, late)
                == (ActionView::Discard { packet: late })
        },
        !request.is_expired(now) ==> {
            &&& lookup(connection.after(EventView::Tick { now }).pending, request.sequence_id)
                == Some(request)
            &&& !connection.actions(EventView::Tick { now }).contains(
                ActionView::Fail {
                    sequence_id: request.sequence_id,
                    error: RconError::RequestTimeout,
                },
            )
        },
{
    let ids = ids_of(expired_at(connection.pending, now));
    let actions = connection.actions(EventView::Tick { now });
    let failure = ActionView::Fail {
        sequence_id: request.sequence_id,
        error: RconError::RequestTimeout,
    };
    lemma_sweep_by_id(connection.pending, now, request.sequence_id);
    if request.is_expired(now) {
        let k = choose|k: int| 0 <= k < ids.len() && ids[k] == request.sequence_id;
        assert(actions[k] == failure);
    } else {
        if actions.contains(failure) {
            let k = choose|k: int| 0 <= k < actions.len() && actions[k] == failure;
            assert(ids[k] == request.sequence_id);
        }
    }
}

/// Teardown: when the socket fails, reaches its end or is closed, every
/// request that waits is failed with `ConnectionLost` exactly once, the
/// event subscriber's sequence ends, and nothing waits afterwards.
pub proof fn lemma_teardown_fails_every_request(connection: RconView, event: EventView)
    requires
        event is Lost || event is Close,
        connection.state == ConnectionState::Open || connection.state
            == ConnectionState::Connecting,
        distinct_ids(connection.pending),
    ensures
        connection.after(event).state == ConnectionState::Closing,
        connection.after(event).pending.len() == 0,
        connection.after(event).outgoing.len() == 0,
        connection.actions(event).len() == connection.pending.len() + 1,
        connection.actions(event).last() == ActionView::EventsClosed,
        forall|k: int|
            0 <= k < connection.pending.len() ==> #[trigger] connection.actions(event)[k]
                == (ActionView::Fail {
                sequence_id: connection.pending[k].sequence_id,
                error: RconError::ConnectionLost,
            }),
        forall|i: int, j: int|
            0 <= i < j < connection.actions(event).len() ==> connection.actions(event)[i]
                != connection.actions(event)[j],
{
    let actions = connection.actions(event);
    let ids = ids_of(connection.pending);
    lemma_ids_of_distinct(connection.pending);
    assert forall|i: int, j: int| 0 <= i < j < actions.len() implies actions[i] != actions[j] by {
        if j < ids.len() {
            assert(ids[i] != ids[j]);
        }
    }
}

/// A frame in the queue of the writer.
#[derive(Debug)]
struct OutgoingFrame {
    sequence_id: u32,
    bytes: Vec<u8>,
}

impl View for OutgoingFrame {
    type V = FrameView;

    closed spec fn view(&self) -> FrameView {
        FrameView { sequence_id: self.sequence_id, bytes: self.bytes@ }
    }
}

/// What a queue of frames says, the oldest first.
spec fn frames_view(frames: Seq<OutgoingFrame>) -> Seq<FrameView> {
    Seq::new(frames.len(), |i: int| frames[i]@)
}

/// Appends one failure for each of `ids`, in order.
fn push_failures(actions: &mut Vec<PumpAction>, ids: &Vec<u32>, error: &RconError)
    ensures
        actions_view(final(actions)@) == actions_view(old(actions)@) + failures(ids@, *error),
{
    let ghost before = actions_view(actions@);
    let mut i: usize = 0;
    assert(actions_view(actions@) =~= before + failures(ids@.take(0), *error));
    while i < ids.len()
        invariant
            i <= ids@.len(),
            actions_view(actions@) == before + failures(ids@.take(i as int), *error),
        decreases ids@.len() - i,
    {
        let ghost so_far = actions_view(actions@);
        let failure = PumpAction::Fail { sequence_id: ids[i], error: error.clone() };
        actions.push(failure);
        assert(actions_view(actions@) =~= so_far.push(failure@));
        assert(failures(ids@.take(i + 1), *error) =~= failures(ids@.take(i as int), *error).push(
            failure@,
        ));
        assert(actions_view(actions@) =~= before + failures(ids@.take(i + 1), *error));
        i += 1;
    }
    assert(ids@.take(i as int) =~= ids@);
}

/// One connection to a server: its place in its life, the sequence ids it
/// hands out, the frames that wait to be written, the bytes that wait to
/// become frames, and the requests that wait for their response.
#[derive(Debug)]
pub struct Rcon {
    connection_address: String,
    state: ConnectionState,
    sequence_number: SequenceAllocator,
    outgoing_packets: VecDeque<OutgoingFrame>,
    incoming: Vec<u8>,
    pending: PendingTable,
}

impl View for Rcon {
    type V = RconView;

    closed spec fn view(&self) -> RconView {
        RconView {
            address: self.connection_address@,
            state: self.state,
            next_id: self.sequence_number@,
            outgoing: frames_view(self.outgoing_packets@),
            incoming: self.incoming@,
            pending: self.pending@,
        }
    }
}

impl Rcon {
    /// A connection for `_connection_address` that waits for its socket.
    /// There is none for the empty address.
    pub fn new(_connection_address: &String) -> (connection: Option<Rcon>)
        ensures
            _connection_address@.len() == 0 <==> connection is None,
            connection matches Some(rcon) ==> rcon@ == (RconView {
                address: _connection_address@,
                state: ConnectionState::Connecting,
                next_id: 0,
                outgoing: Seq::empty(),
                incoming: Seq::empty(),
                pending: Seq::empty(),
            }),
    {
        if _connection_address.as_str().is_empty() {
            return None;
        }
        let rcon = Rcon {
            connection_address: _connection_address.clone(),
            state: ConnectionState::Connecting,
            sequence_number: SequenceAllocator::new(),
            outgoing_packets: VecDeque::new(),
            incoming: Vec::new(),
            pending: PendingTable::new(),
        };
        assert(frames_view(rcon.outgoing_packets@) =~= Seq::<FrameView>::empty());
        Some(rcon)
    }

    /// Where the connection stands in its life.
    pub fn state(&self) -> (state: ConnectionState)
        ensures
            state == self@.state,
    {
        self.state
    }

    /// The address the connection was made for.
    pub fn connection_address(&self) -> (address: &String)
        ensures
            address@ == self@.address,
    {
        &self.connection_address
    }

    /// Whether a request waits under the sequence id `sequence_id`.
    pub fn is_pending(&self, sequence_id: u32) -> (pending: bool)
        ensures
            pending == has_id(self@.pending, sequence_id),
    {
        self.pending.contains(sequence_id)
    }

    /// The number of requests that wait for their response.
    pub fn pending_len(&self) -> (len: usize)
        ensures
            len == self@.pending.len(),
            distinct_ids(self@.pending),
    {
        self.pending.len()
    }

    /// The number of frames that wait to be written.
    pub fn queued_len(&self) -> (len: usize)
        ensures
            len == self@.outgoing.len(),
    {
        self.outgoing_packets.len()
    }

    /// Accepts a command: gives it the next sequence id, queues its frame
    /// behind those that wait, registers its request, and returns the
    /// sequence id under which the response will arrive. A command is refused
    /// before anything is queued: with `ConnectionLost` unless the connection
    /// is open, else with the error of the first word that cannot be sent.
    pub fn send_command(&mut self, words: Vec<String>, timeout: u64, now: u64) -> (result: Result<
        u32,
        RconError,
    >)
        ensures
            match old(self)@.send_error(words.deep_view()) {
                Some(error) => result == Err::<u32, RconError>(error) && final(self)@ == old(
                    self,
                )@,
                None => result == Ok::<u32, RconError>(old(self)@.next_id) && final(self)@ == old(
                    self,
                )@.after_send(words.deep_view(), timeout, now),
            },
            distinct_ids(final(self)@.pending),
    {
        proof {
            use_type_invariant(&self.pending);
        }
        if self.state != ConnectionState::Open {
            return Err(RconError::ConnectionLost);
        }
        let header = self.sequence_number.peek_request();
        let mut packet = RemotePacket::new_from(header, words);
        let bytes = match packet.serialize() {
            Ok(bytes) => bytes,
            Err(error) => {
                return Err(error);
            },
        };
        let sequence_id = self.sequence_number.next_id();
        let ghost queue = self.outgoing_packets@;
        let frame = OutgoingFrame { sequence_id, bytes };
        self.outgoing_packets.push_back(frame);
        assert(frames_view(self.outgoing_packets@) =~= frames_view(queue).push(frame@));
        self.pending.insert(
            PendingRequest { sequence_id, submitted_at: now, timeout, written: false },
        );
        Ok(sequence_id)
    }

    /// Forgets the request that waits under `sequence_id`, for a caller who
    /// no longer waits. A response that arrives later is dropped.
    pub fn cancel(&mut self, sequence_id: u32) -> (cancelled: bool)
        ensures
            cancelled == has_id(old(self)@.pending, sequence_id),
            final(self)@ == (RconView {
                pending: without(old(self)@.pending, sequence_id),
                ..old(self)@
            }),
            distinct_ids(final(self)@.pending),
    {
        self.pending.remove(sequence_id).is_some()
    }

    /// Decides what becomes of an arrived packet. A response resolves the
    /// request that waits under its sequence id, and that request only; a
    /// response that nobody waits for is dropped; a request of the server
    /// goes to the event subscriber.
    pub fn dispatch(&mut self, packet: RemotePacket) -> (action: PumpAction)
        ensures
            action@ == dispatch(old(self)@.pending, packet@),
            final(self)@ == (RconView {
                pending: after_dispatch(old(self)@.pending, packet@),
                ..old(self)@
            }),
            distinct_ids(final(self)@.pending),
    {
        let header = packet.header();
        if header.is_response() {
            let sequence_id = header.sequence_id();
            match self.pending.remove(sequence_id) {
                Some(_) => PumpAction::Resolve { sequence_id, response: packet },
                None => PumpAction::Discard { packet },
            }
        } else {
            proof {
                use_type_invariant(&self.pending);
            }
            PumpAction::Event { packet }
        }
    }

    /// Gives the connection up: fails every waiting caller, ends the event
    /// subscriber's sequence, and drops what is queued and buffered.
    fn give_up(&mut self, actions: &mut Vec<PumpAction>)
        ensures
            final(self)@ == old(self)@.given_up(),
            actions_view(final(actions)@) == actions_view(old(actions)@) + teardown_actions(
                old(self)@.pending,
            ),
    {
        let ids = self.pending.drain();
        push_failures(actions, &ids, &RconError::ConnectionLost);
        let ghost so_far = actions_view(actions@);
        actions.push(PumpAction::EventsClosed);
        assert(actions_view(actions@) =~= so_far.push(ActionView::EventsClosed));
        assert(actions_view(actions@) =~= actions_view(old(actions)@) + teardown_actions(
            old(self)@.pending,
        ));
        self.state = ConnectionState::Closing;
        self.outgoing_packets.clear();
        self.incoming.clear();
        assert(frames_view(self.outgoing_packets@) =~= Seq::<FrameView>::empty());
    }

    /// Takes in bytes from the socket: joins them to those that wait, takes
    /// off every whole frame and dispatches its packet. A frame that cannot
    /// be read ends the connection, since the stream cannot be trusted after
    /// it.
    fn receive(&mut self, bytes: &[u8]) -> (actions: Vec<PumpAction>)
        ensures
            final(self)@ == old(self)@.after(EventView::Received { bytes: bytes@ }),
            actions_view(actions@) == old(self)@.actions(EventView::Received { bytes: bytes@ }),
    {
        let mut actions: Vec<PumpAction> = Vec::new();
        assert(actions_view(actions@) =~= Seq::<ActionView>::empty());
        if self.state != ConnectionState::Open {
            return actions;
        }
        let ghost start = self@;
        let ghost buffer = start.incoming + bytes@;
        self.incoming.extend_from_slice(bytes);
        assert(self.incoming@ =~= buffer);
        let mut consumed: usize = 0;
        let mut fault: Option<RconError> = None;
        let mut more = true;
        assert(buffer.skip(0) =~= buffer);
        assert(actions_view(actions@) + intake(start.pending, buffer).actions =~= intake(
            start.pending,
            buffer,
        ).actions);
        while more
            invariant
                consumed <= buffer.len(),
                self.incoming@ == buffer,
                self@ == (RconView { pending: self@.pending, incoming: buffer, ..start }),
                start.state == ConnectionState::Open,
                ({
                    let all = intake(start.pending, buffer);
                    let tail = intake(self@.pending, buffer.skip(consumed as int));
                    &&& all.pending == tail.pending
                    &&& all.rest == tail.rest
                    &&& all.error == tail.error
                    &&& all.actions == actions_view(actions@) + tail.actions
                }),
                more ==> fault is None,
                !more ==> match parse_frame(buffer.skip(consumed as int)) {
                    Ok(Some(_)) => false,
                    Ok(None) => fault is None,
                    Err(error) => fault == Some(error),
                },
            decreases buffer.len() - consumed + (if more { 1int } else { 0int }),
        {
            let rest = slice_subrange(self.incoming.as_slice(), consumed, self.incoming.len());
            assert(rest@ =~= buffer.skip(consumed as int));
            match RemotePacket::read_from_reader(rest) {
                Ok(None) => {
                    more = false;
                },
                Err(error) => {
                    fault = Some(error);
                    more = false;
                },
                Ok(Some(packet)) => {
                    let size = packet.header().size() as usize;
                    let ghost so_far = actions_view(actions@);
                    let ghost done = dispatch(self@.pending, packet@);
                    let ghost tail = intake(
                        after_dispatch(self@.pending, packet@),
                        buffer.skip(consumed as int).skip(size as int),
                    );
                    let action = self.dispatch(packet);
                    actions.push(action);
                    assert(actions_view(actions@) =~= so_far.push(done));
                    assert(buffer.skip(consumed as int).skip(size as int) =~= buffer.skip(
                        consumed + size,
                    ));
                    assert(so_far + (seq![done] + tail.actions) =~= so_far.push(done)
                        + tail.actions);
                    consumed = consumed + size;
                },
            }
        }
        assert(actions_view(actions@) + Seq::<ActionView>::empty() =~= actions_view(actions@));
        match fault {
            None => {
                let rest = self.incoming.split_off(consumed);
                self.incoming = rest;
                assert(self.incoming@ =~= buffer.skip(consumed as int));
            },
            Some(error) => {
                let ghost so_far = actions_view(actions@);
                actions.push(PumpAction::Fault { error });
                assert(actions_view(actions@) =~= so_far + seq![ActionView::Fault { error }]);
                self.give_up(&mut actions);
            },
        }
        actions
    }

    /// Hands the oldest waiting frame to the writer and starts the timeout
    /// of its request at `now`.
    fn next_outgoing(&mut self, now: u64) -> (actions: Vec<PumpAction>)
        ensures
            final(self)@ == old(self)@.after(EventView::Writable { now }),
            actions_view(actions@) == old(self)@.actions(EventView::Writable { now }),
    {
        let mut actions: Vec<PumpAction> = Vec::new();
        assert(actions_view(actions@) =~= Seq::<ActionView>::empty());
        if self.state != ConnectionState::Open {
            return actions;
        }
        let ghost queue = self.outgoing_packets@;
        match self.outgoing_packets.pop_front() {
            None => {},
            Some(frame) => {
                assert(frames_view(self.outgoing_packets@) =~= frames_view(queue).drop_first());
                assert(frames_view(queue).first() == frame@);
                self.pending.mark_written(frame.sequence_id, now);
                let write = PumpAction::Write { frame: frame.bytes };
                actions.push(write);
                assert(actions_view(actions@) =~= seq![write@]);
            },
        }
        actions
    }

    /// Fails every request whose timeout has passed at `now`; the others
    /// keep waiting and the connection stays open.
    fn sweep(&mut self, now: u64) -> (actions: Vec<PumpAction>)
        ensures
            final(self)@ == old(self)@.after(EventView::Tick { now }),
            actions_view(actions@) == old(self)@.actions(EventView::Tick { now }),
    {
        let mut actions: Vec<PumpAction> = Vec::new();
        assert(actions_view(actions@) =~= Seq::<ActionView>::empty());
        if self.state != ConnectionState::Open {
            return actions;
        }
        let ids = self.pending.sweep(now);
        push_failures(&mut actions, &ids, &RconError::RequestTimeout);
        assert(actions_view(actions@) =~= failures(ids@, RconError::RequestTimeout));
        actions
    }

    /// Ends the connection after the socket failed or the caller closed it.
    fn close(&mut self) -> (actions: Vec<PumpAction>)
        ensures
            final(self)@ == old(self)@.after(EventView::Close),
            final(self)@ == old(self)@.after(EventView::Lost),
            actions_view(actions@) == old(self)@.actions(EventView::Close),
            actions_view(actions@) == old(self)@.actions(EventView::Lost),
    {
        let mut actions: Vec<PumpAction> = Vec::new();
        assert(actions_view(actions@) =~= Seq::<ActionView>::empty());
        if self.state == ConnectionState::Closing || self.state == ConnectionState::Closed {
            return actions;
        }
        let ghost pending = self@.pending;
        self.give_up(&mut actions);
        assert(actions_view(actions@) =~= teardown_actions(pending));
        actions
    }

    /// Moves the connection on by one event and says what the outside is to
    /// do, in order. The socket, the clock and the callers are the
    /// outside's; the decisions are made here.
    pub fn do_pump(&mut self, event: PumpEvent) -> (actions: Vec<PumpAction>)
        ensures
            final(self)@ == old(self)@.after(event@),
            actions_view(actions@) == old(self)@.actions(event@),
    {
        match event {
            PumpEvent::Connected => {
                if self.state == ConnectionState::Connecting {
                    self.state = ConnectionState::Open;
                }
                let actions: Vec<PumpAction> = Vec::new();
                assert(actions_view(actions@) =~= Seq::<ActionView>::empty());
                actions
            },
            PumpEvent::Received { bytes } => self.receive(bytes.as_slice()),
            PumpEvent::Writable { now } => self.next_outgoing(now),
            PumpEvent::Tick { now } => self.sweep(now),
            PumpEvent::Lost => self.close(),
            PumpEvent::Close => self.close(),
            PumpEvent::Released => {
                if self.state == ConnectionState::Closing {
                    self.state = ConnectionState::Closed;
                }
                let actions: Vec<PumpAction> = Vec::new();
                assert(actions_view(actions@) =~= Seq::<ActionView>::empty());
                actions
            },
        }
    }
}

} // verus!
