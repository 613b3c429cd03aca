//! The datagram connection: roaming, replay rejection and round-trip timing.
//!
//! The sockets are the caller's: it hands in the datagrams that arrived, sends the ones
//! that are returned, and opens and closes sockets as it is told.

use vstd::prelude::*;

use crate::crypto::{
    blocks_after, decrypted, framed, key_in, nonce_bytes, ocb3_sealed, printed_key, text_limit,
    Base64Key, CryptoError, Message, MessageView, Session, SessionView, Unique, BLOCK_LIMIT,
};
use crate::packet::{
    clock16, message_of, packet_in, packets_round_trip, timestamp16, timestamp_diff, Direction,
    Packet, PacketView, DIRECTION_MASK, TIMESTAMP_NONE,
};

verus! {

/// Retransmission timeout bounds, in milliseconds.
pub const MIN_RTO: u64 = 50;

pub const MAX_RTO: u64 = 1000;

/// Penalty applied to a reported timestamp when the network signals congestion, which
/// gradually slows the peer down to the minimum frame rate.
pub const CONGESTION_TIMESTAMP_PENALTY: u16 = 500;

pub const PORT_RANGE_LOW: u16 = 60001;

pub const PORT_RANGE_HIGH: u16 = 60999;

/// How long the server waits before deciding the client has gone.
pub const SERVER_ASSOCIATION_TIMEOUT: u64 = 40000;

/// How often a client moves to a fresh source port.
pub const PORT_HOP_INTERVAL: u64 = 10000;

pub const MAX_PORTS_OPEN: usize = 10;

pub const MAX_OLD_SOCKET_AGE: u64 = 60000;

/// Round trips of this many milliseconds or more are implausible: the peer was suspended.
pub const IMPLAUSIBLE_RTT: u16 = 5000;

/// A timestamp that was heard this long ago is not echoed any more, in milliseconds.
pub const STALE_TIMESTAMP: u64 = 1000;

/// Application datagram MTU used before anything better is known.
pub const DEFAULT_SEND_MTU: usize = 500;

/// Conservative MTU that avoids fragmentation on mobile and tunnelled paths.
pub const DEFAULT_IPV4_MTU: usize = 1280;

pub const DEFAULT_IPV6_MTU: usize = 1280;

/// What a received datagram turned out to be.
#[derive(Debug, Clone, PartialEq, Eq)]
pub enum Received {
    /// A payload to hand upwards.
    Payload(Vec<u8>),
    /// Well-formed but too old to affect timing or targeting; still delivered.
    OutOfOrder(Vec<u8>),
}

impl Received {
    /// The payload itself.
    pub open spec fn payload(self) -> Seq<u8> {
        match self {
            Received::Payload(p) => p@,
            Received::OutOfOrder(p) => p@,
        }
    }

    pub fn into_payload(self) -> (p: Vec<u8>)
        ensures
            p@ == self.payload(),
    {
        match self {
            Received::Payload(p) => p,
            Received::OutOfOrder(p) => p,
        }
    }
}

#[derive(Debug, Clone, Copy, PartialEq, Eq, Structural)]
pub enum RecvError {
    /// Failed authentication, or was not a valid packet.
    Undecryptable,
    /// Sent in the direction this side itself sends: an attempt to play its own traffic
    /// back at it.
    WrongDirection,
}

impl RecvError {
    /// The message for a person.
    pub open spec fn message(self) -> Seq<char> {
        match self {
            RecvError::Undecryptable => "datagram failed to decrypt"@,
            RecvError::WrongDirection => "datagram was sent in our own direction"@,
        }
    }

    /// The message for a person.
    pub fn text(&self) -> (s: &'static str)
        ensures
            s@ == self.message(),
    {
        match self {
            RecvError::Undecryptable => "datagram failed to decrypt",
            RecvError::WrongDirection => "datagram was sent in our own direction",
        }
    }
}

/// The retransmission timeout for a given estimate, within its bounds.
pub open spec fn rto_within_bounds(rto: i64) -> u64 {
    if rto < MIN_RTO {
        MIN_RTO
    } else if rto > MAX_RTO {
        MAX_RTO
    } else {
        rto as u64
    }
}

/// The retransmission timeout for a given estimate in milliseconds, within its bounds.
pub fn clamp_timeout(rto: i64) -> (ms: u64)
    ensures
        ms == rto_within_bounds(rto),
        MIN_RTO <= ms <= MAX_RTO,
{
    if rto < MIN_RTO as i64 {
        MIN_RTO
    } else if rto > MAX_RTO as i64 {
        MAX_RTO
    } else {
        rto as u64
    }
}

/// Protocol state, independent of any socket.
#[derive(Debug, Clone, Copy, PartialEq, Eq, Structural)]
pub struct ConnectionState {
    pub server: bool,
    /// The direction this side sends in.
    pub direction: Direction,
    pub saved_timestamp: u16,
    pub saved_timestamp_received_at: u64,
    pub expected_receiver_seq: u64,
    pub last_heard: u64,
    /// The round trip that the last datagram told of, in milliseconds.
    pub rtt_sample: Option<u16>,
}

impl ConnectionState {
    /// Before anything was heard.
    pub open spec fn initial(server: bool, now: u64) -> ConnectionState {
        ConnectionState {
            server,
            direction: if server {
                Direction::ToClient
            } else {
                Direction::ToServer
            },
            saved_timestamp: TIMESTAMP_NONE,
            saved_timestamp_received_at: 0,
            expected_receiver_seq: 0,
            last_heard: now,
            rtt_sample: None,
        }
    }

    /// The direction this side accepts.
    pub open spec fn accepts(self) -> Direction {
        if self.server {
            Direction::ToServer
        } else {
            Direction::ToClient
        }
    }

    /// This side sends in the opposite direction from the one it accepts.
    pub open spec fn valid(self) -> bool {
        self.direction != self.accepts()
    }

    /// The packet for an outgoing payload. Only a timestamp that was heard recently is
    /// echoed; a stale one would inflate the peer's round-trip estimate.
    pub open spec fn outgoing(self, seq: u64, payload: Seq<u8>, now: u64) -> PacketView {
        PacketView {
            seq,
            direction: self.direction,
            timestamp: clock16(now),
            timestamp_reply: if self.saved_timestamp_received_at <= now
                < self.saved_timestamp_received_at + STALE_TIMESTAMP {
                self.saved_timestamp
            } else {
                TIMESTAMP_NONE
            },
            payload,
        }
    }

    /// What becomes of a decrypted datagram: whether it is in order, and its payload.
    pub open spec fn outcome(self, m: MessageView) -> Result<(bool, Seq<u8>), RecvError> {
        match packet_in(m) {
            Err(_) => Err(RecvError::Undecryptable),
            Ok(p) => if p.direction != self.accepts() {
                Err(RecvError::WrongDirection)
            } else {
                Ok((p.seq >= self.expected_receiver_seq, p.payload))
            },
        }
    }

    /// The round trip that an echoed timestamp tells of, unless it is implausible.
    pub open spec fn sample(reply: u16, now: u64) -> Option<u16> {
        let r = (clock16(now) - reply) % 65536;
        if reply != TIMESTAMP_NONE && r < IMPLAUSIBLE_RTT {
            Some(r as u16)
        } else {
            None
        }
    }

    /// The timestamp to echo for one that was heard. Under congestion the peer is told to
    /// slow down by pretending that its packet took longer.
    pub open spec fn timestamp_to_echo(timestamp: u16, congestion_experienced: bool) -> u16 {
        if congestion_experienced {
            ((timestamp - CONGESTION_TIMESTAMP_PENALTY) % 65536) as u16
        } else {
            timestamp
        }
    }

    /// After a packet that is in order.
    pub open spec fn heard(
        self,
        p: PacketView,
        congestion_experienced: bool,
        now: u64,
    ) -> ConnectionState {
        ConnectionState {
            expected_receiver_seq: (p.seq + 1) as u64,
            saved_timestamp: if p.timestamp != TIMESTAMP_NONE {
                ConnectionState::timestamp_to_echo(p.timestamp, congestion_experienced)
            } else {
                self.saved_timestamp
            },
            saved_timestamp_received_at: if p.timestamp != TIMESTAMP_NONE {
                now
            } else {
                self.saved_timestamp_received_at
            },
            last_heard: now,
            rtt_sample: ConnectionState::sample(p.timestamp_reply, now),
            ..self
        }
    }

    /// After a decrypted datagram. One that is refused or out of order moves nothing: a
    /// replay could otherwise corrupt timing and targeting.
    pub open spec fn processed(
        self,
        m: MessageView,
        congestion_experienced: bool,
        now: u64,
    ) -> ConnectionState {
        match self.outcome(m) {
            Ok((in_order, _)) => if in_order {
                self.heard(packet_in(m)->Ok_0, congestion_experienced, now)
            } else {
                ConnectionState { rtt_sample: None, ..self }
            },
            Err(_) => ConnectionState { rtt_sample: None, ..self },
        }
    }

    pub fn new(server: bool, now: u64) -> (s: Self)
        ensures
            s == ConnectionState::initial(server, now),
            s.valid(),
    {
        ConnectionState {
            server,
            direction: if server {
                Direction::ToClient
            } else {
                Direction::ToServer
            },
            saved_timestamp: TIMESTAMP_NONE,
            saved_timestamp_received_at: 0,
            expected_receiver_seq: 0,
            last_heard: now,
            rtt_sample: None,
        }
    }

    /// Build the packet for an outgoing payload, echoing a recent peer timestamp.
    pub fn new_packet(&self, seq: u64, payload: Vec<u8>, now: u64) -> (p: Packet)
        ensures
            p@ == self.outgoing(seq, payload@, now),
    {
        let heard_at: u64 = self.saved_timestamp_received_at;
        let reply: u16 = if heard_at <= now && now - heard_at < STALE_TIMESTAMP {
            self.saved_timestamp
        } else {
            TIMESTAMP_NONE
        };
        Packet::new(seq, self.direction, timestamp16(now), reply, payload)
    }

    /// Validate and account for a decrypted datagram.
    pub fn process(&mut self, message: &Message, congestion_experienced: bool, now: u64) -> (r:
        Result<Received, RecvError>)
        ensures
            *final(self) == old(self).processed(message@, congestion_experienced, now),
            match old(self).outcome(message@) {
                Ok((in_order, payload)) => r matches Ok(received) && (received is Payload)
                    == in_order && received.payload() == payload,
                Err(e) => r matches Err(f) && f == e,
            },
            old(self).valid() ==> final(self).valid(),
    {
        self.rtt_sample = None;
        let p = match Packet::from_message(message) {
            Ok(p) => p,
            Err(_) => {
                return Err(RecvError::Undecryptable);
            },
        };
        let expected = if self.server {
            Direction::ToServer
        } else {
            Direction::ToClient
        };
        if p.direction != expected {
            return Err(RecvError::WrongDirection);
        }
        if p.seq < self.expected_receiver_seq {
            return Ok(Received::OutOfOrder(p.payload));
        }
        self.expected_receiver_seq = p.seq + 1;
        if p.timestamp != TIMESTAMP_NONE {
            self.saved_timestamp = if congestion_experienced {
                timestamp_diff(p.timestamp, CONGESTION_TIMESTAMP_PENALTY)
            } else {
                p.timestamp
            };
            self.saved_timestamp_received_at = now;
        }
        if p.timestamp_reply != TIMESTAMP_NONE {
            let rtt = timestamp_diff(timestamp16(now), p.timestamp_reply);
            if rtt < IMPLAUSIBLE_RTT {
                self.rtt_sample = Some(rtt);
            }
        }
        self.last_heard = now;
        Ok(Received::Payload(p.payload))
    }
}

/// What one side sends is refused when it is played back at it.
pub proof fn own_traffic_is_refused(
    state: ConnectionState,
    later: ConnectionState,
    seq: u64,
    payload: Seq<u8>,
    now: u64,
)
    requires
        state.valid(),
        later.server == state.server,
    ensures
        later.outcome(message_of(state.outgoing(seq, payload, now))) == Err::<
            (bool, Seq<u8>),
            RecvError,
        >(RecvError::WrongDirection),
{
    packets_round_trip(state.outgoing(seq, payload, now));
}

/// What one side sends is accepted by the other, in order if its sequence number is new.
pub proof fn the_peer_accepts(
    state: ConnectionState,
    peer: ConnectionState,
    seq: u64,
    payload: Seq<u8>,
    now: u64,
)
    requires
        state.valid(),
        peer.server != state.server,
        seq < DIRECTION_MASK,
    ensures
        peer.outcome(message_of(state.outgoing(seq, payload, now))) == Ok::<
            (bool, Seq<u8>),
            RecvError,
        >((seq >= peer.expected_receiver_seq, payload)),
{
    packets_round_trip(state.outgoing(seq, payload, now));
}

/// A datagram that was accepted in order is out of order when it arrives again, and moves
/// neither the timestamps nor the sequence number.
pub proof fn replays_move_nothing(
    state: ConnectionState,
    m: MessageView,
    congestion: bool,
    now: u64,
    later: u64,
)
    requires
        state.outcome(m) matches Ok((in_order, _)) && in_order,
    ensures
        ({
            let after = state.processed(m, congestion, now);
            &&& after.outcome(m) == Ok::<(bool, Seq<u8>), RecvError>(
                (false, packet_in(m)->Ok_0.payload),
            )
            &&& after.processed(m, congestion, later) == ConnectionState {
                rtt_sample: None,
                ..after
            }
        }),
{
}

/// What is due apart from sending and receiving.
#[derive(Debug, Clone, Copy, PartialEq, Eq, Structural)]
pub enum Upkeep {
    Nothing,
    /// The client has not been heard for long: forget its address.
    Detach,
    /// Move to a fresh source port, so a stateful middlebox cannot pin the session.
    HopPort,
}

/// What became of a datagram that arrived.
pub struct Arrival {
    pub result: Result<Received, RecvError>,
    /// The client is at the datagram's source address now.
    pub attach: bool,
    /// So many of the oldest sockets are to be closed.
    pub close_oldest: usize,
}

/// What becomes of a datagram.
pub struct ArrivalView {
    /// Whether it is in order, and its payload.
    pub result: Result<(bool, Seq<u8>), RecvError>,
    pub attach: bool,
    pub close_oldest: nat,
}

impl Arrival {
    /// Does this say what becomes of a datagram?
    pub open spec fn shows(self, v: ArrivalView) -> bool {
        &&& match v.result {
            Ok((in_order, payload)) => self.result matches Ok(received) && (received is Payload)
                == in_order && received.payload() == payload,
            Err(e) => self.result matches Err(f) && f == e,
        }
        &&& self.attach == v.attach
        &&& self.close_oldest == v.close_oldest
    }
}

/// The milliseconds from `then` to `now`.
pub open spec fn since(then: u64, now: u64) -> int {
    if now >= then {
        now - then
    } else {
        0
    }
}

fn elapsed(then: u64, now: u64) -> (ms: u64)
    ensures
        ms == since(then, now),
{
    if now >= then {
        now - then
    } else {
        0
    }
}

/// A connection.
#[verifier::ext_equal]
pub struct ConnectionView {
    pub server: bool,
    /// Whether there is an address to send to.
    pub attached: bool,
    pub mtu: usize,
    pub session: SessionView,
    pub state: ConnectionState,
    /// How many datagrams were sent.
    pub seq: u64,
    pub last_port_choice: u64,
    pub last_roundtrip_success: u64,
    /// How many sockets are open; the newest one is sent on.
    pub sockets: nat,
}

impl ConnectionView {
    pub open spec fn valid(self) -> bool {
        &&& self.state.valid()
        &&& self.state.server == self.server
        &&& 1 <= self.sockets <= MAX_PORTS_OPEN
    }

    pub open spec fn initial(server: bool, mtu: usize, key: Seq<u8>, now: u64) -> ConnectionView {
        ConnectionView {
            server,
            attached: !server,
            mtu,
            session: SessionView { key, blocks_encrypted: 0 },
            state: ConnectionState::initial(server, now),
            seq: 0,
            last_port_choice: now,
            last_roundtrip_success: now,
            sockets: 1,
        }
    }

    /// The message that the next payload goes into.
    pub open spec fn outgoing(self, payload: Seq<u8>, now: u64) -> MessageView {
        message_of(self.state.outgoing(self.seq, payload, now))
    }

    /// How many of the sockets are kept. Once the newest has been working long enough, no
    /// reply can still be in flight to the ones it superseded.
    pub open spec fn kept_sockets(self, now: u64) -> nat {
        if self.sockets > 1 && since(self.last_port_choice, now) > MAX_OLD_SOCKET_AGE {
            1
        } else if self.sockets > MAX_PORTS_OPEN {
            MAX_PORTS_OPEN as nat
        } else {
            self.sockets
        }
    }

    /// What becomes of a datagram. Only one that is in order can move the client's address
    /// or close sockets, and only the client may roam; the server follows it.
    pub open spec fn arrival(self, datagram: Seq<u8>, known_sender: bool, now: u64) -> ArrivalView {
        match decrypted(self.session.key, datagram) {
            Err(_) => ArrivalView {
                result: Err(RecvError::Undecryptable),
                attach: false,
                close_oldest: 0,
            },
            Ok(m) => {
                let in_order = self.state.outcome(m) matches Ok((true, _));
                ArrivalView {
                    result: self.state.outcome(m),
                    attach: in_order && self.server && (!known_sender || !self.attached),
                    close_oldest: if in_order {
                        (self.sockets - self.kept_sockets(now)) as nat
                    } else {
                        0
                    },
                }
            },
        }
    }

    /// After a datagram.
    pub open spec fn after_datagram(
        self,
        datagram: Seq<u8>,
        known_sender: bool,
        now: u64,
    ) -> ConnectionView {
        let a = self.arrival(datagram, known_sender, now);
        match decrypted(self.session.key, datagram) {
            Err(_) => self,
            Ok(m) => ConnectionView {
                state: self.state.processed(m, false, now),
                attached: self.attached || a.attach,
                sockets: (self.sockets - a.close_oldest) as nat,
                ..self
            },
        }
    }

    /// What is due apart from sending and receiving.
    pub open spec fn upkeep(self, now: u64) -> Upkeep {
        if self.server {
            if since(self.state.last_heard, now) > SERVER_ASSOCIATION_TIMEOUT {
                Upkeep::Detach
            } else {
                Upkeep::Nothing
            }
        } else if since(self.last_port_choice, now) > PORT_HOP_INTERVAL && since(
            self.last_roundtrip_success,
            now,
        ) > PORT_HOP_INTERVAL {
            Upkeep::HopPort
        } else {
            Upkeep::Nothing
        }
    }
}

/// A connection between a client and a server.
pub struct Connection {
    server: bool,
    attached: bool,
    mtu: usize,
    key: Base64Key,
    session: Session,
    state: ConnectionState,
    seq: Unique,
    last_port_choice: u64,
    last_roundtrip_success: u64,
    sockets: usize,
}

impl View for Connection {
    type V = ConnectionView;

    closed spec fn view(&self) -> ConnectionView {
        ConnectionView {
            server: self.server,
            attached: self.attached,
            mtu: self.mtu,
            session: self.session@,
            state: self.state,
            seq: self.seq@,
            last_port_choice: self.last_port_choice,
            last_roundtrip_success: self.last_roundtrip_success,
            sockets: self.sockets as nat,
        }
    }
}

impl Connection {
    /// The session encrypts under the connection's key, and both know which side this is.
    pub closed spec fn sound(&self) -> bool {
        self.state.valid() && self.state.server == self.server && self.session@.key == self.key@
    }

    /// Sound, with a number of sockets that is within bounds.
    pub closed spec fn well_formed(&self) -> bool {
        self.sound() && self@.valid()
    }

    /// What is well formed is valid.
    pub proof fn lemma_well_formed(&self)
        requires
            self.well_formed(),
        ensures
            self@.valid(),
    {
    }

    /// A server connection under the given key, to a client that is not known yet.
    pub fn new_server(key: Base64Key, now: u64) -> (c: Self)
        ensures
            c@ == ConnectionView::initial(true, DEFAULT_SEND_MTU, key@, now),
            c.well_formed(),
    {
        Connection::with_key(true, DEFAULT_SEND_MTU, key, now)
    }

    /// A client connection to a server that has already announced its key.
    pub fn new_client(key_str: &str, ipv6: bool, now: u64) -> (r: Result<Self, CryptoError>)
        ensures
            match key_in(key_str@) {
                Ok(key) => r matches Ok(c) && c.well_formed() && c@ == ConnectionView::initial(
                    false,
                    if ipv6 {
                        DEFAULT_IPV6_MTU
                    } else {
                        DEFAULT_IPV4_MTU
                    },
                    key,
                    now,
                ),
                Err(e) => r matches Err(f) && f == e,
            },
    {
        match Base64Key::parse(key_str) {
            Ok(key) => {
                let mtu: usize = if ipv6 {
                    DEFAULT_IPV6_MTU
                } else {
                    DEFAULT_IPV4_MTU
                };
                Ok(Connection::with_key(false, mtu, key, now))
            },
            Err(e) => Err(e),
        }
    }

    fn with_key(server: bool, mtu: usize, key: Base64Key, now: u64) -> (c: Self)
        ensures
            c@ == ConnectionView::initial(server, mtu, key@, now),
            c.well_formed(),
    {
        let session = Session::new(&key);
        Connection {
            server,
            attached: !server,
            mtu,
            key,
            session,
            state: ConnectionState::new(server, now),
            seq: Unique::new(),
            last_port_choice: now,
            last_roundtrip_success: now,
            sockets: 1,
        }
    }

    /// The printed form of the key.
    pub fn key(&self) -> (s: String)
        requires
            self.well_formed(),
        ensures
            s@ == printed_key(self@.session.key),
    {
        self.key.printable()
    }

    pub fn mtu(&self) -> (n: usize)
        ensures
            n == self@.mtu,
    {
        self.mtu
    }

    pub fn has_remote_addr(&self) -> (b: bool)
        ensures
            b == self@.attached,
    {
        self.attached
    }

    /// How many sockets are open.
    pub fn sockets(&self) -> (n: usize)
        ensures
            n == self@.sockets,
    {
        self.sockets
    }

    /// The round trip that the last datagram told of, in milliseconds.
    pub fn rtt_sample(&self) -> (r: Option<u16>)
        ensures
            r == self@.state.rtt_sample,
    {
        self.state.rtt_sample
    }

    pub fn set_last_roundtrip_success(&mut self, at: u64)
        ensures
            final(self)@ == (ConnectionView { last_roundtrip_success: at, ..old(self)@ }),
            old(self).well_formed() ==> final(self).well_formed(),
    {
        self.last_roundtrip_success = at;
    }

    /// The datagram for a payload, if there is anyone to send it to.
    pub fn send(&mut self, payload: Vec<u8>, now: u64) -> (r: Result<Option<Vec<u8>>, CryptoError>)
        requires
            old(self).well_formed(),
            payload@.len() + 4 < text_limit(),
        ensures
            final(self).well_formed(),
            ({
                let before = old(self)@;
                let m = before.outgoing(payload@, now);
                let blocks = blocks_after(before.session.blocks_encrypted, m.text.len());
                if !before.attached {
                    r matches Ok(None) && final(self)@ == before
                } else if before.seq == u64::MAX {
                    r matches Err(e) && e == CryptoError::CounterWrapped && final(self)@ == before
                } else {
                    &&& final(self)@ == (ConnectionView {
                        seq: (before.seq + 1) as u64,
                        session: SessionView { blocks_encrypted: blocks, ..before.session },
                        ..before
                    })
                    &&& if blocks >= BLOCK_LIMIT {
                        r matches Err(e) && e == CryptoError::BlockLimitReached
                    } else {
                        r matches Ok(Some(wire)) && wire@ == framed(
                            m.nonce,
                            ocb3_sealed(before.session.key, nonce_bytes(m.nonce), m.text),
                        ) && decrypted(before.session.key, wire@) == Ok::<
                            MessageView,
                            CryptoError,
                        >(m)
                    }
                }
            }),
    {
        if !self.attached {
            return Ok(None);
        }
        let seq = match self.seq.next_value() {
            Ok(seq) => seq,
            Err(e) => {
                return Err(e);
            },
        };
        let packet = self.state.new_packet(seq, payload, now);
        let message = packet.to_message();
        proof {
            crate::big_endian::lemma_be_bytes_len(packet@.timestamp as nat, 2);
            crate::big_endian::lemma_be_bytes_len(packet@.timestamp_reply as nat, 2);
        }
        match self.session.encrypt(&message) {
            Ok(wire) => Ok(Some(wire)),
            Err(e) => Err(e),
        }
    }

    /// A datagram was too large for the network: be conservative from now on.
    pub fn datagram_too_large(&mut self)
        ensures
            final(self)@ == (ConnectionView { mtu: DEFAULT_SEND_MTU, ..old(self)@ }),
            old(self).well_formed() ==> final(self).well_formed(),
    {
        self.mtu = DEFAULT_SEND_MTU;
    }

    /// What is due apart from sending and receiving. A server that detaches from its
    /// client has no one to send to.
    pub fn housekeeping(&mut self, now: u64) -> (u: Upkeep)
        requires
            old(self).well_formed(),
        ensures
            u == old(self)@.upkeep(now),
            final(self)@ == (ConnectionView {
                attached: old(self)@.attached && u != Upkeep::Detach,
                ..old(self)@
            }),
            final(self).well_formed(),
    {
        if self.server {
            if elapsed(self.state.last_heard, now) > SERVER_ASSOCIATION_TIMEOUT {
                self.attached = false;
                return Upkeep::Detach;
            }
            return Upkeep::Nothing;
        }
        if elapsed(self.last_port_choice, now) > PORT_HOP_INTERVAL && elapsed(
            self.last_roundtrip_success,
            now,
        ) > PORT_HOP_INTERVAL {
            return Upkeep::HopPort;
        }
        Upkeep::Nothing
    }

    /// A fresh socket was opened. Returns how many of the oldest are to be closed.
    pub fn hop_port(&mut self, now: u64) -> (close_oldest: usize)
        requires
            old(self).well_formed(),
        ensures
            ({
                let grown = ConnectionView {
                    sockets: old(self)@.sockets + 1,
                    last_port_choice: now,
                    ..old(self)@
                };
                &&& final(self)@ == (ConnectionView {
                    sockets: grown.kept_sockets(now),
                    ..grown
                })
                &&& close_oldest == grown.sockets - grown.kept_sockets(now)
            }),
            final(self).well_formed(),
    {
        self.sockets = self.sockets + 1;
        self.last_port_choice = now;
        self.prune_sockets(now)
    }

    /// Returns how many of the oldest sockets are to be closed.
    pub fn prune_sockets(&mut self, now: u64) -> (close_oldest: usize)
        requires
            1 <= old(self)@.sockets,
        ensures
            final(self)@ == (ConnectionView {
                sockets: old(self)@.kept_sockets(now),
                ..old(self)@
            }),
            close_oldest == old(self)@.sockets - final(self)@.sockets,
            old(self).sound() ==> final(self).well_formed(),
    {
        let before = self.sockets;
        // The newest is always kept: without it there would be nothing to receive on.
        if self.sockets > 1 && elapsed(self.last_port_choice, now) > MAX_OLD_SOCKET_AGE {
            self.sockets = 1;
        } else if self.sockets > MAX_PORTS_OPEN {
            self.sockets = MAX_PORTS_OPEN;
        }
        before - self.sockets
    }

    /// Account for a datagram that arrived. Only the client may roam; the server follows
    /// it. `known_sender` is whether the datagram came from the address that is being sent
    /// to.
    pub fn recv(&mut self, datagram: &[u8], known_sender: bool, now: u64) -> (a: Arrival)
        requires
            old(self).well_formed(),
            datagram@.len() < text_limit() + 24,
        ensures
            final(self).well_formed(),
            final(self)@ == old(self)@.after_datagram(datagram@, known_sender, now),
            a.shows(old(self)@.arrival(datagram@, known_sender, now)),
    {
        let message = match self.session.decrypt(datagram) {
            Ok(message) => message,
            Err(_) => {
                return Arrival {
                    result: Err(RecvError::Undecryptable),
                    attach: false,
                    close_oldest: 0,
                };
            },
        };
        // Explicit congestion notification is not exposed by plain sockets. Every
        // datagram is treated as uncongested.
        let result = self.state.process(&message, false, now);
        let in_order: bool = match &result {
            Ok(Received::Payload(_)) => true,
            _ => false,
        };
        if !in_order {
            return Arrival { result, attach: false, close_oldest: 0 };
        }
        let attach: bool = self.server && (!known_sender || !self.attached);
        if attach {
            self.attached = true;
        }
        let close_oldest = self.prune_sockets(now);
        Arrival { result, attach, close_oldest }
    }
}

} // verus!
