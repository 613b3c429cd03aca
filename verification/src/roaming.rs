//! What keeps a session alive while the client roams.

use vstd::prelude::*;

use crate::connection::{ConnectionState, ConnectionView, RecvError, Upkeep};
use crate::crypto::{decrypted, CryptoError, MessageView};
use crate::packet::{message_of, packet_in, packets_round_trip, Direction, PacketView};

verus! {

/// Is this a datagram that the client sent to this server, and that is no older than what
/// was heard before?
pub open spec fn is_fresh_from_client(server: ConnectionView, datagram: Seq<u8>) -> bool {
    match decrypted(server.session.key, datagram) {
        Err(_) => false,
        Ok(m) => match packet_in(m) {
            Err(_) => false,
            Ok(p) => p.direction == Direction::ToServer && p.seq
                >= server.state.expected_receiver_seq,
        },
    }
}

/// A server follows its client: the address of every fresh datagram from it is the one to
/// send to from then on, whether or not there was another before. No other datagram moves
/// it, and neither does one from the address that is sent to already.
pub proof fn the_server_follows_its_client(
    server: ConnectionView,
    datagram: Seq<u8>,
    known_sender: bool,
    now: u64,
)
    requires
        server.valid(),
        server.server,
    ensures
        is_fresh_from_client(server, datagram) && !known_sender ==> server.arrival(
            datagram,
            known_sender,
            now,
        ).attach,
        is_fresh_from_client(server, datagram) && !server.attached ==> server.arrival(
            datagram,
            known_sender,
            now,
        ).attach,
        server.arrival(datagram, known_sender, now).attach ==> is_fresh_from_client(
            server,
            datagram,
        ) && !(known_sender && server.attached),
        is_fresh_from_client(server, datagram) ==> server.after_datagram(
            datagram,
            known_sender,
            now,
        ).attached,
        !is_fresh_from_client(server, datagram) ==> server.after_datagram(
            datagram,
            known_sender,
            now,
        ).attached == server.attached,
{
}

/// A client sends to the server it was told of: no datagram moves it.
pub proof fn the_client_stays_with_its_server(
    client: ConnectionView,
    datagram: Seq<u8>,
    known_sender: bool,
    now: u64,
)
    requires
        !client.server,
    ensures
        !client.arrival(datagram, known_sender, now).attach,
        client.after_datagram(datagram, known_sender, now).attached == client.attached,
{
}

/// What the client sends reaches the server wherever it is sent from: it arrives in order,
/// with its payload, and the server sends to where it came from.
pub proof fn what_a_roaming_client_sends_is_heard(
    client: ConnectionView,
    server: ConnectionView,
    datagram: Seq<u8>,
    payload: Seq<u8>,
    sent_at: u64,
    now: u64,
)
    requires
        client.valid(),
        server.valid(),
        !client.server,
        server.server,
        client.seq < 0x8000_0000_0000_0000,
        client.seq >= server.state.expected_receiver_seq,
        decrypted(server.session.key, datagram) == Ok::<MessageView, CryptoError>(
            client.outgoing(payload, sent_at),
        ),
    ensures
        ({
            let a = server.arrival(datagram, false, now);
            let after = server.after_datagram(datagram, false, now);
            &&& a.result == Ok::<(bool, Seq<u8>), RecvError>((true, payload))
            &&& a.attach
            &&& after.attached
            &&& after.state.last_heard == now
            &&& after.state.expected_receiver_seq == client.seq + 1
        }),
{
    let p = client.state.outgoing(client.seq, payload, sent_at);
    packets_round_trip(p);
    assert(packet_in(client.outgoing(payload, sent_at)) == Ok::<PacketView, CryptoError>(p));
}

/// What does not decrypt, or is not meant for this side, changes nothing that is remembered
/// of the peer; neither does what is older than what was heard before, though its payload is
/// handed on.
pub proof fn stale_and_foreign_datagrams_change_nothing(
    c: ConnectionView,
    datagram: Seq<u8>,
    known_sender: bool,
    now: u64,
)
    requires
        c.valid(),
        match decrypted(c.session.key, datagram) {
            Err(_) => true,
            Ok(m) => match packet_in(m) {
                Err(_) => true,
                Ok(p) => {
                    ||| c.server && p.direction == Direction::ToClient
                    ||| !c.server && p.direction == Direction::ToServer
                    ||| p.seq < c.state.expected_receiver_seq
                },
            },
        },
    ensures
        ({
            let a = c.arrival(datagram, known_sender, now);
            let after = c.after_datagram(datagram, known_sender, now);
            &&& !(a.result matches Ok((in_order, _)) && in_order)
            &&& !a.attach
            &&& a.close_oldest == 0
            &&& after.attached == c.attached
            &&& after.sockets == c.sockets
            &&& after.state.last_heard == c.state.last_heard
            &&& after.state.expected_receiver_seq == c.state.expected_receiver_seq
            &&& after.state.saved_timestamp == c.state.saved_timestamp
            &&& after.state.saved_timestamp_received_at == c.state.saved_timestamp_received_at
        }),
{
}

/// A datagram that does decrypt and is meant for this side, but comes late, is handed on with
/// its payload.
pub proof fn late_datagrams_are_handed_on(
    c: ConnectionView,
    datagram: Seq<u8>,
    m: MessageView,
    p: PacketView,
    known_sender: bool,
    now: u64,
)
    requires
        c.valid(),
        decrypted(c.session.key, datagram) == Ok::<MessageView, CryptoError>(m),
        packet_in(m) == Ok::<PacketView, CryptoError>(p),
        p.direction == if c.server {
            Direction::ToServer
        } else {
            Direction::ToClient
        },
    ensures
        c.arrival(datagram, known_sender, now).result == Ok::<(bool, Seq<u8>), RecvError>(
            (p.seq >= c.state.expected_receiver_seq, p.payload),
        ),
{
}

/// A round trip is timed from end to end. One side sends a datagram; the other hears it, and
/// answers within a second; the answer tells the first how long it took, as long as that is
/// below five seconds. (The one value of the clock that means "none" is sent as another.)
pub proof fn round_trips_are_timed(
    a: ConnectionState,
    b: ConnectionState,
    seq: u64,
    payload: Seq<u8>,
    sent_at: u64,
    heard_at: u64,
    reply_seq: u64,
    reply: Seq<u8>,
    answered_at: u64,
    back_at: u64,
)
    requires
        a.valid(),
        b.valid(),
        a.server != b.server,
        seq < 0x8000_0000_0000_0000,
        reply_seq < 0x8000_0000_0000_0000,
        b.expected_receiver_seq <= seq,
        a.expected_receiver_seq <= reply_seq,
        heard_at <= answered_at < heard_at + 1000,
        sent_at <= back_at < sent_at + 5000,
        sent_at % 65536 != 65535,
        back_at % 65536 != 65535,
    ensures
        ({
            let m = message_of(a.outgoing(seq, payload, sent_at));
            let heard = b.processed(m, false, heard_at);
            let n = message_of(heard.outgoing(reply_seq, reply, answered_at));
            &&& a.processed(n, false, back_at).rtt_sample matches Some(ms)
            &&& ms == back_at - sent_at
        }),
{
    let p = a.outgoing(seq, payload, sent_at);
    packets_round_trip(p);
    let m = message_of(p);
    let heard = b.processed(m, false, heard_at);
    let q = heard.outgoing(reply_seq, reply, answered_at);
    packets_round_trip(q);
    assert(p.timestamp == sent_at % 65536);
    assert(q.timestamp_reply == p.timestamp);
    let (x, y, d) = ((back_at % 65536) as int, (sent_at % 65536) as int, back_at - sent_at);
    assert((x - y) % 65536 == d % 65536) by (nonlinear_arith)
        requires
            x == back_at % 65536,
            y == sent_at % 65536,
            d == back_at - sent_at,
    ;
}

/// A timestamp that was heard a second ago or longer is not echoed: it would make the round
/// trip look longer than it is. Nor is one taken that takes five seconds or more.
pub proof fn stale_timestamps_are_not_echoed(c: ConnectionState, seq: u64, payload: Seq<u8>, now: u64)
    requires
        now >= c.saved_timestamp_received_at + 1000,
    ensures
        c.outgoing(seq, payload, now).timestamp_reply == 65535,
{
}

/// A server that has not heard its client for more than forty seconds forgets its address,
/// and does nothing else; a client never forgets the server's.
pub proof fn silent_clients_are_let_go(c: ConnectionView, now: u64)
    requires
        c.state.last_heard <= now,
    ensures
        c.upkeep(now) == Upkeep::Detach <==> c.server && now - c.state.last_heard > 40_000,
        c.server ==> c.upkeep(now) != Upkeep::HopPort,
{
}

/// A client moves to a fresh port exactly if it has been on this one for more than ten
/// seconds, and as long without a word that reached the server and came back.
pub proof fn stuck_clients_change_their_port(c: ConnectionView, now: u64)
    requires
        c.last_port_choice <= now,
        c.last_roundtrip_success <= now,
    ensures
        c.upkeep(now) == Upkeep::HopPort <==> {
            &&& !c.server
            &&& now - c.last_port_choice > 10_000
            &&& now - c.last_roundtrip_success > 10_000
        },
{
}

/// Old sockets are closed once a fresh datagram shows that the newest one works and it is
/// more than a minute old; until then they stay open, so replies to them still arrive.
pub proof fn old_sockets_are_closed_when_the_new_one_works(
    c: ConnectionView,
    datagram: Seq<u8>,
    known_sender: bool,
    now: u64,
)
    requires
        c.valid(),
        c.last_port_choice <= now,
        c.arrival(datagram, known_sender, now).result matches Ok((in_order, _)) && in_order,
    ensures
        c.after_datagram(datagram, known_sender, now).sockets == if now - c.last_port_choice
            > 60_000 {
            1
        } else {
            c.sockets
        },
        c.arrival(datagram, known_sender, now).close_oldest + c.after_datagram(
            datagram,
            known_sender,
            now,
        ).sockets == c.sockets,
{
}

/// The two sides begin in step: a fresh client knows where to send and a fresh server does
/// not, each sends in its own direction, and nothing is expected but the first datagram.
pub proof fn sessions_begin_in_step(mtu: usize, key: Seq<u8>, now: u64)
    ensures
        ({
            let (s, c) = (
                ConnectionView::initial(true, mtu, key, now),
                ConnectionView::initial(false, mtu, key, now),
            );
            &&& s.valid() && c.valid()
            &&& !s.attached && c.attached
            &&& s.session == c.session
            &&& s.seq == 0 && c.seq == 0
            &&& s.state.expected_receiver_seq == 0 && c.state.expected_receiver_seq == 0
            &&& s.state.direction == Direction::ToClient
            &&& c.state.direction == Direction::ToServer
            &&& s.state.outgoing(0, Seq::empty(), now).timestamp_reply == 65535
        }),
{
}


/// Under congestion the peer is told a timestamp half a second older than the one it sent, so
/// that it slows down; otherwise it is told its own.
pub proof fn congestion_slows_the_peer(timestamp: u16)
    ensures
        ConnectionState::timestamp_to_echo(timestamp, false) == timestamp,
        timestamp >= 500 ==> ConnectionState::timestamp_to_echo(timestamp, true) == timestamp - 500,
        timestamp < 500 ==> ConnectionState::timestamp_to_echo(timestamp, true) == timestamp
            + 65036,
{
}

} // verus!
