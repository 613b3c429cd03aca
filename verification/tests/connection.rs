use mosh::connection::{
    clamp_timeout, Connection, ConnectionState, Received, RecvError, Upkeep,
    CONGESTION_TIMESTAMP_PENALTY, DEFAULT_IPV4_MTU, DEFAULT_SEND_MTU, MAX_OLD_SOCKET_AGE,
    MAX_PORTS_OPEN, MAX_RTO, MIN_RTO, PORT_HOP_INTERVAL, SERVER_ASSOCIATION_TIMEOUT,
};
use mosh::crypto::{Base64Key, CryptoError, Message, Nonce};
use mosh::packet::{timestamp16, Direction, Packet, TIMESTAMP_NONE};

fn message(seq: u64, direction: Direction, ts: u16, ts_reply: u16) -> Message {
    Packet::new(seq, direction, ts, ts_reply, b"payload".to_vec()).to_message()
}

#[test]
fn a_server_rejects_traffic_sent_towards_the_client() {
    let mut state = ConnectionState::new(true, 0);
    // A server accepts ToServer and must refuse ToClient, which is what it sends.
    assert!(state
        .process(&message(0, Direction::ToServer, 1, TIMESTAMP_NONE), false, 0)
        .is_ok());
    assert_eq!(
        state.process(&message(1, Direction::ToClient, 1, TIMESTAMP_NONE), false, 0),
        Err(RecvError::WrongDirection)
    );
}

#[test]
fn a_client_rejects_traffic_sent_towards_the_server() {
    let mut state = ConnectionState::new(false, 0);
    assert!(state
        .process(&message(0, Direction::ToClient, 1, TIMESTAMP_NONE), false, 0)
        .is_ok());
    assert_eq!(
        state.process(&message(1, Direction::ToServer, 1, TIMESTAMP_NONE), false, 0),
        Err(RecvError::WrongDirection)
    );
}

#[test]
fn an_old_datagram_is_delivered_but_does_not_move_the_timestamp() {
    let mut state = ConnectionState::new(true, 0);
    state
        .process(&message(5, Direction::ToServer, 100, TIMESTAMP_NONE), false, 0)
        .unwrap();
    let saved = state.saved_timestamp;

    // A replayed older datagram must not be able to rewind our notion of the peer's
    // clock, which is what a replay attack would try to do.
    let result = state
        .process(&message(2, Direction::ToServer, 999, TIMESTAMP_NONE), false, 0)
        .unwrap();
    assert!(matches!(result, Received::OutOfOrder(_)));
    assert_eq!(state.saved_timestamp, saved);
}

#[test]
fn an_out_of_order_datagram_is_still_handed_upwards() {
    let mut state = ConnectionState::new(true, 0);
    state
        .process(&message(5, Direction::ToServer, 1, TIMESTAMP_NONE), false, 0)
        .unwrap();
    let result = state
        .process(&message(1, Direction::ToServer, 1, TIMESTAMP_NONE), false, 0)
        .unwrap();
    // Losing it would drop real data; only timing and targeting are withheld.
    assert_eq!(result.into_payload(), b"payload");
}

#[test]
fn the_first_round_trip_seeds_the_estimate() {
    let mut state = ConnectionState::new(true, 0);
    // The peer echoed a timestamp from 40ms ago.
    let now = 1000u64;
    let echoed = timestamp16(now - 40);
    state
        .process(&message(0, Direction::ToServer, 1, echoed), false, now)
        .unwrap();
    assert_eq!(state.rtt_sample, Some(40));
}

#[test]
fn implausible_round_trips_are_ignored() {
    let mut state = ConnectionState::new(true, 0);
    let now = 100_000u64;
    // A peer that was suspended reports an enormous round trip.
    let echoed = timestamp16(now - 20_000);
    state
        .process(&message(0, Direction::ToServer, 1, echoed), false, now)
        .unwrap();
    assert_eq!(state.rtt_sample, None, "an absurd sample moved the estimate");
}

#[test]
fn the_timeout_is_clamped_to_its_bounds() {
    assert_eq!(clamp_timeout(0), MIN_RTO);
    assert_eq!(clamp_timeout(500_000), MAX_RTO);
    assert_eq!(clamp_timeout(-3), MIN_RTO);
    assert_eq!(clamp_timeout(321), 321);
}

#[test]
fn congestion_pulls_the_reported_timestamp_back() {
    let mut state = ConnectionState::new(true, 0);
    state
        .process(&message(0, Direction::ToServer, 1000, TIMESTAMP_NONE), false, 0)
        .unwrap();
    let uncongested = state.saved_timestamp;

    let mut state = ConnectionState::new(true, 0);
    state
        .process(&message(0, Direction::ToServer, 1000, TIMESTAMP_NONE), true, 0)
        .unwrap();
    // The peer is told its packet took longer, so it slows down.
    assert_eq!(
        state.saved_timestamp,
        uncongested.wrapping_sub(CONGESTION_TIMESTAMP_PENALTY)
    );
}

#[test]
fn a_stale_timestamp_is_not_echoed_back() {
    let mut state = ConnectionState::new(true, 0);
    state
        .process(&message(0, Direction::ToServer, 4242, TIMESTAMP_NONE), false, 0)
        .unwrap();

    // Fresh: echo it.
    let p = state.new_packet(0, vec![], 500);
    assert_eq!(p.timestamp_reply, 4242);

    // Stale: echoing it would inflate the peer's round-trip estimate.
    let p = state.new_packet(0, vec![], 5000);
    assert_eq!(p.timestamp_reply, TIMESTAMP_NONE);
}

#[test]
fn an_undecryptable_message_is_reported_not_fatal() {
    let mut state = ConnectionState::new(true, 0);
    // Too short to hold the timestamps.
    let msg = Message::new(Nonce::new(0), vec![0; 2]);
    assert_eq!(
        state.process(&msg, false, 0),
        Err(RecvError::Undecryptable)
    );
}

fn pair() -> (Connection, Connection) {
    let server = Connection::new_server(Base64Key::random().unwrap(), 0);
    let client = Connection::new_client(&server.key(), false, 0).expect("client");
    (server, client)
}

fn payload_of(result: Result<Received, RecvError>) -> Vec<u8> {
    result.expect("accepted").into_payload()
}

#[test]
fn a_server_and_client_can_exchange_a_datagram() {
    let now = 0;
    let (mut server, mut client) = pair();
    assert!(!server.has_remote_addr());
    // Nothing can be sent before the client was heard.
    assert_eq!(server.send(b"too early".to_vec(), now), Ok(None));

    let wire = client.send(b"hello server".to_vec(), now).unwrap().unwrap();
    let arrival = server.recv(&wire, false, now);
    assert!(arrival.attach);
    assert_eq!(payload_of(arrival.result), b"hello server");
    assert!(server.has_remote_addr(), "server did not attach to client");

    // And back the other way.
    let wire = server.send(b"hello client".to_vec(), now).unwrap().unwrap();
    let arrival = client.recv(&wire, true, now);
    assert!(!arrival.attach, "only the server follows its peer");
    assert_eq!(payload_of(arrival.result), b"hello client");
}

#[test]
fn a_session_outlives_the_age_at_which_old_sockets_are_dropped() {
    let (mut server, mut client) = pair();
    // A session that has never had to hop still has its original socket, however
    // old. Pruning it would leave nothing to receive on.
    let later = MAX_OLD_SOCKET_AGE + 1000;
    let wire = client.send(b"still here".to_vec(), later).unwrap().unwrap();
    let arrival = server.recv(&wire, false, later);
    assert_eq!(arrival.close_oldest, 0);
    assert_eq!(payload_of(arrival.result), b"still here");
    assert_eq!(server.sockets(), 1);
}

#[test]
fn a_superseded_socket_is_dropped_once_the_newest_has_proved_itself() {
    let key = Base64Key::random().unwrap().printable();
    let mut client = Connection::new_client(&key, false, 0).expect("client");
    assert_eq!(client.hop_port(1000), 0);
    assert_eq!(client.sockets(), 2);

    assert_eq!(client.prune_sockets(1000 + MAX_OLD_SOCKET_AGE), 0);
    assert_eq!(client.sockets(), 2, "dropped while a reply could arrive");

    assert_eq!(client.prune_sockets(1000 + MAX_OLD_SOCKET_AGE + 1), 1);
    assert_eq!(client.sockets(), 1);
}

#[test]
fn only_a_bounded_number_of_sockets_stays_open() {
    let key = Base64Key::random().unwrap().printable();
    let mut client = Connection::new_client(&key, false, 0).expect("client");
    for i in 1..MAX_PORTS_OPEN {
        assert_eq!(client.hop_port(i as u64), 0);
    }
    assert_eq!(client.sockets(), MAX_PORTS_OPEN);
    assert_eq!(client.hop_port(100), 1);
    assert_eq!(client.sockets(), MAX_PORTS_OPEN);
}

#[test]
fn a_server_lets_go_of_a_client_it_has_not_heard_for_long() {
    let (mut server, mut client) = pair();
    let wire = client.send(b"hi".to_vec(), 5).unwrap().unwrap();
    server.recv(&wire, false, 5);
    assert_eq!(
        server.housekeeping(5 + SERVER_ASSOCIATION_TIMEOUT),
        Upkeep::Nothing
    );
    assert!(server.has_remote_addr());
    assert_eq!(
        server.housekeeping(6 + SERVER_ASSOCIATION_TIMEOUT),
        Upkeep::Detach
    );
    assert!(!server.has_remote_addr());
}

#[test]
fn a_client_hops_ports_only_while_round_trips_fail() {
    let (_, mut client) = pair();
    assert_eq!(client.housekeeping(PORT_HOP_INTERVAL), Upkeep::Nothing);
    assert_eq!(client.housekeeping(PORT_HOP_INTERVAL + 1), Upkeep::HopPort);
    client.set_last_roundtrip_success(PORT_HOP_INTERVAL);
    assert_eq!(client.housekeeping(PORT_HOP_INTERVAL + 1), Upkeep::Nothing);
}

#[test]
fn an_oversized_datagram_shrinks_the_mtu() {
    let (_, mut client) = pair();
    assert_eq!(client.mtu(), DEFAULT_IPV4_MTU);
    client.datagram_too_large();
    assert_eq!(client.mtu(), DEFAULT_SEND_MTU);
}

#[test]
fn a_bad_key_is_refused() {
    assert_eq!(
        Connection::new_client("short", false, 0).err(),
        Some(CryptoError::BadKeyLength)
    );
}

#[test]
fn a_replayed_datagram_is_out_of_order() {
    let (mut server, mut client) = pair();
    let wire = client.send(b"once".to_vec(), 0).unwrap().unwrap();
    assert!(matches!(
        server.recv(&wire, false, 0).result,
        Ok(Received::Payload(_))
    ));
    let again = server.recv(&wire, false, 0);
    assert!(!again.attach, "a replay moved the client's address");
    assert!(matches!(again.result, Ok(Received::OutOfOrder(_))));
    // And it is refused by the side that sent it.
    assert_eq!(
        client.recv(&wire, true, 0).result,
        Err(RecvError::WrongDirection)
    );
}

#[test]
fn a_damaged_datagram_is_undecryptable() {
    let (mut server, mut client) = pair();
    let mut wire = client.send(b"once".to_vec(), 0).unwrap().unwrap();
    wire[10] ^= 1;
    assert_eq!(
        server.recv(&wire, false, 0).result,
        Err(RecvError::Undecryptable)
    );
}
