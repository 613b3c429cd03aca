use mosh::connection::Connection;
use mosh::crypto::Base64Key;
use mosh::packet::MOSH_PROTOCOL_VERSION;
use mosh::protobufs::transport::Instruction;
use mosh::sender::{StateError, SyncState};
use mosh::transport::{Transport, TransportError};
use mosh::user::UserStream;

#[derive(Debug, Clone, PartialEq, Eq, Default)]
struct TestState(Vec<u8>);

impl SyncState for TestState {
    fn snapshot(&self) -> Self {
        self.clone()
    }
    fn reset_input(&mut self) {}
    fn same_as(&self, other: &Self) -> bool {
        self == other
    }
    fn compare(&self, _other: &Self) -> bool {
        false
    }
    fn report(&self, _other: &Self) -> Vec<String> {
        Vec::new()
    }
    fn subtract(&mut self, prefix: &Self) {
        if self.0.starts_with(&prefix.0) {
            self.0.drain(..prefix.0.len());
        }
    }
    fn diff_from(&self, existing: &Self) -> Vec<u8> {
        self.0[existing.0.len().min(self.0.len())..].to_vec()
    }
    fn init_diff(&self) -> Vec<u8> {
        self.0.clone()
    }
    fn apply_string(&mut self, diff: &[u8]) -> Result<(), StateError> {
        self.0.extend_from_slice(diff);
        Ok(())
    }
}

fn transport() -> Transport<TestState, TestState> {
    let conn = Connection::new_server(Base64Key::random().unwrap(), 0);
    Transport::new(conn, TestState::default(), TestState::default(), 0)
}

fn inst(old: u64, new: u64, diff: &[u8]) -> Instruction {
    Instruction {
        protocol_version: Some(MOSH_PROTOCOL_VERSION),
        old_num: Some(old),
        new_num: Some(new),
        ack_num: Some(0),
        throwaway_num: Some(0),
        diff: Some(diff.to_vec()),
        chaff: Some(Vec::new()),
    }
}

#[test]
fn a_wrong_protocol_version_is_refused() {
    let mut t = transport();
    let mut i = inst(0, 1, b"x");
    i.protocol_version = Some(MOSH_PROTOCOL_VERSION + 1);
    assert_eq!(
        t.apply_instruction(&i, 0),
        Err(TransportError::ProtocolVersionMismatch)
    );
}

#[test]
fn an_instruction_advances_the_remote_state() {
    let mut t = transport();
    t.apply_instruction(&inst(0, 1, b"hello"), 0).unwrap();
    assert_eq!(t.remote_state_num(), 1);
    assert_eq!(t.get_latest_remote_state().0, b"hello");
}

#[test]
fn a_repeated_instruction_is_dropped() {
    let mut t = transport();
    t.apply_instruction(&inst(0, 1, b"hello"), 0).unwrap();
    // The same instruction again. Its diff is only meaningful once, so applying it
    // twice would corrupt the state; the state number is what catches it.
    t.apply_instruction(&inst(0, 1, b"hello"), 0).unwrap();
    assert_eq!(t.get_latest_remote_state().0, b"hello");
    assert_eq!(t.remote_state_num(), 1);
}

#[test]
fn an_instruction_from_an_unknown_state_is_dropped() {
    let mut t = transport();
    // We never saw state 7, so a diff from it cannot be applied to anything.
    t.apply_instruction(&inst(7, 8, b"orphan"), 0).unwrap();
    assert_eq!(t.remote_state_num(), 0);
    assert!(t.get_latest_remote_state().0.is_empty());
}

#[test]
fn instructions_may_arrive_out_of_order() {
    let mut t = transport();
    t.apply_instruction(&inst(0, 1, b"a"), 0).unwrap();
    t.apply_instruction(&inst(1, 2, b"b"), 0).unwrap();
    assert_eq!(t.get_latest_remote_state().0, b"ab");

    // A late duplicate of an earlier one must not disturb the newest state.
    t.apply_instruction(&inst(0, 1, b"a"), 0).unwrap();
    assert_eq!(t.get_latest_remote_state().0, b"ab");
    assert_eq!(t.remote_state_num(), 2);
}

#[test]
fn throwaway_discards_states_the_peer_has_finished_with() {
    let mut t = transport();
    t.apply_instruction(&inst(0, 1, b"a"), 0).unwrap();
    t.apply_instruction(&inst(1, 2, b"b"), 0).unwrap();

    let mut i = inst(2, 3, b"c");
    i.throwaway_num = Some(2);
    t.apply_instruction(&i, 0).unwrap();

    // States below the throwaway number are gone, but a reference always remains.
    assert!(t.received_states().iter().all(|s| s.num >= 2));
    assert!(!t.received_states().is_empty());
}

#[test]
fn reading_the_remote_diff_stops_the_queue_growing_without_bound() {
    let mut t = transport();
    for i in 1..=200u64 {
        let mut m = inst(i - 1, i, b"typed");
        // The peer stops referring to states it has seen acknowledged.
        m.throwaway_num = Some(i - 1);
        t.apply_instruction(&m, 0).unwrap();
        assert_eq!(t.get_remote_diff(), b"typed");
    }
    // Each round's input is consumed as it arrives, so what the queue still holds
    // must not grow with the length of the session.
    let held: usize = t.received_states().iter().map(|s| s.state.0.len()).sum();
    assert!(held <= b"typed".len(), "the queue is holding {held} bytes");
}

#[test]
fn a_throwaway_past_everything_we_hold_is_survived() {
    let mut t = transport();
    // The number comes straight off the wire, so a peer can name a state newer than
    // any we have. Honouring it literally would empty the queue and leave nothing to
    // diff the next instruction against.
    let mut i = inst(0, 1, b"x");
    i.throwaway_num = Some(u64::MAX);
    t.apply_instruction(&i, 0).unwrap();
    assert!(!t.received_states().is_empty());
    assert_eq!(t.remote_state_num(), 1);
}

#[test]
fn an_empty_diff_still_advances_the_state_number() {
    let mut t = transport();
    // An empty diff is how an acknowledgement travels; it must be accepted.
    t.apply_instruction(&inst(0, 1, b""), 0).unwrap();
    assert_eq!(t.remote_state_num(), 1);
    assert!(t.get_latest_remote_state().0.is_empty());
}

#[test]
fn the_remote_diff_reports_only_what_is_new() {
    let mut t = transport();
    t.apply_instruction(&inst(0, 1, b"abc"), 0).unwrap();
    assert_eq!(t.get_remote_diff(), b"abc");
    // Asking again yields nothing; the reference has moved forward.
    assert!(t.get_remote_diff().is_empty());

    t.apply_instruction(&inst(1, 2, b"de"), 0).unwrap();
    assert_eq!(t.get_remote_diff(), b"de");
}

#[test]
fn a_diff_that_cannot_be_applied_is_malformed() {
    let conn = Connection::new_server(Base64Key::random().unwrap(), 0);
    let mut t = Transport::new(conn, UserStream::new(), UserStream::new(), 0);
    assert_eq!(
        t.apply_instruction(&inst(0, 1, &[0x0a, 0x7f]), 0),
        Err(TransportError::Malformed)
    );
    assert_eq!(t.remote_state_num(), 0);
}

#[test]
fn a_payload_that_is_no_fragment_is_malformed() {
    let mut t = transport();
    assert_eq!(t.deliver(&[0; 9], 0), Err(TransportError::Malformed));
    // Complete, but not compressed.
    assert_eq!(
        t.deliver(&[0, 0, 0, 0, 0, 0, 0, 1, 0x80, 0, 7], 0),
        Err(TransportError::Malformed)
    );
}

#[test]
fn a_full_queue_refuses_to_grow_for_a_while() {
    let mut t = transport();
    for i in 1..=1024u64 {
        t.apply_instruction(&inst(0, i, b""), 0).unwrap();
    }
    assert_eq!(t.received_states().len(), 1025);
    t.apply_instruction(&inst(0, 2000, b""), 10).unwrap();
    assert_eq!(t.received_states().len(), 1026);
    t.apply_instruction(&inst(0, 2001, b""), 11).unwrap();
    assert_eq!(t.received_states().len(), 1026, "grew while quenched");
    t.apply_instruction(&inst(0, 2001, b""), 10 + 15000).unwrap();
    assert_eq!(t.received_states().len(), 1027);
}

#[test]
fn an_instruction_is_applied_to_the_state_it_moves_from() {
    let mut t = transport();
    t.apply_instruction(&inst(0, 1, b"a"), 0).unwrap();
    t.apply_instruction(&inst(0, 2, b"bb"), 1).unwrap();
    t.apply_instruction(&inst(1, 3, b"c"), 2).unwrap();
    assert_eq!(t.remote_state_num(), 3);
    assert_eq!(t.get_latest_remote_state().0, b"ac");
}
