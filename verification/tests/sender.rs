use mosh::complete::Complete;
use mosh::fragment::{Fragment, FragmentAssembly};
use mosh::sender::{
    chaff_len, Pace, StateError, SyncState, TransportSender, ACK_DELAY, ACK_INTERVAL,
    ACTIVE_RETRY_TIMEOUT, MAX_SENT_STATES, SEND_INTERVAL_MAX, SEND_INTERVAL_MIN, SHUTDOWN_RETRIES,
};
use mosh::user::UserStream;

/// A minimal state: a string that only ever grows.
#[derive(Debug, Clone, PartialEq, Eq, Default)]
struct TestState(Vec<u8>);

impl SyncState for TestState {
    fn snapshot(&self) -> Self {
        self.clone()
    }
    fn reset_input(&mut self) {}
    fn same_as(&self, other: &Self) -> bool {
        self == other
    }
    fn compare(&self, _other: &Self) -> bool {
        false
    }
    fn report(&self, _other: &Self) -> Vec<String> {
        Vec::new()
    }
    fn subtract(&mut self, _prefix: &Self) {}
    fn diff_from(&self, existing: &Self) -> Vec<u8> {
        self.0[existing.0.len().min(self.0.len())..].to_vec()
    }
    fn init_diff(&self) -> Vec<u8> {
        self.0.clone()
    }
    fn apply_string(&mut self, diff: &[u8]) -> Result<(), StateError> {
        self.0.extend_from_slice(diff);
        Ok(())
    }
}

/// A round trip of 100 milliseconds, and as much until a datagram counts as lost.
fn pace(now: u64) -> Pace {
    Pace { now, interval: 50, timeout: 100 }
}

fn sender() -> TransportSender<TestState> {
    TransportSender::new(TestState::default(), 0)
}

#[test]
fn the_send_interval_tracks_half_the_round_trip() {
    let s = sender();
    // A round trip of 100 milliseconds.
    assert_eq!(s.send_interval(50), 50);
    // Clamped at both ends so the frame rate stays sane.
    assert_eq!(s.send_interval(0), SEND_INTERVAL_MIN);
    assert_eq!(s.send_interval(5_000), SEND_INTERVAL_MAX);
}

#[test]
fn a_fresh_sender_holds_one_acknowledged_state() {
    let s = sender();
    assert_eq!(s.sent_state_acked(), 0);
    assert_eq!(s.sent_state_last(), 0);
}

#[test]
fn acknowledgement_drops_older_states_only() {
    let mut s = sender();
    for i in 1..=4u64 {
        s.add_sent_state(i * 10, i, TestState(vec![b'x'; i as usize]));
    }
    assert_eq!(s.sent_state_acked(), 0);

    s.process_acknowledgment_through(2);
    assert_eq!(s.sent_state_acked(), 2, "did not advance to the acked state");
    assert_eq!(s.sent_state_last(), 4, "dropped states newer than the ack");
}

#[test]
fn an_acknowledgement_of_a_culled_state_is_ignored() {
    let mut s = sender();
    s.add_sent_state(10, 1, TestState(b"a".to_vec()));
    s.process_acknowledgment_through(1);
    let before = s.sent_states().len();
    // State 0 is gone; acknowledging it again must not empty the queue.
    s.process_acknowledgment_through(0);
    assert_eq!(s.sent_states().len(), before);
    assert!(!s.sent_states().is_empty());
}

#[test]
fn the_state_queue_is_thinned_from_the_middle() {
    let mut s = sender();
    for i in 1..=40u64 {
        s.add_sent_state(i, i, TestState(vec![b'x'; i as usize]));
    }
    assert!(s.sent_states().len() <= MAX_SENT_STATES);
    // The acknowledged baseline and the newest state must both survive.
    assert_eq!(s.sent_state_acked(), 0);
    assert_eq!(s.sent_state_last(), 40);
}

#[test]
fn the_assumed_receiver_state_advances_only_for_recent_sends() {
    let mut s = sender();
    s.add_sent_state(100, 1, TestState(b"a".to_vec()));
    s.add_sent_state(200, 2, TestState(b"ab".to_vec()));

    // Both were sent recently enough that an ack could still be in flight.
    s.update_assumed_receiver_state(250, 500);
    assert_eq!(s.assumed_receiver_state(), 2);

    // Long enough ago that we should assume they were lost.
    s.update_assumed_receiver_state(10_000, 50);
    assert_eq!(s.assumed_receiver_state(), 0);
}

#[test]
fn a_prophylactic_resend_is_taken_when_it_costs_nothing() {
    let mut s = sender();
    *s.current_state_mut() = TestState(b"hello".to_vec());
    s.add_sent_state(10, 1, TestState(b"hel".to_vec()));
    s.update_assumed_receiver_state(10, 500);
    assert_eq!(s.assumed_receiver_state(), 1);

    // Diffing from the assumed state gives "lo"; from the acknowledged state,
    // "hello". That is longer, but under both thresholds, so it is worth the
    // certainty of diffing against a state the peer definitely holds.
    let mut diff = b"lo".to_vec();
    s.attempt_prospective_resend_optimization(&mut diff);
    assert_eq!(s.assumed_receiver_state(), 0);
    assert_eq!(diff, b"hello");
}

#[test]
fn a_prophylactic_resend_is_refused_when_far_too_large() {
    let mut s = sender();
    *s.current_state_mut() = TestState(vec![b'x'; 5000]);
    s.add_sent_state(10, 1, TestState(vec![b'x'; 4999]));
    s.update_assumed_receiver_state(10, 500);
    assert_eq!(s.assumed_receiver_state(), 1);

    let mut diff = b"x".to_vec();
    s.attempt_prospective_resend_optimization(&mut diff);
    // Resending 5000 bytes to save one is not worth it.
    assert_eq!(s.assumed_receiver_state(), 1);
    assert_eq!(diff, b"x");
}

#[test]
fn shutdown_times_out_after_enough_tries() {
    let mut s = sender();
    assert!(!s.shutdown_ack_timed_out(0));
    s.start_shutdown(0);
    assert!(!s.shutdown_ack_timed_out(0));

    s.shutdown.tries = SHUTDOWN_RETRIES;
    assert!(s.shutdown_ack_timed_out(0));
}

#[test]
fn shutdown_times_out_after_long_enough() {
    let mut s = sender();
    s.start_shutdown(1000);
    assert!(!s.shutdown_ack_timed_out(1000));
    assert!(s.shutdown_ack_timed_out(1000 + ACTIVE_RETRY_TIMEOUT));
}

#[test]
fn chaff_is_bounded_and_varies() {
    let s = sender();
    let mut lengths = std::collections::HashSet::new();
    for _ in 0..200 {
        let c = s.make_chaff().unwrap();
        assert!(c.len() <= 16, "chaff was {} bytes", c.len());
        lengths.insert(c.len());
    }
    // Constant-length padding would not disguise anything.
    assert!(lengths.len() > 1, "chaff length never varied");
}

#[test]
fn a_pending_data_ack_brings_the_ack_time_forward() {
    let mut s = sender();
    s.timing.next_ack_time = 100_000;
    s.set_data_ack();
    s.calculate_timers(pace(0));
    assert!(s.timing.next_ack_time <= ACK_DELAY);
}

#[test]
fn nothing_to_say_means_no_send_is_scheduled() {
    let mut s = sender();
    // Current state equals every sent state, so there is nothing to send.
    s.calculate_timers(pace(0));
    assert_eq!(s.timing.next_send_time, u64::MAX);
}

#[test]
fn a_changed_state_schedules_a_send() {
    let mut s = sender();
    *s.current_state_mut() = TestState(b"new".to_vec());
    s.calculate_timers(pace(1000));
    assert!(s.timing.next_send_time < u64::MAX, "a change did not schedule a send");
}

#[test]
fn a_tick_sends_the_diff_and_assumes_it_arrived() {
    let mut s = sender();
    s.timing.next_ack_time = 100_000;
    *s.current_state_mut() = TestState(b"hello".to_vec());
    // The change is noticed, but input is collected for a while.
    let t = s.tick(pace(1000), true, 500).unwrap();
    assert!(t.payloads.is_empty());
    let t = s.tick(pace(1008), true, 500).unwrap();
    assert_eq!(t.payloads.len(), 1);
    assert_eq!(t.round_trip, None);
    assert_eq!(s.sent_state_last(), 1);
    assert_eq!(s.sent_state_acked(), 0);
    assert_eq!(s.assumed_receiver_state(), 1);

    let mut assembly = FragmentAssembly::new();
    assert!(assembly.add_fragment(Fragment::from_bytes(&t.payloads[0]).unwrap()));
    let inst = assembly.get_assembly().unwrap();
    assert_eq!(inst.old_num, Some(0));
    assert_eq!(inst.new_num, Some(1));
    assert_eq!(inst.throwaway_num, Some(0));
    assert_eq!(inst.diff, Some(b"hello".to_vec()));
    assert!(inst.chaff.unwrap().len() <= 16);
}

#[test]
fn nothing_is_sent_without_anyone_to_send_to() {
    let mut s = sender();
    *s.current_state_mut() = TestState(b"hello".to_vec());
    s.tick(pace(1000), false, 500).unwrap();
    assert!(s.tick(pace(2000), false, 500).unwrap().payloads.is_empty());
    assert_eq!(s.wait_time(pace(2000), false), u64::MAX);
    assert_eq!(s.wait_time(pace(2000), true), 0);
}

#[test]
fn an_acknowledgement_without_a_diff_is_sent_now_and_then() {
    let mut s = sender();
    let t = s.tick(pace(0), true, 500).unwrap();
    assert_eq!(t.payloads.len(), 1);
    assert_eq!(s.sent_state_last(), 1);
    assert!(s.tick(pace(ACK_INTERVAL - 1), true, 500).unwrap().payloads.is_empty());
    assert_eq!(s.tick(pace(ACK_INTERVAL), true, 500).unwrap().payloads.len(), 1);
    assert_eq!(s.sent_state_last(), 2);
}

#[test]
fn shutting_down_is_told_by_the_largest_number() {
    let mut s = sender();
    s.start_shutdown(0);
    s.tick(pace(50), true, 500).unwrap();
    assert_eq!(s.sent_state_last(), u64::MAX);
    assert_eq!(s.shutdown.tries, 1);
    assert!(!s.shutdown_acknowledged());
    s.process_acknowledgment_through(u64::MAX);
    assert!(s.shutdown_acknowledged());
}

#[test]
fn a_verbose_sender_checks_its_diffs() {
    let mut s = sender();
    s.verbose = 1;
    s.timing.next_ack_time = 100_000;
    *s.current_state_mut() = TestState(b"hello".to_vec());
    s.tick(pace(1000), true, 500).unwrap();
    let t = s.tick(pace(1008), true, 500).unwrap();
    let check = t.round_trip.unwrap();
    assert!(!check.instruction_failed && !check.target_failed);
    assert!(check.report.is_empty());
    let check = s.verify_round_trip(b"something else");
    assert!(check.target_failed);
}

#[test]
fn diffs_are_checked_only_when_they_are_due_and_can_be_sent() {
    let mut s = sender();
    s.verbose = 1;
    s.timing.next_ack_time = 100_000;
    *s.current_state_mut() = TestState(b"hello".to_vec());
    assert_eq!(s.tick(pace(1000), true, 500).unwrap().round_trip, None);
    assert_eq!(s.tick(pace(1008), false, 500).unwrap().round_trip, None);
    assert!(s.tick(pace(1009), true, 500).unwrap().round_trip.is_some());
}

#[test]
fn padding_is_as_long_as_a_random_byte_says() {
    assert_eq!(chaff_len(0), 0);
    assert_eq!(chaff_len(16), 16);
    assert_eq!(chaff_len(17), 0);
    assert_eq!(chaff_len(255), 0);
}

#[test]
fn the_current_state_can_be_replaced() {
    let mut s = sender();
    s.set_current_state(TestState(b"new".to_vec()));
    assert_eq!(s.current_state(), &TestState(b"new".to_vec()));
    assert_eq!(s.sent_state_last(), 0);
}

#[test]
fn the_acknowledged_state_becomes_the_oldest() {
    let mut s = sender();
    for i in 1..=5u64 {
        s.add_sent_state(i, i, TestState(vec![b'x'; i as usize]));
    }
    s.process_acknowledgment_through(3);
    assert_eq!(s.sent_state_acked(), 3);
    assert_eq!(s.sent_state_last(), 5);
    assert_eq!(s.sent_states().len(), 3);
    // One that is gone drops nothing.
    s.process_acknowledgment_through(2);
    assert_eq!(s.sent_states().len(), 3);
}

#[test]
fn a_changed_screen_is_scheduled_and_sent_under_a_new_number() {
    let mut s = TransportSender::new(Complete::new(10, 3), 0);
    s.timing.next_ack_time = 100_000;
    s.current_state_mut().act(b"x");
    s.calculate_timers(pace(1000));
    assert_eq!(s.timing.mindelay_clock, Some(1000));
    assert_eq!(s.timing.next_send_time, 1008);
    let t = s.tick(pace(1008), true, 500).unwrap();
    assert_eq!(t.payloads.len(), 1);
    assert_eq!(s.sent_state_last(), 1);

    let mut assembly = FragmentAssembly::new();
    assert!(assembly.add_fragment(Fragment::from_bytes(&t.payloads[0]).unwrap()));
    let inst = assembly.get_assembly().unwrap();
    assert_eq!(inst.new_num, Some(1));
    assert!(!inst.diff.unwrap().is_empty());
}

#[test]
fn an_unchanged_screen_is_not_sent_again() {
    let mut s = TransportSender::new(Complete::new(10, 3), 0);
    s.timing.next_ack_time = 100_000;
    s.timing.last_heard = 1000;
    s.current_state_mut().act(b"x");
    s.tick(pace(1000), true, 500).unwrap();
    assert_eq!(s.tick(pace(1008), true, 500).unwrap().payloads.len(), 1);
    s.process_acknowledgment_through(1);
    s.timing.next_ack_time = 100_000;
    assert!(s.tick(pace(2000), true, 500).unwrap().payloads.is_empty());
    assert_eq!(s.timing.next_send_time, u64::MAX);
    assert_eq!(s.sent_state_last(), 1);
}

#[test]
fn unsent_keystrokes_are_scheduled() {
    let mut s = TransportSender::new(UserStream::new(), 0);
    s.calculate_timers(pace(1000));
    assert_eq!(s.timing.next_send_time, u64::MAX);
    s.current_state_mut().push_byte(b'x');
    s.calculate_timers(pace(1000));
    assert_eq!(s.timing.next_send_time, 1008);
}

#[test]
fn states_know_whether_they_are_the_same() {
    let mut a = UserStream::new();
    assert!(a.same_as(&UserStream::new()));
    a.push_byte(b'x');
    assert!(!a.same_as(&UserStream::new()));
    let mut b = Complete::new(10, 3);
    let copy = b.snapshot();
    assert!(b.same_as(&copy));
    b.act(b"x");
    assert!(!b.same_as(&copy));
}
