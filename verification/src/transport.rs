//! The transport: one endpoint's view of both states, and the rules for advancing them.
//!
//! This is where an instruction becomes idempotent. It names the state it moves from, so
//! a repeat is recognised and dropped here rather than being applied twice to a diff that
//! is only meaningful once.

use vstd::prelude::*;

use crate::connection::{Connection, ConnectionView, RecvError};
use crate::crypto::text_limit;
use crate::fragment::{fragment_in, AssemblyView, Fragment, FragmentAssembly};
use crate::packet::MOSH_PROTOCOL_VERSION;
use crate::protobufs::transport::{Instruction, InstructionView};
use crate::sender::{
    all_consistent, first_from, holds_num, later, tick_views, Acknowledgment, FailedTick, Pace,
    SenderView, SyncState, Tick, TimestampedState, Timing, TransportSender, SHUTDOWN_NUM,
};

verus! {

/// Largest number of received states held before refusing to grow further.
pub const MAX_RECEIVED_STATES: usize = 1024;

/// How long to refuse growth once the queue has filled, in milliseconds.
pub const QUENCH_INTERVAL: u64 = 15000;

#[derive(Debug, Clone, Copy, PartialEq, Eq, Structural)]
pub enum TransportError {
    ProtocolVersionMismatch,
    Recv(RecvError),
    Malformed,
}

impl TransportError {
    /// The message for a person.
    pub open spec fn message(self) -> Seq<char> {
        match self {
            TransportError::ProtocolVersionMismatch => "mosh protocol version mismatch"@,
            TransportError::Recv(e) => e.message(),
            TransportError::Malformed => "malformed instruction"@,
        }
    }

    /// The message for a person.
    pub fn text(&self) -> (s: &'static str)
        ensures
            s@ == self.message(),
    {
        match self {
            TransportError::ProtocolVersionMismatch => "mosh protocol version mismatch",
            TransportError::Recv(e) => e.text(),
            TransportError::Malformed => "malformed instruction",
        }
    }
}

/// A number that an instruction may leave out.
pub open spec fn number(n: Option<u64>) -> u64 {
    match n {
        Some(x) => x,
        None => 0,
    }
}

fn or_zero(n: Option<u64>) -> (r: u64)
    ensures
        r == number(n),
{
    match n {
        Some(x) => x,
        None => 0,
    }
}

/// The diff in an instruction.
pub open spec fn diff_in(inst: InstructionView) -> Seq<u8> {
    match inst.diff {
        Some(d) => d,
        None => Seq::empty(),
    }
}

/// Every state has a number of its own, and they are in order.
pub open spec fn strictly_ordered<R>(states: Seq<TimestampedState<R>>) -> bool {
    forall|i: int, j: int|
        0 <= i < j < states.len() ==> #[trigger] states[i].num < #[trigger] states[j].num
}

/// Where the states begin that are kept when the peer says which it will not refer to
/// again. The number is the peer's, so it may name a state newer than any there is; the
/// newest state always survives.
pub open spec fn kept_from<R>(states: Seq<TimestampedState<R>>, throwaway_num: u64) -> int {
    let i = first_from(states, throwaway_num, 0);
    if i < states.len() {
        i
    } else {
        states.len() - 1
    }
}

/// The first state with the given number.
pub open spec fn index_of<R>(states: Seq<TimestampedState<R>>, num: u64, i: int) -> int
    decreases states.len() - i,
{
    if i >= states.len() || states[i].num == num {
        i
    } else {
        index_of(states, num, i + 1)
    }
}

/// What one endpoint holds.
#[verifier::ext_equal]
#[verifier::reject_recursive_types(M)]
#[verifier::reject_recursive_types(R)]
pub struct TransportView<M, R> {
    pub connection: ConnectionView,
    pub sender: SenderView<M>,
    /// Every remote state that can still be diffed against, oldest first.
    pub received: Seq<TimestampedState<R>>,
    pub quench_timer: u64,
    /// The remote state that was handed out last.
    pub last: R,
    pub fragments: AssemblyView,
    pub verbose: u32,
}

impl<M: SyncState, R: SyncState> TransportView<M, R> {
    pub open spec fn valid(self) -> bool {
        &&& self.connection.valid()
        &&& self.sender.valid()
        &&& self.received.len() >= 1
        &&& strictly_ordered(self.received)
        &&& all_consistent(self.received)
        &&& self.last.consistent()
    }

    /// With an acknowledgement taken note of. It shows that there is end-to-end
    /// connectivity, which is what stops the client hopping ports needlessly.
    pub open spec fn acknowledged(self, ack_num: u64) -> TransportView<M, R> {
        let sender = self.sender.acknowledged(ack_num);
        TransportView {
            sender,
            connection: ConnectionView {
                last_roundtrip_success: sender.sent[0].timestamp,
                ..self.connection
            },
            ..self
        }
    }

    /// With the states discarded that the peer will not refer to again.
    pub open spec fn thrown_away(self, throwaway_num: u64) -> TransportView<M, R> {
        TransportView {
            received: self.received.skip(kept_from(self.received, throwaway_num)),
            ..self
        }
    }

    /// Is the queue so long that it must not grow?
    pub open spec fn full(self) -> bool {
        self.received.len() > MAX_RECEIVED_STATES
    }

    /// With growth refused for a while if the queue is full.
    pub open spec fn quenched(self, now: u64) -> TransportView<M, R> {
        if self.full() {
            TransportView { quench_timer: later(now, QUENCH_INTERVAL), ..self }
        } else {
            self
        }
    }

    /// With a received state put in its place.
    pub open spec fn received_inserted(self, s: TimestampedState<R>) -> TransportView<M, R> {
        TransportView {
            received: self.received.insert(first_from(self.received, later(s.num, 1), 0), s),
            ..self
        }
    }

    /// With the newest state to be acknowledged, and the peer heard.
    pub open spec fn heard(self, with_data: bool, now: u64) -> TransportView<M, R> {
        TransportView {
            sender: SenderView {
                ack: Acknowledgment {
                    num: self.received.last().num,
                    pending_data: self.sender.ack.pending_data || with_data,
                },
                timing: Timing { last_heard: now, ..self.sender.timing },
                ..self.sender
            },
            ..self
        }
    }

    /// Is `state` what an instruction makes of the state that it moves from?
    pub open spec fn reached(self, inst: InstructionView, state: R) -> bool {
        let reference = self.received[index_of(self.received, number(inst.old_num), 0)].state;
        let diff = diff_in(inst);
        if diff.len() == 0 {
            state.is_snapshot_of(&reference)
        } else {
            exists|copy: R|
                copy.is_snapshot_of(&reference) && #[trigger] R::applied(copy, diff, state)
        }
    }

    /// Does an instruction say something new about a state that there is?
    pub open spec fn is_news(self, inst: InstructionView) -> bool {
        !holds_num(self.received, number(inst.new_num)) && holds_num(
            self.received,
            number(inst.old_num),
        )
    }

    /// With everything done that an instruction asks for before its diff is looked at.
    pub open spec fn prepared(self, inst: InstructionView) -> TransportView<M, R> {
        self.acknowledged(number(inst.ack_num)).thrown_away(number(inst.throwaway_num))
    }

    /// Can an instruction lead to the given state and result?
    pub open spec fn instructed(
        self,
        inst: InstructionView,
        now: u64,
        after: TransportView<M, R>,
        r: Result<(), TransportError>,
    ) -> bool {
        let ready = self.prepared(inst);
        let diff = diff_in(inst);
        if inst.protocol_version != Some(MOSH_PROTOCOL_VERSION) {
            after == self && r == Err::<(), TransportError>(
                TransportError::ProtocolVersionMismatch,
            )
        } else if !self.is_news(inst) {
            // A repeat, or a diff against a state that is not there: it is dropped.
            after == self.acknowledged(number(inst.ack_num)) && r is Ok
        } else if ready.full() && now < self.quench_timer {
            after == ready && r is Ok
        } else if diff.len() > 0 && !R::readable(diff) {
            after == ready.quenched(now) && r == Err::<(), TransportError>(
                TransportError::Malformed,
            )
        } else {
            r is Ok && exists|state: R|
                #[trigger] self.reached(inst, state) && after == ready.quenched(
                    now,
                ).received_inserted(
                    TimestampedState { timestamp: now, num: number(inst.new_num), state },
                ).heard(diff.len() > 0, now)
        }
    }

    /// Can the payload of a datagram lead to the given state and result?
    pub open spec fn delivered(
        self,
        payload: Seq<u8>,
        now: u64,
        after: TransportView<M, R>,
        r: Result<(), TransportError>,
    ) -> bool {
        match fragment_in(payload) {
            Err(_) => after == self && r == Err::<(), TransportError>(TransportError::Malformed),
            Ok(f) => {
                let added = TransportView { fragments: self.fragments.added(f), ..self };
                if !added.fragments.complete() {
                    after == added && r is Ok
                } else {
                    match added.fragments.instruction() {
                        Err(_) => after == added && r == Err::<(), TransportError>(
                            TransportError::Malformed,
                        ),
                        Ok(inst) => (TransportView {
                            fragments: added.fragments.emptied(),
                            ..added
                        }).instructed(inst, now, after, r),
                    }
                }
            },
        }
    }
}

impl<M: SyncState, R: SyncState> TransportView<M, R> {
    /// Is `after` this transport with a prefix dropped from every received state?
    pub open spec fn received_trimmed(self, oldest: R, after: TransportView<M, R>) -> bool {
        &&& after.received.len() == self.received.len()
        &&& forall|i: int|
            0 <= i < after.received.len() ==> {
                let (a, b) = (self.received[i], #[trigger] after.received[i]);
                &&& b.timestamp == a.timestamp
                &&& b.num == a.num
                &&& R::subtracted(a.state, oldest, b.state)
            }
        &&& after == TransportView { received: after.received, last: after.last, ..self }
    }

    /// Can handing out what is new about the remote state lead to the given state and diff?
    pub open spec fn remote_handed_out(self, after: TransportView<M, R>, diff: Seq<u8>) -> bool {
        &&& self.received.last().state.is_diff(&self.last, diff)
        &&& after.last.is_snapshot_of(&after.received.last().state)
        &&& exists|oldest: R|
            oldest.is_snapshot_of(&self.received[0].state) && #[trigger] self.received_trimmed(
                oldest,
                after,
            )
    }
}

/// What became of a datagram that arrived.
pub struct Delivery {
    pub result: Result<(), TransportError>,
    /// The client is at the datagram's source address now.
    pub attach: bool,
    /// So many of the oldest sockets are to be closed.
    pub close_oldest: usize,
}

/// One endpoint of a session.
pub struct Transport<MyState: SyncState, RemoteState: SyncState> {
    pub connection: Connection,
    pub sender: TransportSender<MyState>,
    received_states: Vec<TimestampedState<RemoteState>>,
    receiver_quench_timer: u64,
    last_receiver_state: RemoteState,
    fragments: FragmentAssembly,
    pub verbose: u32,
}

impl<M: SyncState, R: SyncState> View for Transport<M, R> {
    type V = TransportView<M, R>;

    closed spec fn view(&self) -> TransportView<M, R> {
        TransportView {
            connection: self.connection@,
            sender: self.sender@,
            received: self.received_states@,
            quench_timer: self.receiver_quench_timer,
            last: self.last_receiver_state,
            fragments: self.fragments@,
            verbose: self.verbose,
        }
    }
}

impl<M: SyncState, R: SyncState> Transport<M, R> {
    /// The connection is well formed, and so is everything else.
    pub closed spec fn well_formed(&self) -> bool {
        self.connection.well_formed() && self@.valid()
    }

    pub fn new(connection: Connection, initial_state: M, initial_remote: R, now: u64) -> (t: Self)
        requires
            connection.well_formed(),
            initial_state.consistent(),
            initial_remote.consistent(),
        ensures
            t.well_formed(),
            t@.sender.sent.len() == 1,
            t@.sender.sent[0].state.is_snapshot_of(&initial_state),
            t@.received.len() == 1,
            t@.received[0].state.is_snapshot_of(&initial_remote),
            t@ == (TransportView {
                connection: connection@,
                sender: SenderView::initial(initial_state, t@.sender.sent[0].state, now),
                received: seq![
                    TimestampedState { timestamp: now, num: 0, state: t@.received[0].state },
                ],
                quench_timer: 0,
                last: initial_remote,
                fragments: AssemblyView::initial(),
                verbose: 0,
            }),
    {
        let mut received_states: Vec<TimestampedState<R>> = Vec::new();
        let state = initial_remote.snapshot();
        received_states.push(TimestampedState { timestamp: now, num: 0, state });
        let sender = TransportSender::new(initial_state, now);
        proof {
            connection.lemma_well_formed();
        }
        let t = Transport {
            connection,
            sender,
            received_states,
            receiver_quench_timer: 0,
            last_receiver_state: initial_remote,
            fragments: FragmentAssembly::new(),
            verbose: 0,
        };
        assert(t@.received =~= seq![
            TimestampedState { timestamp: now, num: 0, state: t@.received[0].state },
        ]);
        t
    }

    /// The remote states that can still be diffed against, oldest first.
    pub fn received_states(&self) -> (s: &[TimestampedState<R>])
        ensures
            s@ == self@.received,
    {
        self.received_states.as_slice()
    }

    pub fn remote_state_num(&self) -> (n: u64)
        requires
            self.well_formed(),
        ensures
            n == self@.received.last().num,
    {
        self.received_states[self.received_states.len() - 1].num
    }

    pub fn get_latest_remote_state(&self) -> (s: &R)
        requires
            self.well_formed(),
        ensures
            *s == self@.received.last().state,
    {
        &self.received_states[self.received_states.len() - 1].state
    }

    pub fn get_remote_state_timestamp(&self) -> (t: u64)
        requires
            self.well_formed(),
        ensures
            t == self@.received.last().timestamp,
    {
        self.received_states[self.received_states.len() - 1].timestamp
    }

    /// This side's state.
    pub fn current_state(&self) -> (s: &M)
        ensures
            *s == self@.sender.current,
    {
        self.sender.current_state()
    }

    /// This side's state, to be changed until the shutdown begins. It has to stay
    /// consistent.
    pub fn current_state_mut(&mut self) -> (s: &mut M)
        ensures
            *s == old(self)@.sender.current,
            final(self)@ == (TransportView {
                sender: SenderView { current: *final(s), ..old(self)@.sender },
                ..old(self)@
            }),
            old(self).well_formed() && final(s).consistent() ==> final(self).well_formed(),
    {
        self.sender.current_state_mut()
    }

    pub fn start_shutdown(&mut self, now: u64)
        ensures
            final(self)@ == (TransportView {
                sender: old(self)@.sender.shutdown_started(now),
                ..old(self)@
            }),
            old(self).well_formed() ==> final(self).well_formed(),
    {
        self.sender.start_shutdown(now);
    }

    pub fn set_send_delay(&mut self, d: u64)
        ensures
            final(self)@ == (TransportView {
                sender: SenderView {
                    timing: Timing { send_mindelay: d, ..old(self)@.sender.timing },
                    ..old(self)@.sender
                },
                ..old(self)@
            }),
            old(self).well_formed() ==> final(self).well_formed(),
    {
        self.sender.set_send_delay(d);
    }

    pub fn shutdown_in_progress(&self) -> (b: bool)
        ensures
            b == self@.sender.shutdown.in_progress,
    {
        self.sender.shutdown_in_progress()
    }

    pub fn shutdown_acknowledged(&self) -> (b: bool)
        requires
            self.well_formed(),
        ensures
            b == (self@.sender.sent[0].num == SHUTDOWN_NUM),
    {
        self.sender.shutdown_acknowledged()
    }

    pub fn counterparty_shutdown_acknowledged(&self) -> (b: bool)
        ensures
            b == (self@.sender.fragmenter.last_ack() == SHUTDOWN_NUM),
    {
        self.sender.counterparty_shutdown_acknowledged()
    }

    pub fn shutdown_ack_timed_out(&self, now: u64) -> (b: bool)
        ensures
            b == self@.sender.shutdown_timed_out(now),
    {
        self.sender.shutdown_ack_timed_out(now)
    }

    pub fn sent_state_acked(&self) -> (n: u64)
        requires
            self.well_formed(),
        ensures
            n == self@.sender.sent[0].num,
    {
        self.sender.sent_state_acked()
    }

    pub fn sent_state_last(&self) -> (n: u64)
        requires
            self.well_formed(),
        ensures
            n == self@.sender.sent.last().num,
    {
        self.sender.sent_state_last()
    }

    /// What is well formed is valid.
    pub proof fn lemma_well_formed(&self)
        requires
            self.well_formed(),
        ensures
            self@.valid(),
    {
    }

    /// Adopt the newest remote state as the reference, and return what is new about it.
    ///
    /// Every received state shares the oldest one as a prefix, and the caller has now
    /// consumed it. Dropping it from each is what keeps a long session's queue from
    /// holding everything the peer has ever sent, in as many copies as there are states.
    pub fn get_remote_diff(&mut self) -> (diff: Vec<u8>)
        requires
            old(self).well_formed(),
        ensures
            old(self)@.remote_handed_out(final(self)@, diff@),
            final(self).well_formed(),
    {
        let ghost before = self@;
        let last: usize = self.received_states.len() - 1;
        let diff = self.received_states[last].state.diff_from(&self.last_receiver_state);
        let oldest = self.received_states[0].state.snapshot();
        let mut i: usize = 0;
        while i < self.received_states.len()
            invariant
                before.valid(),
                self.connection.well_formed(),
                oldest.consistent(),
                i <= self@.received.len(),
                self@.received.len() == before.received.len(),
                self@ == (TransportView { received: self@.received, ..before }),
                forall|k: int|
                    0 <= k < i ==> {
                        let (a, b) = (before.received[k], #[trigger] self@.received[k]);
                        &&& b.timestamp == a.timestamp
                        &&& b.num == a.num
                        &&& b.state.consistent()
                        &&& R::subtracted(a.state, oldest, b.state)
                    },
                forall|k: int|
                    i <= k < before.received.len() ==> #[trigger] self@.received[k]
                        == before.received[k],
            decreases self@.received.len() - i,
        {
            self.received_states[i].state.subtract(&oldest);
            i = i + 1;
        }
        self.last_receiver_state = self.received_states[last].state.snapshot();
        assert(before.received_trimmed(oldest, self@));
        assert forall|a: int, b: int| 0 <= a < b < self@.received.len() implies #[trigger]
            self@.received[a].num < #[trigger] self@.received[b].num by {
            assert(before.received[a].num < before.received[b].num);
        }
        diff
    }

    /// Where the states with at least the given number begin.
    fn position(&self, num: u64) -> (i: usize)
        ensures
            i == first_from(self@.received, num, 0),
            i <= self@.received.len(),
            forall|k: int| 0 <= k < i ==> (#[trigger] self@.received[k]).num < num,
            i < self@.received.len() ==> self@.received[i as int].num >= num,
    {
        let ghost states = self@.received;
        let mut i: usize = 0;
        while i < self.received_states.len() && self.received_states[i].num < num
            invariant
                states == self@.received,
                i <= states.len(),
                first_from(states, num, 0) == first_from(states, num, i as int),
                forall|k: int| 0 <= k < i ==> (#[trigger] states[k]).num < num,
            decreases states.len() - i,
        {
            i = i + 1;
        }
        i
    }

    /// Which state has the given number, if there is one.
    fn find(&self, num: u64) -> (r: Option<usize>)
        requires
            self.well_formed(),
        ensures
            match r {
                Some(i) => i < self@.received.len() && self@.received[i as int].num == num && i
                    == index_of(self@.received, num, 0) && holds_num(self@.received, num),
                None => !holds_num(self@.received, num),
            },
    {
        let ghost states = self@.received;
        let mut i: usize = 0;
        while i < self.received_states.len()
            invariant
                states == self@.received,
                i <= states.len(),
                index_of(states, num, 0) == index_of(states, num, i as int),
                forall|k: int| 0 <= k < i ==> (#[trigger] states[k]).num != num,
            decreases states.len() - i,
        {
            if self.received_states[i].num == num {
                assert(states[i as int].num == num);
                return Some(i);
            }
            i = i + 1;
        }
        None
    }

    /// Discard remote states the peer says it will never refer to again.
    pub fn process_throwaway_until(&mut self, throwaway_num: u64)
        requires
            old(self).well_formed(),
        ensures
            final(self)@ == old(self)@.thrown_away(throwaway_num),
            final(self).well_formed(),
    {
        let ghost before = self@;
        let len = self.received_states.len();
        let i = self.position(throwaway_num);
        let keep_from: usize = if i < len {
            i
        } else {
            len - 1
        };
        let kept = self.received_states.split_off(keep_from);
        self.received_states = kept;
        assert(self@.received =~= before.received.skip(keep_from as int));
        assert forall|a: int, b: int| 0 <= a < b < self@.received.len() implies #[trigger]
            self@.received[a].num < #[trigger] self@.received[b].num by {
            assert(before.received[a + keep_from].num < before.received[b + keep_from].num);
        }
    }

    /// Take note of an acknowledgement.
    fn acknowledge(&mut self, ack_num: u64)
        requires
            old(self).well_formed(),
        ensures
            final(self)@ == old(self)@.acknowledged(ack_num),
            final(self).well_formed(),
    {
        self.sender.process_acknowledgment_through(ack_num);
        self.connection.set_last_roundtrip_success(self.sender.sent_state_acked_timestamp());
        proof {
            self.connection.lemma_well_formed();
        }
    }

    /// Put a received state in its place.
    fn insert_received(&mut self, s: TimestampedState<R>)
        requires
            old(self).well_formed(),
            !holds_num(old(self)@.received, s.num),
            s.state.consistent(),
        ensures
            final(self)@ == old(self)@.received_inserted(s),
            final(self).well_formed(),
            final(self)@.received.len() >= 1,
    {
        let ghost before = self@;
        let next: u64 = if s.num == u64::MAX {
            u64::MAX
        } else {
            s.num + 1
        };
        let pos = self.position(next);
        proof {
            if s.num == u64::MAX && pos < before.received.len() {
                assert(before.received[pos as int].num == s.num);
            }
        }
        let ghost num = s.num;
        self.received_states.insert(pos, s);
        assert forall|a: int, b: int| 0 <= a < b < self@.received.len() implies #[trigger]
            self@.received[a].num < #[trigger] self@.received[b].num by {
            let i = if a < pos {
                a
            } else {
                a - 1
            };
            let j = if b < pos {
                b
            } else {
                b - 1
            };
            if a != pos && b != pos {
                assert(before.received[i].num < before.received[j].num);
            } else if a == pos {
                assert(before.received[j].num > num) by {
                    assert(before.received[pos as int].num <= before.received[j].num);
                    assert(before.received[j].num >= next);
                    assert(before.received[j].num != num);
                }
            } else {
                assert(before.received[i].num < next);
                assert(before.received[i].num != num);
            }
        }
    }

    /// The rules that decide whether an instruction may advance the remote state.
    pub fn apply_instruction(&mut self, inst: &Instruction, now: u64) -> (r: Result<
        (),
        TransportError,
    >)
        requires
            old(self).well_formed(),
        ensures
            old(self)@.instructed(inst@, now, final(self)@, r),
            final(self).well_formed(),
    {
        let ghost before = self@;
        match inst.protocol_version {
            Some(v) => {
                if v != MOSH_PROTOCOL_VERSION {
                    return Err(TransportError::ProtocolVersionMismatch);
                }
            },
            None => {
                return Err(TransportError::ProtocolVersionMismatch);
            },
        }
        self.acknowledge(or_zero(inst.ack_num));
        let new_num = or_zero(inst.new_num);
        // Already have it? Then this is a repeat, and applying its diff again would
        // corrupt the state.
        if self.find(new_num).is_some() {
            return Ok(());
        }
        // Without the state that it moves from the diff is meaningless.
        let mut state = match self.find(or_zero(inst.old_num)) {
            Some(i) => self.received_states[i].state.snapshot(),
            None => {
                return Ok(());
            },
        };
        let ghost copy = state;
        self.process_throwaway_until(or_zero(inst.throwaway_num));
        let ghost ready = self@;
        assert(ready == before.prepared(inst@));
        // Refuse to grow without bound. Better than dropping from the middle as the sender
        // does, because a state that was acknowledged must not be discarded.
        if self.received_states.len() > MAX_RECEIVED_STATES {
            if now < self.receiver_quench_timer {
                return Ok(());
            }
            self.receiver_quench_timer = match now.checked_add(QUENCH_INTERVAL) {
                Some(t) => t,
                None => u64::MAX,
            };
        }
        let mut with_data = false;
        if let Some(diff) = &inst.diff {
            if diff.len() > 0 {
                if state.apply_string(diff.as_slice()).is_err() {
                    return Err(TransportError::Malformed);
                }
                assert(R::applied(copy, diff@, state));
                self.sender.set_data_ack();
                with_data = true;
            }
        }
        proof {
            assert(before.reached(inst@, state));
            lemma_still_new(before.received, number(inst@.throwaway_num), new_num);
        }
        self.insert_received(TimestampedState { timestamp: now, num: new_num, state });
        let newest = self.remote_state_num();
        self.sender.set_ack_num(newest);
        self.sender.remote_heard(now);
        assert(self@ == ready.quenched(now).received_inserted(
            TimestampedState { timestamp: now, num: new_num, state },
        ).heard(with_data, now));
        Ok(())
    }

    /// Account for the payload of a datagram.
    pub fn deliver(&mut self, payload: &[u8], now: u64) -> (r: Result<(), TransportError>)
        requires
            old(self).well_formed(),
        ensures
            old(self)@.delivered(payload@, now, final(self)@, r),
            final(self).well_formed(),
    {
        let frag = match Fragment::from_bytes(payload) {
            Ok(frag) => frag,
            Err(_) => {
                return Err(TransportError::Malformed);
            },
        };
        if !self.fragments.add_fragment(frag) {
            // More fragments are still to come.
            return Ok(());
        }
        let inst = match self.fragments.get_assembly() {
            Ok(inst) => inst,
            Err(_) => {
                return Err(TransportError::Malformed);
            },
        };
        self.apply_instruction(&inst, now)
    }

    /// Account for a datagram that arrived. `known_sender` is whether it came from the
    /// address that is being sent to.
    pub fn recv(&mut self, datagram: &[u8], known_sender: bool, now: u64) -> (d: Delivery)
        requires
            old(self).well_formed(),
            datagram@.len() < text_limit() + 24,
        ensures
            final(self).well_formed(),
            ({
                let before = old(self)@;
                let arrival = before.connection.arrival(datagram@, known_sender, now);
                let connected = TransportView {
                    connection: before.connection.after_datagram(datagram@, known_sender, now),
                    ..before
                };
                &&& d.attach == arrival.attach
                &&& d.close_oldest == arrival.close_oldest
                &&& match arrival.result {
                    Err(e) => final(self)@ == connected && d.result == Err::<(), TransportError>(
                        TransportError::Recv(e),
                    ),
                    Ok((_, payload)) => connected.delivered(
                        payload,
                        now,
                        final(self)@,
                        d.result,
                    ),
                }
            }),
    {
        let arrival = self.connection.recv(datagram, known_sender, now);
        proof {
            self.connection.lemma_well_formed();
        }
        let (attach, close_oldest) = (arrival.attach, arrival.close_oldest);
        let result = match arrival.result {
            Ok(received) => {
                let payload = received.into_payload();
                self.deliver(payload.as_slice(), now)
            },
            Err(e) => Err(TransportError::Recv(e)),
        };
        Delivery { result, attach, close_oldest }
    }

    /// The payloads of the datagrams that are due.
    pub fn tick(&mut self, p: Pace) -> (r: Result<Tick, FailedTick>)
        requires
            old(self).well_formed(),
        ensures
            old(self)@.sender.ticked(
                p,
                old(self)@.connection.attached,
                old(self)@.connection.mtu as nat,
                final(self)@.sender,
                tick_views(r),
            ),
            final(self)@ == (TransportView { sender: final(self)@.sender, ..old(self)@ }),
            final(self).well_formed(),
    {
        let attached = self.connection.has_remote_addr();
        let mtu = self.connection.mtu();
        self.sender.tick(p, attached, mtu)
    }

    /// Milliseconds until something needs doing.
    pub fn wait_time(&mut self, p: Pace) -> (ms: u64)
        requires
            old(self).well_formed(),
        ensures
            old(self)@.sender.timed(p, final(self)@.sender),
            final(self)@ == (TransportView { sender: final(self)@.sender, ..old(self)@ }),
            final(self).well_formed(),
            !old(self)@.connection.attached ==> ms == u64::MAX,
            old(self)@.connection.attached ==> ms == crate::connection::since(
                p.now,
                final(self)@.sender.timing.next_due(),
            ),
    {
        let attached = self.connection.has_remote_addr();
        self.sender.wait_time(p, attached)
    }
}

proof fn lemma_still_new<R>(states: Seq<TimestampedState<R>>, throwaway_num: u64, num: u64)
    requires
        states.len() >= 1,
        !holds_num(states, num),
    ensures
        !holds_num(states.skip(kept_from(states, throwaway_num)), num),
{
    lemma_first_from(states, throwaway_num, 0);
    let k = kept_from(states, throwaway_num);
    let kept = states.skip(k);
    assert forall|i: int| 0 <= i < kept.len() implies (#[trigger] kept[i]).num != num by {
        assert(kept[i] == states[i + k]);
    }
}

proof fn lemma_first_from<R>(states: Seq<TimestampedState<R>>, num: u64, i: int)
    requires
        0 <= i <= states.len(),
    ensures
        i <= first_from(states, num, i) <= states.len(),
    decreases states.len() - i,
{
    if i < states.len() && states[i].num < num {
        lemma_first_from(states, num, i + 1);
    }
}

/// An instruction that was applied is dropped when it arrives again, since its diff cannot
/// be applied twice. That is no error.
pub proof fn repeated_instructions_are_dropped<M: SyncState, R: SyncState>(
    t: TransportView<M, R>,
    inst: InstructionView,
    now: u64,
    after: TransportView<M, R>,
    r: Result<(), TransportError>,
)
    requires
        holds_num(t.received, number(inst.new_num)),
        t.instructed(inst, now, after, r),
    ensures
        after.received == t.received,
        after.last == t.last,
        inst.protocol_version == Some(MOSH_PROTOCOL_VERSION) ==> r is Ok,
{
}

/// An instruction that moves from a state that is not there is dropped. That is no error.
pub proof fn unknown_references_are_dropped<M: SyncState, R: SyncState>(
    t: TransportView<M, R>,
    inst: InstructionView,
    now: u64,
    after: TransportView<M, R>,
    r: Result<(), TransportError>,
)
    requires
        !holds_num(t.received, number(inst.old_num)),
        t.instructed(inst, now, after, r),
    ensures
        after.received == t.received,
        after.last == t.last,
        inst.protocol_version == Some(MOSH_PROTOCOL_VERSION) ==> r is Ok,
{
}

/// However an instruction is numbered, the newest state survives, unless a newer one takes
/// its place: there is always a state to diff the next instruction against.
pub proof fn the_newest_state_survives<M: SyncState, R: SyncState>(
    t: TransportView<M, R>,
    throwaway_num: u64,
)
    requires
        t.received.len() >= 1,
    ensures
        t.thrown_away(throwaway_num).received.len() >= 1,
        t.thrown_away(throwaway_num).received.last() == t.received.last(),
{
    lemma_first_from(t.received, throwaway_num, 0);
}

/// An instruction that says something new about a state that there is, and that is not held
/// back by a full queue, is taken in: there is one state of its number, which is what its
/// diff makes of the state it moves from. The newest state there is will be acknowledged.
pub proof fn new_instructions_are_taken_in<M: SyncState, R: SyncState>(
    t: TransportView<M, R>,
    inst: InstructionView,
    now: u64,
    after: TransportView<M, R>,
    r: Result<(), TransportError>,
)
    requires
        t.valid(),
        t.instructed(inst, now, after, r),
        inst.protocol_version == Some(MOSH_PROTOCOL_VERSION),
        t.is_news(inst),
        !(t.prepared(inst).full() && now < t.quench_timer),
        diff_in(inst).len() == 0 || R::readable(diff_in(inst)),
    ensures
        r is Ok,
        holds_num(after.received, number(inst.new_num)),
        forall|i: int|
            0 <= i < after.received.len() && (#[trigger] after.received[i]).num == number(
                inst.new_num,
            ) ==> t.reached(inst, after.received[i].state),
        after.sender.ack.num == after.received.last().num,
{
    let num = number(inst.new_num);
    lemma_first_from(t.received, number(inst.throwaway_num), 0);
    let kept = t.prepared(inst).received;
    lemma_first_from(kept, later(num, 1), 0);
    let state = choose|state: R|
        #[trigger] t.reached(inst, state) && after == t.prepared(inst).quenched(
            now,
        ).received_inserted(TimestampedState { timestamp: now, num, state }).heard(
            diff_in(inst).len() > 0,
            now,
        );
    let added = TimestampedState { timestamp: now, num, state };
    let at = first_from(kept, later(num, 1), 0);
    assert(after.received == kept.insert(at, added));
    assert(after.received[at] == added);
    let from = kept_from(t.received, number(inst.throwaway_num));
    assert forall|i: int| 0 <= i < after.received.len() && i != at implies (
    #[trigger] after.received[i]).num != num by {
        if i < at {
            assert(after.received[i] == t.received[i + from]);
        } else {
            assert(after.received[i] == t.received[i - 1 + from]);
        }
    }
}

/// A full queue of received states does not grow while growth is refused.
pub proof fn growth_is_refused_while_quenched<M: SyncState, R: SyncState>(
    t: TransportView<M, R>,
    inst: InstructionView,
    now: u64,
    after: TransportView<M, R>,
    r: Result<(), TransportError>,
)
    requires
        t.valid(),
        t.instructed(inst, now, after, r),
        t.received.len() > MAX_RECEIVED_STATES,
        now < t.quench_timer,
    ensures
        after.received.len() <= t.received.len(),
{
    lemma_first_from(t.received, number(inst.throwaway_num), 0);
    let ready = t.prepared(inst);
    lemma_first_from(ready.received, later(number(inst.new_num), 1), 0);
}

} // verus!
